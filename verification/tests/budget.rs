use webcortex::budget::SharedBudget;

#[test]
fn a_shared_budget_saturates_rather_than_wrapping() {
    // A wrapped counter would read as nearly unspent and reopen the budget.
    let mut budget = SharedBudget::new("t", Some(1_000));
    assert!(budget.charge(u64::MAX).is_err());
    assert!(budget.charge(u64::MAX).is_err());
    assert_eq!(budget.used(), u64::MAX);
    assert!(budget.exhausted());
}
