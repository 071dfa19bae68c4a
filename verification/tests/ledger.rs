use webcortex::json::{Json, Number};
use webcortex::ledger::{has_price, Ledger, Totals};
use webcortex::manifest::Price;
use webcortex::table::Table;

fn price(input: u64, output: u64) -> Price {
    Price {
        input_per_mtok: Number::Unsigned(input),
        output_per_mtok: Number::Unsigned(output),
        cache_read_per_mtok: Number::Unsigned(0),
        cache_write_per_mtok: Number::Unsigned(0),
    }
}

#[test]
fn charges_accumulate_by_key() {
    let mut l = Ledger::new(0);
    l.charge("agent", "a", "m", 10, 5, 0, 0);
    l.charge("agent", "a", "m", 10, 5, 3, 0);
    l.charge("behaviour", "b", "m2", 1, 1, 0, 0);
    let snap = l.snapshot(&Table::new(), 0, &Json::Null);
    assert_eq!(snap.get("totals").unwrap().get_u64("calls"), Some(3));
    assert_eq!(snap.get("totals").unwrap().get_u64("input_tokens"), Some(21));
    let by_caller = snap.get("by_caller").unwrap().get("agent:a").unwrap();
    assert_eq!(by_caller.get_u64("cache_read_tokens"), Some(3));
    assert!(snap.get("estimated_cost_usd").unwrap().is_null(), "unpriced must not be reported as free");
    assert_eq!(snap.get_array("unpriced_models").unwrap().len(), 2);
}

#[test]
fn a_cost_is_reported_when_every_model_is_priced_and_never_else() {
    let mut l = Ledger::new(0);
    l.charge("agent", "a", "m", 1_000_000, 1_000_000, 0, 0);
    let mut pricing = Table::new();
    pricing.insert("m", price(1, 5));
    let cost = Json::num(6);
    assert_eq!(l.snapshot(&pricing, 0, &cost).get_u64("estimated_cost_usd"), Some(6));
    l.charge("agent", "a", "other", 1, 1, 0, 0);
    assert!(l.snapshot(&pricing, 0, &cost).get("estimated_cost_usd").unwrap().is_null());
    assert!(has_price(&pricing, "m") && !has_price(&pricing, "other"));
}

#[test]
fn totals_saturate() {
    let mut t = Totals::default();
    t.add(u64::MAX, 1, 0, 0);
    t.add(1, 1, 0, 0);
    assert_eq!(t.input_tokens, u64::MAX);
    assert_eq!(t.calls, 2);
    assert_eq!(t.total_tokens(), u64::MAX);
}

#[test]
fn runs_are_counted_apart_from_calls() {
    let mut l = Ledger::new(7);
    l.count_run();
    assert_eq!(l.run_total(), 1);
    assert_eq!(l.started(), 7);
    assert_eq!(l.len(), 0);
    l.charge("flow", "f", "m", 1, 0, 0, 0);
    let (key, totals) = l.entry(0);
    assert_eq!((key.kind.as_str(), key.name.as_str(), key.model.as_str()), ("flow", "f", "m"));
    assert_eq!(totals.calls, 1);
}
