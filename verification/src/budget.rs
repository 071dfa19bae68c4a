//! A token ceiling shared by every model-backed thing in one request tree.

use crate::manifest::{AgentDef, BehaviourDef, FlowDef};
use crate::text::{cat2, cat7, debug_quoted, decimal, decimal_text, quoted};
use vstd::prelude::*;

verus! {

/// A token ceiling that travels with a request: only the outermost agent,
/// behaviour or flow creates one, and every nested run charges the same one, so
/// that spend in any branch reduces what is left for all the others.
#[derive(Debug)]
pub struct SharedBudget {
    pub label: String,
    pub max_tokens: Option<u64>,
    /// The tokens recorded so far.
    pub spent: u64,
}

/// The sum of two counts, stopped at the largest that fits.
pub open spec fn saturating(a: u64, b: u64) -> u64 {
    if a + b > u64::MAX {
        u64::MAX
    } else {
        (a + b) as u64
    }
}

/// Whether a count has reached its ceiling.
pub open spec fn reached(max: Option<u64>, used: u64) -> bool {
    max matches Some(m) && used >= m
}

/// Whether a count has passed its ceiling.
pub open spec fn passed(max: Option<u64>, used: u64) -> bool {
    max matches Some(m) && used > m
}

/// What is said of a budget that is passed.
pub open spec fn overspent_text(label: Seq<char>, max: u64, total: u64) -> Seq<char> {
    "the request tree rooted at "@ + debug_quoted(label) + " exhausted its shared token budget of "@ + decimal(
        max as nat,
    ) + " ("@ + decimal(total as nat) + " spent)"@
}

impl SharedBudget {
    pub fn new(label: &str, max_tokens: Option<u64>) -> (r: SharedBudget)
        ensures
            r.label@ == label@,
            r.max_tokens == max_tokens,
            r.spent == 0,
    {
        SharedBudget { label: label.to_owned(), max_tokens, spent: 0 }
    }

    /// The budget of a request tree whose root is an agent.
    pub fn for_agent(def: &AgentDef) -> (r: SharedBudget)
        ensures
            r.label@ == "agent:"@ + def.name@,
            r.max_tokens == def.token_budget,
            r.spent == 0,
    {
        SharedBudget { label: cat2("agent:", def.name.as_str()), max_tokens: def.token_budget, spent: 0 }
    }

    /// The budget of a request tree whose root is a behaviour.
    pub fn for_behaviour(def: &BehaviourDef) -> (r: SharedBudget)
        ensures
            r.label@ == "behaviour:"@ + def.name@,
            r.max_tokens == def.token_budget,
            r.spent == 0,
    {
        SharedBudget { label: cat2("behaviour:", def.name.as_str()), max_tokens: def.token_budget, spent: 0 }
    }

    /// The budget of a request tree whose root is a flow.
    pub fn for_flow(def: &FlowDef) -> (r: SharedBudget)
        ensures
            r.label@ == "flow:"@ + def.name@,
            r.max_tokens == def.token_budget,
            r.spent == 0,
    {
        SharedBudget { label: cat2("flow:", def.name.as_str()), max_tokens: def.token_budget, spent: 0 }
    }

    /// Record spend. Returns `Err` once the ceiling is passed; the tokens are
    /// still counted, because they were still spent. The counter saturates:
    /// token counts are whatever an upstream says, and a counter that wrapped
    /// would reopen a budget that was already exhausted.
    pub fn charge(&mut self, tokens: u64) -> (r: Result<(), String>)
        ensures
            final(self).label == old(self).label,
            final(self).max_tokens == old(self).max_tokens,
            final(self).spent == saturating(old(self).spent, tokens),
            match r {
                Ok(_) => !passed(final(self).max_tokens, final(self).spent),
                Err(e) => passed(final(self).max_tokens, final(self).spent) && e@ == overspent_text(
                    final(self).label@,
                    final(self).max_tokens->0,
                    final(self).spent,
                ),
            },
    {
        let total: u64 = self.spent.saturating_add(tokens);
        self.spent = total;
        match self.max_tokens {
            Some(max) => if total > max {
                Err(
                    cat7(
                        "the request tree rooted at ",
                        quoted(self.label.as_str()).as_str(),
                        " exhausted its shared token budget of ",
                        decimal_text(max).as_str(),
                        " (",
                        decimal_text(total).as_str(),
                        " spent)",
                    ),
                )
            } else {
                Ok(())
            },
            None => Ok(()),
        }
    }

    /// Whether nothing is left.
    pub fn exhausted(&self) -> (r: bool)
        ensures
            r == reached(self.max_tokens, self.spent),
    {
        match self.max_tokens {
            Some(max) => self.spent >= max,
            None => false,
        }
    }

    /// The tokens recorded so far.
    pub fn used(&self) -> (r: u64)
        ensures
            r == self.spent,
    {
        self.spent
    }
}

/// A counter never goes back, so a budget that is exhausted stays so whatever is
/// charged to it.
pub proof fn law_an_exhausted_budget_stays_exhausted(max: Option<u64>, used: u64, tokens: u64)
    requires
        reached(max, used),
    ensures
        saturating(used, tokens) >= used,
        reached(max, saturating(used, tokens)),
{
}

/// The order in which branches of a tree are charged does not matter.
pub proof fn law_charges_commute(used: u64, a: u64, b: u64)
    ensures
        saturating(saturating(used, a), b) == saturating(saturating(used, b), a),
        saturating(saturating(used, a), b) == saturating(used, saturating(a, b)),
{
}

/// What is charged is added, and is never lost: a sum that fits is the sum, and one that does
/// not is the largest count.
pub proof fn law_what_is_charged_is_added(a: u64, b: u64)
    ensures
        a + b <= u64::MAX ==> saturating(a, b) == a + b,
        saturating(a, b) >= a && saturating(a, b) >= b,
        a + b > u64::MAX ==> saturating(a, b) == u64::MAX,
{
}

/// A ceiling is reached where as much is used, and passed where more is; without one there
/// is neither.
pub proof fn law_a_ceiling_is_reached_before_it_is_passed(max: u64, used: u64)
    ensures
        reached(Some(max), used) <==> used >= max,
        passed(Some(max), used) <==> used > max,
        !reached(None, used) && !passed(None, used),
{
}

} // verus!
