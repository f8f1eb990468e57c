//! Run control shared by the runners: the consecutive-failure budget.
//!
//! The cancellation and pause flags are plain booleans observed at the
//! top of every runner iteration; they live with the host runtime and
//! reach the runners as observations. What is modeled here is the
//! failure discipline: adjacent injection failures are counted, a
//! success resets the count, and at [`FAILURE_LIMIT`] the owning runner
//! or timer stops with a fatal error.

use vstd::prelude::*;

verus! {

/// How many adjacent injection failures a runner or timer survives.
pub const FAILURE_LIMIT: u32 = 5;

/// The count of adjacent injection failures since the last success.
#[derive(Debug, Clone, Copy, PartialEq, Eq, Structural)]
pub struct FailureBudget {
    pub count: u32,
}

/// A budget a runner may keep stepping with.
pub open spec fn budget_ok(b: FailureBudget) -> bool {
    b.count < FAILURE_LIMIT
}

/// The count after recording one outcome: a success resets it, a
/// failure raises it by one.
pub open spec fn budget_next(count: u32, ok: bool) -> u32
    recommends
        count < FAILURE_LIMIT,
{
    if ok {
        0
    } else {
        (count + 1) as u32
    }
}

/// The count after a whole sequence of outcomes, ignoring the limit.
pub open spec fn budget_after(count: u32, outcomes: Seq<bool>) -> u32
    decreases outcomes.len(),
{
    if outcomes.len() == 0 {
        count
    } else {
        budget_after(budget_next(count, outcomes[0]), outcomes.drop_first())
    }
}

impl FailureBudget {
    pub fn new() -> (r: FailureBudget)
        ensures
            r.count == 0,
    {
        FailureBudget { count: 0 }
    }

    /// Records one send outcome and reports whether the budget is now
    /// exhausted. A success resets the count; the fifth adjacent
    /// failure exhausts the budget.
    pub fn record(&mut self, ok: bool) -> (fatal: bool)
        requires
            budget_ok(*old(self)),
        ensures
            final(self).count == budget_next(old(self).count, ok),
            fatal <==> final(self).count >= FAILURE_LIMIT,
            ok ==> !fatal,
    {
        if ok {
            self.count = 0;
            false
        } else {
            self.count = self.count + 1;
            self.count >= FAILURE_LIMIT
        }
    }
}

/// Unbroken failure runs add up: `k` failures in a row raise the count
/// by exactly `k`. In particular, five adjacent failures starting from a
/// fresh budget reach the limit — and no earlier.
pub proof fn lemma_budget_all_failures(count: u32, outcomes: Seq<bool>)
    requires
        forall|i: int| 0 <= i < outcomes.len() ==> !outcomes[i],
        count + outcomes.len() <= u32::MAX,
    ensures
        budget_after(count, outcomes) == count + outcomes.len(),
    decreases outcomes.len(),
{
    if outcomes.len() > 0 {
        lemma_budget_all_failures((count + 1) as u32, outcomes.drop_first());
    }
}

/// A success anywhere wipes the budget: after a sequence of outcomes
/// whose last entry is a success, the count is zero, whatever failures
/// came before.
pub proof fn lemma_budget_success_resets(count: u32, outcomes: Seq<bool>)
    requires
        outcomes.len() > 0,
        outcomes[outcomes.len() - 1],
    ensures
        budget_after(count, outcomes) == 0,
    decreases outcomes.len(),
{
    if outcomes.len() == 1 {
        assert(outcomes[0]);
        assert(budget_after(count, outcomes) == budget_after(0, outcomes.drop_first()));
        assert(outcomes.drop_first().len() == 0);
    } else {
        let rest = outcomes.drop_first();
        assert(rest[rest.len() - 1] == outcomes[outcomes.len() - 1]);
        if outcomes[0] {
            lemma_budget_success_resets(0, rest);
        } else {
            lemma_budget_success_resets((count + 1) as u32, rest);
        }
    }
}

} // verus!
