//! Promotion gates: named checks and the verdict they add up to.
use vstd::prelude::*;

verus! {

/// One named promotion check.
#[derive(Clone, Debug)]
pub struct GateCheck {
    pub name: String,
    pub passed: bool,
    pub detail: String,
}

/// Whether a candidate may be promoted, with the checks behind it.
#[derive(Clone, Debug)]
pub struct PromotionVerdict {
    pub promotable: bool,
    pub checks: Vec<GateCheck>,
}

pub open spec fn all_gates_pass(checks: Seq<GateCheck>) -> bool {
    forall|i: int| 0 <= i < checks.len() ==> (#[trigger] checks[i]).passed
}

impl PromotionVerdict {
    /// A candidate is promotable exactly when every check passed.
    pub fn from_checks(checks: Vec<GateCheck>) -> (verdict: PromotionVerdict)
        ensures
            verdict.checks@ == checks@,
            verdict.promotable == all_gates_pass(checks@),
    {
        let n = checks.len();
        let mut all = true;
        let mut i: usize = 0;
        while i < n
            invariant
                n == checks@.len(),
                i <= n,
                all == (forall|k: int| 0 <= k < i ==> (#[trigger] checks@[k]).passed),
            decreases n - i,
        {
            if !checks[i].passed {
                all = false;
            }
            i = i + 1;
        }
        PromotionVerdict { promotable: all, checks }
    }
}

} // verus!
