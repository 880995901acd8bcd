//! Consistency report of a replay: named checks recorded in order, and the
//! first one that failed.
use vstd::prelude::*;

use crate::domain::types::{ConsistencyCheckResult, ConsistencyReport};

verus! {

/// Record one consistency check at the end of the report.
pub fn push_check(report: &mut ConsistencyReport, name: &str, passed: bool, detail: String)
    ensures
        final(report).checks@.len() == old(report).checks@.len() + 1,
        final(report).checks@.subrange(0, old(report).checks@.len() as int) == old(report).checks@,
        final(report).checks@.last().name@ == name@,
        final(report).checks@.last().passed == passed,
        final(report).checks@.last().detail@ == detail@,
{
    report.checks.push(ConsistencyCheckResult { name: name.to_owned(), passed, detail });
    assert(report.checks@.subrange(0, old(report).checks@.len() as int) =~= old(report).checks@);
}

/// Position of the first check that failed, if any.
pub fn first_failed_check(report: &ConsistencyReport) -> (failed: Option<usize>)
    ensures
        match failed {
            Some(i) => i < report.checks@.len() && !report.checks@[i as int].passed && forall|k: int|
                0 <= k < i ==> (#[trigger] report.checks@[k]).passed,
            None => forall|k: int| 0 <= k < report.checks@.len() ==> (#[trigger] report.checks@[k]).passed,
        },
{
    let n = report.checks.len();
    let mut i: usize = 0;
    while i < n
        invariant
            n == report.checks@.len(),
            i <= n,
            forall|k: int| 0 <= k < i ==> (#[trigger] report.checks@[k]).passed,
        decreases n - i,
    {
        if !report.checks[i].passed {
            return Some(i);
        }
        i = i + 1;
    }
    None
}

} // verus!
