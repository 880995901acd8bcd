//! Time-window selection for regime reports and for the signals that go
//! with a slice of data.
use vstd::prelude::*;

use crate::adapters::provider::{in_range, indices_in_range};
use crate::validation::windows::ValidationError;

verus! {

/// Indices of the times within `[start, end]`, in order.
pub fn indices_within(times: &[i64], start: i64, end: i64) -> (kept: Vec<usize>)
    ensures
        kept@ == indices_in_range(times@, Some(start), Some(end)),
{
    let n = times.len();
    let mut kept: Vec<usize> = Vec::new();
    let mut j: usize = 0;
    while j < n
        invariant
            n == times@.len(),
            j <= n,
            kept@ == indices_in_range(times@.subrange(0, j as int), Some(start), Some(end)),
        decreases n - j,
    {
        assert(times@.subrange(0, j as int + 1).drop_last() =~= times@.subrange(0, j as int));
        if times[j] >= start && times[j] <= end {
            kept.push(j);
        }
        j = j + 1;
    }
    assert(times@.subrange(0, n as int) =~= times@);
    kept
}

/// The data of one regime window: the indices of the entries within
/// `[start, end]`; a window that covers no data is an error.
pub fn regime_selection(times: &[i64], start: i64, end: i64) -> (result: Result<
    Vec<usize>,
    ValidationError,
>)
    ensures
        match result {
            Ok(kept) => kept@ == indices_in_range(times@, Some(start), Some(end)) && kept@.len()
                > 0,
            Err(e) => e == ValidationError::RegimeOutsideData && indices_in_range(
                times@,
                Some(start),
                Some(end),
            ).len() == 0,
        },
{
    let kept = indices_within(times, start, end);
    if kept.len() == 0 {
        Err(ValidationError::RegimeOutsideData)
    } else {
        Ok(kept)
    }
}

} // verus!
