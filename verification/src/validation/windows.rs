//! How a validation run cuts a dataset: the in-sample / out-of-sample split
//! and the rolling walk-forward windows, all as index ranges.
use vstd::prelude::*;

verus! {

/// Why a dataset cannot be cut for validation.
#[derive(Clone, Copy, Debug, PartialEq, Eq, Structural)]
pub enum ValidationError {
    /// Fewer than four observations.
    InsufficientObservations,
    /// A regime window covers none of the data.
    RegimeOutsideData,
}

/// `raw` clamped to `[lo, hi]`.
pub open spec fn clamped(raw: int, lo: int, hi: int) -> int {
    if raw < lo {
        lo
    } else if raw > hi {
        hi
    } else {
        raw
    }
}

/// Where the out-of-sample part of a dataset of `len` observations begins,
/// given the split the in-sample ratio asks for: at least two observations
/// on each side. Fewer than four observations cannot be split.
pub fn split_index(len: usize, raw_split: usize) -> (result: Result<usize, ValidationError>)
    ensures
        match result {
            Ok(split) => len >= 4 && split == clamped(raw_split as int, 2, len - 2),
            Err(e) => len < 4 && e == ValidationError::InsufficientObservations,
        },
{
    if len < 4 {
        return Err(ValidationError::InsufficientObservations);
    }
    let hi = len - 2;
    if raw_split < 2 {
        Ok(2)
    } else if raw_split > hi {
        Ok(hi)
    } else {
        Ok(raw_split)
    }
}

/// Both sides of a split keep at least two observations and together cover
/// the dataset.
pub proof fn law_split_keeps_two_each_side(len: int, raw_split: int)
    requires
        len >= 4,
    ensures
        2 <= clamped(raw_split, 2, len - 2),
        len - clamped(raw_split, 2, len - 2) >= 2,
{
}

/// One walk-forward window: a training range followed directly by a test
/// range, as half-open index ranges.
#[derive(Clone, Copy, Debug, PartialEq, Eq, Structural)]
pub struct WalkForwardWindow {
    pub window_index: usize,
    pub train_start: usize,
    pub train_end: usize,
    pub test_start: usize,
    pub test_end: usize,
}

/// A configuration that yields no windows: training shorter than two, an
/// empty test or step, or a window longer than the data.
pub open spec fn walk_forward_degenerate(len: int, train: int, test: int, step: int) -> bool {
    train < 2 || test < 1 || step < 1 || train + test > len
}

/// Window `k` starts `k` steps into the data.
pub open spec fn window_at(k: int, train: int, test: int, step: int) -> WalkForwardWindow {
    WalkForwardWindow {
        window_index: k as usize,
        train_start: (k * step) as usize,
        train_end: (k * step + train) as usize,
        test_start: (k * step + train) as usize,
        test_end: (k * step + train + test) as usize,
    }
}

pub open spec fn window_fits(k: int, len: int, train: int, test: int, step: int) -> bool {
    k * step + train + test <= len
}

/// The most windows a run may produce; a limit of zero still lets the
/// first window through.
pub open spec fn window_cap(max_windows: Option<usize>) -> Option<int> {
    match max_windows {
        Some(m) => Some(if m == 0 {
            1
        } else {
            m as int
        }),
        None => None,
    }
}

/// The windows are exactly the first ones that fit in the data, up to the
/// cap.
pub open spec fn walk_forward_spec(
    windows: Seq<WalkForwardWindow>,
    len: int,
    train: int,
    test: int,
    step: int,
    max_windows: Option<usize>,
) -> bool {
    if walk_forward_degenerate(len, train, test, step) {
        windows.len() == 0
    } else {
        &&& forall|k: int|
            0 <= k < windows.len() ==> #[trigger] windows[k] == window_at(k, train, test, step)
                && window_fits(k, len, train, test, step)
        &&& match window_cap(max_windows) {
            Some(cap) => windows.len() <= cap && (windows.len() < cap ==> !window_fits(
                windows.len() as int,
                len,
                train,
                test,
                step,
            )),
            None => !window_fits(windows.len() as int, len, train, test, step),
        }
    }
}

/// Roll training and test windows over a dataset of `len` observations:
/// window `k` trains on `[k*step, k*step + train)` and tests on the `test`
/// observations after that, for as long as windows fit and the limit is
/// not reached.
pub fn walk_forward_windows(
    len: usize,
    train_len: usize,
    test_len: usize,
    step_len: usize,
    max_windows: Option<usize>,
) -> (windows: Vec<WalkForwardWindow>)
    ensures
        walk_forward_spec(
            windows@,
            len as int,
            train_len as int,
            test_len as int,
            step_len as int,
            max_windows,
        ),
{
    let mut windows: Vec<WalkForwardWindow> = Vec::new();
    if train_len < 2 || test_len < 1 || step_len < 1 || train_len > len || test_len > len
        - train_len {
        return windows;
    }
    let room = len - train_len - test_len;
    let ghost train = train_len as int;
    let ghost test = test_len as int;
    let ghost step = step_len as int;
    let mut start: usize = 0;
    let mut index: usize = 0;
    loop
        invariant_except_break
            start <= room,
            start == index * step,
            index <= start,
            match window_cap(max_windows) {
                Some(cap) => index < cap,
                None => true,
            },
        invariant
            room == len - train - test,
            train == train_len,
            test == test_len,
            step == step_len,
            !walk_forward_degenerate(len as int, train, test, step),
            windows@.len() == index,
            forall|k: int| 0 <= k < index ==> #[trigger] windows@[k] == window_at(k, train, test, step),
            forall|k: int| 0 <= k < index ==> #[trigger] window_fits(k, len as int, train, test, step),
        ensures
            walk_forward_spec(windows@, len as int, train, test, step, max_windows),
        decreases room - start + 1,
    {
        let window = WalkForwardWindow {
            window_index: index,
            train_start: start,
            train_end: start + train_len,
            test_start: start + train_len,
            test_end: start + train_len + test_len,
        };
        let ghost old_windows = windows@;
        windows.push(window);
        index = index + 1;
        proof {
            assert(window_fits(index - 1, len as int, train, test, step));
            assert forall|k: int| 0 <= k < index implies #[trigger] windows@[k] == window_at(k, train, test, step) by {
                if k < index - 1 {
                    assert(windows@[k] == old_windows[k]);
                }
            }
            assert forall|k: int| 0 <= k < index implies #[trigger] window_fits(k, len as int, train, test, step) by {
                if k < index - 1 {
                    assert(window_fits(k, len as int, train, test, step));
                }
            }
            assert(index * step == start + step) by (nonlinear_arith)
                requires
                    start == (index - 1) * step,
            ;
        }
        let done = match max_windows {
            Some(m) => index >= m,
            None => false,
        };
        if done {
            break;
        }
        if step_len > room - start {
            assert(!window_fits(index as int, len as int, train, test, step));
            break;
        }
        start = start + step_len;
    }
    windows
}

} // verus!
