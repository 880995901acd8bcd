//! Strategy decisions: the moving-average crossover rule and signal streams
//! keyed by time.
use vstd::prelude::*;

use crate::domain::config::StrategyDefinition;
use crate::domain::types::{PositionState, SignalAction};

verus! {

/// How the fast average compares with the slow one at a candle.
#[derive(Clone, Copy, Debug, PartialEq, Eq, Structural)]
pub struct AverageComparison {
    pub fast_above: bool,
    pub fast_below: bool,
    /// The two averages are within machine epsilon of each other.
    pub level: bool,
}

/// The crossover rule: go long when the fast average is above the slow one
/// (unless already long), short when below (unless already short), and
/// flatten a position when the averages are level.
pub open spec fn crossover_action(comparison: AverageComparison, position: PositionState) -> Option<
    SignalAction,
> {
    if comparison.fast_above && position != PositionState::Long {
        Some(SignalAction::GoLong)
    } else if comparison.fast_below && position != PositionState::Short {
        Some(SignalAction::GoShort)
    } else if comparison.level && position != PositionState::Flat {
        Some(SignalAction::ExitToFlat)
    } else {
        None
    }
}

/// The crossover rule answers the averages: above opens (or turns to) a
/// long unless already long, below a short unless already short, level
/// flattens an open position; it never asks for the position it holds, and
/// stays silent only when no rule applies.
pub proof fn law_crossover_follows_the_averages(comparison: AverageComparison, position: PositionState)
    ensures
        ({
            let action = crossover_action(comparison, position);
            &&& comparison.fast_above && position != PositionState::Long ==> action == Some(
                SignalAction::GoLong,
            )
            &&& comparison.fast_below && !comparison.fast_above && position != PositionState::Short
                ==> action == Some(SignalAction::GoShort)
            &&& comparison.level && !comparison.fast_above && !comparison.fast_below && position
                != PositionState::Flat ==> action == Some(SignalAction::ExitToFlat)
            &&& action == Some(SignalAction::GoLong) ==> comparison.fast_above && position
                != PositionState::Long
            &&& action == Some(SignalAction::GoShort) ==> comparison.fast_below && position
                != PositionState::Short
            &&& action == Some(SignalAction::ExitToFlat) ==> comparison.level && position
                != PositionState::Flat
            &&& action is None ==> !(comparison.fast_above && position != PositionState::Long) && !(
            comparison.fast_below && position != PositionState::Short) && !(comparison.level
                && position != PositionState::Flat)
        }),
{
}

/// A moving-average crossover strategy with the time of its last signal.
#[derive(Clone, Copy, Debug, PartialEq, Eq, Structural)]
pub struct MovingAverageCrossStrategy {
    pub fast_window: usize,
    pub slow_window: usize,
    pub last_signal_at: Option<i64>,
}

/// The strategy a definition describes.
pub fn build_strategy(definition: StrategyDefinition) -> (strategy: MovingAverageCrossStrategy)
    ensures
        match definition {
            StrategyDefinition::MovingAverageCross { fast_window, slow_window } => strategy
                == MovingAverageCrossStrategy::spec_new(fast_window, slow_window),
        },
{
    match definition {
        StrategyDefinition::MovingAverageCross { fast_window, slow_window } => MovingAverageCrossStrategy::new(
            fast_window,
            slow_window,
        ),
    }
}

impl MovingAverageCrossStrategy {
    pub open spec fn spec_new(fast_window: usize, slow_window: usize) -> MovingAverageCrossStrategy {
        MovingAverageCrossStrategy { fast_window, slow_window, last_signal_at: None }
    }

    /// A strategy that has not signalled yet.
    pub fn new(fast_window: usize, slow_window: usize) -> (strategy: Self)
        ensures
            strategy == Self::spec_new(fast_window, slow_window),
    {
        MovingAverageCrossStrategy { fast_window, slow_window, last_signal_at: None }
    }

    /// Whether both averages exist at candle `index`: each needs a full
    /// window of candles ending there.
    pub fn averages_ready(&self, index: usize) -> (ready: bool)
        ensures
            ready == (index + 1 >= self.fast_window && index + 1 >= self.slow_window),
    {
        let have = index as u128 + 1;
        have >= self.fast_window as u128 && have >= self.slow_window as u128
    }

    /// The signal at a candle whose averages compare as given: none twice
    /// at the same time, otherwise the crossover rule; a signal records its
    /// time.
    pub fn on_candle(
        &mut self,
        timestamp: i64,
        comparison: AverageComparison,
        position: PositionState,
    ) -> (action: Option<SignalAction>)
        ensures
            old(self).last_signal_at == Some(timestamp) ==> action is None && *final(self)
                == *old(self),
            old(self).last_signal_at != Some(timestamp) ==> {
                &&& action == crossover_action(comparison, position)
                &&& final(self).fast_window == old(self).fast_window
                &&& final(self).slow_window == old(self).slow_window
                &&& final(self).last_signal_at == if action is Some {
                    Some(timestamp)
                } else {
                    old(self).last_signal_at
                }
            },
            old(self).last_signal_at != Some(timestamp) ==> {
                &&& comparison.fast_above && position != PositionState::Long ==> action == Some(
                    SignalAction::GoLong,
                )
                &&& comparison.fast_below && !comparison.fast_above && position
                    != PositionState::Short ==> action == Some(SignalAction::GoShort)
                &&& action == Some(SignalAction::GoLong) ==> comparison.fast_above && position
                    != PositionState::Long
                &&& action == Some(SignalAction::GoShort) ==> comparison.fast_below && position
                    != PositionState::Short
                &&& action == Some(SignalAction::ExitToFlat) ==> comparison.level && position
                    != PositionState::Flat
                &&& action is None ==> !(comparison.fast_above && position != PositionState::Long)
                    && !(comparison.fast_below && position != PositionState::Short) && !(
                comparison.level && position != PositionState::Flat)
            },
    {
        match self.last_signal_at {
            Some(t) => if t == timestamp {
                return None;
            },
            None => {},
        }
        let action = if comparison.fast_above && position != PositionState::Long {
            Some(SignalAction::GoLong)
        } else if comparison.fast_below && position != PositionState::Short {
            Some(SignalAction::GoShort)
        } else if comparison.level && position != PositionState::Flat {
            Some(SignalAction::ExitToFlat)
        } else {
            None
        };
        if action.is_some() {
            self.last_signal_at = Some(timestamp);
        }
        action
    }
}

/// Index of the last signal at time `t`: a stream keyed by time keeps the
/// last of several signals with the same time.
pub fn signal_at(signal_times: &[i64], t: i64) -> (found: Option<usize>)
    ensures
        match found {
            Some(i) => i < signal_times@.len() && signal_times@[i as int] == t && forall|k: int|
                i < k < signal_times@.len() ==> #[trigger] signal_times@[k] != t,
            None => forall|k: int| 0 <= k < signal_times@.len() ==> #[trigger] signal_times@[k] != t,
        },
{
    let n = signal_times.len();
    let mut k: usize = n;
    while k > 0
        invariant
            n == signal_times@.len(),
            k <= n,
            forall|m: int| k <= m < n ==> #[trigger] signal_times@[m] != t,
        decreases k,
    {
        if signal_times[k - 1] == t {
            return Some(k - 1);
        }
        k = k - 1;
    }
    None
}

} // verus!
