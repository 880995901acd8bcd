//! File-based requests: where a run's market data and strategy come from.
use vstd::prelude::*;

use crate::domain::config::StrategyDefinition;

verus! {

/// The file that holds a run's market data.
#[derive(Debug)]
pub enum MarketDataFileSpec {
    OhlcvCsv { path: std::path::PathBuf },
    EventJson { path: std::path::PathBuf },
}

/// Where a run's strategy comes from: a rule-based definition given inline,
/// or a file of signals.
#[derive(Debug)]
pub enum StrategyFileSpec {
    MovingAverageCross { fast_window: usize, slow_window: usize },
    SignalCsv { path: std::path::PathBuf },
}

impl MarketDataFileSpec {
    /// Whether the file holds candles (otherwise events).
    pub fn holds_candles(&self) -> (candles: bool)
        ensures
            candles == (self is OhlcvCsv),
    {
        match self {
            MarketDataFileSpec::OhlcvCsv { .. } => true,
            MarketDataFileSpec::EventJson { .. } => false,
        }
    }
}

impl StrategyFileSpec {
    /// The rule-based strategy this spec names, if it names one.
    pub fn definition(&self) -> (definition: Option<StrategyDefinition>)
        ensures
            definition == (match *self {
                StrategyFileSpec::MovingAverageCross { fast_window, slow_window } => Some(
                    StrategyDefinition::MovingAverageCross { fast_window, slow_window },
                ),
                StrategyFileSpec::SignalCsv { .. } => None,
            }),
    {
        match self {
            StrategyFileSpec::MovingAverageCross { fast_window, slow_window } => Some(
                StrategyDefinition::MovingAverageCross {
                    fast_window: *fast_window,
                    slow_window: *slow_window,
                },
            ),
            StrategyFileSpec::SignalCsv { .. } => None,
        }
    }
}

} // verus!
