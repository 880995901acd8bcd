//! Shared vocabulary of the engine: sides, position states, order kinds and
//! statuses, verdicts, and the diagnostics records that carry no prices.
use vstd::prelude::*;

verus! {

/// Direction of a position or of an order leg.
#[derive(Clone, Copy, Debug, PartialEq, Eq, Structural)]
pub enum Side {
    Long,
    Short,
}

impl Side {
    /// The other side of the book.
    pub fn opposite(self) -> (result: Side)
        ensures
            result == (match self {
                Side::Long => Side::Short,
                Side::Short => Side::Long,
            }),
    {
        match self {
            Side::Long => Side::Short,
            Side::Short => Side::Long,
        }
    }
}

#[derive(Clone, Copy, Debug, PartialEq, Eq, Structural)]
pub enum PositionState {
    Flat,
    Long,
    Short,
}

pub open spec fn state_of_side(side: Side) -> PositionState {
    match side {
        Side::Long => PositionState::Long,
        Side::Short => PositionState::Short,
    }
}

impl From<Side> for PositionState {
    fn from(value: Side) -> (state: PositionState) {
        match value {
            Side::Long => PositionState::Long,
            Side::Short => PositionState::Short,
        }
    }
}

impl vstd::std_specs::convert::FromSpecImpl<Side> for PositionState {
    open spec fn obeys_from_spec() -> bool {
        true
    }

    open spec fn from_spec(value: Side) -> PositionState {
        state_of_side(value)
    }
}

/// The position state held by an optional open position on `side`.
pub fn position_state_of(side: Option<Side>) -> (state: PositionState)
    ensures
        state == (match side {
            Some(s) => state_of_side(s),
            None => PositionState::Flat,
        }),
{
    match side {
        Some(s) => PositionState::from(s),
        None => PositionState::Flat,
    }
}

#[derive(Clone, Copy, Debug, PartialEq, Eq, Structural)]
pub enum OrderKind {
    Market,
    Limit,
    Liquidation,
}

#[derive(Clone, Copy, Debug, PartialEq, Eq, Structural)]
pub enum OrderStatus {
    Submitted,
    Filled,
    Cancelled,
    Expired,
    Rejected,
}

#[derive(Clone, Copy, Debug, PartialEq, Eq, Structural)]
pub enum RobustnessVerdict {
    Passes,
    Borderline,
    Fragile,
    Fails,
}

#[derive(Clone, Copy, Debug, PartialEq, Eq, Structural)]
pub enum ExecutionLegRole {
    Open,
    Close,
    Liquidation,
}

/// Machine-readable reasons behind a validation verdict, in report order.
#[derive(Clone, Copy, Debug, PartialEq, Eq, Structural)]
pub enum ValidationReasonCode {
    NegativeOutOfSamplePnl,
    ExcessiveOutOfSampleDrawdown,
    StressFailures,
    ParameterInstability,
    WalkForwardInstability,
    NonDeterministicResults,
    InsufficientTrades,
    InsufficientValidationCoverage,
}

#[derive(Clone, Copy, Debug, PartialEq, Eq, Structural)]
pub enum OrderBookAction {
    Snapshot,
    Upsert,
    Remove,
    Clear,
}

impl Default for OrderBookAction {
    fn default() -> (action: Self)
        ensures
            action == OrderBookAction::Snapshot,
    {
        OrderBookAction::Snapshot
    }
}

#[derive(Clone, Copy, Debug, PartialEq, Eq, Structural)]
pub enum SignalAction {
    GoLong,
    GoShort,
    ExitToFlat,
    Hold,
}

pub open spec fn target_side_of(action: SignalAction) -> Option<Side> {
    match action {
        SignalAction::GoLong => Some(Side::Long),
        SignalAction::GoShort => Some(Side::Short),
        SignalAction::ExitToFlat | SignalAction::Hold => None,
    }
}

impl SignalAction {
    /// The side a signal asks to hold, if any.
    pub fn target_side(&self) -> (side: Option<Side>)
        ensures
            side == target_side_of(*self),
    {
        match self {
            SignalAction::GoLong => Some(Side::Long),
            SignalAction::GoShort => Some(Side::Short),
            SignalAction::ExitToFlat | SignalAction::Hold => None,
        }
    }
}

/// Counters describing a replay run.
#[derive(Clone, Debug)]
pub struct ReplayDiagnostics {
    pub mode: String,
    pub processed_steps: usize,
    pub processed_candles: usize,
    pub processed_events: usize,
    pub quote_events: usize,
    pub bbo_events: usize,
    pub trade_events: usize,
    pub funding_events: usize,
    pub depth_events: usize,
    pub candle_events: usize,
    pub reordered_events: usize,
    pub last_sequence: Option<u64>,
}

impl Default for ReplayDiagnostics {
    fn default() -> (diagnostics: Self)
        ensures
            diagnostics.mode@ == Seq::<char>::empty(),
            diagnostics.processed_steps == 0,
            diagnostics.processed_candles == 0,
            diagnostics.processed_events == 0,
            diagnostics.quote_events == 0,
            diagnostics.bbo_events == 0,
            diagnostics.trade_events == 0,
            diagnostics.funding_events == 0,
            diagnostics.depth_events == 0,
            diagnostics.candle_events == 0,
            diagnostics.reordered_events == 0,
            diagnostics.last_sequence is None,
    {
        ReplayDiagnostics {
            mode: String::new(),
            processed_steps: 0,
            processed_candles: 0,
            processed_events: 0,
            quote_events: 0,
            bbo_events: 0,
            trade_events: 0,
            funding_events: 0,
            depth_events: 0,
            candle_events: 0,
            reordered_events: 0,
            last_sequence: None,
        }
    }
}

/// Outcome of one named consistency check.
#[derive(Clone, Debug)]
pub struct ConsistencyCheckResult {
    pub name: String,
    pub passed: bool,
    pub detail: String,
}

/// All consistency checks of a run, in the order they were made.
#[derive(Clone, Debug)]
pub struct ConsistencyReport {
    pub checks: Vec<ConsistencyCheckResult>,
}

impl Default for ConsistencyReport {
    fn default() -> (report: Self)
        ensures
            report.checks@.len() == 0,
    {
        ConsistencyReport { checks: Vec::new() }
    }
}

} // verus!
