use midas_backtesting_engine::engine::lifecycle::{
    next_leg_index, orders_have_legal_lifecycle, ExecutionModel, LifecycleEntry, OrderLifecycle,
    PendingDecision, PendingOrder, SubmitOutcome,
};
use midas_backtesting_engine::engine::replay::{
    time_order, BacktestEngine, CandleFacts, CandleSeriesError, EventFacts, EventStreamError,
};
use midas_backtesting_engine::domain::config::OrderTypeAssumption;
use midas_backtesting_engine::domain::types::{
    OrderKind, OrderStatus, PositionState, Side, SignalAction,
};
use midas_backtesting_engine::ordering::{count_displaced, replay_order};

const SECOND: i64 = 1_000_000_000;
const BASE: i64 = 1_704_067_200 * SECOND;

fn quote(timestamp: i64, sequence: u64) -> EventFacts {
    EventFacts { timestamp, sequence, valid: true, is_candle: false }
}

#[test]
fn event_replay_orders_by_timestamp_then_sequence() {
    let events = vec![quote(BASE + SECOND, 3), quote(BASE, 2), quote(BASE, 1)];
    let prepared = BacktestEngine::prepare_events(&events).unwrap();
    assert_eq!(prepared.order, vec![2, 1, 0]);
    assert_eq!(prepared.reordered_events, 2);
    let last = prepared.order[prepared.order.len() - 1];
    assert_eq!(events[last].sequence, 3);
}

#[test]
fn duplicate_event_sequences_are_rejected() {
    let events = vec![quote(BASE, 1), quote(BASE, 1)];
    assert!(matches!(
        BacktestEngine::prepare_events(&events),
        Err(EventStreamError::DuplicateSequence)
    ));
}

#[test]
fn monotonic_event_stream_keeps_its_order() {
    let events = vec![quote(BASE, 1), quote(BASE, 2), quote(BASE + SECOND, 3)];
    let prepared = BacktestEngine::prepare_events(&events).unwrap();
    assert_eq!(prepared.order, vec![0, 1, 2]);
    assert_eq!(prepared.reordered_events, 0);
}

#[test]
fn event_admission_reports_invalid_short_and_candle_less_streams() {
    let mut events = vec![quote(BASE + 2 * SECOND, 1), quote(BASE, 1), quote(BASE + SECOND, 1)];
    events[0].valid = false;
    events[2].valid = false;
    assert!(matches!(
        BacktestEngine::prepare_events(&events),
        Err(EventStreamError::InvalidEvent { index: 2 })
    ));
    let short = vec![quote(BASE, 2), quote(BASE, 1)];
    let prepared = BacktestEngine::prepare_events(&short).unwrap();
    assert_eq!(prepared.order, vec![1, 0]);
    assert!(matches!(BacktestEngine::check_event_run(&short, false), Err(EventStreamError::TooFewEvents)));
    let plain = vec![quote(BASE, 1), quote(BASE, 2), quote(BASE, 3)];
    assert!(matches!(
        BacktestEngine::check_event_run(&plain, true),
        Err(EventStreamError::RuleStrategyNeedsCandles)
    ));
    assert!(BacktestEngine::check_event_run(&plain, false).is_ok());
    let mut with_candle = plain.clone();
    with_candle[1].is_candle = true;
    assert!(BacktestEngine::check_event_run(&with_candle, true).is_ok());
}

fn candle(timestamp: i64) -> CandleFacts {
    CandleFacts { timestamp, valid: true }
}

#[test]
fn candles_admitted_and_first_order_submitted() {
    let candles: Vec<CandleFacts> = (0..4).map(|i| candle(BASE + i * 3_600 * SECOND)).collect();
    assert_eq!(BacktestEngine::validate_candles(&candles), Ok(()));
    let mut lifecycle = OrderLifecycle::new();
    let outcome = lifecycle.submit(SignalAction::GoLong, 0, 4, 0, None, OrderTypeAssumption::Market, false);
    assert!(outcome.submitted.is_some());
    assert!(!lifecycle.log().is_empty());
}

#[test]
fn candle_series_faults_are_reported_first_come() {
    assert_eq!(BacktestEngine::validate_candles(&[candle(0), candle(1)]), Err(CandleSeriesError::TooFewCandles));
    let mut candles = vec![candle(0), candle(10), candle(10), candle(20)];
    assert_eq!(BacktestEngine::validate_candles(&candles), Err(CandleSeriesError::NotIncreasing { index: 2 }));
    candles[1].valid = false;
    assert_eq!(BacktestEngine::validate_candles(&candles), Err(CandleSeriesError::InvalidCandle { index: 1 }));
}

#[test]
fn signals_are_replayed_in_time_order_with_ties_kept() {
    let times = vec![30, 10, 20, 10];
    assert_eq!(time_order(&times), vec![1, 3, 2, 0]);
    assert_eq!(BacktestEngine::signals_due(&[10, 10, 20, 30], 0, 15), 2);
    assert_eq!(BacktestEngine::signals_due(&[10, 10, 20, 30], 2, 15), 2);
    assert_eq!(BacktestEngine::signals_due(&[10, 10, 20, 30], 2, 99), 4);
}

#[test]
fn replay_order_breaks_ties_by_sequence_then_position() {
    let keys = vec![(5, 1), (1, 9), (5, 0), (1, 9)];
    let order = replay_order(&keys);
    assert_eq!(order, vec![1, 3, 2, 0]);
    assert_eq!(count_displaced(&order), 3);
}

fn limit_lifecycle_with_timeout() -> OrderLifecycle {
    let mut lifecycle = OrderLifecycle::new();
    lifecycle.submit(SignalAction::GoLong, 0, 10, 0, Some(2), OrderTypeAssumption::Limit, true);
    lifecycle
}

#[test]
fn pending_limit_order_expires_after_timeout() {
    let mut lifecycle = limit_lifecycle_with_timeout();
    assert!(matches!(lifecycle.advance(0, false), PendingDecision::Wait(_)));
    assert!(matches!(lifecycle.advance(1, false), PendingDecision::Wait(_)));
    assert!(matches!(lifecycle.advance(2, false), PendingDecision::Wait(_)));
    assert!(matches!(lifecycle.advance(3, false), PendingDecision::Expire(_)));
    assert_eq!(lifecycle.pending(), None);
    assert_eq!(
        lifecycle.log(),
        &vec![
            LifecycleEntry { order_id: 1, status: OrderStatus::Submitted },
            LifecycleEntry { order_id: 1, status: OrderStatus::Expired },
        ]
    );
    assert!(orders_have_legal_lifecycle(lifecycle.log()));
}

#[test]
fn orders_past_their_expiry_expire_even_if_priced() {
    let mut lifecycle = limit_lifecycle_with_timeout();
    assert!(matches!(lifecycle.advance(4, true), PendingDecision::Expire(_)));
}

#[test]
fn orders_execute_within_their_window() {
    let mut lifecycle = limit_lifecycle_with_timeout();
    match lifecycle.advance(3, true) {
        PendingDecision::Execute(order) => {
            assert_eq!(order.execute_at_index, 1);
            assert_eq!(order.expires_at_index, Some(3));
            assert_eq!(order.requested_kind, OrderKind::Limit);
        }
        other => panic!("expected execution, got {other:?}"),
    }
    let order = lifecycle.finish_execution(true);
    assert_eq!(order.order_id, 1);
    assert_eq!(lifecycle.log()[1], LifecycleEntry { order_id: 1, status: OrderStatus::Filled });
}

#[test]
fn a_new_signal_supersedes_the_pending_order() {
    let mut lifecycle = OrderLifecycle::new();
    lifecycle.submit(SignalAction::GoLong, 0, 10, 3, None, OrderTypeAssumption::Market, false);
    let outcome: SubmitOutcome =
        lifecycle.submit(SignalAction::GoShort, 1, 10, 3, None, OrderTypeAssumption::Market, false);
    assert_eq!(outcome.superseded.map(|o| o.order_id), Some(1));
    let submitted: PendingOrder = outcome.submitted.unwrap();
    assert_eq!(submitted.order_id, 2);
    assert_eq!(submitted.execute_at_index, 5);
    let statuses: Vec<(u64, OrderStatus)> = lifecycle.log().iter().map(|e| (e.order_id, e.status)).collect();
    assert_eq!(
        statuses,
        vec![(1, OrderStatus::Submitted), (1, OrderStatus::Cancelled), (2, OrderStatus::Submitted)]
    );
    let hold = lifecycle.submit(SignalAction::Hold, 2, 10, 0, None, OrderTypeAssumption::Market, false);
    assert_eq!(hold, SubmitOutcome { superseded: None, submitted: None });
    assert_eq!(lifecycle.log().len(), 3);
}

#[test]
fn execution_is_clamped_to_the_last_step() {
    let mut lifecycle = OrderLifecycle::new();
    let outcome = lifecycle.submit(SignalAction::GoLong, 3, 5, 7, Some(1), OrderTypeAssumption::Limit, false);
    let order = outcome.submitted.unwrap();
    assert_eq!(order.execute_at_index, 4);
    assert_eq!(order.expires_at_index, Some(12));
    assert_eq!(order.requested_kind, OrderKind::Market);
}

#[test]
fn trade_then_flatten_leaves_a_legal_trail() {
    let mut lifecycle = OrderLifecycle::new();
    lifecycle.submit(SignalAction::GoLong, 0, 4, 0, None, OrderTypeAssumption::Market, false);
    assert!(matches!(lifecycle.advance(1, true), PendingDecision::Execute(_)));
    lifecycle.finish_execution(true);
    assert_eq!(lifecycle.cancel_pending(), None);
    let flatten = lifecycle.submit_flatten(3);
    assert_eq!(flatten.order_id, 2);
    assert_eq!(flatten.action, SignalAction::ExitToFlat);
    lifecycle.finish_execution(true);
    lifecycle.record_liquidation();
    assert_eq!(lifecycle.log().len(), 5);
    assert!(orders_have_legal_lifecycle(lifecycle.log()));
    assert_eq!(lifecycle.next_order_id(), 3);
}

#[test]
fn illegal_audit_trails_are_detected() {
    let e = |order_id: u64, status: OrderStatus| LifecycleEntry { order_id, status };
    assert!(orders_have_legal_lifecycle(&[]));
    assert!(!orders_have_legal_lifecycle(&[e(1, OrderStatus::Filled)]));
    assert!(!orders_have_legal_lifecycle(&[e(1, OrderStatus::Submitted)]));
    assert!(!orders_have_legal_lifecycle(&[
        e(1, OrderStatus::Submitted),
        e(1, OrderStatus::Filled),
        e(1, OrderStatus::Rejected),
    ]));
    assert!(!orders_have_legal_lifecycle(&[e(0, OrderStatus::Cancelled)]));
    assert!(orders_have_legal_lifecycle(&[
        e(1, OrderStatus::Submitted),
        e(0, OrderStatus::Filled),
        e(1, OrderStatus::Rejected),
    ]));
}

#[test]
fn flips_close_then_open_with_numbered_legs() {
    assert!(ExecutionModel::closes_position(SignalAction::GoShort, Some(Side::Long), Some(Side::Short)));
    assert!(ExecutionModel::is_flip(PositionState::Long, SignalAction::GoShort));
    assert_eq!(next_leg_index(&[], 7), 1);
    assert_eq!(next_leg_index(&[7], 7), 2);
    assert_eq!(next_leg_index(&[3, 7, 7], 7), 3);
}

#[test]
fn execution_sides_and_targets() {
    assert_eq!(ExecutionModel::order_execution_side(SignalAction::ExitToFlat, Some(Side::Long)), Some(Side::Short));
    assert_eq!(ExecutionModel::order_execution_side(SignalAction::ExitToFlat, None), None);
    assert_eq!(ExecutionModel::order_execution_side(SignalAction::GoLong, Some(Side::Long)), Some(Side::Long));
    assert_eq!(ExecutionModel::target_side(SignalAction::GoShort, true, false), None);
    assert_eq!(ExecutionModel::target_side(SignalAction::GoShort, true, true), Some(Side::Short));
    assert!(!ExecutionModel::closes_position(SignalAction::GoLong, Some(Side::Long), Some(Side::Long)));
    assert!(ExecutionModel::closes_position(SignalAction::ExitToFlat, Some(Side::Long), None));
    assert!(!ExecutionModel::closes_position(SignalAction::ExitToFlat, None, None));
    assert!(!ExecutionModel::is_flip(PositionState::Flat, SignalAction::GoShort));
    assert_eq!(ExecutionModel::requested_kind(OrderTypeAssumption::Limit, true), OrderKind::Limit);
}

#[test]
fn fill_and_leg_reasons_name_flips() {
    assert_eq!(ExecutionModel::fill_reason(1), "filled");
    assert_eq!(ExecutionModel::fill_reason(2), "position_flip");
    assert_eq!(ExecutionModel::close_leg_reason(SignalAction::ExitToFlat), "position_close");
    assert_eq!(ExecutionModel::close_leg_reason(SignalAction::GoShort), "position_flip_close");
    assert_eq!(ExecutionModel::open_leg_reason(false), "position_open");
    assert_eq!(ExecutionModel::open_leg_reason(true), "position_flip_open");
}
