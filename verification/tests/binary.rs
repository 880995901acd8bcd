use midas_backtesting_engine::domain::binary::{
    enforce_position_limit, max_concurrent_positions, resolve_settlement, BinaryAction,
    BinaryOutcome, BinaryPosition, Payoff, PositionLimitExceeded, PriceMove, SettlementError,
    TieBehavior,
};
use midas_backtesting_engine::engine::binary::{
    plan_binary_backtest, BinaryBacktestConfig, BinaryPlan, BinaryPlanError, BinarySignalFacts,
};
use midas_backtesting_engine::metrics::binary::{
    count_distinct_days, longest_losing_streak, tally_outcomes, utc_day, went_up,
};

const SECOND: i64 = 1_000_000_000;

fn t(secs: i64) -> i64 {
    (1_700_000_000 + secs) * SECOND
}

fn position(entry_secs: i64) -> BinaryPosition {
    BinaryPosition { entry_time: t(entry_secs), expiry_seconds: 60 }
}

/// Book P&L of a settlement with a 1.0 stake at a 0.85 payout.
fn pnl(payoff: Payoff) -> f64 {
    match payoff {
        Payoff::StakeTimesPayout => 1.0 * 0.85,
        Payoff::LoseStake => -1.0,
        Payoff::Refund => 0.0,
    }
}

fn movement(entry: f64, exit: f64) -> PriceMove {
    if exit > entry {
        PriceMove::Above
    } else if exit < entry {
        PriceMove::Below
    } else {
        PriceMove::Unchanged
    }
}

#[test]
fn call_win_pays_stake_times_payout() {
    let (outcome, payoff) =
        resolve_settlement(BinaryAction::BinaryCall, movement(1.10, 1.11), TieBehavior::RefundStake)
            .unwrap();
    assert_eq!(outcome, BinaryOutcome::Win);
    assert!((pnl(payoff) - 0.85).abs() < 1e-12);
}

#[test]
fn call_loss_forfeits_stake() {
    let (outcome, payoff) =
        resolve_settlement(BinaryAction::BinaryCall, movement(1.10, 1.09), TieBehavior::RefundStake)
            .unwrap();
    assert_eq!(outcome, BinaryOutcome::Loss);
    assert!((pnl(payoff) + 1.0).abs() < 1e-12);
}

#[test]
fn put_wins_when_price_falls() {
    let (outcome, payoff) =
        resolve_settlement(BinaryAction::BinaryPut, movement(1.10, 1.09), TieBehavior::RefundStake)
            .unwrap();
    assert_eq!(outcome, BinaryOutcome::Win);
    assert!((pnl(payoff) - 0.85).abs() < 1e-12);
}

#[test]
fn tie_behaviors() {
    let flat = movement(1.10, 1.10);
    let (outcome, refund) =
        resolve_settlement(BinaryAction::BinaryCall, flat, TieBehavior::RefundStake).unwrap();
    assert_eq!(outcome, BinaryOutcome::Tie);
    assert_eq!(pnl(refund), 0.0);
    let (_, lose) = resolve_settlement(BinaryAction::BinaryCall, flat, TieBehavior::LoseStake).unwrap();
    assert!((pnl(lose) + 1.0).abs() < 1e-12);
    let (_, win) = resolve_settlement(BinaryAction::BinaryCall, flat, TieBehavior::WinPayout).unwrap();
    assert!((pnl(win) - 0.85).abs() < 1e-12);
}

#[test]
fn no_trade_cannot_settle() {
    assert_eq!(
        resolve_settlement(BinaryAction::NoTrade, movement(1.10, 1.11), TieBehavior::RefundStake),
        Err(SettlementError::NoTradeCannotSettle)
    );
}

#[test]
fn position_open_interval_is_half_open() {
    let p = position(0);
    assert!(p.is_open_at(t(0)));
    assert!(p.is_open_at(t(59)));
    assert!(!p.is_open_at(t(60)));
    assert_eq!(p.expiry_time(), t(60) as i128);
}

#[test]
fn concurrent_position_counting() {
    let a = position(0);
    let b = position(30);
    let c = position(60);
    assert_eq!(max_concurrent_positions(&[a]), 1);
    assert_eq!(max_concurrent_positions(&[a, b]), 2);
    assert_eq!(max_concurrent_positions(&[a, c]), 1);
    assert_eq!(max_concurrent_positions(&[a, b, c]), 2);
    assert!(enforce_position_limit(&[a, b], 2).is_ok());
    assert!(enforce_position_limit(&[a, b, c], 1).is_err());
}

#[test]
fn position_limit_reports_peak_and_limit() {
    let err = enforce_position_limit(&[position(0), position(10), position(20)], 2).unwrap_err();
    assert_eq!(err, PositionLimitExceeded { peak: 3, limit: 2 });
    assert_eq!(max_concurrent_positions(&[]), 0);
}

fn rising_times(n: i64) -> Vec<i64> {
    (0..n).map(|i| t(i * 60)).collect()
}

/// Open of candle `i` of the rising fixture.
fn open(i: usize) -> f64 {
    1.0 + i as f64 * 0.01
}

/// Close of candle `i` of the rising fixture.
fn close(i: usize) -> f64 {
    1.0 + (i + 1) as f64 * 0.01
}

fn signal(secs: i64, action: BinaryAction) -> BinarySignalFacts {
    BinarySignalFacts { timestamp: t(secs), action, expiry_seconds: 300, valid: true }
}

fn plan(times: &[i64], signals: &[BinarySignalFacts]) -> BinaryPlan {
    plan_binary_backtest(times, signals, &BinaryBacktestConfig::default()).unwrap()
}

#[test]
fn call_on_rising_series_wins() {
    let report = plan(&rising_times(20), &[signal(60, BinaryAction::BinaryCall)]);
    assert_eq!(report.executed, 1);
    let trade = report.trades[0];
    assert!((open(trade.entry_candle) - 1.01).abs() < 1e-9);
    assert!((close(trade.settlement_candle) - 1.06).abs() < 1e-9);
    let (outcome, payoff) = resolve_settlement(
        BinaryAction::BinaryCall,
        movement(open(trade.entry_candle), close(trade.settlement_candle)),
        TieBehavior::RefundStake,
    )
    .unwrap();
    assert_eq!(outcome, BinaryOutcome::Win);
    assert!((pnl(payoff) - 0.85).abs() < 1e-9);
}

#[test]
fn put_on_rising_series_loses() {
    let report = plan(&rising_times(20), &[signal(60, BinaryAction::BinaryPut)]);
    let trade = report.trades[0];
    let (_, payoff) = resolve_settlement(
        BinaryAction::BinaryPut,
        movement(open(trade.entry_candle), close(trade.settlement_candle)),
        TieBehavior::RefundStake,
    )
    .unwrap();
    assert!((pnl(payoff) + 1.0).abs() < 1e-9);
}

#[test]
fn no_trade_counts_as_opportunity_only() {
    let report = plan(
        &rising_times(20),
        &[signal(60, BinaryAction::NoTrade), signal(120, BinaryAction::BinaryCall)],
    );
    assert_eq!(report.opportunities, 2);
    assert_eq!(report.no_trade_decisions, 1);
    assert_eq!(report.trade_intents, 1);
    assert_eq!(report.executed, 1);
    assert!((report.trade_intents as f64 / report.opportunities as f64 - 0.5).abs() < 1e-12);
    assert!((report.executed as f64 / report.opportunities as f64 - 0.5).abs() < 1e-12);
}

#[test]
fn abstention_and_concurrency_rejection_are_reported_separately() {
    let signals = vec![
        signal(60, BinaryAction::NoTrade),
        signal(120, BinaryAction::BinaryCall),
        signal(180, BinaryAction::BinaryCall),
        signal(600, BinaryAction::BinaryCall),
    ];
    let report = plan(&rising_times(20), &signals);
    assert_eq!(report.opportunities, 4);
    assert_eq!(report.no_trade_decisions, 1);
    assert_eq!(report.trade_intents, 3);
    assert_eq!(report.skipped_overlap, 1);
    assert_eq!(report.executed, 2);
    assert!((report.trade_intents as f64 / report.opportunities as f64 - 0.75).abs() < 1e-12);
    assert!((report.executed as f64 / report.opportunities as f64 - 0.5).abs() < 1e-12);
}

#[test]
fn entry_delayed_across_gap_is_rejected_as_stale() {
    let mut times = rising_times(5);
    times.push(t(600));
    times.push(t(660));
    let report = plan(&times, &[signal(300, BinaryAction::BinaryCall)]);
    assert_eq!(report.executed, 0);
    assert_eq!(report.skipped_stale_entry, 1);
}

#[test]
fn stale_entry_also_counts_as_missing_data() {
    let mut times = rising_times(5);
    times.push(t(600));
    times.push(t(660));
    let report = plan(&times, &[signal(300, BinaryAction::BinaryCall), signal(10_000, BinaryAction::BinaryPut)]);
    assert_eq!(report.skipped_stale_entry, 1);
    assert_eq!(report.skipped_missing_data, 2);
    assert_eq!(report.trade_intents, report.executed + report.skipped_overlap + report.skipped_missing_data);
}

#[test]
fn irregular_candle_spacing_is_rejected() {
    let times = vec![t(0), t(60), t(90)];
    let result = plan_binary_backtest(
        &times,
        &[signal(0, BinaryAction::BinaryCall)],
        &BinaryBacktestConfig::default(),
    );
    assert!(result.is_err());
    assert!(matches!(
        result,
        Err(BinaryPlanError::IrregularSpacing { candle: 2, step_ms: 30_000, interval_ms: 60_000 })
    ));
}

#[test]
fn expiry_not_multiple_of_interval_is_rejected() {
    let mut odd = signal(60, BinaryAction::BinaryCall);
    odd.expiry_seconds = 90;
    let result = plan_binary_backtest(&rising_times(20), &[odd], &BinaryBacktestConfig::default());
    assert!(result.is_err());
    assert!(matches!(result, Err(BinaryPlanError::ExpiryNotMultiple { signal: 0, interval_ms: 60_000 })));
}

#[test]
fn zero_max_concurrent_is_invalid() {
    let config = BinaryBacktestConfig { max_concurrent: 0, ..Default::default() };
    let result =
        plan_binary_backtest(&rising_times(20), &[signal(60, BinaryAction::BinaryCall)], &config);
    assert!(result.is_err());
    assert!(matches!(result, Err(BinaryPlanError::MaxConcurrentBelowOne)));
}

#[test]
fn concurrency_limit_skips_overlapping_signals() {
    let signals = vec![
        signal(60, BinaryAction::BinaryCall),
        signal(120, BinaryAction::BinaryCall),
        signal(420, BinaryAction::BinaryCall),
    ];
    let report = plan(&rising_times(20), &signals);
    assert_eq!(report.executed, 2);
    assert_eq!(report.skipped_overlap, 1);
    let relaxed = plan_binary_backtest(
        &rising_times(20),
        &signals,
        &BinaryBacktestConfig { max_concurrent: 2, ..Default::default() },
    )
    .unwrap();
    assert_eq!(relaxed.executed, 3);
}

#[test]
fn expiry_beyond_data_is_skipped_not_dropped_silently() {
    let report = plan(&rising_times(6), &[signal(300, BinaryAction::BinaryCall)]);
    assert_eq!(report.executed, 0);
    assert_eq!(report.skipped_missing_data, 1);
}

#[test]
fn signal_after_all_candles_is_missing_data() {
    let report = plan(&rising_times(5), &[signal(10_000, BinaryAction::BinaryCall)]);
    assert_eq!(report.skipped_missing_data, 1);
}

#[test]
fn invalid_signal_is_an_error_not_a_skip() {
    let mut bad = signal(60, BinaryAction::BinaryCall);
    bad.valid = false;
    let result = plan_binary_backtest(&rising_times(20), &[bad], &BinaryBacktestConfig::default());
    assert!(result.is_err());
    assert!(matches!(result, Err(BinaryPlanError::InvalidSignal { signal: 0 })));
}

#[test]
fn too_few_or_repeated_candles_are_rejected() {
    let one = vec![t(0)];
    assert!(matches!(
        plan_binary_backtest(&one, &[], &BinaryBacktestConfig::default()),
        Err(BinaryPlanError::TooFewCandles)
    ));
    let repeated = vec![t(0), t(0), t(60)];
    assert!(matches!(
        plan_binary_backtest(&repeated, &[], &BinaryBacktestConfig::default()),
        Err(BinaryPlanError::CandlesNotIncreasing)
    ));
}

#[test]
fn every_signal_is_accounted_for() {
    let signals = vec![
        signal(60, BinaryAction::NoTrade),
        signal(120, BinaryAction::BinaryCall),
        signal(180, BinaryAction::BinaryPut),
        signal(10_000, BinaryAction::BinaryCall),
    ];
    let report = plan(&rising_times(20), &signals);
    assert_eq!(report.opportunities, 4);
    assert_eq!(
        report.no_trade_decisions + report.skipped_overlap + report.skipped_missing_data + report.executed,
        report.opportunities
    );
    assert_eq!(report.trade_intents, report.executed + report.skipped_overlap + report.skipped_missing_data);
    assert_eq!(report.trades.len(), report.executed);
    assert_eq!(report.trades[0].signal, 1);
}

#[test]
fn win_rate_excludes_ties() {
    let tally = tally_outcomes(&[BinaryOutcome::Win, BinaryOutcome::Loss, BinaryOutcome::Tie]);
    assert_eq!(tally.wins + tally.losses + tally.ties, 3);
    assert_eq!(tally.ties, 1);
    let win_rate = tally.wins as f64 / (tally.wins + tally.losses) as f64;
    assert!((win_rate - 0.5).abs() < 1e-12);
}

#[test]
fn losing_streak_counts_consecutive_losses_only() {
    let outcomes = [
        BinaryOutcome::Loss,
        BinaryOutcome::Loss,
        BinaryOutcome::Tie,
        BinaryOutcome::Loss,
        BinaryOutcome::Win,
    ];
    assert_eq!(longest_losing_streak(&outcomes), 2);
    assert_eq!(longest_losing_streak(&[]), 0);
}

#[test]
fn direction_labels_follow_action_and_outcome() {
    assert_eq!(went_up(BinaryAction::BinaryCall, BinaryOutcome::Win), Some(true));
    assert_eq!(went_up(BinaryAction::BinaryPut, BinaryOutcome::Win), Some(false));
    assert_eq!(went_up(BinaryAction::BinaryPut, BinaryOutcome::Loss), Some(true));
    assert_eq!(went_up(BinaryAction::BinaryCall, BinaryOutcome::Tie), None);
}

#[test]
fn distinct_days_count_utc_calendar_days() {
    const DAY: i64 = 86_400 * SECOND;
    assert_eq!(utc_day(-1), -1);
    assert_eq!(utc_day(0), 0);
    assert_eq!(utc_day(DAY), 1);
    let times = vec![0, DAY - 1, DAY, 3 * DAY + 5, DAY + 7, -5];
    assert_eq!(count_distinct_days(&times), 4);
    assert_eq!(count_distinct_days(&[]), 0);
}
