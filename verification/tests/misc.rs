use midas_backtesting_engine::api::{MarketDataFileSpec, StrategyFileSpec};
use midas_backtesting_engine::domain::binary::BinaryAction;
use midas_backtesting_engine::domain::config::{
    base_context, default_limit_fill_assumption, default_market_order,
    default_market_price_reference, default_min_trades, default_true, validate_order_timeouts,
    validate_regime_windows, validate_sweeps, ConfigError, LimitFillAssumption,
    MarketPriceReference, OrderTypeAssumption, ParameterSweep, ParameterValue, RegimeWindow,
    StrategyDefinition,
};
use midas_backtesting_engine::domain::types::{
    position_state_of, ConsistencyReport, OrderBookAction, PositionState, ReplayDiagnostics, Side,
    SignalAction,
};
use midas_backtesting_engine::engine::invariants::{first_failed_check, push_check};
use midas_backtesting_engine::engine::strategy::{
    build_strategy, signal_at, AverageComparison, MovingAverageCrossStrategy,
};
use midas_backtesting_engine::reporting::{signature_of_digest, stable_signature, ARTIFACT_SCHEMA_VERSION};

#[test]
fn sides_and_signal_targets() {
    assert_eq!(Side::Long.opposite(), Side::Short);
    assert_eq!(Side::Short.opposite(), Side::Long);
    assert_eq!(SignalAction::GoShort.target_side(), Some(Side::Short));
    assert_eq!(SignalAction::Hold.target_side(), None);
    assert_eq!(position_state_of(Some(Side::Long)), PositionState::Long);
    assert_eq!(position_state_of(None), PositionState::Flat);
    assert_eq!(PositionState::from(Side::Short), PositionState::Short);
    assert!(BinaryAction::BinaryPut.is_trade());
    assert!(!BinaryAction::NoTrade.is_trade());
}

#[test]
fn defaults() {
    assert!(default_true());
    assert_eq!(default_market_order(), OrderTypeAssumption::Market);
    assert_eq!(default_market_price_reference(), MarketPriceReference::OpposingBest);
    assert_eq!(default_limit_fill_assumption(), LimitFillAssumption::Touch);
    assert_eq!(default_min_trades(), 3);
    assert_eq!(OrderBookAction::default(), OrderBookAction::Snapshot);
    let diagnostics = ReplayDiagnostics::default();
    assert_eq!(diagnostics.processed_steps, 0);
    assert_eq!(diagnostics.last_sequence, None);
    assert_eq!(ARTIFACT_SCHEMA_VERSION, "2.0.0");
}

#[test]
fn strategy_definitions_validate_and_take_overrides() {
    let definition = StrategyDefinition::MovingAverageCross { fast_window: 2, slow_window: 4 };
    assert_eq!(definition.validate(), Ok(()));
    let zero = StrategyDefinition::MovingAverageCross { fast_window: 0, slow_window: 4 };
    assert_eq!(zero.validate(), Err(ConfigError::MovingAverageWindowsNotPositive));
    let inverted = StrategyDefinition::MovingAverageCross { fast_window: 4, slow_window: 4 };
    assert_eq!(inverted.validate(), Err(ConfigError::FastWindowNotSmaller));
    assert_eq!(
        definition.apply_parameter("fast_window", &ParameterValue::Int(3)),
        Ok(StrategyDefinition::MovingAverageCross { fast_window: 3, slow_window: 4 })
    );
    assert_eq!(
        definition.apply_parameter("slow_window", &ParameterValue::Int(9)),
        Ok(StrategyDefinition::MovingAverageCross { fast_window: 2, slow_window: 9 })
    );
    assert_eq!(
        definition.apply_parameter("fast_window", &ParameterValue::Int(0)),
        Err(ConfigError::UnsupportedParameter)
    );
    assert_eq!(
        definition.apply_parameter("unknown", &ParameterValue::Int(3)),
        Err(ConfigError::UnsupportedParameter)
    );
    assert_eq!(
        definition.apply_parameter("fast_window", &ParameterValue::Float(1.5f64.to_bits())),
        Err(ConfigError::UnsupportedParameter)
    );
}

#[test]
fn configuration_checks_report_the_first_fault() {
    assert_eq!(validate_order_timeouts(Some(0), Some(0)), Err(ConfigError::OrderTimeoutBarsZero));
    assert_eq!(validate_order_timeouts(None, Some(0)), Err(ConfigError::OrderTimeoutEventsZero));
    assert_eq!(validate_order_timeouts(Some(2), None), Ok(()));
    let sweeps = vec![
        ParameterSweep { name: "fast_window".to_string(), values: vec![ParameterValue::Int(2)] },
        ParameterSweep { name: "slow_window".to_string(), values: vec![] },
    ];
    assert_eq!(validate_sweeps(&sweeps), Err(ConfigError::EmptySweep { index: 1 }));
    let windows = vec![
        RegimeWindow { name: "early".to_string(), start: 0, end: 5 },
        RegimeWindow { name: "late".to_string(), start: 5, end: 5 },
    ];
    assert_eq!(validate_regime_windows(&windows), Err(ConfigError::RegimeWindowNotIncreasing { index: 1 }));
}

#[test]
fn bench_context_names_the_fixture() {
    let context = base_context("candle_backtest", "1h");
    assert_eq!(context.symbol, "BTC-PERP");
    assert_eq!(context.venue.as_deref(), Some("bench"));
    assert_eq!(context.timeframe, "1h");
    assert_eq!(context.run_label.as_deref(), Some("candle_backtest"));
}

#[test]
fn consistency_report_records_checks_in_order() {
    let mut report = ConsistencyReport::default();
    push_check(&mut report, "equity_points_reconcile", true, "ok".to_string());
    push_check(&mut report, "trade_count_matches_metrics", false, "mismatch".to_string());
    push_check(&mut report, "later", false, String::new());
    assert_eq!(report.checks.len(), 3);
    assert_eq!(report.checks[1].name, "trade_count_matches_metrics");
    assert_eq!(first_failed_check(&report), Some(1));
    assert_eq!(first_failed_check(&ConsistencyReport::default()), None);
}

#[test]
fn crossover_rule() {
    let mut strategy = build_strategy(StrategyDefinition::MovingAverageCross { fast_window: 2, slow_window: 4 });
    assert_eq!(strategy, MovingAverageCrossStrategy::new(2, 4));
    assert!(!strategy.averages_ready(2));
    assert!(strategy.averages_ready(3));
    let above = AverageComparison { fast_above: true, fast_below: false, level: false };
    let level = AverageComparison { fast_above: false, fast_below: false, level: true };
    assert_eq!(strategy.on_candle(100, above, PositionState::Flat), Some(SignalAction::GoLong));
    assert_eq!(strategy.on_candle(100, above, PositionState::Flat), None);
    assert_eq!(strategy.on_candle(200, above, PositionState::Long), None);
    assert_eq!(strategy.on_candle(300, level, PositionState::Long), Some(SignalAction::ExitToFlat));
    assert_eq!(strategy.last_signal_at, Some(300));
}

#[test]
fn signal_streams_keep_the_last_signal_per_time() {
    assert_eq!(signal_at(&[10, 20, 10], 10), Some(2));
    assert_eq!(signal_at(&[10, 20, 10], 15), None);
}

#[test]
fn file_specs_name_their_contents() {
    let strategy = StrategyFileSpec::MovingAverageCross { fast_window: 2, slow_window: 5 };
    assert_eq!(
        strategy.definition(),
        Some(StrategyDefinition::MovingAverageCross { fast_window: 2, slow_window: 5 })
    );
    let signals = StrategyFileSpec::SignalCsv { path: "signals.csv".into() };
    assert_eq!(signals.definition(), None);
    assert!(MarketDataFileSpec::OhlcvCsv { path: "c.csv".into() }.holds_candles());
    assert!(!MarketDataFileSpec::EventJson { path: "e.json".into() }.holds_candles());
}

#[test]
fn signatures_are_lowercase_sha256_hex() {
    assert_eq!(
        stable_signature(b"abc"),
        "ba7816bf8f01cfea414140de5dae2223b00361a396177a9cb410ff61f20015ad"
    );
    assert_eq!(
        stable_signature(b""),
        "e3b0c44298fc1c149afbf4c8996fb92427ae41e4649b934ca495991b7852b855"
    );
    assert_eq!(signature_of_digest(&[0x00, 0x0f, 0xa0, 0xff]), "000fa0ff");
}

use midas_backtesting_engine::adapters::timestamps::{
    instant_from_reading, parse_decimal_i64, parse_timestamp, TimestampError, UtcInstant, MAX_EPOCH_SECONDS,
    MIN_EPOCH_SECONDS,
};

fn at(seconds: i64, nanos: u32) -> Result<UtcInstant, TimestampError> {
    Ok(UtcInstant { seconds, nanos })
}

#[test]
fn timestamps_read_rfc3339_or_epoch_seconds() {
    assert_eq!(parse_timestamp("2024-01-01T00:00:00Z"), at(1_704_067_200, 0));
    assert_eq!(parse_timestamp("2024-01-01T02:00:00+02:00"), at(1_704_067_200, 0));
    assert_eq!(parse_timestamp("2024-01-01T00:00:00.25Z"), at(1_704_067_200, 250_000_000));
    assert_eq!(parse_timestamp("1700000000"), at(1_700_000_000, 0));
    assert_eq!(parse_timestamp("-1"), at(-1, 0));
    assert_eq!(parse_timestamp("abc"), Err(TimestampError::Unparseable));
    assert_eq!(parse_timestamp(""), Err(TimestampError::Unparseable));
    assert_eq!(parse_timestamp("99999999999"), at(99_999_999_999, 0));
    assert_eq!(parse_timestamp("9999999999"), at(9_999_999_999, 0));
    assert_eq!(parse_timestamp("3000-01-01T00:00:00Z"), at(32_503_680_000, 0));
    assert_eq!(parse_timestamp("1600-01-01T00:00:00Z"), at(-11_676_096_000, 0));
}

#[test]
fn epoch_seconds_span_the_dates_chrono_represents() {
    assert_eq!(parse_timestamp("-8334601228800"), at(MIN_EPOCH_SECONDS, 0));
    assert_eq!(parse_timestamp("8210266876799"), at(MAX_EPOCH_SECONDS, 0));
    assert_eq!(parse_timestamp("-8334601228801"), Err(TimestampError::OutOfRange));
    assert_eq!(parse_timestamp("8210266876800"), Err(TimestampError::OutOfRange));
    assert_eq!(parse_timestamp("9223372036854775807"), Err(TimestampError::OutOfRange));
    for seconds in [MIN_EPOCH_SECONDS - 1, MIN_EPOCH_SECONDS, 0, MAX_EPOCH_SECONDS, MAX_EPOCH_SECONDS + 1] {
        let inside = (MIN_EPOCH_SECONDS..=MAX_EPOCH_SECONDS).contains(&seconds);
        assert_eq!(chrono::DateTime::from_timestamp(seconds, 0).is_some(), inside);
    }
}

#[test]
fn decimal_integers_read_like_str_parse() {
    assert_eq!(parse_decimal_i64("9223372036854775807"), Some(i64::MAX));
    assert_eq!(parse_decimal_i64("9223372036854775808"), None);
    assert_eq!(parse_decimal_i64("-9223372036854775808"), Some(i64::MIN));
    assert_eq!(parse_decimal_i64("+42"), Some(42));
    assert_eq!(parse_decimal_i64("+"), None);
    assert_eq!(parse_decimal_i64("-"), None);
    assert_eq!(parse_decimal_i64("1 "), None);
    assert_eq!(parse_decimal_i64("007"), Some(7));
    for text in ["0", "-17", "123456789", "12a"] {
        assert_eq!(parse_decimal_i64(text), text.parse::<i64>().ok());
    }
}

#[test]
fn instant_from_reading_prefers_rfc3339_then_epoch_seconds() {
    assert_eq!(instant_from_reading("60", Some((7, 5))), at(7, 5));
    assert_eq!(instant_from_reading("60", None), at(60, 0));
    assert_eq!(instant_from_reading("-1", None), at(-1, 0));
    assert_eq!(instant_from_reading("9223372037", None), at(9_223_372_037, 0));
    assert_eq!(instant_from_reading("8210266876800", None), Err(TimestampError::OutOfRange));
    assert_eq!(instant_from_reading("soon", None), Err(TimestampError::Unparseable));
}
