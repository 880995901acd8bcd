use midas_backtesting_engine::domain::types::{RobustnessVerdict, ValidationReasonCode};
use midas_backtesting_engine::validation::gates::{GateCheck, PromotionVerdict};
use midas_backtesting_engine::validation::regime::{indices_within, regime_selection};
use midas_backtesting_engine::validation::summary::{
    derive_reason_codes, pass_count, reason_code_message, robustness_verdict, ReasonInputs,
    ScoreBands,
};
use midas_backtesting_engine::validation::sweep::sweep_combinations;
use midas_backtesting_engine::validation::windows::{
    split_index, walk_forward_windows, ValidationError, WalkForwardWindow,
};

#[test]
fn validation_split_respects_ratio() {
    let len = 12usize;
    let raw = ((len as f64) * 0.5).floor() as usize;
    let split = split_index(len, raw).unwrap();
    assert_eq!(split, 6);
    assert_eq!(len - split, 6);
}

#[test]
fn split_keeps_two_observations_each_side() {
    assert_eq!(split_index(3, 1), Err(ValidationError::InsufficientObservations));
    assert_eq!(split_index(4, 0), Ok(2));
    assert_eq!(split_index(4, 4), Ok(2));
    assert_eq!(split_index(10, 9), Ok(8));
    assert_eq!(split_index(10, 1), Ok(2));
}

#[test]
fn walk_forward_rolls_until_the_window_limit() {
    let windows = walk_forward_windows(12, 6, 3, 3, Some(2));
    assert_eq!(windows.len(), 2);
    assert_eq!(
        windows[1],
        WalkForwardWindow { window_index: 1, train_start: 3, train_end: 9, test_start: 9, test_end: 12 }
    );
    assert_eq!(walk_forward_windows(12, 6, 3, 3, None).len(), 2);
    assert_eq!(walk_forward_windows(20, 6, 3, 3, None).len(), 4);
    assert_eq!(walk_forward_windows(20, 6, 3, 3, Some(0)).len(), 1);
}

#[test]
fn degenerate_walk_forward_yields_no_windows() {
    assert!(walk_forward_windows(12, 1, 3, 3, None).is_empty());
    assert!(walk_forward_windows(12, 6, 0, 3, None).is_empty());
    assert!(walk_forward_windows(12, 6, 3, 0, None).is_empty());
    assert!(walk_forward_windows(8, 6, 3, 1, None).is_empty());
    assert!(walk_forward_windows(usize::MAX, usize::MAX, 3, 1, None).is_empty());
}

fn inputs(deterministic: bool) -> ReasonInputs {
    ReasonInputs {
        out_of_sample_unprofitable: false,
        out_of_sample_drawdown_excessive: false,
        out_of_sample_trades: 5,
        min_trades_for_score: 3,
        deterministic_reproducible: deterministic,
    }
}

#[test]
fn validation_marks_missing_optional_coverage_explicitly() {
    let codes = derive_reason_codes(inputs(true), &[], &[true], &[true]);
    assert_eq!(codes, vec![ValidationReasonCode::InsufficientValidationCoverage]);
}

#[test]
fn reason_codes_come_in_declared_order() {
    let all = ReasonInputs {
        out_of_sample_unprofitable: true,
        out_of_sample_drawdown_excessive: true,
        out_of_sample_trades: 0,
        min_trades_for_score: 3,
        deterministic_reproducible: false,
    };
    let codes = derive_reason_codes(all, &[false, true, false], &[false], &[false, false]);
    assert_eq!(
        codes,
        vec![
            ValidationReasonCode::NegativeOutOfSamplePnl,
            ValidationReasonCode::ExcessiveOutOfSampleDrawdown,
            ValidationReasonCode::StressFailures,
            ValidationReasonCode::ParameterInstability,
            ValidationReasonCode::WalkForwardInstability,
            ValidationReasonCode::NonDeterministicResults,
            ValidationReasonCode::InsufficientTrades,
        ]
    );
    assert!(derive_reason_codes(inputs(true), &[true, false], &[true], &[true]).is_empty());
    assert_eq!(pass_count(&[true, false, true]), 2);
}

#[test]
fn reason_messages_explain_each_code() {
    assert_eq!(
        reason_code_message(ValidationReasonCode::NegativeOutOfSamplePnl),
        "Out-of-sample profitability was not positive"
    );
    assert_eq!(
        reason_code_message(ValidationReasonCode::InsufficientValidationCoverage),
        "One or more optional robustness checks were omitted, reducing evidence quality"
    );
}

#[test]
fn verdict_bands() {
    let bands = |a: bool, b: bool, c: bool| ScoreBands { at_least_75: a, at_least_60: b, at_least_40: c };
    assert_eq!(robustness_verdict(true, true, true, bands(true, true, true)), RobustnessVerdict::Passes);
    assert_eq!(robustness_verdict(false, true, true, bands(true, true, true)), RobustnessVerdict::Borderline);
    assert_eq!(robustness_verdict(true, true, true, bands(false, false, true)), RobustnessVerdict::Fragile);
    assert_eq!(robustness_verdict(true, true, true, bands(false, false, false)), RobustnessVerdict::Fails);
}

#[test]
fn sweeps_enumerate_every_combination_first_parameter_slowest() {
    let combos = sweep_combinations(&[2, 3]);
    assert_eq!(combos.len(), 6);
    assert_eq!(combos[0], vec![0, 0]);
    assert_eq!(combos[1], vec![0, 1]);
    assert_eq!(combos[3], vec![1, 0]);
    assert_eq!(combos[5], vec![1, 2]);
    assert_eq!(sweep_combinations(&[]), vec![Vec::<usize>::new()]);
    assert!(sweep_combinations(&[2, 0]).is_empty());
}

#[test]
fn regimes_select_data_within_their_window() {
    let times = vec![0, 10, 20, 30, 40];
    assert_eq!(indices_within(&times, 10, 30), vec![1, 2, 3]);
    assert_eq!(regime_selection(&times, 100, 200), Err(ValidationError::RegimeOutsideData));
    assert_eq!(regime_selection(&times, 0, 5), Ok(vec![0]));
}

#[test]
fn promotion_requires_every_gate() {
    let gate = |name: &str, passed: bool| GateCheck { name: name.to_string(), passed, detail: String::new() };
    let verdict = PromotionVerdict::from_checks(vec![gate("sample_size", true), gate("drawdown", false)]);
    assert!(!verdict.promotable);
    assert_eq!(verdict.checks.len(), 2);
    assert!(PromotionVerdict::from_checks(vec![gate("sample_size", true)]).promotable);
    assert!(PromotionVerdict::from_checks(vec![]).promotable);
}

use midas_backtesting_engine::validation::folds::fold_tag;

#[test]
fn fold_tags_come_from_the_first_fold_part() {
    assert_eq!(fold_tag("fold=3").as_deref(), Some("fold=3"));
    assert_eq!(fold_tag("model=a, fold=2 ,x").as_deref(), Some("fold=2"));
    assert_eq!(fold_tag("fold=1,fold=2").as_deref(), Some("fold=1"));
    assert_eq!(fold_tag(" fold= ").as_deref(), Some("fold="));
    assert_eq!(fold_tag("foldx=1"), None);
    assert_eq!(fold_tag("a,b"), None);
    assert_eq!(fold_tag(""), None);
    assert_eq!(fold_tag("x,\u{3000}fold=9"), Some("fold=9".to_string()));
}
