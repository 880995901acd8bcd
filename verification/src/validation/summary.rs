//! The verdict side of a validation run: pass counts, the reason codes that
//! explain a verdict and their messages, and the verdict bands.
use vstd::prelude::*;

use crate::domain::types::{RobustnessVerdict, ValidationReasonCode};

verus! {

/// Number of `true` entries.
pub open spec fn passes(items: Seq<bool>) -> nat
    decreases items.len(),
{
    if items.len() == 0 {
        0
    } else {
        passes(items.drop_last()) + (if items.last() {
            1nat
        } else {
            0nat
        })
    }
}

pub proof fn lemma_passes_bounded(items: Seq<bool>)
    ensures
        passes(items) <= items.len(),
    decreases items.len(),
{
    if items.len() > 0 {
        lemma_passes_bounded(items.drop_last());
    }
}

/// How many checks passed.
pub fn pass_count(items: &[bool]) -> (count: usize)
    ensures
        count == passes(items@),
{
    let n = items.len();
    let mut j: usize = 0;
    let mut count: usize = 0;
    while j < n
        invariant
            n == items@.len(),
            j <= n,
            count <= j,
            count == passes(items@.subrange(0, j as int)),
        decreases n - j,
    {
        assert(items@.subrange(0, j as int + 1).drop_last() =~= items@.subrange(0, j as int));
        if items[j] {
            count = count + 1;
        }
        j = j + 1;
    }
    assert(items@.subrange(0, n as int) =~= items@);
    count
}

/// A non-empty group of checks in which fewer than half passed (a pass
/// rate below 0.5).
pub open spec fn mostly_failing(items: Seq<bool>) -> bool {
    items.len() > 0 && 2 * passes(items) < items.len()
}

/// What the out-of-sample run and the optional checks showed, as far as
/// the reason codes need it.
#[derive(Clone, Copy, Debug, PartialEq, Eq, Structural)]
pub struct ReasonInputs {
    /// Out-of-sample net profit was not positive.
    pub out_of_sample_unprofitable: bool,
    /// Out-of-sample drawdown reached the survivability threshold.
    pub out_of_sample_drawdown_excessive: bool,
    pub out_of_sample_trades: usize,
    pub min_trades_for_score: usize,
    pub deterministic_reproducible: bool,
}

/// The code at position `k` of the reason-code order applies.
pub open spec fn code_applies(
    k: int,
    inputs: ReasonInputs,
    stress: Seq<bool>,
    sensitivity: Seq<bool>,
    walk_forward: Seq<bool>,
) -> bool {
    if k == 0 {
        inputs.out_of_sample_unprofitable
    } else if k == 1 {
        inputs.out_of_sample_drawdown_excessive
    } else if k == 2 {
        mostly_failing(stress)
    } else if k == 3 {
        mostly_failing(sensitivity)
    } else if k == 4 {
        mostly_failing(walk_forward)
    } else if k == 5 {
        !inputs.deterministic_reproducible
    } else if k == 6 {
        inputs.out_of_sample_trades < inputs.min_trades_for_score
    } else {
        stress.len() == 0 || sensitivity.len() == 0 || walk_forward.len() == 0
    }
}

/// The reason codes in their order.
pub open spec fn code_at(k: int) -> ValidationReasonCode {
    if k == 0 {
        ValidationReasonCode::NegativeOutOfSamplePnl
    } else if k == 1 {
        ValidationReasonCode::ExcessiveOutOfSampleDrawdown
    } else if k == 2 {
        ValidationReasonCode::StressFailures
    } else if k == 3 {
        ValidationReasonCode::ParameterInstability
    } else if k == 4 {
        ValidationReasonCode::WalkForwardInstability
    } else if k == 5 {
        ValidationReasonCode::NonDeterministicResults
    } else if k == 6 {
        ValidationReasonCode::InsufficientTrades
    } else {
        ValidationReasonCode::InsufficientValidationCoverage
    }
}

/// The applicable codes among the first `n` of the order, in order.
pub open spec fn codes_upto(
    n: int,
    inputs: ReasonInputs,
    stress: Seq<bool>,
    sensitivity: Seq<bool>,
    walk_forward: Seq<bool>,
) -> Seq<ValidationReasonCode>
    decreases n,
{
    if n <= 0 {
        Seq::empty()
    } else {
        let prev = codes_upto(n - 1, inputs, stress, sensitivity, walk_forward);
        if code_applies(n - 1, inputs, stress, sensitivity, walk_forward) {
            prev.push(code_at(n - 1))
        } else {
            prev
        }
    }
}

/// Why a validation verdict came out as it did: every applicable reason
/// code, each once, in the codes' declared order.
pub fn derive_reason_codes(
    inputs: ReasonInputs,
    stress: &[bool],
    sensitivity: &[bool],
    walk_forward: &[bool],
) -> (codes: Vec<ValidationReasonCode>)
    ensures
        codes@ == codes_upto(8, inputs, stress@, sensitivity@, walk_forward@),
{
    let stress_failing = stress.len() > 0 && 2 * (pass_count(stress) as u128) < stress.len() as u128;
    let sensitivity_failing = sensitivity.len() > 0 && 2 * (pass_count(sensitivity) as u128)
        < sensitivity.len() as u128;
    let walk_forward_failing = walk_forward.len() > 0 && 2 * (pass_count(walk_forward) as u128)
        < walk_forward.len() as u128;
    let applies = [
        inputs.out_of_sample_unprofitable,
        inputs.out_of_sample_drawdown_excessive,
        stress_failing,
        sensitivity_failing,
        walk_forward_failing,
        !inputs.deterministic_reproducible,
        inputs.out_of_sample_trades < inputs.min_trades_for_score,
        stress.len() == 0 || sensitivity.len() == 0 || walk_forward.len() == 0,
    ];
    let order = [
        ValidationReasonCode::NegativeOutOfSamplePnl,
        ValidationReasonCode::ExcessiveOutOfSampleDrawdown,
        ValidationReasonCode::StressFailures,
        ValidationReasonCode::ParameterInstability,
        ValidationReasonCode::WalkForwardInstability,
        ValidationReasonCode::NonDeterministicResults,
        ValidationReasonCode::InsufficientTrades,
        ValidationReasonCode::InsufficientValidationCoverage,
    ];
    let mut codes: Vec<ValidationReasonCode> = Vec::new();
    let mut k: usize = 0;
    while k < 8
        invariant
            k <= 8,
            applies@.len() == 8,
            order@.len() == 8,
            forall|m: int| 0 <= m < 8 ==> #[trigger] applies@[m] == code_applies(m, inputs, stress@, sensitivity@, walk_forward@),
            forall|m: int| 0 <= m < 8 ==> #[trigger] order@[m] == code_at(m),
            codes@ == codes_upto(k as int, inputs, stress@, sensitivity@, walk_forward@),
        decreases 8 - k,
    {
        if applies[k] {
            codes.push(order[k]);
        }
        k = k + 1;
    }
    codes
}

/// The sentence that explains a reason code.
pub open spec fn reason_message_spec(code: ValidationReasonCode) -> Seq<char> {
    match code {
        ValidationReasonCode::NegativeOutOfSamplePnl => "Out-of-sample profitability was not positive"@,
        ValidationReasonCode::ExcessiveOutOfSampleDrawdown => "Out-of-sample drawdown exceeded the survivability threshold"@,
        ValidationReasonCode::StressFailures => "Stress scenarios degraded beyond acceptable survivability"@,
        ValidationReasonCode::ParameterInstability => "Parameter sensitivity indicates unstable robustness"@,
        ValidationReasonCode::WalkForwardInstability => "Walk-forward windows did not show stable survivability"@,
        ValidationReasonCode::NonDeterministicResults => "Repeated deterministic runs did not reconcile"@,
        ValidationReasonCode::InsufficientTrades => "Out-of-sample evidence contains too few trades"@,
        ValidationReasonCode::InsufficientValidationCoverage => "One or more optional robustness checks were omitted, reducing evidence quality"@,
    }
}

/// The sentence that explains a reason code.
pub fn reason_code_message(code: ValidationReasonCode) -> (message: String)
    ensures
        message@ == reason_message_spec(code),
{
    let text = match code {
        ValidationReasonCode::NegativeOutOfSamplePnl => "Out-of-sample profitability was not positive",
        ValidationReasonCode::ExcessiveOutOfSampleDrawdown => "Out-of-sample drawdown exceeded the survivability threshold",
        ValidationReasonCode::StressFailures => "Stress scenarios degraded beyond acceptable survivability",
        ValidationReasonCode::ParameterInstability => "Parameter sensitivity indicates unstable robustness",
        ValidationReasonCode::WalkForwardInstability => "Walk-forward windows did not show stable survivability",
        ValidationReasonCode::NonDeterministicResults => "Repeated deterministic runs did not reconcile",
        ValidationReasonCode::InsufficientTrades => "Out-of-sample evidence contains too few trades",
        ValidationReasonCode::InsufficientValidationCoverage => "One or more optional robustness checks were omitted, reducing evidence quality",
    };
    text.to_owned()
}

/// Where a validation score falls.
#[derive(Clone, Copy, Debug, PartialEq, Eq, Structural)]
pub struct ScoreBands {
    pub at_least_75: bool,
    pub at_least_60: bool,
    pub at_least_40: bool,
}

/// A run passes when it is reproducible, survives out of sample, passes at
/// least half of its stress scenarios and scores at least 75; otherwise the
/// score band decides between borderline, fragile and failing.
pub open spec fn verdict_spec(
    deterministic_reproducible: bool,
    out_of_sample_survives: bool,
    stress_half_pass: bool,
    bands: ScoreBands,
) -> RobustnessVerdict {
    if deterministic_reproducible && out_of_sample_survives && stress_half_pass && bands.at_least_75 {
        RobustnessVerdict::Passes
    } else if bands.at_least_60 {
        RobustnessVerdict::Borderline
    } else if bands.at_least_40 {
        RobustnessVerdict::Fragile
    } else {
        RobustnessVerdict::Fails
    }
}

/// The robustness verdict of a validation run.
pub fn robustness_verdict(
    deterministic_reproducible: bool,
    out_of_sample_survives: bool,
    stress_half_pass: bool,
    bands: ScoreBands,
) -> (verdict: RobustnessVerdict)
    ensures
        verdict == verdict_spec(
            deterministic_reproducible,
            out_of_sample_survives,
            stress_half_pass,
            bands,
        ),
        (verdict == RobustnessVerdict::Passes) == (deterministic_reproducible
            && out_of_sample_survives && stress_half_pass && bands.at_least_75),
        verdict != RobustnessVerdict::Passes ==> ((verdict == RobustnessVerdict::Borderline)
            == bands.at_least_60),
        verdict != RobustnessVerdict::Passes && !bands.at_least_60 ==> ((verdict
            == RobustnessVerdict::Fragile) == bands.at_least_40),
{
    if deterministic_reproducible && out_of_sample_survives && stress_half_pass && bands.at_least_75 {
        RobustnessVerdict::Passes
    } else if bands.at_least_60 {
        RobustnessVerdict::Borderline
    } else if bands.at_least_40 {
        RobustnessVerdict::Fragile
    } else {
        RobustnessVerdict::Fails
    }
}

/// A run passes exactly when it is reproducible, survives out of sample,
/// passes at least half of its stress scenarios and scores at least 75.
/// Any other run is borderline from a score of 60, fragile from 40, and
/// fails below that.
pub proof fn law_verdict_follows_the_gates(
    deterministic_reproducible: bool,
    out_of_sample_survives: bool,
    stress_half_pass: bool,
    bands: ScoreBands,
)
    ensures
        ({
            let verdict = verdict_spec(
                deterministic_reproducible,
                out_of_sample_survives,
                stress_half_pass,
                bands,
            );
            &&& (verdict == RobustnessVerdict::Passes) == (deterministic_reproducible
                && out_of_sample_survives && stress_half_pass && bands.at_least_75)
            &&& !stress_half_pass ==> verdict != RobustnessVerdict::Passes
            &&& verdict != RobustnessVerdict::Passes ==> ((verdict == RobustnessVerdict::Borderline)
                == bands.at_least_60)
            &&& verdict != RobustnessVerdict::Passes && !bands.at_least_60 ==> ((verdict
                == RobustnessVerdict::Fragile) == bands.at_least_40)
            &&& verdict != RobustnessVerdict::Passes && !bands.at_least_60 && !bands.at_least_40
                ==> verdict == RobustnessVerdict::Fails
        }),
{
}

/// A run without reproducible results never passes, and neither does one
/// whose optional checks were all omitted (no stress scenario can then
/// pass).
pub proof fn law_no_pass_without_reproducibility(
    out_of_sample_survives: bool,
    stress_half_pass: bool,
    bands: ScoreBands,
)
    ensures
        verdict_spec(false, out_of_sample_survives, stress_half_pass, bands)
            != RobustnessVerdict::Passes,
{
}

/// Omitting any optional check is always reported as insufficient
/// coverage, and a failing reproducibility check always as
/// non-deterministic results.
pub proof fn law_missing_checks_are_reported(
    inputs: ReasonInputs,
    stress: Seq<bool>,
    sensitivity: Seq<bool>,
    walk_forward: Seq<bool>,
)
    ensures
        (stress.len() == 0 || sensitivity.len() == 0 || walk_forward.len() == 0) ==> codes_upto(
            8,
            inputs,
            stress,
            sensitivity,
            walk_forward,
        ).contains(ValidationReasonCode::InsufficientValidationCoverage),
        !inputs.deterministic_reproducible ==> codes_upto(
            8,
            inputs,
            stress,
            sensitivity,
            walk_forward,
        ).contains(ValidationReasonCode::NonDeterministicResults),
{
    let all = codes_upto(8, inputs, stress, sensitivity, walk_forward);
    if stress.len() == 0 || sensitivity.len() == 0 || walk_forward.len() == 0 {
        assert(all[all.len() - 1] == ValidationReasonCode::InsufficientValidationCoverage);
    }
    if !inputs.deterministic_reproducible {
        let upto6 = codes_upto(6, inputs, stress, sensitivity, walk_forward);
        assert(upto6[upto6.len() - 1] == ValidationReasonCode::NonDeterministicResults);
        let upto7 = codes_upto(7, inputs, stress, sensitivity, walk_forward);
        assert(upto7[upto6.len() - 1] == ValidationReasonCode::NonDeterministicResults);
        assert(all[upto6.len() - 1] == ValidationReasonCode::NonDeterministicResults);
    }
}

} // verus!
