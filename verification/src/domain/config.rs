//! Configuration vocabulary that carries no prices: order type assumptions,
//! strategy definitions and their parameter overrides, run context.
use vstd::prelude::*;

verus! {

#[derive(Clone, Copy, Debug, PartialEq, Eq, Structural)]
pub enum OrderTypeAssumption {
    Market,
    Limit,
}

#[derive(Clone, Copy, Debug, PartialEq, Eq, Structural)]
pub enum MarketPriceReference {
    OpposingBest,
    Mid,
    LastTrade,
    CandleOpen,
}

#[derive(Clone, Copy, Debug, PartialEq, Eq, Structural)]
pub enum LimitFillAssumption {
    Touch,
    Through,
}

/// Default for boolean switches that are on unless configured off.
pub fn default_true() -> (value: bool)
    ensures
        value,
{
    true
}

/// Orders are market orders unless configured otherwise.
pub fn default_market_order() -> (assumption: OrderTypeAssumption)
    ensures
        assumption == OrderTypeAssumption::Market,
{
    OrderTypeAssumption::Market
}

/// Market orders reference the opposing best quote unless configured
/// otherwise.
pub fn default_market_price_reference() -> (reference: MarketPriceReference)
    ensures
        reference == MarketPriceReference::OpposingBest,
{
    MarketPriceReference::OpposingBest
}

/// Limit orders fill on touch unless configured otherwise.
pub fn default_limit_fill_assumption() -> (assumption: LimitFillAssumption)
    ensures
        assumption == LimitFillAssumption::Touch,
{
    LimitFillAssumption::Touch
}

/// Minimum out-of-sample trades for a full trade-sufficiency score unless
/// configured otherwise.
pub fn default_min_trades() -> (count: usize)
    ensures
        count == 3,
{
    3
}

/// Why a configuration is rejected.
#[derive(Clone, Copy, Debug, PartialEq, Eq, Structural)]
pub enum ConfigError {
    /// A moving average window is zero.
    MovingAverageWindowsNotPositive,
    /// The fast window is not smaller than the slow window.
    FastWindowNotSmaller,
    /// The named parameter cannot be overridden for this strategy.
    UnsupportedParameter,
    /// An order timeout in bars of zero.
    OrderTimeoutBarsZero,
    /// An order timeout in events of zero.
    OrderTimeoutEventsZero,
    /// The parameter sweep at this position has no values.
    EmptySweep { index: usize },
    /// The regime window at this position does not start before it ends.
    RegimeWindowNotIncreasing { index: usize },
}

/// A rule-based strategy.
#[derive(Clone, Copy, Debug, PartialEq, Eq, Structural)]
pub enum StrategyDefinition {
    MovingAverageCross { fast_window: usize, slow_window: usize },
}

/// A value in a parameter sweep: an integer, or a float kept as its IEEE-754
/// bit pattern (the rules here never read a float's value).
#[derive(Clone, Copy, Debug, PartialEq, Eq, Structural)]
pub enum ParameterValue {
    Int(i64),
    Float(u64),
}

/// A named list of values to sweep.
#[derive(Clone, Debug)]
pub struct ParameterSweep {
    pub name: String,
    pub values: Vec<ParameterValue>,
}

/// Result of overriding one strategy parameter.
pub open spec fn apply_parameter_spec(
    definition: StrategyDefinition,
    name: Seq<char>,
    value: ParameterValue,
) -> Result<StrategyDefinition, ConfigError> {
    match (definition, value) {
        (StrategyDefinition::MovingAverageCross { fast_window, slow_window }, ParameterValue::Int(v)) => {
            if name == "fast_window"@ && v > 0 {
                Ok(StrategyDefinition::MovingAverageCross { fast_window: v as usize, slow_window })
            } else if name == "slow_window"@ && v > 0 {
                Ok(StrategyDefinition::MovingAverageCross { fast_window, slow_window: v as usize })
            } else {
                Err(ConfigError::UnsupportedParameter)
            }
        },
        _ => Err(ConfigError::UnsupportedParameter),
    }
}

/// Whether two strings hold the same characters.
pub fn same_text(a: &str, b: &str) -> (result: bool)
    ensures
        result == (a@ == b@),
{
    a.to_owned() == b.to_owned()
}

impl StrategyDefinition {
    /// Both windows must be positive and the fast window smaller than the
    /// slow one.
    pub fn validate(&self) -> (result: Result<(), ConfigError>)
        ensures
            match *self {
                StrategyDefinition::MovingAverageCross { fast_window, slow_window } => {
                    &&& (fast_window == 0 || slow_window == 0) ==> result == Err::<(), ConfigError>(
                        ConfigError::MovingAverageWindowsNotPositive,
                    )
                    &&& (fast_window != 0 && slow_window != 0 && fast_window >= slow_window) ==> result
                        == Err::<(), ConfigError>(ConfigError::FastWindowNotSmaller)
                    &&& (fast_window != 0 && slow_window != 0 && fast_window < slow_window) ==> result
                        is Ok
                },
            },
    {
        match self {
            StrategyDefinition::MovingAverageCross { fast_window, slow_window } => {
                if *fast_window == 0 || *slow_window == 0 {
                    return Err(ConfigError::MovingAverageWindowsNotPositive);
                }
                if *fast_window >= *slow_window {
                    return Err(ConfigError::FastWindowNotSmaller);
                }
            },
        }
        Ok(())
    }

    /// Override one parameter: `fast_window` or `slow_window`, with a
    /// positive integer.
    pub fn apply_parameter(&self, name: &str, value: &ParameterValue) -> (result: Result<
        StrategyDefinition,
        ConfigError,
    >)
        ensures
            result == apply_parameter_spec(*self, name@, *value),
    {
        match (self, value) {
            (
                StrategyDefinition::MovingAverageCross { fast_window, slow_window },
                ParameterValue::Int(v),
            ) => {
                if same_text(name, "fast_window") && *v > 0 {
                    Ok(
                        StrategyDefinition::MovingAverageCross {
                            fast_window: *v as usize,
                            slow_window: *slow_window,
                        },
                    )
                } else if same_text(name, "slow_window") && *v > 0 {
                    Ok(
                        StrategyDefinition::MovingAverageCross {
                            fast_window: *fast_window,
                            slow_window: *v as usize,
                        },
                    )
                } else {
                    Err(ConfigError::UnsupportedParameter)
                }
            },
            _ => Err(ConfigError::UnsupportedParameter),
        }
    }
}

/// Where a run comes from.
#[derive(Clone, Debug)]
pub struct RunContext {
    pub symbol: String,
    pub venue: Option<String>,
    pub timeframe: String,
    pub run_label: Option<String>,
}

/// Provenance of a report.
#[derive(Clone, Debug)]
pub struct RunMetadata {
    pub engine_version: String,
    pub artifact_schema_version: String,
    pub run_signature: String,
    pub deterministic_seed: u64,
}

/// A named time window; times are nanoseconds since the Unix epoch (UTC).
#[derive(Clone, Debug)]
pub struct RegimeWindow {
    pub name: String,
    pub start: i64,
    pub end: i64,
}


/// Order timeouts, when given, are at least one step.
pub fn validate_order_timeouts(bars: Option<usize>, events: Option<usize>) -> (result: Result<
    (),
    ConfigError,
>)
    ensures
        result == (if bars == Some(0usize) {
            Err(ConfigError::OrderTimeoutBarsZero)
        } else if events == Some(0usize) {
            Err(ConfigError::OrderTimeoutEventsZero)
        } else {
            Ok(())
        }),
{
    if bars == Some(0usize) {
        return Err(ConfigError::OrderTimeoutBarsZero);
    }
    if events == Some(0usize) {
        return Err(ConfigError::OrderTimeoutEventsZero);
    }
    Ok(())
}

/// Every parameter sweep offers at least one value; the first empty sweep
/// is reported.
pub fn validate_sweeps(sweeps: &[ParameterSweep]) -> (result: Result<(), ConfigError>)
    ensures
        match result {
            Ok(()) => forall|k: int| 0 <= k < sweeps@.len() ==> (#[trigger] sweeps@[k]).values@.len() > 0,
            Err(e) => e matches ConfigError::EmptySweep { index } && index < sweeps@.len()
                && sweeps@[index as int].values@.len() == 0 && forall|k: int|
                0 <= k < index ==> (#[trigger] sweeps@[k]).values@.len() > 0,
        },
{
    let n = sweeps.len();
    let mut k: usize = 0;
    while k < n
        invariant
            n == sweeps@.len(),
            k <= n,
            forall|m: int| 0 <= m < k ==> (#[trigger] sweeps@[m]).values@.len() > 0,
        decreases n - k,
    {
        if sweeps[k].values.len() == 0 {
            return Err(ConfigError::EmptySweep { index: k });
        }
        k = k + 1;
    }
    Ok(())
}

/// Every regime window starts before it ends; the first that does not is
/// reported.
pub fn validate_regime_windows(windows: &[RegimeWindow]) -> (result: Result<(), ConfigError>)
    ensures
        match result {
            Ok(()) => forall|k: int| 0 <= k < windows@.len() ==> (#[trigger] windows@[k]).start < windows@[k].end,
            Err(e) => e matches ConfigError::RegimeWindowNotIncreasing { index } && index
                < windows@.len() && windows@[index as int].start >= windows@[index as int].end
                && forall|k: int| 0 <= k < index ==> (#[trigger] windows@[k]).start < windows@[k].end,
        },
{
    let n = windows.len();
    let mut k: usize = 0;
    while k < n
        invariant
            n == windows@.len(),
            k <= n,
            forall|m: int| 0 <= m < k ==> (#[trigger] windows@[m]).start < windows@[m].end,
        decreases n - k,
    {
        if windows[k].start >= windows[k].end {
            return Err(ConfigError::RegimeWindowNotIncreasing { index: k });
        }
        k = k + 1;
    }
    Ok(())
}


/// The context of a benchmark run on the `BTC-PERP` fixture.
pub fn base_context(label: &str, timeframe: &str) -> (context: RunContext)
    ensures
        context.symbol@ == "BTC-PERP"@,
        context.venue matches Some(v) && v@ == "bench"@,
        context.timeframe@ == timeframe@,
        context.run_label matches Some(l) && l@ == label@,
{
    RunContext {
        symbol: "BTC-PERP".to_owned(),
        venue: Some("bench".to_owned()),
        timeframe: timeframe.to_owned(),
        run_label: Some(label.to_owned()),
    }
}

} // verus!
