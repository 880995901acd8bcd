//! Deterministic replay plan for fixed-payout binary option signals.
//!
//! Given candle times and a signal stream, decides for every signal whether
//! it trades and against which candles, under these conventions:
//! - A signal with timestamp T enters at the first candle whose timestamp is
//!   at or after T (next-bar-open), but only if that candle is less than one
//!   candle interval after T; later entries are stale.
//! - Settlement uses the candle whose span ends exactly at
//!   `entry_time + expiry_seconds`.
//! - Signals that cannot enter or settle (gaps, end of data, a stale entry)
//!   are counted as missing data, never dropped; stale entries are also
//!   counted on their own.
//! - At most `max_concurrent` positions may be open; excess signals are
//!   counted as overlap.
//! - `no_trade` signals count toward opportunities only.
//!
//! Times are nanoseconds since the Unix epoch (UTC); spacing is compared in
//! whole milliseconds.
use vstd::prelude::*;

use crate::domain::binary::{open_at, open_count, BinaryAction, BinaryPosition, TieBehavior};
use crate::engine::replay::{time_keys, time_order};
use crate::ordering::{is_replay_order, lemma_replay_order_is_unique, precedes};

verus! {

/// Replay configuration for binary option signals.
#[derive(Clone, Copy, Debug, PartialEq, Eq, Structural)]
pub struct BinaryBacktestConfig {
    pub tie_behavior: TieBehavior,
    /// Maximum simultaneously open positions (risk engine constraint).
    pub max_concurrent: usize,
}

impl Default for BinaryBacktestConfig {
    fn default() -> (config: Self)
        ensures
            config.tie_behavior == TieBehavior::RefundStake,
            config.max_concurrent == 1,
    {
        BinaryBacktestConfig { tie_behavior: TieBehavior::RefundStake, max_concurrent: 1 }
    }
}

/// What the plan needs to know about one signal.
#[derive(Clone, Copy, Debug, PartialEq, Eq, Structural)]
pub struct BinarySignalFacts {
    /// Signal time, nanoseconds since the Unix epoch (UTC).
    pub timestamp: i64,
    pub action: BinaryAction,
    /// Contract length in seconds.
    pub expiry_seconds: u32,
    /// Whether the signal passed its own validity check.
    pub valid: bool,
}

/// A signal that enters and settles.
#[derive(Clone, Copy, Debug, PartialEq, Eq, Structural)]
pub struct PlannedTrade {
    /// Index of the signal in the input.
    pub signal: usize,
    /// Index of the entry candle in the input; entry is at its open.
    pub entry_candle: usize,
    /// Index of the settlement candle in the input; settlement is at its
    /// close.
    pub settlement_candle: usize,
    /// Entry time, nanoseconds since the Unix epoch (UTC).
    pub entry_time: i64,
    pub expiry_seconds: u32,
}

/// Why a binary replay cannot be planned.
#[derive(Clone, Copy, Debug, PartialEq, Eq, Structural)]
pub enum BinaryPlanError {
    MaxConcurrentBelowOne,
    TooFewCandles,
    /// The first two candles (in time order) share a timestamp.
    CandlesNotIncreasing,
    /// The step ending at this candle is not a positive whole multiple of
    /// the base interval (both in milliseconds).
    IrregularSpacing { candle: usize, step_ms: i128, interval_ms: i128 },
    /// The signal at this index failed its validity check.
    InvalidSignal { signal: usize },
    /// The signal's expiry is not a whole multiple of the candle interval.
    ExpiryNotMultiple { signal: usize, interval_ms: i128 },
}

/// The decisions of a binary replay.
#[derive(Debug)]
pub struct BinaryPlan {
    /// Every decision the model made, including no_trade.
    pub opportunities: usize,
    pub no_trade_decisions: usize,
    pub trade_intents: usize,
    /// Intents rejected by the concurrency limit.
    pub skipped_overlap: usize,
    /// Intents rejected because entry was stale or a candle was missing at
    /// entry or settlement (gaps, end of data).
    pub skipped_missing_data: usize,
    /// The stale entries among them: the first candle came a full interval
    /// or more after the signal.
    pub skipped_stale_entry: usize,
    pub executed: usize,
    /// Trades in the order they were taken.
    pub trades: Vec<PlannedTrade>,
}

/// Running tally of the decisions.
pub struct PlanTally {
    pub no_trade: nat,
    pub missing_data: nat,
    pub stale_entry: nat,
    pub overlap: nat,
    pub trades: Seq<PlannedTrade>,
    /// For each overlap rejection, in order: the entry time the signal
    /// would have had and how many trades had been taken by then.
    pub overlaps: Seq<(int, nat)>,
}

pub open spec fn empty_tally() -> PlanTally {
    PlanTally {
        no_trade: 0,
        missing_data: 0,
        stale_entry: 0,
        overlap: 0,
        trades: Seq::empty(),
        overlaps: Seq::empty(),
    }
}

/// The time order of `times` (unique, see `lemma_replay_order_is_unique`).
pub open spec fn order_of(times: Seq<i64>) -> Seq<usize> {
    choose|order: Seq<usize>| is_replay_order(time_keys(times), order)
}

pub open spec fn sorted_times(times: Seq<i64>, order: Seq<usize>) -> Seq<i64> {
    Seq::new(order.len(), |k: int| times[order[k] as int])
}

/// Whole milliseconds in a non-negative span of nanoseconds.
pub open spec fn millis(nanos: int) -> int {
    nanos / 1_000_000
}

pub open spec fn step_millis(ct: Seq<i64>, k: int) -> int {
    millis(ct[k + 1] - ct[k])
}

pub open spec fn step_regular(ct: Seq<i64>, k: int, interval_ms: int) -> bool {
    step_millis(ct, k) > 0 && step_millis(ct, k) % interval_ms == 0
}

/// First step, from `k` on, that is not a positive multiple of the interval.
pub open spec fn first_irregular_from(ct: Seq<i64>, interval_ms: int, k: int) -> Option<int>
    decreases ct.len() - k,
{
    if k < 0 || k + 1 >= ct.len() {
        None
    } else if !step_regular(ct, k, interval_ms) {
        Some(k)
    } else {
        first_irregular_from(ct, interval_ms, k + 1)
    }
}

/// Position of the first time at or after `t`; the length if there is none.
pub open spec fn first_at_or_after(ct: Seq<i64>, t: int) -> nat
    decreases ct.len(),
{
    if ct.len() == 0 {
        0
    } else if ct[0] >= t {
        0
    } else {
        1 + first_at_or_after(ct.drop_first(), t)
    }
}

/// Position of the last time equal to `target`; -1 if there is none.
pub open spec fn last_at(ct: Seq<i64>, target: int) -> int
    decreases ct.len(),
{
    if ct.len() == 0 {
        -1
    } else if ct.last() == target {
        ct.len() - 1
    } else {
        last_at(ct.drop_last(), target)
    }
}

pub open spec fn trade_expiry(trade: PlannedTrade) -> int {
    trade.entry_time + trade.expiry_seconds * 1_000_000_000
}

/// Number of taken trades that are still open after instant `t`.
pub open spec fn still_open(trades: Seq<PlannedTrade>, t: int) -> nat
    decreases trades.len(),
{
    if trades.len() == 0 {
        0
    } else {
        still_open(trades.drop_last(), t) + if trade_expiry(trades.last()) > t {
            1nat
        } else {
            0nat
        }
    }
}

/// The candle grid the signals are planned against.
pub struct CandleGrid {
    /// Candle indices in time order.
    pub order: Seq<usize>,
    /// Candle times in time order.
    pub times: Seq<i64>,
    /// Span between the first two candles, in nanoseconds.
    pub interval: int,
}

pub open spec fn interval_millis(grid: CandleGrid) -> int {
    millis(grid.interval)
}

/// Decision for one signal, given the trades taken so far.
pub open spec fn plan_signal(
    grid: CandleGrid,
    max_concurrent: nat,
    tally: PlanTally,
    index: usize,
    s: BinarySignalFacts,
) -> Result<PlanTally, BinaryPlanError> {
    if !s.valid {
        Err(BinaryPlanError::InvalidSignal { signal: index })
    } else if s.action == BinaryAction::NoTrade {
        Ok(PlanTally { no_trade: tally.no_trade + 1, ..tally })
    } else if (s.expiry_seconds * 1000) % interval_millis(grid) != 0 {
        Err(
            BinaryPlanError::ExpiryNotMultiple {
                signal: index,
                interval_ms: interval_millis(grid) as i128,
            },
        )
    } else {
        let p = first_at_or_after(grid.times, s.timestamp as int);
        if p >= grid.times.len() {
            Ok(PlanTally { missing_data: tally.missing_data + 1, ..tally })
        } else if grid.times[p as int] - s.timestamp >= grid.interval {
            Ok(
                PlanTally {
                    missing_data: tally.missing_data + 1,
                    stale_entry: tally.stale_entry + 1,
                    ..tally
                },
            )
        } else if still_open(tally.trades, grid.times[p as int] as int) >= max_concurrent {
            Ok(
                PlanTally {
                    overlap: tally.overlap + 1,
                    overlaps: tally.overlaps.push(
                        (grid.times[p as int] as int, tally.trades.len()),
                    ),
                    ..tally
                },
            )
        } else {
            let expiry = grid.times[p as int] + s.expiry_seconds * 1_000_000_000;
            let q = last_at(grid.times, expiry - grid.interval);
            if q < 0 {
                Ok(PlanTally { missing_data: tally.missing_data + 1, ..tally })
            } else {
                Ok(
                    PlanTally {
                        trades: tally.trades.push(
                            PlannedTrade {
                                signal: index,
                                entry_candle: grid.order[p as int],
                                settlement_candle: grid.order[q],
                                entry_time: grid.times[p as int],
                                expiry_seconds: s.expiry_seconds,
                            },
                        ),
                        ..tally
                    },
                )
            }
        }
    }
}

/// Decisions for the first `k` signals in time order `so`.
pub open spec fn plan_fold(
    grid: CandleGrid,
    max_concurrent: nat,
    signals: Seq<BinarySignalFacts>,
    so: Seq<usize>,
    k: nat,
) -> Result<PlanTally, BinaryPlanError>
    decreases k,
{
    if k == 0 {
        Ok(empty_tally())
    } else {
        match plan_fold(grid, max_concurrent, signals, so, (k - 1) as nat) {
            Err(e) => Err(e),
            Ok(tally) => plan_signal(
                grid,
                max_concurrent,
                tally,
                so[k - 1],
                signals[so[k - 1] as int],
            ),
        }
    }
}

pub open spec fn grid_of(times: Seq<i64>) -> CandleGrid {
    let order = order_of(times);
    let ct = sorted_times(times, order);
    CandleGrid { order, times: ct, interval: ct[1] - ct[0] }
}

/// The whole plan, from the candle times, the signals and the limit.
pub open spec fn binary_plan_spec(
    times: Seq<i64>,
    signals: Seq<BinarySignalFacts>,
    max_concurrent: usize,
) -> Result<PlanTally, BinaryPlanError> {
    if max_concurrent < 1 {
        Err(BinaryPlanError::MaxConcurrentBelowOne)
    } else if times.len() < 2 {
        Err(BinaryPlanError::TooFewCandles)
    } else {
        let grid = grid_of(times);
        if grid.interval <= 0 {
            Err(BinaryPlanError::CandlesNotIncreasing)
        } else {
            match first_irregular_from(grid.times, interval_millis(grid), 0) {
                Some(k) => Err(
                    BinaryPlanError::IrregularSpacing {
                        candle: grid.order[k + 1],
                        step_ms: step_millis(grid.times, k) as i128,
                        interval_ms: interval_millis(grid) as i128,
                    },
                ),
                None => plan_fold(
                    grid,
                    max_concurrent as nat,
                    signals,
                    order_of(signal_times(signals)),
                    signals.len(),
                ),
            }
        }
    }
}

pub open spec fn signal_times(signals: Seq<BinarySignalFacts>) -> Seq<i64> {
    Seq::new(signals.len(), |i: int| signals[i].timestamp)
}

/// The plan's counts and trades are those of the tally.
pub open spec fn plan_reports(plan: BinaryPlan, tally: PlanTally, opportunities: nat) -> bool {
    &&& plan.opportunities == opportunities
    &&& plan.no_trade_decisions == tally.no_trade
    &&& plan.trade_intents == opportunities - tally.no_trade
    &&& plan.skipped_overlap == tally.overlap
    &&& plan.skipped_missing_data == tally.missing_data
    &&& plan.skipped_stale_entry == tally.stale_entry
    &&& plan.executed == tally.trades.len()
    &&& plan.trades@ == tally.trades
}

proof fn lemma_order_of(times: Seq<i64>, order: Seq<usize>)
    requires
        is_replay_order(time_keys(times), order),
    ensures
        order_of(times) == order,
{
    lemma_replay_order_is_unique(time_keys(times), order_of(times), order);
}

/// In time order, times never decrease.
proof fn lemma_sorted_nondecreasing(times: Seq<i64>, order: Seq<usize>, a: int, b: int)
    requires
        is_replay_order(time_keys(times), order),
        0 <= a <= b < order.len(),
    ensures
        sorted_times(times, order)[a] <= sorted_times(times, order)[b],
{
    if a < b {
        assert(precedes(time_keys(times), order[a] as int, order[b] as int));
    }
}

/// Characterisation of `first_at_or_after`.
proof fn lemma_first_at_or_after(ct: Seq<i64>, t: int)
    ensures
        first_at_or_after(ct, t) <= ct.len(),
        forall|k: int| 0 <= k < first_at_or_after(ct, t) ==> ct[k] < t,
        first_at_or_after(ct, t) < ct.len() ==> ct[first_at_or_after(ct, t) as int] >= t,
    decreases ct.len(),
{
    if ct.len() > 0 && ct[0] < t {
        lemma_first_at_or_after(ct.drop_first(), t);
        assert forall|k: int| 0 <= k < first_at_or_after(ct, t) implies ct[k] < t by {
            if k > 0 {
                assert(ct[k] == ct.drop_first()[k - 1]);
            }
        }
    }
}

/// Characterisation of `last_at`.
proof fn lemma_last_at(ct: Seq<i64>, target: int)
    ensures
        -1 <= last_at(ct, target) < ct.len(),
        last_at(ct, target) >= 0 ==> ct[last_at(ct, target)] == target,
        forall|k: int| last_at(ct, target) < k < ct.len() ==> ct[k] != target,
    decreases ct.len(),
{
    if ct.len() > 0 && ct.last() != target {
        lemma_last_at(ct.drop_last(), target);
        assert forall|k: int| last_at(ct, target) < k < ct.len() implies ct[k] != target by {
            if k < ct.len() - 1 {
                assert(ct[k] == ct.drop_last()[k]);
            }
        }
    }
}

proof fn lemma_fold_error_persists(
    grid: CandleGrid,
    max_concurrent: nat,
    signals: Seq<BinarySignalFacts>,
    so: Seq<usize>,
    j: nat,
    k: nat,
)
    requires
        j <= k,
        plan_fold(grid, max_concurrent, signals, so, j) is Err,
    ensures
        plan_fold(grid, max_concurrent, signals, so, k) == plan_fold(
            grid,
            max_concurrent,
            signals,
            so,
            j,
        ),
    decreases k - j,
{
    if j < k {
        lemma_fold_error_persists(grid, max_concurrent, signals, so, j, (k - 1) as nat);
    }
}

proof fn lemma_first_irregular_none(ct: Seq<i64>, interval_ms: int, k: int)
    requires
        0 <= k,
        first_irregular_from(ct, interval_ms, k) is None,
    ensures
        forall|j: int| k <= j && j + 1 < ct.len() ==> step_regular(ct, j, interval_ms),
    decreases ct.len() - k,
{
    if k + 1 < ct.len() {
        lemma_first_irregular_none(ct, interval_ms, k + 1);
    }
}

/// First position whose time is at or after `t`; the length if none.
fn first_candle_at_or_after(ct: &Vec<i64>, t: i64) -> (p: usize)
    ensures
        p == first_at_or_after(ct@, t as int),
{
    let mut p: usize = 0;
    while p < ct.len() && ct[p] < t
        invariant
            p <= ct@.len(),
            forall|k: int| 0 <= k < p ==> ct@[k] < t,
        decreases ct@.len() - p,
    {
        p = p + 1;
    }
    proof {
        lemma_first_at_or_after(ct@, t as int);
        let f = first_at_or_after(ct@, t as int);
        if f < p {
            assert(ct@[f as int] < t);
        }
        if p < f {
            assert(ct@[p as int] < t);
        }
    }
    p
}

/// Last position whose time equals `target`.
fn last_candle_at(ct: &Vec<i64>, target: i128) -> (q: Option<usize>)
    ensures
        q is None <==> last_at(ct@, target as int) < 0,
        q matches Some(q) ==> q == last_at(ct@, target as int),
{
    let mut i: usize = ct.len();
    while i > 0
        invariant
            i <= ct@.len(),
            forall|k: int| i <= k < ct@.len() ==> ct@[k] != target,
        decreases i,
    {
        if ct[i - 1] as i128 == target {
            proof {
                lemma_last_at(ct@, target as int);
                let l = last_at(ct@, target as int);
                if l > i - 1 {
                    assert(ct@[l] == target);
                }
                if l < i - 1 {
                    assert(ct@[i - 1] == target);
                }
            }
            return Some(i - 1);
        }
        i = i - 1;
    }
    proof {
        lemma_last_at(ct@, target as int);
        let l = last_at(ct@, target as int);
        if l >= 0 {
            assert(ct@[l] == target);
        }
    }
    None
}

/// Number of taken trades still open after `t`.
fn count_still_open(trades: &Vec<PlannedTrade>, t: i64) -> (count: usize)
    ensures
        count == still_open(trades@, t as int),
{
    let mut count: usize = 0;
    let mut i: usize = 0;
    while i < trades.len()
        invariant
            i <= trades@.len(),
            count == still_open(trades@.subrange(0, i as int), t as int),
            count <= i,
        decreases trades@.len() - i,
    {
        proof {
            assert(trades@.subrange(0, i as int + 1).drop_last() =~= trades@.subrange(0, i as int));
        }
        let expiry = trades[i].entry_time as i128 + trades[i].expiry_seconds as i128 * 1_000_000_000;
        if expiry > t as i128 {
            count = count + 1;
        }
        i = i + 1;
    }
    proof {
        assert(trades@.subrange(0, trades@.len() as int) =~= trades@);
    }
    count
}

/// Plan a binary replay: validate the candle grid, then decide every signal
/// in time order (see the module documentation for the conventions).
pub fn plan_binary_backtest(
    candle_times: &[i64],
    signals: &[BinarySignalFacts],
    config: &BinaryBacktestConfig,
) -> (result: Result<BinaryPlan, BinaryPlanError>)
    ensures
        match result {
            Ok(plan) => {
                &&& binary_plan_spec(candle_times@, signals@, config.max_concurrent) matches Ok(
                    tally,
                ) && plan_reports(plan, tally, signals@.len())
                &&& plan.trade_intents == plan.executed + plan.skipped_overlap
                    + plan.skipped_missing_data
                &&& plan.skipped_stale_entry <= plan.skipped_missing_data
            },
            Err(e) => binary_plan_spec(candle_times@, signals@, config.max_concurrent) == Err::<
                PlanTally,
                BinaryPlanError,
            >(e),
        },
{
    if config.max_concurrent < 1 {
        return Err(BinaryPlanError::MaxConcurrentBelowOne);
    }
    let n = candle_times.len();
    if n < 2 {
        return Err(BinaryPlanError::TooFewCandles);
    }
    let co = time_order(candle_times);
    proof {
        lemma_order_of(candle_times@, co@);
    }
    let mut st: Vec<i64> = Vec::new();
    let mut k: usize = 0;
    while k < n
        invariant
            k <= n,
            n == candle_times@.len(),
            co@.len() == n,
            is_replay_order(time_keys(candle_times@), co@),
            st@.len() == k,
            forall|j: int| 0 <= j < k ==> #[trigger] st@[j] == sorted_times(candle_times@, co@)[j],
        decreases n - k,
    {
        st.push(candle_times[co[k]]);
        k = k + 1;
    }
    let ghost grid = grid_of(candle_times@);
    proof {
        assert(st@ =~= sorted_times(candle_times@, co@));
        assert(grid.times == st@);
        assert(grid.order == co@);
    }
    let interval: i128 = st[1] as i128 - st[0] as i128;
    if interval <= 0 {
        return Err(BinaryPlanError::CandlesNotIncreasing);
    }
    let interval_ms: i128 = interval / 1_000_000;
    let mut k: usize = 0;
    while k + 1 < n
        invariant
            n == st@.len(),
            n == candle_times@.len(),
            config.max_concurrent >= 1,
            n >= 2,
            grid == grid_of(candle_times@),
            grid.times == st@,
            grid.order == co@,
            co@.len() == n,
            grid.interval == interval,
            interval > 0,
            interval_ms == interval_millis(grid),
            is_replay_order(time_keys(candle_times@), co@),
            st@ == sorted_times(candle_times@, co@),
            k + 1 <= n,
            k > 0 ==> interval_ms > 0,
            interval == st@[1] - st@[0],
            first_irregular_from(st@, interval_ms as int, 0) == first_irregular_from(
                st@,
                interval_ms as int,
                k as int,
            ),
        decreases n - k,
    {
        proof {
            lemma_sorted_nondecreasing(candle_times@, co@, k as int, k as int + 1);
        }
        let step_ms: i128 = (st[k + 1] as i128 - st[k] as i128) / 1_000_000;
        assert(step_ms == step_millis(st@, k as int));
        assert(k == 0 ==> step_ms == interval_ms);
        if step_ms <= 0 || step_ms % interval_ms != 0 {
            assert(!step_regular(st@, k as int, interval_ms as int));
            assert(first_irregular_from(st@, interval_ms as int, k as int) == Some(k as int));
            assert(grid == grid_of(candle_times@));
            assert(grid.interval > 0);
            assert(first_irregular_from(grid.times, interval_millis(grid), 0) == Some(k as int));
            assert(grid.order[k + 1] == co@[k + 1]);
            assert(step_millis(grid.times, k as int) as i128 == step_ms);
            assert(interval_millis(grid) as i128 == interval_ms);
            assert(binary_plan_spec(candle_times@, signals@, config.max_concurrent) == Err::<
                PlanTally,
                BinaryPlanError,
            >(BinaryPlanError::IrregularSpacing { candle: co[k + 1], step_ms, interval_ms }));
            return Err(
                BinaryPlanError::IrregularSpacing { candle: co[k + 1], step_ms, interval_ms },
            );
        }
        assert(step_regular(st@, k as int, interval_ms as int));
        k = k + 1;
    }
    proof {
        assert(first_irregular_from(st@, interval_ms as int, k as int) is None);
    }
    // signals in time order
    let mut signal_ts: Vec<i64> = Vec::new();
    let mut j: usize = 0;
    while j < signals.len()
        invariant
            j <= signals@.len(),
            signal_ts@.len() == j,
            forall|i: int| 0 <= i < j ==> #[trigger] signal_ts@[i] == signal_times(signals@)[i],
        decreases signals@.len() - j,
    {
        signal_ts.push(signals[j].timestamp);
        j = j + 1;
    }
    proof {
        assert(signal_ts@ =~= signal_times(signals@));
    }
    let so = time_order(signal_ts.as_slice());
    proof {
        lemma_order_of(signal_times(signals@), so@);
    }
    let ghost max = config.max_concurrent as nat;
    assert(binary_plan_spec(candle_times@, signals@, config.max_concurrent) == plan_fold(
        grid,
        max,
        signals@,
        so@,
        signals@.len(),
    ));
    let mut no_trade: usize = 0;
    let mut missing: usize = 0;
    let mut stale: usize = 0;
    let mut overlap: usize = 0;
    let mut trades: Vec<PlannedTrade> = Vec::new();
    let ghost mut overlaps: Seq<(int, nat)> = Seq::empty();
    let mut j: usize = 0;
    while j < signals.len()
        invariant
            j <= signals@.len(),
            so@.len() == signals@.len(),
            is_replay_order(time_keys(signal_times(signals@)), so@),
            n == st@.len(),
            n == candle_times@.len(),
            config.max_concurrent >= 1,
            n >= 2,
            grid == grid_of(candle_times@),
            grid.times == st@,
            grid.order == co@,
            co@.len() == n,
            grid.interval == interval,
            interval > 0,
            interval_ms == interval_millis(grid),
            interval_ms > 0,
            interval == st@[1] - st@[0],
            max == config.max_concurrent,
            plan_fold(grid, max, signals@, so@, j as nat) == Ok::<PlanTally, BinaryPlanError>(
                PlanTally {
                    no_trade: no_trade as nat,
                    missing_data: missing as nat,
                    stale_entry: stale as nat,
                    overlap: overlap as nat,
                    trades: trades@,
                    overlaps,
                },
            ),
            no_trade + missing + overlap + trades@.len() == j,
            stale <= missing,
            binary_plan_spec(candle_times@, signals@, config.max_concurrent) == plan_fold(
                grid,
                max,
                signals@,
                so@,
                signals@.len(),
            ),
        decreases signals@.len() - j,
    {
        let index = so[j];
        proof {
            assert(so@[j as int] < signals@.len());
        }
        let s = signals[index];
        if !s.valid {
            proof {
                lemma_fold_error_persists(grid, max, signals@, so@, (j + 1) as nat, signals@.len());
            }
            return Err(BinaryPlanError::InvalidSignal { signal: index });
        }
        if !s.action.is_trade() {
            no_trade = no_trade + 1;
            j = j + 1;
            continue;
        }
        let expiry_ms: i128 = s.expiry_seconds as i128 * 1000;
        if expiry_ms % interval_ms != 0 {
            proof {
                lemma_fold_error_persists(grid, max, signals@, so@, (j + 1) as nat, signals@.len());
            }
            return Err(BinaryPlanError::ExpiryNotMultiple { signal: index, interval_ms });
        }
        let p = first_candle_at_or_after(&st, s.timestamp);
        if p >= n {
            missing = missing + 1;
            j = j + 1;
            continue;
        }
        let entry_time = st[p];
        if entry_time as i128 - s.timestamp as i128 >= interval {
            missing = missing + 1;
            stale = stale + 1;
            j = j + 1;
            continue;
        }
        if count_still_open(&trades, entry_time) >= config.max_concurrent {
            proof {
                overlaps = overlaps.push((entry_time as int, trades@.len()));
            }
            overlap = overlap + 1;
            j = j + 1;
            continue;
        }
        let expiry: i128 = entry_time as i128 + s.expiry_seconds as i128 * 1_000_000_000;
        proof {
            lemma_last_at(st@, expiry - interval);
        }
        match last_candle_at(&st, expiry - interval) {
            None => {
                missing = missing + 1;
            },
            Some(q) => {
                trades.push(
                    PlannedTrade {
                        signal: index,
                        entry_candle: co[p],
                        settlement_candle: co[q],
                        entry_time,
                        expiry_seconds: s.expiry_seconds,
                    },
                );
            },
        }
        j = j + 1;
    }
    let opportunities = signals.len();
    let executed = trades.len();
    Ok(
        BinaryPlan {
            opportunities,
            no_trade_decisions: no_trade,
            trade_intents: opportunities - no_trade,
            skipped_overlap: overlap,
            skipped_missing_data: missing,
            skipped_stale_entry: stale,
            executed,
            trades,
        },
    )
}


/// The window of each taken trade.
pub open spec fn positions_of(trades: Seq<PlannedTrade>) -> Seq<BinaryPosition> {
    Seq::new(
        trades.len(),
        |i: int| BinaryPosition { entry_time: trades[i].entry_time, expiry_seconds: trades[i].expiry_seconds },
    )
}

pub open spec fn entries_nondecreasing(trades: Seq<PlannedTrade>) -> bool {
    forall|a: int, b: int|
        0 <= a < b < trades.len() ==> (#[trigger] trades[a]).entry_time <= (#[trigger] trades[b]).entry_time
}

/// Each trade was taken while fewer than `max_concurrent` earlier trades were
/// still open.
pub open spec fn admitted_under_limit(trades: Seq<PlannedTrade>, max_concurrent: nat) -> bool {
    forall|i: int|
        0 <= i < trades.len() ==> still_open(trades.subrange(0, i), (#[trigger] trades[i]).entry_time as int)
            < max_concurrent
}

/// Each trade enters at the first candle at or after its signal, less than one
/// interval later, and settles on the candle whose span ends at expiry.
pub open spec fn trade_aligned(
    times: Seq<i64>,
    signals: Seq<BinarySignalFacts>,
    interval: int,
    trade: PlannedTrade,
) -> bool {
    &&& trade.signal < signals.len()
    &&& trade.entry_candle < times.len()
    &&& trade.settlement_candle < times.len()
    &&& trade.entry_time == times[trade.entry_candle as int]
    &&& signals[trade.signal as int].timestamp <= trade.entry_time
    &&& trade.entry_time - signals[trade.signal as int].timestamp < interval
    &&& trade.expiry_seconds == signals[trade.signal as int].expiry_seconds
    &&& signals[trade.signal as int].action != BinaryAction::NoTrade
    &&& times[trade.settlement_candle as int] + interval == trade_expiry(trade)
}

/// What holds of the tally after the first `k` signals.
pub open spec fn fold_invariant(
    times: Seq<i64>,
    grid: CandleGrid,
    max_concurrent: nat,
    signals: Seq<BinarySignalFacts>,
    so: Seq<usize>,
    k: nat,
    tally: PlanTally,
) -> bool {
    &&& tally.no_trade + tally.missing_data + tally.overlap + tally.trades.len() == k
    &&& tally.stale_entry <= tally.missing_data
    &&& entries_nondecreasing(tally.trades)
    &&& admitted_under_limit(tally.trades, max_concurrent)
    &&& forall|i: int|
        0 <= i < tally.trades.len() ==> trade_aligned(
            times,
            signals,
            grid.interval,
            #[trigger] tally.trades[i],
        )
    &&& forall|i: int|
        0 <= i < tally.trades.len() ==> (#[trigger] tally.trades[i]).entry_time == grid.times[first_at_or_after(
            grid.times,
            signals[tally.trades[i].signal as int].timestamp as int,
        ) as int]
    &&& k > 0 ==> forall|i: int|
        0 <= i < tally.trades.len() ==> signals[(#[trigger] tally.trades[i]).signal as int].timestamp
            <= signals[so[k - 1] as int].timestamp
    &&& tally.overlaps.len() == tally.overlap
    &&& overlaps_justified(tally, max_concurrent)
}

/// Each overlap rejection met at least `max_concurrent` positions of the
/// trades taken before it open at its entry time.
pub open spec fn overlaps_justified(tally: PlanTally, max_concurrent: nat) -> bool {
    forall|r: int|
        0 <= r < tally.overlaps.len() ==> {
            let (entry, taken) = #[trigger] tally.overlaps[r];
            &&& taken <= tally.trades.len()
            &&& open_count(positions_of(tally.trades.subrange(0, taken as int)), entry)
                >= max_concurrent
            &&& forall|j: int| 0 <= j < taken ==> (#[trigger] tally.trades[j]).entry_time <= entry
        }
}

/// For trades that all entered at or before `t`, the ones still open after
/// `t` are exactly the positions open at `t`.
proof fn lemma_still_open_is_open_count(trades: Seq<PlannedTrade>, t: int)
    requires
        forall|j: int| 0 <= j < trades.len() ==> (#[trigger] trades[j]).entry_time <= t,
    ensures
        still_open(trades, t) == open_count(positions_of(trades), t),
    decreases trades.len(),
{
    if trades.len() > 0 {
        let rest = trades.drop_last();
        assert forall|j: int| 0 <= j < rest.len() implies (#[trigger] rest[j]).entry_time <= t by {
            assert(rest[j] == trades[j]);
        }
        lemma_still_open_is_open_count(rest, t);
        lemma_positions_drop_last(trades);
        assert(trades.last().entry_time <= t);
    }
}

proof fn lemma_first_at_or_after_monotone(ct: Seq<i64>, t1: int, t2: int)
    requires
        t1 <= t2,
    ensures
        first_at_or_after(ct, t1) <= first_at_or_after(ct, t2),
    decreases ct.len(),
{
    if ct.len() > 0 && ct[0] < t1 {
        lemma_first_at_or_after_monotone(ct.drop_first(), t1, t2);
    }
}

/// The fold keeps its invariant.
proof fn lemma_fold_invariant(
    times: Seq<i64>,
    max_concurrent: nat,
    signals: Seq<BinarySignalFacts>,
    k: nat,
)
    requires
        times.len() >= 2,
        grid_of(times).interval > 0,
        interval_millis(grid_of(times)) > 0,
        k <= signals.len(),
        is_replay_order(time_keys(signal_times(signals)), order_of(signal_times(signals))),
        is_replay_order(time_keys(times), order_of(times)),
        plan_fold(grid_of(times), max_concurrent, signals, order_of(signal_times(signals)), k) is Ok,
    ensures
        fold_invariant(
            times,
            grid_of(times),
            max_concurrent,
            signals,
            order_of(signal_times(signals)),
            k,
            plan_fold(grid_of(times), max_concurrent, signals, order_of(signal_times(signals)), k)->Ok_0,
        ),
    decreases k,
{
    let grid = grid_of(times);
    let so = order_of(signal_times(signals));
    if k == 0 {
        return;
    }
    let prev_k = (k - 1) as nat;
    if plan_fold(grid, max_concurrent, signals, so, prev_k) is Err {
        return;
    }
    lemma_fold_invariant(times, max_concurrent, signals, prev_k);
    let tally = plan_fold(grid, max_concurrent, signals, so, prev_k)->Ok_0;
    let index = so[k - 1];
    let s = signals[index as int];
    let next = plan_fold(grid, max_concurrent, signals, so, k)->Ok_0;
    assert(next == plan_signal(grid, max_concurrent, tally, index, s)->Ok_0);
    assert(index < signals.len());
    // signals earlier in time order are no later than this one
    if k >= 2 {
        assert(precedes(time_keys(signal_times(signals)), so[k - 2] as int, so[k - 1] as int));
        assert(signals[so[k - 2] as int].timestamp <= s.timestamp);
    }
    if next.trades.len() > tally.trades.len() {
        // a trade was taken
        let p = first_at_or_after(grid.times, s.timestamp as int);
        let e = grid.times[p as int];
        let expiry = e + s.expiry_seconds * 1_000_000_000;
        let q = last_at(grid.times, expiry - grid.interval);
        lemma_first_at_or_after(grid.times, s.timestamp as int);
        lemma_last_at(grid.times, expiry - grid.interval);
        let tr = next.trades.last();
        assert(next.trades == tally.trades.push(tr));
        assert(tr.entry_time == e);
        assert(grid.order.len() == times.len());
        assert(grid.order[p as int] < times.len());
        assert(grid.order[q] < times.len());
        assert forall|a: int, b: int| 0 <= a < b < next.trades.len() implies (#[trigger] next.trades[a]).entry_time
            <= (#[trigger] next.trades[b]).entry_time by {
            if b == next.trades.len() - 1 {
                let ta = tally.trades[a];
                assert(next.trades[a] == ta);
                let pa = first_at_or_after(grid.times, signals[ta.signal as int].timestamp as int);
                lemma_first_at_or_after_monotone(
                    grid.times,
                    signals[ta.signal as int].timestamp as int,
                    s.timestamp as int,
                );
                lemma_first_at_or_after(grid.times, signals[ta.signal as int].timestamp as int);
                lemma_sorted_nondecreasing(times, grid.order, pa as int, p as int);
            } else {
                assert(next.trades[a] == tally.trades[a]);
                assert(next.trades[b] == tally.trades[b]);
            }
        }
        assert forall|i: int| 0 <= i < next.trades.len() implies still_open(
            next.trades.subrange(0, i),
            (#[trigger] next.trades[i]).entry_time as int,
        ) < max_concurrent by {
            if i == next.trades.len() - 1 {
                assert(next.trades.subrange(0, i) =~= tally.trades);
            } else {
                assert(next.trades[i] == tally.trades[i]);
                assert(next.trades.subrange(0, i) =~= tally.trades.subrange(0, i));
            }
        }
        assert forall|i: int| 0 <= i < next.trades.len() implies trade_aligned(
            times,
            signals,
            grid.interval,
            #[trigger] next.trades[i],
        ) by {
            if i < next.trades.len() - 1 {
                assert(next.trades[i] == tally.trades[i]);
            } else {
                assert(grid.times[p as int] == times[grid.order[p as int] as int]);
                assert(grid.times[q] == times[grid.order[q] as int]);
            }
        }
        assert forall|i: int| 0 <= i < next.trades.len() implies (#[trigger] next.trades[i]).entry_time
            == grid.times[first_at_or_after(
            grid.times,
            signals[next.trades[i].signal as int].timestamp as int,
        ) as int] by {
            if i < next.trades.len() - 1 {
                assert(next.trades[i] == tally.trades[i]);
            }
        }
        assert forall|i: int| 0 <= i < next.trades.len() implies signals[(#[trigger] next.trades[i]).signal as int].timestamp
            <= signals[so[k - 1] as int].timestamp by {
            if i < next.trades.len() - 1 {
                assert(next.trades[i] == tally.trades[i]);
            }
        }
        assert forall|r: int| 0 <= r < next.overlaps.len() implies {
            let (entry, taken) = #[trigger] next.overlaps[r];
            &&& taken <= next.trades.len()
            &&& open_count(positions_of(next.trades.subrange(0, taken as int)), entry)
                >= max_concurrent
            &&& forall|j: int| 0 <= j < taken ==> (#[trigger] next.trades[j]).entry_time <= entry
        } by {
            assert(next.overlaps[r] == tally.overlaps[r]);
            let taken = tally.overlaps[r].1;
            assert(next.trades.subrange(0, taken as int) =~= tally.trades.subrange(0, taken as int));
            assert forall|j: int| 0 <= j < taken implies (#[trigger] next.trades[j]).entry_time
                <= tally.overlaps[r].0 by {
                assert(next.trades[j] == tally.trades[j]);
            }
        }
    } else {
        assert(next.trades == tally.trades);
        if next.overlaps.len() > tally.overlaps.len() {
            // an overlap rejection at entry time e
            let p = first_at_or_after(grid.times, s.timestamp as int);
            let e = grid.times[p as int] as int;
            lemma_first_at_or_after(grid.times, s.timestamp as int);
            assert(next.overlaps == tally.overlaps.push((e, tally.trades.len())));
            assert(still_open(tally.trades, e) >= max_concurrent);
            assert forall|j: int| 0 <= j < tally.trades.len() implies (#[trigger] tally.trades[j]).entry_time
                <= e by {
                let tj = tally.trades[j];
                let pj = first_at_or_after(grid.times, signals[tj.signal as int].timestamp as int);
                lemma_first_at_or_after_monotone(
                    grid.times,
                    signals[tj.signal as int].timestamp as int,
                    s.timestamp as int,
                );
                lemma_first_at_or_after(grid.times, signals[tj.signal as int].timestamp as int);
                lemma_sorted_nondecreasing(times, grid.order, pj as int, p as int);
            }
            lemma_still_open_is_open_count(tally.trades, e);
            assert(tally.trades.subrange(0, tally.trades.len() as int) =~= tally.trades);
            assert forall|r: int| 0 <= r < next.overlaps.len() implies {
                let (entry, taken) = #[trigger] next.overlaps[r];
                &&& taken <= next.trades.len()
                &&& open_count(positions_of(next.trades.subrange(0, taken as int)), entry)
                    >= max_concurrent
                &&& forall|j: int| 0 <= j < taken ==> (#[trigger] next.trades[j]).entry_time <= entry
            } by {
                if r < tally.overlaps.len() {
                    assert(next.overlaps[r] == tally.overlaps[r]);
                }
            }
        } else {
            assert(next.overlaps == tally.overlaps);
        }
    }
}

proof fn lemma_positions_drop_last(trades: Seq<PlannedTrade>)
    requires
        trades.len() > 0,
    ensures
        positions_of(trades.drop_last()) == positions_of(trades).drop_last(),
        positions_of(trades).last() == (BinaryPosition {
            entry_time: trades.last().entry_time,
            expiry_seconds: trades.last().expiry_seconds,
        }),
{
    assert(positions_of(trades.drop_last()) =~= positions_of(trades).drop_last());
}

/// Positions open at `t` that entered no later than `e <= t` are still open
/// after `e`.
proof fn lemma_open_within_still_open(trades: Seq<PlannedTrade>, t: int, e: int)
    requires
        forall|j: int| 0 <= j < trades.len() ==> (#[trigger] trades[j]).entry_time <= e,
        e <= t,
    ensures
        open_count(positions_of(trades), t) <= still_open(trades, e),
    decreases trades.len(),
{
    if trades.len() > 0 {
        let rest = trades.drop_last();
        assert forall|j: int| 0 <= j < rest.len() implies (#[trigger] rest[j]).entry_time <= e by {
            assert(rest[j] == trades[j]);
        }
        lemma_open_within_still_open(rest, t, e);
        lemma_positions_drop_last(trades);
    }
}

proof fn lemma_admitted_bounds_open(trades: Seq<PlannedTrade>, max_concurrent: nat, t: int)
    requires
        entries_nondecreasing(trades),
        admitted_under_limit(trades, max_concurrent),
    ensures
        open_count(positions_of(trades), t) <= max_concurrent,
    decreases trades.len(),
{
    if trades.len() > 0 {
        let n = trades.len();
        let rest = trades.drop_last();
        assert forall|a: int, b: int| 0 <= a < b < rest.len() implies (#[trigger] rest[a]).entry_time
            <= (#[trigger] rest[b]).entry_time by {
            assert(rest[a] == trades[a]);
            assert(rest[b] == trades[b]);
        }
        assert forall|i: int| 0 <= i < rest.len() implies still_open(
            rest.subrange(0, i),
            (#[trigger] rest[i]).entry_time as int,
        ) < max_concurrent by {
            assert(rest[i] == trades[i]);
            assert(rest.subrange(0, i) =~= trades.subrange(0, i));
        }
        lemma_admitted_bounds_open(rest, max_concurrent, t);
        lemma_positions_drop_last(trades);
        let last = trades[n - 1];
        if open_at(positions_of(trades).last(), t) {
            assert forall|j: int| 0 <= j < rest.len() implies (#[trigger] rest[j]).entry_time
                <= last.entry_time by {
                assert(rest[j] == trades[j]);
            }
            lemma_open_within_still_open(rest, t, last.entry_time as int);
            assert(trades.subrange(0, n - 1) =~= rest);
            assert(still_open(rest, last.entry_time as int) < max_concurrent);
        }
    }
}

/// Every signal is accounted for exactly once: as an abstention, a missing
/// data skip (stale entries included), an overlap rejection, or a taken
/// trade; so every trade intent is executed, rejected for overlap, or
/// skipped for missing data, and stale entries are among the latter.
pub proof fn law_binary_plan_accounts_for_every_signal(
    times: Seq<i64>,
    signals: Seq<BinarySignalFacts>,
    max_concurrent: usize,
)
    requires
        times.len() <= usize::MAX,
        signals.len() <= usize::MAX,
        binary_plan_spec(times, signals, max_concurrent) is Ok,
    ensures
        ({
            let tally = binary_plan_spec(times, signals, max_concurrent)->Ok_0;
            &&& tally.no_trade + tally.missing_data + tally.overlap + tally.trades.len()
                == signals.len()
            &&& signals.len() - tally.no_trade == tally.trades.len() + tally.overlap
                + tally.missing_data
            &&& tally.stale_entry <= tally.missing_data
        }),
{
    lemma_plan_facts(times, signals, max_concurrent);
}

/// A signal is rejected for overlap only when the limit is really reached:
/// at the entry time it would have had, at least `max_concurrent` of the
/// trades taken before it are open on their half-open windows
/// `[entry, entry + expiry)`. A trade that expires exactly at that entry
/// time no longer counts.
pub proof fn law_binary_plan_rejects_overlap_only_at_the_limit(
    times: Seq<i64>,
    signals: Seq<BinarySignalFacts>,
    max_concurrent: usize,
)
    requires
        times.len() <= usize::MAX,
        signals.len() <= usize::MAX,
        binary_plan_spec(times, signals, max_concurrent) is Ok,
    ensures
        ({
            let tally = binary_plan_spec(times, signals, max_concurrent)->Ok_0;
            &&& tally.overlaps.len() == tally.overlap
            &&& forall|r: int|
                0 <= r < tally.overlaps.len() ==> {
                    let (entry, taken) = #[trigger] tally.overlaps[r];
                    &&& taken <= tally.trades.len()
                    &&& open_count(positions_of(tally.trades.subrange(0, taken as int)), entry)
                        >= max_concurrent
                    &&& forall|j: int|
                        0 <= j < taken ==> (#[trigger] tally.trades[j]).entry_time <= entry
                }
        }),
{
    lemma_plan_facts(times, signals, max_concurrent);
}

/// A position no longer counts as open from its expiry on: trades whose
/// windows `[entry, entry + expiry)` have all closed by `t` leave room for a
/// new position at `t`, and among trades entered by `t` exactly those whose
/// window still covers `t` count.
pub proof fn law_expired_trades_do_not_block(trades: Seq<PlannedTrade>, t: int)
    requires
        forall|j: int| 0 <= j < trades.len() ==> (#[trigger] trades[j]).entry_time <= t,
    ensures
        still_open(trades, t) == open_count(positions_of(trades), t),
        (forall|j: int| 0 <= j < trades.len() ==> trade_expiry(#[trigger] trades[j]) <= t)
            ==> still_open(trades, t) == 0,
{
    lemma_still_open_is_open_count(trades, t);
    if forall|j: int| 0 <= j < trades.len() ==> trade_expiry(#[trigger] trades[j]) <= t {
        lemma_none_open(trades, t);
    }
}

proof fn lemma_none_open(trades: Seq<PlannedTrade>, t: int)
    requires
        forall|j: int| 0 <= j < trades.len() ==> trade_expiry(#[trigger] trades[j]) <= t,
    ensures
        still_open(trades, t) == 0,
    decreases trades.len(),
{
    if trades.len() > 0 {
        let rest = trades.drop_last();
        assert forall|j: int| 0 <= j < rest.len() implies trade_expiry(#[trigger] rest[j]) <= t by {
            assert(rest[j] == trades[j]);
        }
        lemma_none_open(rest, t);
        assert(trade_expiry(trades[trades.len() - 1]) <= t);
    }
}

/// The plan never holds more than `max_concurrent` positions open at any
/// instant.
pub proof fn law_binary_plan_respects_concurrency_limit(
    times: Seq<i64>,
    signals: Seq<BinarySignalFacts>,
    max_concurrent: usize,
)
    requires
        times.len() <= usize::MAX,
        signals.len() <= usize::MAX,
        binary_plan_spec(times, signals, max_concurrent) is Ok,
    ensures
        forall|t: int|
            #[trigger] open_count(
                positions_of(binary_plan_spec(times, signals, max_concurrent)->Ok_0.trades),
                t,
            ) <= max_concurrent,
{
    lemma_plan_facts(times, signals, max_concurrent);
    let tally = binary_plan_spec(times, signals, max_concurrent)->Ok_0;
    assert forall|t: int| #[trigger] open_count(positions_of(tally.trades), t) <= max_concurrent by {
        lemma_admitted_bounds_open(tally.trades, max_concurrent as nat, t);
    }
}

/// Every taken trade enters at the first candle at or after its signal, less
/// than one candle interval after it, and settles on the candle whose span
/// ends exactly at expiry.
pub proof fn law_binary_plan_trades_are_aligned(
    times: Seq<i64>,
    signals: Seq<BinarySignalFacts>,
    max_concurrent: usize,
)
    requires
        times.len() <= usize::MAX,
        signals.len() <= usize::MAX,
        binary_plan_spec(times, signals, max_concurrent) is Ok,
    ensures
        forall|i: int|
            0 <= i < binary_plan_spec(times, signals, max_concurrent)->Ok_0.trades.len() ==> trade_aligned(
                times,
                signals,
                grid_of(times).interval,
                #[trigger] binary_plan_spec(times, signals, max_concurrent)->Ok_0.trades[i],
            ),
{
    lemma_plan_facts(times, signals, max_concurrent);
}

proof fn lemma_plan_facts(times: Seq<i64>, signals: Seq<BinarySignalFacts>, max_concurrent: usize)
    requires
        times.len() <= usize::MAX,
        signals.len() <= usize::MAX,
        binary_plan_spec(times, signals, max_concurrent) is Ok,
    ensures
        fold_invariant(
            times,
            grid_of(times),
            max_concurrent as nat,
            signals,
            order_of(signal_times(signals)),
            signals.len(),
            binary_plan_spec(times, signals, max_concurrent)->Ok_0,
        ),
{
    lemma_order_exists(times);
    lemma_order_exists(signal_times(signals));
    lemma_fold_invariant(times, max_concurrent as nat, signals, signals.len());
}

/// Every time series has a time order.
proof fn lemma_order_exists(times: Seq<i64>)
    requires
        times.len() <= usize::MAX,
    ensures
        is_replay_order(time_keys(times), order_of(times)),
{
    let witness = crate::ordering::replay_order_exists(time_keys(times));
    assert(is_replay_order(time_keys(times), witness));
}

} // verus!
