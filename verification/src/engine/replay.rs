//! Admission and ordering of the replay inputs: the candle series, the event
//! stream and the signal stream.
use vstd::prelude::*;

use crate::ordering::{
    count_displaced, displaced_count, is_replay_order, precedes, replay_order,
};

verus! {

/// What the replay needs to know about one market event: where it sits in
/// time, whether its payload passed its own validity check, and whether it
/// carries a candle.
#[derive(Clone, Copy, Debug, PartialEq, Eq, Structural)]
pub struct EventFacts {
    /// Event time, nanoseconds since the Unix epoch (UTC).
    pub timestamp: i64,
    pub sequence: u64,
    pub valid: bool,
    pub is_candle: bool,
}

/// What admission needs to know of one candle: its time and whether its
/// prices passed the candle's own validity check.
#[derive(Clone, Copy, Debug, PartialEq, Eq, Structural)]
pub struct CandleFacts {
    /// Candle time, nanoseconds since the Unix epoch (UTC).
    pub timestamp: i64,
    pub valid: bool,
}

/// Why an event stream cannot be replayed.
#[derive(Clone, Copy, Debug, PartialEq, Eq, Structural)]
pub enum EventStreamError {
    /// Two events share both timestamp and sequence.
    DuplicateSequence,
    /// The event at this original index failed its validity check.
    InvalidEvent { index: usize },
    /// A run has fewer than three events.
    TooFewEvents,
    /// A rule-based strategy needs candle events in the stream.
    RuleStrategyNeedsCandles,
}

/// Why a candle series cannot be replayed.
#[derive(Clone, Copy, Debug, PartialEq, Eq, Structural)]
pub enum CandleSeriesError {
    TooFewCandles,
    /// The candle at this index failed its validity check.
    InvalidCandle { index: usize },
    /// The candle at this index is not later than its predecessor.
    NotIncreasing { index: usize },
}

/// An event stream in replay order.
#[derive(Debug)]
pub struct PreparedEvents {
    /// Original indices of the events, in replay order.
    pub order: Vec<usize>,
    /// How many positions hold a different event than before sorting.
    pub reordered_events: usize,
}

pub open spec fn event_keys(events: Seq<EventFacts>) -> Seq<(i64, u64)> {
    Seq::new(events.len(), |i: int| (events[i].timestamp, events[i].sequence))
}

/// No two events share timestamp and sequence.
pub open spec fn keys_distinct(events: Seq<EventFacts>) -> bool {
    forall|i: int, j: int|
        0 <= i < events.len() && 0 <= j < events.len() && i != j ==> (#[trigger] events[i].timestamp
            != #[trigger] events[j].timestamp || events[i].sequence != events[j].sequence)
}

/// `index` is the first invalid event in replay order.
pub open spec fn first_invalid_event(events: Seq<EventFacts>, index: int) -> bool {
    &&& 0 <= index < events.len()
    &&& !events[index].valid
    &&& forall|j: int|
        0 <= j < events.len() && !(#[trigger] events[j]).valid && j != index ==> precedes(
            event_keys(events),
            index,
            j,
        )
}

pub open spec fn all_events_valid(events: Seq<EventFacts>) -> bool {
    forall|i: int| 0 <= i < events.len() ==> (#[trigger] events[i]).valid
}

pub open spec fn has_candle_event(events: Seq<EventFacts>) -> bool {
    exists|i: int| 0 <= i < events.len() && (#[trigger] events[i]).is_candle
}

/// Lexicographic order on `(timestamp, sequence)`.
pub open spec fn key_below(a: (i64, u64), b: (i64, u64)) -> bool {
    a.0 < b.0 || (a.0 == b.0 && a.1 < b.1)
}

proof fn lemma_adjacent_distinct_keys_are_distinct(events: Seq<EventFacts>, order: Seq<usize>)
    requires
        events.len() <= usize::MAX,
        is_replay_order(event_keys(events), order),
        forall|a: int|
            1 <= a < order.len() ==> #[trigger] event_keys(events)[order[a - 1] as int] != event_keys(
                events,
            )[order[a] as int],
    ensures
        keys_distinct(events),
{
    let ks = event_keys(events);
    // keys strictly increase along the order
    assert forall|a: int, b: int| 0 <= a < b < order.len() implies key_below(
        ks[#[trigger] order[a] as int],
        ks[#[trigger] order[b] as int],
    ) by {
        lemma_keys_increase(ks, order, a, b);
    }
    assert forall|i: int, j: int|
        0 <= i < events.len() && 0 <= j < events.len() && i != j implies (#[trigger] events[i].timestamp
        != #[trigger] events[j].timestamp || events[i].sequence != events[j].sequence) by {
        assert(order.contains(i as usize));
        assert(order.contains(j as usize));
        let s = choose|s: int| 0 <= s < order.len() && order[s] == i as usize;
        let t = choose|t: int| 0 <= t < order.len() && order[t] == j as usize;
        assert(order[s] == i as usize);
        assert(order[t] == j as usize);
        assert((i as usize) != (j as usize));
        assert(s != t);
        assert(ks[i] == (events[i].timestamp, events[i].sequence));
        assert(ks[j] == (events[j].timestamp, events[j].sequence));
        if s < t {
            assert(key_below(ks[order[s] as int], ks[order[t] as int]));
        } else {
            assert(t < s);
            assert(key_below(ks[order[t] as int], ks[order[s] as int]));
        }
    }
}

proof fn lemma_keys_increase(ks: Seq<(i64, u64)>, order: Seq<usize>, a: int, b: int)
    requires
        is_replay_order(ks, order),
        forall|x: int| 1 <= x < order.len() ==> #[trigger] ks[order[x - 1] as int] != ks[order[x] as int],
        0 <= a < b < order.len(),
    ensures
        key_below(ks[order[a] as int], ks[order[b] as int]),
    decreases b - a,
{
    assert(precedes(ks, order[b - 1] as int, order[b] as int));
    assert(ks[order[b - 1] as int] != ks[order[b] as int]);
    if a < b - 1 {
        lemma_keys_increase(ks, order, a, b - 1);
    }
}

/// The candle at `index` passed its own check and is later than the candle
/// before it.
pub open spec fn candle_admissible_at(candles: Seq<CandleFacts>, index: int) -> bool {
    &&& candles[index].valid
    &&& (index == 0 || candles[index - 1].timestamp < candles[index].timestamp)
}

pub open spec fn candles_admissible_before(candles: Seq<CandleFacts>, end: int) -> bool {
    forall|j: int| 0 <= j < end ==> #[trigger] candle_admissible_at(candles, j)
}

/// The replay engine's admission rules for its inputs.
pub struct BacktestEngine;

impl BacktestEngine {
    /// Where the signal cursor moves at replay time `now`: past every signal
    /// (in replay order) whose time is at or before `now`.
    pub fn signals_due(signal_times: &[i64], cursor: usize, now: i64) -> (end: usize)
        requires
            cursor <= signal_times@.len(),
        ensures
            cursor <= end <= signal_times@.len(),
            forall|k: int| cursor <= k < end ==> #[trigger] signal_times@[k] <= now,
            end == signal_times@.len() || signal_times@[end as int] > now,
    {
        let n = signal_times.len();
        let mut end = cursor;
        while end < n && signal_times[end] <= now
            invariant
                n == signal_times@.len(),
                cursor <= end <= n,
                forall|k: int| cursor <= k < end ==> #[trigger] signal_times@[k] <= now,
            decreases n - end,
        {
            end = end + 1;
        }
        end
    }

    /// Put an event stream in replay order (timestamp, then sequence, then
    /// original index): sequences must be unique within a timestamp and
    /// every event valid. How many events a run needs, and whether they must
    /// carry candles, is `check_event_run`'s concern.
    pub fn prepare_events(events: &[EventFacts]) -> (result: Result<
        PreparedEvents,
        EventStreamError,
    >)
        ensures
            match result {
                Ok(prepared) => {
                    &&& is_replay_order(event_keys(events@), prepared.order@)
                    &&& prepared.reordered_events == displaced_count(prepared.order@)
                    &&& keys_distinct(events@)
                    &&& all_events_valid(events@)
                },
                Err(EventStreamError::DuplicateSequence) => !keys_distinct(events@),
                Err(EventStreamError::InvalidEvent { index }) => {
                    &&& keys_distinct(events@)
                    &&& first_invalid_event(events@, index as int)
                },
                Err(_) => false,
            },
    {
        let n = events.len();
        let mut keys: Vec<(i64, u64)> = Vec::new();
        let mut k: usize = 0;
        while k < n
            invariant
                k <= n,
                n == events@.len(),
                keys@.len() == k,
                forall|t: int| 0 <= t < k ==> #[trigger] keys@[t] == event_keys(events@)[t],
            decreases n - k,
        {
            keys.push((events[k].timestamp, events[k].sequence));
            k = k + 1;
        }
        proof {
            assert(keys@ =~= event_keys(events@));
        }
        let order = replay_order(keys.as_slice());
        let ghost ks = event_keys(events@);
        // adjacent duplicates in replay order are exactly the duplicates
        let mut p: usize = 1;
        while p < n
            invariant
                n == events@.len(),
                ks == event_keys(events@),
                is_replay_order(ks, order@),
                1 <= p || n == 0,
                p <= n || n == 0,
                forall|a: int|
                    1 <= a < p && a < n ==> #[trigger] ks[order@[a - 1] as int] != ks[order@[a] as int],
            decreases n - p,
        {
            let left = order[p - 1];
            let right = order[p];
            if events[left].timestamp == events[right].timestamp && events[left].sequence
                == events[right].sequence {
                proof {
                    assert(order@[p - 1] != order@[p as int]) by {
                        assert(precedes(ks, order@[p - 1] as int, order@[p as int] as int));
                    }
                    assert(!keys_distinct(events@)) by {
                        let i = left as int;
                        let j = right as int;
                        assert(events@[i].timestamp == events@[j].timestamp);
                    }
                }
                return Err(EventStreamError::DuplicateSequence);
            }
            p = p + 1;
        }
        proof {
            lemma_adjacent_distinct_keys_are_distinct(events@, order@);
        }
        // the first invalid event in replay order
        let mut q: usize = 0;
        while q < n
            invariant
                n == events@.len(),
                ks == event_keys(events@),
                is_replay_order(ks, order@),
                keys_distinct(events@),
                q <= n,
                forall|a: int| 0 <= a < q ==> (#[trigger] events@[order@[a] as int]).valid,
            decreases n - q,
        {
            let index = order[q];
            if !events[index].valid {
                proof {
                    assert forall|j: int|
                        0 <= j < events@.len() && !(#[trigger] events@[j]).valid && j != index implies precedes(
                        ks,
                        index as int,
                        j,
                    ) by {
                        assert(order@.contains(j as usize));
                        let t = choose|t: int| 0 <= t < order@.len() && order@[t] == j as usize;
                        if t < q {
                            assert(events@[order@[t] as int].valid);
                        } else {
                            assert(t != q);
                        }
                    }
                }
                return Err(EventStreamError::InvalidEvent { index });
            }
            q = q + 1;
        }
        proof {
            assert forall|i: int| 0 <= i < events@.len() implies (#[trigger] events@[i]).valid by {
                assert(order@.contains(i as usize));
                let t = choose|t: int| 0 <= t < order@.len() && order@[t] == i as usize;
                assert(events@[order@[t] as int].valid);
            }
        }
        let reordered_events = count_displaced(order.as_slice());
        Ok(PreparedEvents { order, reordered_events })
    }

    /// What an event-driven run asks of its prepared stream: at least three
    /// events, and candle events when the strategy is rule-based.
    pub fn check_event_run(events: &[EventFacts], rule_based: bool) -> (result: Result<
        (),
        EventStreamError,
    >)
        ensures
            match result {
                Ok(()) => events@.len() >= 3 && (rule_based ==> has_candle_event(events@)),
                Err(EventStreamError::TooFewEvents) => events@.len() < 3,
                Err(EventStreamError::RuleStrategyNeedsCandles) => {
                    &&& events@.len() >= 3
                    &&& rule_based
                    &&& !has_candle_event(events@)
                },
                Err(_) => false,
            },
    {
        let n = events.len();
        if n < 3 {
            return Err(EventStreamError::TooFewEvents);
        }
        if rule_based {
            let mut c: usize = 0;
            let mut found = false;
            while c < n
                invariant
                    n == events@.len(),
                    c <= n,
                    found ==> has_candle_event(events@),
                    !found ==> forall|t: int| 0 <= t < c ==> !(#[trigger] events@[t]).is_candle,
                decreases n - c,
            {
                if events[c].is_candle {
                    found = true;
                }
                c = c + 1;
            }
            if !found {
                return Err(EventStreamError::RuleStrategyNeedsCandles);
            }
        }
        Ok(())
    }

    /// Admit a candle series for replay: at least three candles, each valid
    /// and strictly later than the one before. Reports the first fault.
    pub fn validate_candles(candles: &[CandleFacts]) -> (result: Result<(), CandleSeriesError>)
        ensures
            match result {
                Ok(()) => candles@.len() >= 3 && candles_admissible_before(candles@, candles@.len() as int),
                Err(CandleSeriesError::TooFewCandles) => candles@.len() < 3,
                Err(CandleSeriesError::InvalidCandle { index }) => {
                    &&& candles@.len() >= 3
                    &&& index < candles@.len()
                    &&& !candles@[index as int].valid
                    &&& candles_admissible_before(candles@, index as int)
                },
                Err(CandleSeriesError::NotIncreasing { index }) => {
                    &&& candles@.len() >= 3
                    &&& 0 < index < candles@.len()
                    &&& candles@[index as int].valid
                    &&& candles@[index - 1].timestamp >= candles@[index as int].timestamp
                    &&& candles_admissible_before(candles@, index as int)
                },
            },
    {
        let n = candles.len();
        if n < 3 {
            return Err(CandleSeriesError::TooFewCandles);
        }
        let mut i: usize = 0;
        while i < n
            invariant
                n == candles@.len(),
                n >= 3,
                i <= n,
                candles_admissible_before(candles@, i as int),
            decreases n - i,
        {
            if !candles[i].valid {
                return Err(CandleSeriesError::InvalidCandle { index: i });
            }
            if i > 0 && candles[i].timestamp <= candles[i - 1].timestamp {
                return Err(CandleSeriesError::NotIncreasing { index: i });
            }
            proof {
                assert(candle_admissible_at(candles@, i as int));
            }
            i = i + 1;
        }
        Ok(())
    }
}

pub open spec fn time_keys(times: Seq<i64>) -> Seq<(i64, u64)> {
    Seq::new(times.len(), |i: int| (times[i], 0u64))
}

/// Order of timestamped items (signals, candles) for replay: by timestamp,
/// ties kept in their original order.
pub fn time_order(times: &[i64]) -> (order: Vec<usize>)
    ensures
        is_replay_order(time_keys(times@), order@),
{
    let mut keys: Vec<(i64, u64)> = Vec::new();
    let mut k: usize = 0;
    while k < times.len()
        invariant
            k <= times@.len(),
            keys@.len() == k,
            forall|t: int| 0 <= t < k ==> #[trigger] keys@[t] == time_keys(times@)[t],
        decreases times@.len() - k,
    {
        keys.push((times[k], 0u64));
        k = k + 1;
    }
    proof {
        assert(keys@ =~= time_keys(times@));
    }
    replay_order(keys.as_slice())
}

} // verus!
