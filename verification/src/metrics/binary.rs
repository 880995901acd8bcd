//! The counting side of binary option metrics: outcome tallies, losing
//! streaks, realized direction labels and the breadth of trading days.
use vstd::prelude::*;

use crate::domain::binary::{BinaryAction, BinaryOutcome};

verus! {

/// Number of settlements with this outcome.
pub open spec fn outcome_count(outcomes: Seq<BinaryOutcome>, outcome: BinaryOutcome) -> nat
    decreases outcomes.len(),
{
    if outcomes.len() == 0 {
        0
    } else {
        outcome_count(outcomes.drop_last(), outcome) + (if outcomes.last() == outcome {
            1nat
        } else {
            0nat
        })
    }
}

/// Wins, losses and ties of a set of settlements.
#[derive(Clone, Copy, Debug, PartialEq, Eq, Structural)]
pub struct OutcomeTally {
    pub wins: usize,
    pub losses: usize,
    pub ties: usize,
}

proof fn lemma_counts_sum(outcomes: Seq<BinaryOutcome>)
    ensures
        outcome_count(outcomes, BinaryOutcome::Win) + outcome_count(outcomes, BinaryOutcome::Loss)
            + outcome_count(outcomes, BinaryOutcome::Tie) == outcomes.len(),
    decreases outcomes.len(),
{
    if outcomes.len() > 0 {
        lemma_counts_sum(outcomes.drop_last());
    }
}

/// Count wins, losses and ties; together they are all the settlements.
pub fn tally_outcomes(outcomes: &[BinaryOutcome]) -> (tally: OutcomeTally)
    ensures
        tally.wins == outcome_count(outcomes@, BinaryOutcome::Win),
        tally.losses == outcome_count(outcomes@, BinaryOutcome::Loss),
        tally.ties == outcome_count(outcomes@, BinaryOutcome::Tie),
        tally.wins + tally.losses + tally.ties == outcomes@.len(),
{
    let n = outcomes.len();
    let mut tally = OutcomeTally { wins: 0, losses: 0, ties: 0 };
    let mut j: usize = 0;
    while j < n
        invariant
            n == outcomes@.len(),
            j <= n,
            tally.wins + tally.losses + tally.ties == j,
            tally.wins == outcome_count(outcomes@.subrange(0, j as int), BinaryOutcome::Win),
            tally.losses == outcome_count(outcomes@.subrange(0, j as int), BinaryOutcome::Loss),
            tally.ties == outcome_count(outcomes@.subrange(0, j as int), BinaryOutcome::Tie),
        decreases n - j,
    {
        assert(outcomes@.subrange(0, j as int + 1).drop_last() =~= outcomes@.subrange(0, j as int));
        match outcomes[j] {
            BinaryOutcome::Win => tally.wins = tally.wins + 1,
            BinaryOutcome::Loss => tally.losses = tally.losses + 1,
            BinaryOutcome::Tie => tally.ties = tally.ties + 1,
        }
        j = j + 1;
    }
    assert(outcomes@.subrange(0, n as int) =~= outcomes@);
    tally
}

/// Length of the run of losses that ends the sequence.
pub open spec fn trailing_losses(outcomes: Seq<BinaryOutcome>) -> nat
    decreases outcomes.len(),
{
    if outcomes.len() == 0 {
        0
    } else if outcomes.last() == BinaryOutcome::Loss {
        trailing_losses(outcomes.drop_last()) + 1
    } else {
        0
    }
}

/// Longest run of consecutive losses; wins and ties break a run.
pub open spec fn longest_losing_run(outcomes: Seq<BinaryOutcome>) -> nat
    decreases outcomes.len(),
{
    if outcomes.len() == 0 {
        0
    } else {
        let prev = longest_losing_run(outcomes.drop_last());
        let run = trailing_losses(outcomes);
        if run > prev {
            run
        } else {
            prev
        }
    }
}

proof fn lemma_trailing_bounded(outcomes: Seq<BinaryOutcome>)
    ensures
        trailing_losses(outcomes) <= outcomes.len(),
        longest_losing_run(outcomes) <= outcomes.len(),
    decreases outcomes.len(),
{
    if outcomes.len() > 0 {
        lemma_trailing_bounded(outcomes.drop_last());
    }
}

/// The longest run of consecutive losses.
pub fn longest_losing_streak(outcomes: &[BinaryOutcome]) -> (longest: usize)
    ensures
        longest == longest_losing_run(outcomes@),
{
    let n = outcomes.len();
    let mut streak: usize = 0;
    let mut longest: usize = 0;
    let mut j: usize = 0;
    while j < n
        invariant
            n == outcomes@.len(),
            j <= n,
            streak == trailing_losses(outcomes@.subrange(0, j as int)),
            longest == longest_losing_run(outcomes@.subrange(0, j as int)),
        decreases n - j,
    {
        proof {
            assert(outcomes@.subrange(0, j as int + 1).drop_last() =~= outcomes@.subrange(0, j as int));
            lemma_trailing_bounded(outcomes@.subrange(0, j as int));
        }
        match outcomes[j] {
            BinaryOutcome::Loss => {
                streak = streak + 1;
                if streak > longest {
                    longest = streak;
                }
            },
            BinaryOutcome::Win | BinaryOutcome::Tie => streak = 0,
        }
        j = j + 1;
    }
    assert(outcomes@.subrange(0, n as int) =~= outcomes@);
    longest
}

/// No losing streak is longer than the number of losses.
pub proof fn law_streak_within_losses(outcomes: Seq<BinaryOutcome>)
    ensures
        trailing_losses(outcomes) <= outcome_count(outcomes, BinaryOutcome::Loss),
        longest_losing_run(outcomes) <= outcome_count(outcomes, BinaryOutcome::Loss),
    decreases outcomes.len(),
{
    if outcomes.len() > 0 {
        law_streak_within_losses(outcomes.drop_last());
    }
}

/// Whether a decisive settlement's price finished above entry: a won call
/// or a lost put went up, a lost call or a won put went down; ties and
/// no-trades say nothing.
pub fn went_up(action: BinaryAction, outcome: BinaryOutcome) -> (up: Option<bool>)
    ensures
        up == (match (action, outcome) {
            (BinaryAction::BinaryCall, BinaryOutcome::Win) => Some(true),
            (BinaryAction::BinaryCall, BinaryOutcome::Loss) => Some(false),
            (BinaryAction::BinaryPut, BinaryOutcome::Win) => Some(false),
            (BinaryAction::BinaryPut, BinaryOutcome::Loss) => Some(true),
            _ => None,
        }),
{
    match (action, outcome) {
        (BinaryAction::BinaryCall, BinaryOutcome::Win) => Some(true),
        (BinaryAction::BinaryCall, BinaryOutcome::Loss) => Some(false),
        (BinaryAction::BinaryPut, BinaryOutcome::Win) => Some(false),
        (BinaryAction::BinaryPut, BinaryOutcome::Loss) => Some(true),
        _ => None,
    }
}

/// Nanoseconds in a day.
pub const NANOS_PER_DAY: i64 = 86_400_000_000_000i64;

/// The UTC calendar day of a time, counted from the Unix epoch.
pub open spec fn day_of(t: i64) -> int {
    t as int / NANOS_PER_DAY as int
}

/// Entry `i` is the first of its day.
pub open spec fn first_of_day(times: Seq<i64>, i: int) -> bool {
    forall|j: int| 0 <= j < i ==> day_of(#[trigger] times[j]) != day_of(times[i])
}

/// Number of distinct days among the first `n` times.
pub open spec fn distinct_days_upto(times: Seq<i64>, n: int) -> nat
    decreases n,
{
    if n <= 0 {
        0
    } else {
        distinct_days_upto(times, n - 1) + (if first_of_day(times, n - 1) {
            1nat
        } else {
            0nat
        })
    }
}

/// The UTC day of a time.
pub fn utc_day(t: i64) -> (day: i64)
    ensures
        day == day_of(t),
{
    let q = t / NANOS_PER_DAY;
    let r = t % NANOS_PER_DAY;
    if r < 0 {
        q - 1
    } else {
        q
    }
}

/// How many distinct UTC calendar days the entry times fall on.
pub fn count_distinct_days(times: &[i64]) -> (count: usize)
    ensures
        count == distinct_days_upto(times@, times@.len() as int),
{
    let n = times.len();
    let mut count: usize = 0;
    let mut i: usize = 0;
    while i < n
        invariant
            n == times@.len(),
            i <= n,
            count <= i,
            count == distinct_days_upto(times@, i as int),
        decreases n - i,
    {
        let day = utc_day(times[i]);
        let mut j: usize = 0;
        let mut seen = false;
        while j < i && !seen
            invariant
                n == times@.len(),
                j <= i < n,
                day == day_of(times@[i as int]),
                seen ==> !first_of_day(times@, i as int),
                !seen ==> forall|m: int| 0 <= m < j ==> day_of(#[trigger] times@[m]) != day,
            decreases i - j,
        {
            if utc_day(times[j]) == day {
                seen = true;
            }
            j = j + 1;
        }
        if !seen {
            count = count + 1;
        }
        i = i + 1;
    }
    count
}

} // verus!
