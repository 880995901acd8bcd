//! Fixed-payout binary option rules: which actions trade, how a settlement
//! resolves, and how many positions are open at once.
//!
//! Times are nanoseconds since the Unix epoch (UTC). A position is open on
//! the half-open interval `[entry, entry + expiry)`.
use vstd::prelude::*;

verus! {

/// Action emitted by a prediction model for a binary option opportunity.
#[derive(Clone, Copy, Debug, PartialEq, Eq, Structural)]
pub enum BinaryAction {
    BinaryCall,
    BinaryPut,
    NoTrade,
}

impl BinaryAction {
    /// Whether this action opens a position.
    pub fn is_trade(self) -> (result: bool)
        ensures
            result == (self != BinaryAction::NoTrade),
    {
        !matches!(self, BinaryAction::NoTrade)
    }
}

/// How the broker resolves a settlement price exactly equal to entry.
#[derive(Clone, Copy, Debug, PartialEq, Eq, Structural)]
pub enum TieBehavior {
    /// Stake returned, zero P&L.
    RefundStake,
    /// Tie counts as a loss.
    LoseStake,
    /// Tie counts as a win.
    WinPayout,
}

/// Result category of a settled binary option.
#[derive(Clone, Copy, Debug, PartialEq, Eq, Structural)]
pub enum BinaryOutcome {
    Win,
    Loss,
    Tie,
}

/// Where the settlement price finished relative to the entry price.
#[derive(Clone, Copy, Debug, PartialEq, Eq, Structural)]
pub enum PriceMove {
    Above,
    Below,
    Unchanged,
}

/// Which P&L a settlement books: `stake * payout`, `-stake`, or zero.
#[derive(Clone, Copy, Debug, PartialEq, Eq, Structural)]
pub enum Payoff {
    StakeTimesPayout,
    LoseStake,
    Refund,
}

/// A `no_trade` signal has no position to settle.
#[derive(Clone, Copy, Debug, PartialEq, Eq, Structural)]
pub enum SettlementError {
    NoTradeCannotSettle,
}

/// Whether the position's direction was right: `Some(true)` won, `Some(false)`
/// lost, `None` a tie.
pub open spec fn direction_won(action: BinaryAction, movement: PriceMove) -> Option<bool> {
    match (action, movement) {
        (_, PriceMove::Unchanged) => None,
        (BinaryAction::BinaryCall, PriceMove::Above) => Some(true),
        (BinaryAction::BinaryCall, PriceMove::Below) => Some(false),
        (BinaryAction::BinaryPut, PriceMove::Below) => Some(true),
        (BinaryAction::BinaryPut, PriceMove::Above) => Some(false),
        (BinaryAction::NoTrade, _) => None,
    }
}

pub open spec fn settlement_spec(action: BinaryAction, movement: PriceMove, tie: TieBehavior) -> (
    BinaryOutcome,
    Payoff,
) {
    match direction_won(action, movement) {
        Some(true) => (BinaryOutcome::Win, Payoff::StakeTimesPayout),
        Some(false) => (BinaryOutcome::Loss, Payoff::LoseStake),
        None => (
            BinaryOutcome::Tie,
            match tie {
                TieBehavior::RefundStake => Payoff::Refund,
                TieBehavior::LoseStake => Payoff::LoseStake,
                TieBehavior::WinPayout => Payoff::StakeTimesPayout,
            },
        ),
    }
}

/// What a tie books under each tie behavior.
pub open spec fn tie_payoff(tie: TieBehavior) -> Payoff {
    match tie {
        TieBehavior::RefundStake => Payoff::Refund,
        TieBehavior::LoseStake => Payoff::LoseStake,
        TieBehavior::WinPayout => Payoff::StakeTimesPayout,
    }
}

/// For a call or a put: an unchanged price is a tie booked per the tie
/// behavior, whichever the direction; the position wins exactly when price
/// moved its way (up for a call, down for a put) and then books stake times
/// payout, and loses exactly when price moved against it and then books the
/// lost stake. A put settles as a call does on the mirrored move.
pub proof fn law_settlement_follows_the_price_move(
    action: BinaryAction,
    movement: PriceMove,
    tie: TieBehavior,
)
    requires
        action != BinaryAction::NoTrade,
    ensures
        ({
            let (outcome, payoff) = settlement_spec(action, movement, tie);
            &&& movement == PriceMove::Unchanged ==> outcome == BinaryOutcome::Tie && payoff
                == tie_payoff(tie)
            &&& movement == PriceMove::Unchanged && tie == TieBehavior::RefundStake ==> payoff
                == Payoff::Refund
            &&& (outcome == BinaryOutcome::Win) == ((action == BinaryAction::BinaryCall && movement
                == PriceMove::Above) || (action == BinaryAction::BinaryPut && movement
                == PriceMove::Below))
            &&& (outcome == BinaryOutcome::Loss) == ((action == BinaryAction::BinaryCall && movement
                == PriceMove::Below) || (action == BinaryAction::BinaryPut && movement
                == PriceMove::Above))
            &&& outcome == BinaryOutcome::Win ==> payoff == Payoff::StakeTimesPayout
            &&& outcome == BinaryOutcome::Loss ==> payoff == Payoff::LoseStake
        }),
        settlement_spec(BinaryAction::BinaryPut, PriceMove::Below, tie) == settlement_spec(
            BinaryAction::BinaryCall,
            PriceMove::Above,
            tie,
        ),
        settlement_spec(BinaryAction::BinaryPut, PriceMove::Above, tie) == settlement_spec(
            BinaryAction::BinaryCall,
            PriceMove::Below,
            tie,
        ),
        settlement_spec(BinaryAction::BinaryPut, PriceMove::Unchanged, tie) == settlement_spec(
            BinaryAction::BinaryCall,
            PriceMove::Unchanged,
            tie,
        ),
{
}

/// Resolve a settlement: a call wins when price finished above entry, a put
/// when it finished below; an unchanged price is a tie, booked per the
/// broker's tie behavior. A `no_trade` signal cannot settle.
pub fn resolve_settlement(action: BinaryAction, movement: PriceMove, tie: TieBehavior) -> (result:
    Result<(BinaryOutcome, Payoff), SettlementError>)
    ensures
        action == BinaryAction::NoTrade ==> result == Err::<(BinaryOutcome, Payoff), SettlementError>(
            SettlementError::NoTradeCannotSettle,
        ),
        action != BinaryAction::NoTrade ==> result == Ok::<(BinaryOutcome, Payoff), SettlementError>(
            settlement_spec(action, movement, tie),
        ),
        action != BinaryAction::NoTrade && movement == PriceMove::Unchanged ==> (result matches Ok(
            (outcome, payoff),
        ) && outcome == BinaryOutcome::Tie && payoff == tie_payoff(tie)),
        result matches Ok((outcome, payoff)) ==> {
            &&& (outcome == BinaryOutcome::Win) == ((action == BinaryAction::BinaryCall && movement
                == PriceMove::Above) || (action == BinaryAction::BinaryPut && movement
                == PriceMove::Below))
            &&& (outcome == BinaryOutcome::Loss) == ((action == BinaryAction::BinaryCall && movement
                == PriceMove::Below) || (action == BinaryAction::BinaryPut && movement
                == PriceMove::Above))
            &&& outcome == BinaryOutcome::Win ==> payoff == Payoff::StakeTimesPayout
            &&& outcome == BinaryOutcome::Loss ==> payoff == Payoff::LoseStake
        },
{
    let won = match action {
        BinaryAction::BinaryCall => match movement {
            PriceMove::Above => Some(true),
            PriceMove::Below => Some(false),
            PriceMove::Unchanged => None,
        },
        BinaryAction::BinaryPut => match movement {
            PriceMove::Below => Some(true),
            PriceMove::Above => Some(false),
            PriceMove::Unchanged => None,
        },
        BinaryAction::NoTrade => {
            return Err(SettlementError::NoTradeCannotSettle);
        },
    };
    let resolved = match won {
        Some(true) => (BinaryOutcome::Win, Payoff::StakeTimesPayout),
        Some(false) => (BinaryOutcome::Loss, Payoff::LoseStake),
        None => match tie {
            TieBehavior::RefundStake => (BinaryOutcome::Tie, Payoff::Refund),
            TieBehavior::LoseStake => (BinaryOutcome::Tie, Payoff::LoseStake),
            TieBehavior::WinPayout => (BinaryOutcome::Tie, Payoff::StakeTimesPayout),
        },
    };
    Ok(resolved)
}

/// Nanoseconds in one second.
pub const NANOS_PER_SECOND: i128 = 1_000_000_000;

/// The window of an opened binary position: entry time and contract length.
#[derive(Clone, Copy, Debug, PartialEq, Eq, Structural)]
pub struct BinaryPosition {
    /// Entry time, nanoseconds since the Unix epoch (UTC).
    pub entry_time: i64,
    /// Contract length in seconds.
    pub expiry_seconds: u32,
}

pub open spec fn expiry_of(p: BinaryPosition) -> int {
    p.entry_time + p.expiry_seconds * 1_000_000_000
}

pub open spec fn open_at(p: BinaryPosition, t: int) -> bool {
    p.entry_time <= t < expiry_of(p)
}

/// Number of positions open at instant `t`.
pub open spec fn open_count(positions: Seq<BinaryPosition>, t: int) -> nat
    decreases positions.len(),
{
    if positions.len() == 0 {
        0
    } else {
        open_count(positions.drop_last(), t) + if open_at(positions.last(), t) {
            1nat
        } else {
            0nat
        }
    }
}

/// `peak` is the greatest number of positions open at any one instant.
pub open spec fn is_peak_concurrency(positions: Seq<BinaryPosition>, peak: int) -> bool {
    &&& forall|t: int| #[trigger] open_count(positions, t) <= peak
    &&& exists|t: int| #[trigger] open_count(positions, t) == peak
}

impl BinaryPosition {
    /// The instant the position settles.
    pub fn expiry_time(&self) -> (result: i128)
        ensures
            result == expiry_of(*self),
    {
        self.entry_time as i128 + self.expiry_seconds as i128 * NANOS_PER_SECOND
    }

    /// Whether this position is still open at `t` (it settles exactly at
    /// expiry).
    pub fn is_open_at(&self, t: i64) -> (result: bool)
        ensures
            result == open_at(*self, t as int),
    {
        t >= self.entry_time && (t as i128) < self.expiry_time()
    }
}

proof fn lemma_open_count_bounds(positions: Seq<BinaryPosition>, t: int)
    ensures
        open_count(positions, t) <= positions.len(),
    decreases positions.len(),
{
    if positions.len() > 0 {
        lemma_open_count_bounds(positions.drop_last(), t);
    }
}

/// A position open at `t` whose entry is the latest among the positions open
/// at `t` leaves no open position behind: all of them are open at its entry.
proof fn lemma_open_count_dominated(positions: Seq<BinaryPosition>, t: int, s: int)
    requires
        forall|j: int|
            0 <= j < positions.len() && open_at(#[trigger] positions[j], t) ==> positions[j].entry_time
                <= s,
        s <= t,
    ensures
        open_count(positions, t) <= open_count(positions, s),
    decreases positions.len(),
{
    if positions.len() > 0 {
        let rest = positions.drop_last();
        assert forall|j: int| 0 <= j < rest.len() && open_at(#[trigger] rest[j], t) implies rest[j].entry_time
            <= s by {
            assert(rest[j] == positions[j]);
        }
        lemma_open_count_dominated(rest, t, s);
        if open_at(positions.last(), t) {
            assert(positions.last() == positions[positions.len() - 1]);
        }
    }
}

/// Number of positions open at instant `t`.
pub fn count_open_at(positions: &[BinaryPosition], t: i64) -> (count: usize)
    ensures
        count == open_count(positions@, t as int),
{
    let mut count: usize = 0;
    let mut i: usize = 0;
    while i < positions.len()
        invariant
            i <= positions@.len(),
            count == open_count(positions@.subrange(0, i as int), t as int),
            count <= i,
        decreases positions@.len() - i,
    {
        proof {
            assert(positions@.subrange(0, i as int + 1).drop_last() =~= positions@.subrange(0, i as int));
        }
        if positions[i].is_open_at(t) {
            count = count + 1;
        }
        i = i + 1;
    }
    proof {
        assert(positions@.subrange(0, positions@.len() as int) =~= positions@);
    }
    count
}

/// Greatest number of positions simultaneously open at any instant.
///
/// Positions are half-open intervals `[entry, expiry)`: a position entered at
/// the exact instant another expires does not overlap it. The count can only
/// rise at an entry, so the peak is the largest count seen at an entry time.
pub fn max_concurrent_positions(positions: &[BinaryPosition]) -> (peak: usize)
    ensures
        is_peak_concurrency(positions@, peak as int),
{
    if positions.len() == 0 {
        assert(open_count(positions@, 0) == 0);
        proof {
            assert forall|t: int| #[trigger] open_count(positions@, t) <= 0 by {}
        }
        return 0;
    }
    let mut peak: usize = count_open_at(positions, positions[0].entry_time);
    let ghost mut witness: int = positions@[0].entry_time as int;
    proof {
        lemma_open_count_bounds(positions@, witness);
    }
    let mut i: usize = 1;
    while i < positions.len()
        invariant
            i <= positions@.len(),
            open_count(positions@, witness) == peak,
            forall|j: int| 0 <= j < i ==> open_count(positions@, #[trigger] positions@[j].entry_time as int) <= peak,
            peak <= positions@.len(),
        decreases positions@.len() - i,
    {
        let here = count_open_at(positions, positions[i].entry_time);
        proof {
            lemma_open_count_bounds(positions@, positions@[i as int].entry_time as int);
        }
        if here > peak {
            peak = here;
            proof {
                witness = positions@[i as int].entry_time as int;
            }
        }
        i = i + 1;
    }
    proof {
        assert forall|t: int| #[trigger] open_count(positions@, t) <= peak by {
            lemma_open_count_at_most_peak(positions@, t, peak as int);
        }
    }
    peak
}

/// Any instant's count is bounded by the count at the latest entry among the
/// positions open then.
proof fn lemma_open_count_at_most_peak(positions: Seq<BinaryPosition>, t: int, peak: int)
    requires
        forall|j: int|
            0 <= j < positions.len() ==> open_count(positions, #[trigger] positions[j].entry_time as int)
                <= peak,
        peak >= 0,
    ensures
        open_count(positions, t) <= peak,
{
    if exists|j: int| 0 <= j < positions.len() && open_at(#[trigger] positions[j], t) {
        let j0 = choose|j: int| 0 <= j < positions.len() && open_at(#[trigger] positions[j], t);
        let latest = lemma_latest_open_entry(positions, t, j0);
        lemma_open_count_dominated(positions, t, positions[latest].entry_time as int);
        assert(open_count(positions, positions[latest].entry_time as int) <= peak);
    } else {
        lemma_open_count_zero(positions, t);
    }
}

proof fn lemma_open_count_zero(positions: Seq<BinaryPosition>, t: int)
    requires
        forall|j: int| 0 <= j < positions.len() ==> !open_at(#[trigger] positions[j], t),
    ensures
        open_count(positions, t) == 0,
    decreases positions.len(),
{
    if positions.len() > 0 {
        let rest = positions.drop_last();
        assert forall|j: int| 0 <= j < rest.len() implies !open_at(#[trigger] rest[j], t) by {
            assert(rest[j] == positions[j]);
        }
        lemma_open_count_zero(rest, t);
        assert(positions.last() == positions[positions.len() - 1]);
    }
}

/// Among the positions open at `t` (there is one, `j0`), one has the latest
/// entry.
proof fn lemma_latest_open_entry(positions: Seq<BinaryPosition>, t: int, j0: int) -> (latest: int)
    requires
        0 <= j0 < positions.len(),
        open_at(positions[j0], t),
    ensures
        0 <= latest < positions.len(),
        open_at(positions[latest], t),
        forall|j: int|
            0 <= j < positions.len() && open_at(#[trigger] positions[j], t) ==> positions[j].entry_time
                <= positions[latest].entry_time,
    decreases positions.len(),
{
    let n = positions.len();
    if n == 1 {
        0
    } else {
        let rest = positions.drop_last();
        let last = n - 1;
        if exists|j: int| 0 <= j < rest.len() && open_at(#[trigger] rest[j], t) {
            let j1 = choose|j: int| 0 <= j < rest.len() && open_at(#[trigger] rest[j], t);
            let l = lemma_latest_open_entry(rest, t, j1);
            assert(rest[l] == positions[l]);
            if open_at(positions[last], t) && positions[l].entry_time <= positions[last].entry_time {
                assert forall|j: int|
                    0 <= j < positions.len() && open_at(#[trigger] positions[j], t) implies positions[j].entry_time
                    <= positions[last].entry_time by {
                    if j < last {
                        assert(rest[j] == positions[j]);
                    }
                }
                last
            } else {
                assert forall|j: int|
                    0 <= j < positions.len() && open_at(#[trigger] positions[j], t) implies positions[j].entry_time
                    <= positions[l].entry_time by {
                    if j < last {
                        assert(rest[j] == positions[j]);
                    }
                }
                l
            }
        } else {
            assert(j0 == last) by {
                if j0 < last {
                    assert(rest[j0] == positions[j0]);
                }
            }
            assert forall|j: int|
                0 <= j < positions.len() && open_at(#[trigger] positions[j], t) implies positions[j].entry_time
                <= positions[last].entry_time by {
                if j < last {
                    assert(rest[j] == positions[j]);
                }
            }
            last
        }
    }
}

/// A set of positions exceeds the allowed concurrent-position limit.
#[derive(Clone, Copy, Debug, PartialEq, Eq, Structural)]
pub struct PositionLimitExceeded {
    pub peak: usize,
    pub limit: usize,
}

/// Reject position sets that exceed the allowed concurrent-position limit.
pub fn enforce_position_limit(positions: &[BinaryPosition], max_allowed: usize) -> (result: Result<
    (),
    PositionLimitExceeded,
>)
    ensures
        result is Ok <==> forall|t: int| #[trigger] open_count(positions@, t) <= max_allowed,
        result matches Err(e) ==> e.limit == max_allowed && is_peak_concurrency(positions@, e.peak as int),
{
    let peak = max_concurrent_positions(positions);
    if peak > max_allowed {
        let ghost t = choose|t: int| #[trigger] open_count(positions@, t) == peak;
        assert(open_count(positions@, t) > max_allowed);
        return Err(PositionLimitExceeded { peak, limit: max_allowed });
    }
    Ok(())
}

} // verus!
