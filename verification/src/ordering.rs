//! Deterministic ordering of timestamped items.
//!
//! Items are ordered by their timestamp, then by their sequence number, then
//! by their original position. The last component makes the order total, so
//! the sorted order of any input is unique.
use vstd::prelude::*;

verus! {

/// Whether item `a` comes strictly before item `b` when `keys[i]` is the
/// `(timestamp, sequence)` pair of item `i`.
pub open spec fn precedes(keys: Seq<(i64, u64)>, a: int, b: int) -> bool {
    ||| keys[a].0 < keys[b].0
    ||| (keys[a].0 == keys[b].0 && keys[a].1 < keys[b].1)
    ||| (keys[a].0 == keys[b].0 && keys[a].1 == keys[b].1 && a < b)
}

/// `order` lists every index of `keys` exactly once, in strictly increasing
/// `(timestamp, sequence, index)` order.
pub open spec fn is_replay_order(keys: Seq<(i64, u64)>, order: Seq<usize>) -> bool {
    &&& order.len() == keys.len()
    &&& forall|i: int| 0 <= i < order.len() ==> #[trigger] order[i] < keys.len()
    &&& forall|k: usize| k < keys.len() ==> #[trigger] order.contains(k)
    &&& forall|i: int, j: int|
        0 <= i < j < order.len() ==> precedes(keys, #[trigger] order[i] as int, #[trigger] order[j] as int)
}

/// Number of positions whose item moved away from its original index.
pub open spec fn displaced_count(order: Seq<usize>) -> nat
    decreases order.len(),
{
    if order.len() == 0 {
        0
    } else {
        displaced_count(order.drop_last()) + if order.last() != (order.len() - 1) as usize {
            1nat
        } else {
            0nat
        }
    }
}

proof fn lemma_precedes_total(keys: Seq<(i64, u64)>, a: int, b: int)
    requires
        a != b,
    ensures
        precedes(keys, a, b) || precedes(keys, b, a),
        !(precedes(keys, a, b) && precedes(keys, b, a)),
{
}

proof fn lemma_precedes_transitive(keys: Seq<(i64, u64)>, a: int, b: int, c: int)
    requires
        precedes(keys, a, b),
        precedes(keys, b, c),
    ensures
        precedes(keys, a, c),
{
}

/// Whether item `a` comes strictly before item `b`.
pub fn key_precedes(keys: &[(i64, u64)], a: usize, b: usize) -> (result: bool)
    requires
        a < keys@.len(),
        b < keys@.len(),
    ensures
        result == precedes(keys@, a as int, b as int),
{
    let (ta, sa) = keys[a];
    let (tb, sb) = keys[b];
    ta < tb || (ta == tb && sa < sb) || (ta == tb && sa == sb && a < b)
}

/// The replay order of `keys`: every index, sorted by `(timestamp, sequence,
/// index)`. Runs in linear time on input that is already in order.
pub fn replay_order(keys: &[(i64, u64)]) -> (order: Vec<usize>)
    ensures
        is_replay_order(keys@, order@),
{
    let n = keys.len();
    let mut order: Vec<usize> = Vec::new();
    let mut i: usize = 0;
    while i < n
        invariant
            i <= n,
            n == keys@.len(),
            order@.len() == i,
            forall|t: int| 0 <= t < order@.len() ==> #[trigger] order@[t] < i,
            forall|k: usize| k < i ==> #[trigger] order@.contains(k),
            forall|a: int, b: int|
                0 <= a < b < order@.len() ==> precedes(
                    keys@,
                    #[trigger] order@[a] as int,
                    #[trigger] order@[b] as int,
                ),
        decreases n - i,
    {
        let mut pos: usize = order.len();
        let mut moving = pos > 0 && key_precedes(keys, i, order[pos - 1]);
        while moving
            invariant
                pos <= order@.len(),
                i < n,
                n == keys@.len(),
                order@.len() == i,
                forall|t: int| 0 <= t < order@.len() ==> #[trigger] order@[t] < i,
                forall|t: int| pos <= t < order@.len() ==> precedes(keys@, i as int, #[trigger] order@[t] as int),
                moving ==> pos > 0 && precedes(keys@, i as int, order@[pos - 1] as int),
                !moving ==> pos == 0 || !precedes(keys@, i as int, order@[pos - 1] as int),
            decreases pos,
        {
            pos = pos - 1;
            moving = pos > 0 && key_precedes(keys, i, order[pos - 1]);
        }
        proof {
            if pos > 0 {
                let prev = order@[pos - 1] as int;
                assert(!precedes(keys@, i as int, prev));
                lemma_precedes_total(keys@, i as int, prev);
                assert forall|t: int| 0 <= t < pos implies precedes(keys@, #[trigger] order@[t] as int, i as int) by {
                    if t < pos - 1 {
                        lemma_precedes_transitive(keys@, order@[t] as int, prev, i as int);
                    }
                }
            }
        }
        let ghost old_order = order@;
        order.insert(pos, i);
        proof {
            assert forall|k: usize| k < i + 1 implies #[trigger] order@.contains(k) by {
                if k == i {
                    assert(order@[pos as int] == i);
                } else {
                    assert(old_order.contains(k));
                    let t = choose|t: int| 0 <= t < old_order.len() && old_order[t] == k;
                    if t < pos {
                        assert(order@[t] == k);
                    } else {
                        assert(order@[t + 1] == k);
                    }
                }
            }
            assert forall|a: int, b: int| 0 <= a < b < order@.len() implies precedes(
                keys@,
                #[trigger] order@[a] as int,
                #[trigger] order@[b] as int,
            ) by {
                if b < pos {
                } else if b == pos {
                } else if a < pos {
                    assert(order@[b] == old_order[b - 1]);
                } else if a == pos {
                    assert(order@[b] == old_order[b - 1]);
                } else {
                    assert(order@[a] == old_order[a - 1]);
                    assert(order@[b] == old_order[b - 1]);
                }
            }
        }
        i = i + 1;
    }
    order
}

/// Number of items whose position in `order` differs from their original
/// index.
pub fn count_displaced(order: &[usize]) -> (count: usize)
    ensures
        count == displaced_count(order@),
{
    let mut count: usize = 0;
    let mut i: usize = 0;
    while i < order.len()
        invariant
            i <= order@.len(),
            count == displaced_count(order@.subrange(0, i as int)),
            count <= i,
        decreases order@.len() - i,
    {
        proof {
            assert(order@.subrange(0, i as int + 1).drop_last() =~= order@.subrange(0, i as int));
        }
        if order[i] != i {
            count = count + 1;
        }
        i = i + 1;
    }
    proof {
        assert(order@.subrange(0, order@.len() as int) =~= order@);
    }
    count
}

/// Replay order is unique: two orders of the same keys are the same order.
pub proof fn lemma_replay_order_is_unique(keys: Seq<(i64, u64)>, first: Seq<usize>, second: Seq<usize>)
    requires
        is_replay_order(keys, first),
        is_replay_order(keys, second),
    ensures
        first == second,
{
    assert forall|i: int| 0 <= i < first.len() implies first[i] == second[i] by {
        lemma_sorted_position(keys, first, second, i);
    }
    assert(first =~= second);
}

/// Entry `i` of a replay order is the item with exactly `i` predecessors,
/// so two replay orders agree at every position.
proof fn lemma_sorted_position(keys: Seq<(i64, u64)>, first: Seq<usize>, second: Seq<usize>, i: int)
    requires
        is_replay_order(keys, first),
        is_replay_order(keys, second),
        0 <= i < first.len(),
    ensures
        first[i] == second[i],
    decreases i,
{
    let x = first[i];
    let y = second[i];
    if x != y {
        // y sits in `first` at some position p, x sits in `second` at some position q
        assert(first.contains(y));
        assert(second.contains(x));
        let p = choose|p: int| 0 <= p < first.len() && first[p] == y;
        let q = choose|q: int| 0 <= q < second.len() && second[q] == x;
        // p < i would make first[p] == second[p] by induction, contradicting
        // that second is duplicate-free; likewise q < i.
        if p < i {
            lemma_sorted_position(keys, first, second, p);
            assert(precedes(keys, second[p] as int, second[i] as int));
            assert(false);
        }
        if q < i {
            lemma_sorted_position(keys, first, second, q);
            assert(precedes(keys, first[q] as int, first[i] as int));
            assert(false);
        }
        assert(p > i);
        assert(q > i);
        assert(precedes(keys, x as int, y as int));
        assert(precedes(keys, y as int, x as int));
        lemma_precedes_total(keys, x as int, y as int);
        assert(false);
    }
}


/// Where item `i` goes in a replay order of other items: after everything
/// that precedes it, before everything it precedes.
proof fn lemma_insertion_point(keys: Seq<(i64, u64)>, order: Seq<usize>, i: int, pos: int) -> (point: int)
    requires
        0 <= pos <= order.len(),
        forall|t: int| 0 <= t < order.len() ==> #[trigger] order[t] != i,
        forall|a: int, b: int|
            0 <= a < b < order.len() ==> precedes(keys, #[trigger] order[a] as int, #[trigger] order[b] as int),
        forall|t: int| pos <= t < order.len() ==> precedes(keys, i, #[trigger] order[t] as int),
    ensures
        0 <= point <= pos,
        forall|t: int| 0 <= t < point ==> precedes(keys, #[trigger] order[t] as int, i),
        forall|t: int| point <= t < order.len() ==> precedes(keys, i, #[trigger] order[t] as int),
    decreases pos,
{
    if pos == 0 {
        0
    } else if precedes(keys, i, order[pos - 1] as int) {
        lemma_insertion_point(keys, order, i, pos - 1)
    } else {
        let prev = order[pos - 1] as int;
        lemma_precedes_total(keys, i, prev);
        assert forall|t: int| 0 <= t < pos implies precedes(keys, #[trigger] order[t] as int, i) by {
            if t < pos - 1 {
                lemma_precedes_transitive(keys, order[t] as int, prev, i);
            }
        }
        pos
    }
}

/// Every key sequence that `usize` can index has a replay order.
pub proof fn replay_order_exists(keys: Seq<(i64, u64)>) -> (order: Seq<usize>)
    requires
        keys.len() <= usize::MAX,
    ensures
        is_replay_order(keys, order),
    decreases keys.len(),
{
    if keys.len() == 0 {
        Seq::empty()
    } else {
        let n = keys.len() - 1;
        let head = keys.take(n);
        let prefix = replay_order_exists(head);
        assert forall|a: int, b: int| 0 <= a < n && 0 <= b < n implies precedes(head, a, b) == precedes(
            keys,
            a,
            b,
        ) by {}
        assert forall|t: int| 0 <= t < prefix.len() implies #[trigger] prefix[t] != n by {}
        assert forall|a: int, b: int| 0 <= a < b < prefix.len() implies precedes(
            keys,
            #[trigger] prefix[a] as int,
            #[trigger] prefix[b] as int,
        ) by {
            assert(precedes(head, prefix[a] as int, prefix[b] as int));
        }
        let pos = lemma_insertion_point(keys, prefix, n, prefix.len() as int);
        let order = prefix.insert(pos, n as usize);
        assert forall|k: usize| k < keys.len() implies #[trigger] order.contains(k) by {
            if k == n {
                assert(order[pos] == k);
            } else {
                assert(prefix.contains(k));
                let t = choose|t: int| 0 <= t < prefix.len() && prefix[t] == k;
                if t < pos {
                    assert(order[t] == k);
                } else {
                    assert(order[t + 1] == k);
                }
            }
        }
        assert forall|a: int, b: int| 0 <= a < b < order.len() implies precedes(
            keys,
            #[trigger] order[a] as int,
            #[trigger] order[b] as int,
        ) by {
            if b < pos {
            } else if b == pos {
            } else if a < pos {
                assert(order[b] == prefix[b - 1]);
            } else if a == pos {
                assert(order[b] == prefix[b - 1]);
            } else {
                assert(order[a] == prefix[a - 1]);
                assert(order[b] == prefix[b - 1]);
            }
        }
        order
    }
}
} // verus!
