//! Parameter sweeps: every combination of one value per swept parameter,
//! enumerated with the first parameter varying slowest.
use vstd::prelude::*;

verus! {

/// Every tuple `[v] + t` for `v < n` and `t` in `tails`, `v` slowest.
pub open spec fn prefixed_all(n: nat, tails: Seq<Seq<usize>>) -> Seq<Seq<usize>>
    decreases n,
{
    if n == 0 {
        Seq::empty()
    } else {
        prefixed_all((n - 1) as nat, tails) + tails.map_values(
            |t: Seq<usize>| seq![(n - 1) as usize] + t,
        )
    }
}

/// All index tuples that pick one value index per parameter, given how
/// many values each parameter has; the first parameter varies slowest.
pub open spec fn combinations(counts: Seq<usize>) -> Seq<Seq<usize>>
    decreases counts.len(),
{
    if counts.len() == 0 {
        seq![Seq::<usize>::empty()]
    } else {
        prefixed_all(counts[0] as nat, combinations(counts.drop_first()))
    }
}

/// Product of the counts.
pub open spec fn product(counts: Seq<usize>) -> nat
    decreases counts.len(),
{
    if counts.len() == 0 {
        1
    } else {
        (counts[0] as nat) * product(counts.drop_first())
    }
}

pub open spec fn views(out: Seq<Vec<usize>>) -> Seq<Seq<usize>> {
    out.map_values(|v: Vec<usize>| v@)
}

pub open spec fn with_prefix(prefix: Seq<usize>, tuples: Seq<Seq<usize>>) -> Seq<Seq<usize>> {
    tuples.map_values(|t: Seq<usize>| prefix + t)
}

fn copy_of(v: &Vec<usize>) -> (copy: Vec<usize>)
    ensures
        copy@ == v@,
{
    let mut copy: Vec<usize> = Vec::new();
    let n = v.len();
    let mut k: usize = 0;
    while k < n
        invariant
            n == v@.len(),
            k <= n,
            copy@ == v@.subrange(0, k as int),
        decreases n - k,
    {
        copy.push(v[k]);
        k = k + 1;
        assert(copy@ =~= v@.subrange(0, k as int));
    }
    assert(v@.subrange(0, n as int) =~= v@);
    copy
}

proof fn lemma_prefixed_step(prefix: Seq<usize>, v: nat, tails: Seq<Seq<usize>>)
    ensures
        with_prefix(prefix, prefixed_all(v + 1, tails)) == with_prefix(prefix, prefixed_all(v, tails))
            + with_prefix(prefix.push(v as usize), tails),
{
    let left = prefixed_all(v, tails);
    let added = tails.map_values(|t: Seq<usize>| seq![v as usize] + t);
    assert(prefixed_all(v + 1, tails) == left + added);
    let f = |t: Seq<usize>| prefix + t;
    assert((left + added).map_values(f) =~= left.map_values(f) + added.map_values(f));
    assert forall|i: int| 0 <= i < tails.len() implies #[trigger] added.map_values(f)[i] == with_prefix(
        prefix.push(v as usize),
        tails,
    )[i] by {
        assert(prefix + (seq![v as usize] + tails[i]) =~= prefix.push(v as usize) + tails[i]);
    }
    assert(added.map_values(f) =~= with_prefix(prefix.push(v as usize), tails));
}

fn collect_combinations(
    counts: &[usize],
    idx: usize,
    prefix: &mut Vec<usize>,
    out: &mut Vec<Vec<usize>>,
)
    requires
        idx <= counts@.len(),
    ensures
        final(prefix)@ == old(prefix)@,
        views(final(out)@) == views(old(out)@) + with_prefix(
            old(prefix)@,
            combinations(counts@.skip(idx as int)),
        ),
    decreases counts@.len() - idx,
{
    if idx == counts.len() {
        let copy = copy_of(prefix);
        let ghost before = out@;
        out.push(copy);
        proof {
            assert(counts@.skip(idx as int) =~= Seq::<usize>::empty());
            assert(with_prefix(prefix@, combinations(Seq::<usize>::empty())) =~= seq![prefix@ + Seq::<usize>::empty()]);
            assert(prefix@ + Seq::<usize>::empty() =~= prefix@);
            assert(views(out@) =~= views(before) + seq![prefix@]);
        }
        return;
    }
    let ghost start = prefix@;
    let ghost out0 = out@;
    let ghost rest = counts@.skip(idx as int + 1);
    proof {
        assert(counts@.skip(idx as int).drop_first() =~= rest);
    }
    let n = counts[idx];
    let len = counts.len();
    let mut v: usize = 0;
    while v < n
        invariant
            len == counts@.len(),
            idx < len,
            n == counts@[idx as int],
            rest == counts@.skip(idx as int + 1),
            v <= n,
            prefix@ == start,
            views(out@) == views(out0) + with_prefix(start, prefixed_all(v as nat, combinations(rest))),
        decreases n - v,
    {
        prefix.push(v);
        let ghost mid = out@;
        collect_combinations(counts, idx + 1, prefix, out);
        proof {
            lemma_prefixed_step(start, v as nat, combinations(rest));
            assert(views(out@) =~= views(out0) + with_prefix(start, prefixed_all((v + 1) as nat, combinations(rest))));
        }
        prefix.pop();
        proof {
            assert(prefix@ =~= start);
        }
        v = v + 1;
    }
}

/// Every combination of one value per swept parameter, given how many
/// values each parameter has, as tuples of value indices; the first
/// parameter varies slowest.
pub fn sweep_combinations(value_counts: &[usize]) -> (combos: Vec<Vec<usize>>)
    ensures
        views(combos@) == combinations(value_counts@),
{
    let mut prefix: Vec<usize> = Vec::new();
    let mut out: Vec<Vec<usize>> = Vec::new();
    collect_combinations(value_counts, 0, &mut prefix, &mut out);
    proof {
        assert(value_counts@.skip(0) =~= value_counts@);
        assert(views(Seq::<Vec<usize>>::empty()) =~= Seq::<Seq<usize>>::empty());
        let all = combinations(value_counts@);
        assert(with_prefix(Seq::<usize>::empty(), all) =~= all) by {
            assert forall|i: int| 0 <= i < all.len() implies #[trigger] with_prefix(Seq::<usize>::empty(), all)[i] == all[i] by {
                assert(Seq::<usize>::empty() + all[i] =~= all[i]);
            }
        }
    }
    out
}

proof fn lemma_prefixed_all(n: nat, tails: Seq<Seq<usize>>, width: nat, bounds: Seq<usize>)
    requires
        bounds.len() == width,
        forall|i: int|
            0 <= i < tails.len() ==> (#[trigger] tails[i]).len() == width && forall|j: int|
                0 <= j < width ==> #[trigger] tails[i][j] < bounds[j],
        n <= usize::MAX,
    ensures
        prefixed_all(n, tails).len() == n * tails.len(),
        forall|i: int|
            0 <= i < prefixed_all(n, tails).len() ==> (#[trigger] prefixed_all(n, tails)[i]).len() == width + 1
                && prefixed_all(n, tails)[i][0] < n && forall|j: int|
                0 <= j < width ==> #[trigger] prefixed_all(n, tails)[i][j + 1] < bounds[j],
    decreases n,
{
    if n > 0 {
        lemma_prefixed_all((n - 1) as nat, tails, width, bounds);
        let left = prefixed_all((n - 1) as nat, tails);
        let added = tails.map_values(|t: Seq<usize>| seq![(n - 1) as usize] + t);
        assert(prefixed_all(n, tails) == left + added);
        assert(n * tails.len() == (n - 1) * tails.len() + tails.len()) by (nonlinear_arith);
        assert forall|i: int| 0 <= i < prefixed_all(n, tails).len() implies (#[trigger] prefixed_all(n, tails)[i]).len()
            == width + 1 && prefixed_all(n, tails)[i][0] < n && forall|j: int|
            0 <= j < width ==> #[trigger] prefixed_all(n, tails)[i][j + 1] < bounds[j] by {
            if i >= left.len() {
                let t = tails[i - left.len()];
                assert(prefixed_all(n, tails)[i] == seq![(n - 1) as usize] + t);
            } else {
                assert(prefixed_all(n, tails)[i] == left[i]);
            }
        }
    }
}

/// The sweep yields the product of the value counts, and every
/// combination picks one valid value index for each parameter.
pub proof fn law_combinations_cover_the_grid(counts: Seq<usize>)
    ensures
        combinations(counts).len() == product(counts),
        forall|i: int|
            0 <= i < combinations(counts).len() ==> (#[trigger] combinations(counts)[i]).len()
                == counts.len() && forall|j: int|
                0 <= j < counts.len() ==> #[trigger] combinations(counts)[i][j] < counts[j],
    decreases counts.len(),
{
    if counts.len() > 0 {
        let rest = counts.drop_first();
        law_combinations_cover_the_grid(rest);
        lemma_prefixed_all(counts[0] as nat, combinations(rest), rest.len(), rest);
        let all = combinations(counts);
        assert forall|i: int| 0 <= i < all.len() implies (#[trigger] all[i]).len() == counts.len()
            && forall|j: int| 0 <= j < counts.len() ==> #[trigger] all[i][j] < counts[j] by {
            assert forall|j: int| 0 <= j < counts.len() implies #[trigger] all[i][j] < counts[j] by {
                if j > 0 {
                    assert(all[i][(j - 1) + 1] < rest[j - 1]);
                }
            }
        }
    }
}

} // verus!
