//! Fold tags: a settlement's signal note may carry a comma-separated part
//! `fold=N` naming the cross-validation fold it came from.
use vstd::prelude::*;

use crate::adapters::provider::{is_unicode_white_space, is_white_space};
use crate::text::chars_of;

verus! {

/// Text without its leading whitespace.
pub open spec fn trim_start(text: Seq<char>) -> Seq<char>
    decreases text.len(),
{
    if text.len() > 0 && is_unicode_white_space(text[0]) {
        trim_start(text.drop_first())
    } else {
        text
    }
}

/// Text without its trailing whitespace.
pub open spec fn trim_end(text: Seq<char>) -> Seq<char>
    decreases text.len(),
{
    if text.len() > 0 && is_unicode_white_space(text.last()) {
        trim_end(text.drop_last())
    } else {
        text
    }
}

/// Text without leading or trailing whitespace, as `str::trim` leaves it.
pub open spec fn trimmed(text: Seq<char>) -> Seq<char> {
    trim_end(trim_start(text))
}

pub open spec fn is_fold_part(part: Seq<char>) -> bool {
    part.len() >= 5 && part.subrange(0, 5) == "fold="@
}

/// Position of the first comma.
pub open spec fn first_comma(text: Seq<char>) -> Option<int> {
    if exists|i: int| 0 <= i < text.len() && #[trigger] text[i] == ',' {
        Some(
            choose|i: int|
                0 <= i < text.len() && #[trigger] text[i] == ',' && forall|j: int|
                    0 <= j < i ==> #[trigger] text[j] != ',',
        )
    } else {
        None
    }
}

/// The fold tag of a note: the first comma-separated part that, trimmed,
/// starts with `fold=`, trimmed.
#[verifier::opaque]
pub open spec fn fold_tag_spec(note: Seq<char>) -> Option<Seq<char>>
    decreases note.len(),
{
    match first_comma(note) {
        None => if is_fold_part(trimmed(note)) {
            Some(trimmed(note))
        } else {
            None
        },
        Some(i) => if 0 <= i < note.len() {
            if is_fold_part(trimmed(note.subrange(0, i))) {
                Some(trimmed(note.subrange(0, i)))
            } else {
                fold_tag_spec(note.subrange(i + 1, note.len() as int))
            }
        } else {
            None
        },
    }
}

/// `String::from_iter` over characters: claimed to hold exactly those
/// characters in order.
#[verifier::external_body]
fn string_of_chars(chars: Vec<char>) -> (text: String)
    ensures
        text@ == chars@,
{
    chars.into_iter().collect()
}

proof fn lemma_first_comma(text: Seq<char>, i: int)
    requires
        0 <= i < text.len(),
        text[i] == ',',
        forall|j: int| 0 <= j < i ==> #[trigger] text[j] != ',',
    ensures
        first_comma(text) == Some(i),
{
    let w = choose|w: int|
        0 <= w < text.len() && #[trigger] text[w] == ',' && forall|j: int| 0 <= j < w ==> #[trigger] text[j] != ',';
    if w < i {
    } else if w > i {
        assert(text[i] != ',');
    }
}

/// Bounds `[lo, hi)` of `chars[a..b]` trimmed.
fn trim_bounds(chars: &Vec<char>, a: usize, b: usize) -> (bounds: (usize, usize))
    requires
        a <= b <= chars@.len(),
    ensures
        a <= bounds.0 <= bounds.1 <= b,
        chars@.subrange(bounds.0 as int, bounds.1 as int) == trimmed(chars@.subrange(a as int, b as int)),
{
    let mut lo = a;
    while lo < b && is_white_space(chars[lo])
        invariant
            a <= lo <= b <= chars@.len(),
            trim_start(chars@.subrange(a as int, b as int)) == trim_start(chars@.subrange(lo as int, b as int)),
        decreases b - lo,
    {
        assert(chars@.subrange(lo as int, b as int).drop_first() =~= chars@.subrange(lo as int + 1, b as int));
        lo = lo + 1;
    }
    assert(trim_start(chars@.subrange(lo as int, b as int)) == chars@.subrange(lo as int, b as int));
    let mut hi = b;
    while hi > lo && is_white_space(chars[hi - 1])
        invariant
            a <= lo <= hi <= b <= chars@.len(),
            trim_start(chars@.subrange(a as int, b as int)) == chars@.subrange(lo as int, b as int),
            trim_end(chars@.subrange(lo as int, b as int)) == trim_end(chars@.subrange(lo as int, hi as int)),
        decreases hi - lo,
    {
        assert(chars@.subrange(lo as int, hi as int).drop_last() =~= chars@.subrange(lo as int, hi as int - 1));
        hi = hi - 1;
    }
    assert(trim_end(chars@.subrange(lo as int, hi as int)) == chars@.subrange(lo as int, hi as int));
    (lo, hi)
}

fn starts_with_fold(chars: &Vec<char>, lo: usize, hi: usize) -> (fold: bool)
    requires
        lo <= hi <= chars@.len(),
    ensures
        fold == is_fold_part(chars@.subrange(lo as int, hi as int)),
{
    proof {
        reveal_strlit("fold=");
    }
    let ghost part = chars@.subrange(lo as int, hi as int);
    let ghost expected = seq!['f', 'o', 'l', 'd', '='];
    assert("fold="@ =~= expected);
    if hi - lo < 5 {
        return false;
    }
    let fold = chars[lo] == 'f' && chars[lo + 1] == 'o' && chars[lo + 2] == 'l' && chars[lo + 3] == 'd'
        && chars[lo + 4] == '=';
    proof {
        let head = part.subrange(0, 5);
        if fold {
            assert(head =~= expected);
        } else if head == expected {
            assert(head[0] == expected[0] && head[1] == expected[1] && head[2] == expected[2]
                && head[3] == expected[3] && head[4] == expected[4]);
        }
    }
    fold
}

fn copy_range(chars: &Vec<char>, lo: usize, hi: usize) -> (part: Vec<char>)
    requires
        lo <= hi <= chars@.len(),
    ensures
        part@ == chars@.subrange(lo as int, hi as int),
{
    let mut part: Vec<char> = Vec::new();
    let mut k = lo;
    while k < hi
        invariant
            lo <= k <= hi <= chars@.len(),
            part@ == chars@.subrange(lo as int, k as int),
        decreases hi - k,
    {
        part.push(chars[k]);
        k = k + 1;
        assert(part@ =~= chars@.subrange(lo as int, k as int));
    }
    part
}

/// One step of reading a note: the first part ends at `k`, at a comma or
/// at the end of the note.
proof fn lemma_part_step(rest: Seq<char>, k: int)
    requires
        0 <= k <= rest.len(),
        k < rest.len() ==> rest[k] == ',',
        forall|m: int| 0 <= m < k ==> #[trigger] rest[m] != ',',
    ensures
        fold_tag_spec(rest) == (if is_fold_part(trimmed(rest.subrange(0, k))) {
            Some(trimmed(rest.subrange(0, k)))
        } else if k == rest.len() {
            None
        } else {
            fold_tag_spec(rest.subrange(k + 1, rest.len() as int))
        }),
{
    reveal(fold_tag_spec);
    if k < rest.len() {
        lemma_first_comma(rest, k);
    } else {
        assert(rest.subrange(0, k) =~= rest);
        assert(!exists|m: int| 0 <= m < rest.len() && #[trigger] rest[m] == ',');
    }
}

/// The fold tag of a signal note, if it has one.
pub fn fold_tag(note: &str) -> (tag: Option<String>)
    ensures
        match tag {
            Some(t) => fold_tag_spec(note@) == Some(t@),
            None => fold_tag_spec(note@) is None,
        },
{
    let chars = chars_of(note);
    let n = chars.len();
    let mut a: usize = 0;
    let mut j: usize = 0;
    assert(chars@.subrange(0, n as int) =~= chars@);
    while j < n
        invariant
            chars@ == note@,
            n == chars@.len(),
            a <= j <= n,
            fold_tag_spec(note@) == fold_tag_spec(chars@.subrange(a as int, n as int)),
            forall|k: int| a <= k < j ==> #[trigger] chars@[k] != ',',
        decreases n - j,
    {
        if chars[j] == ',' {
            let ghost rest = chars@.subrange(a as int, n as int);
            let (lo, hi) = trim_bounds(&chars, a, j);
            proof {
                assert forall|m: int| 0 <= m < j - a implies #[trigger] rest[m] != ',' by {
                    assert(rest[m] == chars@[a + m]);
                }
                lemma_part_step(rest, j - a);
                assert(rest.subrange(0, j - a) =~= chars@.subrange(a as int, j as int));
                assert(rest.subrange(j - a + 1, rest.len() as int) =~= chars@.subrange(j as int + 1, n as int));
            }
            if starts_with_fold(&chars, lo, hi) {
                let part = copy_range(&chars, lo, hi);
                return Some(string_of_chars(part));
            }
            a = j + 1;
        }
        j = j + 1;
    }
    let ghost rest = chars@.subrange(a as int, n as int);
    let (lo, hi) = trim_bounds(&chars, a, n);
    proof {
        assert forall|m: int| 0 <= m < n - a implies #[trigger] rest[m] != ',' by {
            assert(rest[m] == chars@[a + m]);
        }
        lemma_part_step(rest, n - a);
        assert(rest.subrange(0, n - a) =~= chars@.subrange(a as int, n as int));
    }
    if starts_with_fold(&chars, lo, hi) {
        let part = copy_range(&chars, lo, hi);
        return Some(string_of_chars(part));
    }
    None
}

} // verus!
