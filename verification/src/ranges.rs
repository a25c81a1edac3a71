//! Index ranges of a sequence and the values they hold.

use vstd::multiset::Multiset;
use vstd::prelude::*;
use vstd::seq_lib::*;

verus! {

/// `s` with the values at `a` and `b` exchanged.
pub open spec fn exchanged(s: Seq<i64>, a: int, b: int) -> Seq<i64> {
    s.update(a, s[b]).update(b, s[a])
}

/// The values of `s` at the indices `lo..hi`, without their order.
pub open spec fn values(s: Seq<i64>, lo: int, hi: int) -> Multiset<i64> {
    s.subrange(lo, hi).to_multiset()
}

/// `t` differs from `s` only by a rearrangement of the inclusive range
/// `left..=right`.
pub open spec fn rearranged(s: Seq<i64>, t: Seq<i64>, left: int, right: int) -> bool {
    &&& t.len() == s.len()
    &&& forall|k: int| 0 <= k < s.len() && !(left <= k <= right) ==> t[k] == s[k]
    &&& left <= right ==> values(t, left, right + 1) == values(s, left, right + 1)
}

/// The inclusive range `left..=right` of `s` is non-decreasing.
pub open spec fn ascending(s: Seq<i64>, left: int, right: int) -> bool {
    forall|a: int, b: int| left <= a <= b <= right ==> s[a] <= s[b]
}

/// No value is held at three indices of the inclusive range `left..=right`.
pub open spec fn at_most_twice(s: Seq<i64>, left: int, right: int) -> bool {
    forall|a: int, b: int, c: int|
        #![trigger s[a], s[b], s[c]]
        left <= a < b < c <= right ==> !(s[a] == s[b] && s[b] == s[c])
}

/// Exchanging two elements of a range leaves the values of the range as they
/// were.
pub proof fn lemma_exchange_keeps_values(s: Seq<i64>, lo: int, hi: int, a: int, b: int)
    requires
        0 <= lo <= a < hi <= s.len(),
        lo <= b < hi,
    ensures
        values(exchanged(s, a, b), lo, hi) == values(s, lo, hi),
{
    broadcast use vstd::multiset::group_multiset_axioms;

    let part = s.subrange(lo, hi);
    let once = part.update(a - lo, s[b]);
    let twice = once.update(b - lo, s[a]);
    assert(exchanged(s, a, b).subrange(lo, hi) =~= twice);
    to_multiset_update(part, a - lo, s[b]);
    to_multiset_update(once, b - lo, s[a]);
    part.to_multiset_ensures();
    assert(part[a - lo] == s[a]);
    assert(part[b - lo] == s[b]);
    assert(part.to_multiset().count(s[a]) > 0);
    assert(part.to_multiset().count(s[b]) > 0);
    assert(twice.to_multiset() =~= part.to_multiset());
}

/// The values of a range are those of its two parts together.
pub proof fn lemma_values_split(s: Seq<i64>, lo: int, mid: int, hi: int)
    requires
        0 <= lo <= mid <= hi <= s.len(),
    ensures
        values(s, lo, hi) == values(s, lo, mid).add(values(s, mid, hi)),
{
    assert(s.subrange(lo, hi) =~= s.subrange(lo, mid) + s.subrange(mid, hi));
    lemma_multiset_commutative(s.subrange(lo, mid), s.subrange(mid, hi));
}

/// Ranges that hold the same value at every index hold the same values.
pub proof fn lemma_values_agree(s: Seq<i64>, t: Seq<i64>, lo: int, hi: int)
    requires
        0 <= lo <= hi <= s.len(),
        hi <= t.len(),
        forall|k: int| lo <= k < hi ==> s[k] == t[k],
    ensures
        values(s, lo, hi) == values(t, lo, hi),
{
    assert(s.subrange(lo, hi) =~= t.subrange(lo, hi));
}

/// A range of one index holds the value at that index once and nothing else.
pub proof fn lemma_values_single(s: Seq<i64>, k: int, v: i64)
    requires
        0 <= k < s.len(),
    ensures
        values(s, k, k + 1).count(v) == if s[k] == v { 1nat } else { 0nat },
{
    broadcast use vstd::multiset::group_multiset_axioms;

    let nothing = Seq::<i64>::empty();
    assert(s.subrange(k, k + 1) =~= nothing.push(s[k]));
    to_multiset_build(nothing, s[k]);
    to_multiset_len(nothing);
    assert(nothing.to_multiset().count(v) == 0);
}

/// A value is among the values of a range exactly when some index of the
/// range holds it.
pub proof fn lemma_values_held(s: Seq<i64>, lo: int, hi: int, v: i64)
    requires
        0 <= lo <= hi <= s.len(),
    ensures
        values(s, lo, hi).count(v) > 0 <==> exists|k: int| lo <= k < hi && s[k] == v,
{
    let part = s.subrange(lo, hi);
    to_multiset_contains(part, v);
    if part.contains(v) {
        let at = choose|at: int| 0 <= at < part.len() && part[at] == v;
        assert(s[lo + at] == v);
    }
    if exists|k: int| lo <= k < hi && s[k] == v {
        let k = choose|k: int| lo <= k < hi && s[k] == v;
        assert(part[k - lo] == v);
    }
}

/// Three indices of a range that hold one value make it count three times.
pub proof fn lemma_three_indices_count(s: Seq<i64>, lo: int, hi: int, a: int, b: int, c: int)
    requires
        0 <= lo <= a < b < c < hi <= s.len(),
        s[a] == s[b],
        s[b] == s[c],
    ensures
        values(s, lo, hi).count(s[a]) >= 3,
{
    broadcast use vstd::multiset::group_multiset_axioms;

    let v = s[a];
    lemma_values_split(s, lo, b, hi);
    lemma_values_split(s, b, c, hi);
    lemma_values_held(s, lo, b, v);
    lemma_values_held(s, b, c, v);
    lemma_values_held(s, c, hi, v);
}

/// A value that counts twice in a range is held at two of its indices.
pub proof fn lemma_count_two_indices(s: Seq<i64>, lo: int, hi: int, v: i64) -> (at: (int, int))
    requires
        0 <= lo <= hi <= s.len(),
        values(s, lo, hi).count(v) >= 2,
    ensures
        lo <= at.0 < at.1 < hi,
        s[at.0] == v,
        s[at.1] == v,
    decreases hi - lo,
{
    broadcast use vstd::multiset::group_multiset_axioms;

    if lo == hi {
        lemma_values_held(s, lo, hi, v);
        (lo, lo)
    } else {
        lemma_values_split(s, lo, hi - 1, hi);
        lemma_values_single(s, hi - 1, v);
        if s[hi - 1] == v {
            lemma_values_held(s, lo, hi - 1, v);
            let first = choose|k: int| lo <= k < hi - 1 && s[k] == v;
            (first, hi - 1)
        } else {
            lemma_count_two_indices(s, lo, hi - 1, v)
        }
    }
}

/// A value that counts three times in a range is held at three of its
/// indices.
pub proof fn lemma_count_three_indices(s: Seq<i64>, lo: int, hi: int, v: i64) -> (at: (
    int,
    int,
    int,
))
    requires
        0 <= lo <= hi <= s.len(),
        values(s, lo, hi).count(v) >= 3,
    ensures
        lo <= at.0 < at.1 < at.2 < hi,
        s[at.0] == v,
        s[at.1] == v,
        s[at.2] == v,
    decreases hi - lo,
{
    broadcast use vstd::multiset::group_multiset_axioms;

    if lo == hi {
        lemma_values_held(s, lo, hi, v);
        (lo, lo, lo)
    } else {
        lemma_values_split(s, lo, hi - 1, hi);
        lemma_values_single(s, hi - 1, v);
        if s[hi - 1] == v {
            let (first, second) = lemma_count_two_indices(s, lo, hi - 1, v);
            (first, second, hi - 1)
        } else {
            lemma_count_three_indices(s, lo, hi - 1, v)
        }
    }
}

/// A rearrangement of a range in which no value is held three times holds no
/// value three times either.
pub proof fn lemma_rearranged_at_most_twice(s: Seq<i64>, t: Seq<i64>, left: int, right: int)
    requires
        0 <= left <= right < s.len(),
        rearranged(s, t, left, right),
        at_most_twice(s, left, right),
    ensures
        at_most_twice(t, left, right),
{
    assert forall|a: int, b: int, c: int|
        #![trigger t[a], t[b], t[c]]
        left <= a < b < c <= right implies !(t[a] == t[b] && t[b] == t[c]) by {
        if t[a] == t[b] && t[b] == t[c] {
            lemma_three_indices_count(t, left, right + 1, a, b, c);
            let (x, y, z) = lemma_count_three_indices(s, left, right + 1, t[a]);
            assert(!(s[x] == s[y] && s[y] == s[z]));
        }
    }
}

/// Whatever bounds every value of a range from above bounds every value of a
/// rearrangement of it, and likewise from below.
pub proof fn lemma_rearranged_bounds(s: Seq<i64>, t: Seq<i64>, left: int, right: int, bound: i64)
    requires
        0 <= left <= right < s.len(),
        rearranged(s, t, left, right),
    ensures
        (forall|k: int| left <= k <= right ==> s[k] <= bound) ==> (forall|k: int|
            left <= k <= right ==> t[k] <= bound),
        (forall|k: int| left <= k <= right ==> s[k] >= bound) ==> (forall|k: int|
            left <= k <= right ==> t[k] >= bound),
{
    assert forall|k: int| left <= k <= right implies exists|from: int|
        left <= from <= right && s[from] == #[trigger] t[k] by {
        lemma_values_held(t, left, right + 1, t[k]);
        lemma_values_held(s, left, right + 1, t[k]);
        let from = choose|from: int| left <= from < right + 1 && s[from] == t[k];
        assert(left <= from <= right && s[from] == t[k]);
    }
}

} // verus!
