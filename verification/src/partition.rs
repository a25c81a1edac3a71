//! Partitioning one inclusive range of the array around its last element.
//!
//! The rule is fixed: the pivot is the value found at `right`, a forward
//! cursor starts at `left`, a backward cursor at `right - 1`, and the two
//! exchange the values they come to rest on until they meet.

use crate::ranges::{exchanged, lemma_exchange_keeps_values, rearranged, values};
use vstd::prelude::*;

verus! {

/// The inputs on which a range can be partitioned: it holds at least two
/// elements, lies inside `s`, and the pivot value `s[right]` is held by at
/// most one other of its elements.
///
/// On two further copies of the pivot value both cursors come to rest on a
/// value equal to the pivot, with the forward one in front; exchanging them
/// changes nothing, so the rule has no result there.
pub open spec fn partitionable(s: Seq<i64>, left: int, right: int) -> bool {
    &&& 0 <= left < right < s.len()
    &&& forall|a: int, b: int|
        left <= a < b < right ==> !(#[trigger] s[a] == s[right] && #[trigger] s[b] == s[right])
}

/// 1 while the values under the two cursors are out of order, else 0.
pub open spec fn out_of_order(s: Seq<i64>, i: int, j: int) -> nat {
    if s[i] > s[j] {
        1
    } else {
        0
    }
}

/// The partition rule, from the cursors `i` (forward) and `j` (backward) on:
/// the rearranged sequence and the index where the pivot comes to rest.
///
/// The forward cursor passes the values below the pivot and never goes beyond
/// `right`; the backward cursor passes the values above it and never goes
/// below `left`. Where both rest with `i < j`, the two values are exchanged
/// and the sweep goes on from the same cursors. Otherwise the value under `i`
/// is exchanged with the pivot.
pub open spec fn sweep(s: Seq<i64>, left: int, right: int, i: int, j: int) -> (Seq<i64>, int)
    decreases (right - i) + (j - left), out_of_order(s, i, j),
    when 0 <= left <= i <= right < s.len() && left <= j < right
{
    if i < right && s[i] < s[right] {
        sweep(s, left, right, i + 1, j)
    } else if j > left && s[j] > s[right] {
        sweep(s, left, right, i, j - 1)
    } else if i < j && s[i] > s[j] {
        sweep(exchanged(s, i, j), left, right, i, j)
    } else {
        (exchanged(s, i, right), i)
    }
}

/// What partitioning `left..=right` of `s` yields: the sequence afterwards and
/// the final index of the pivot.
pub open spec fn partitioned(s: Seq<i64>, left: int, right: int) -> (Seq<i64>, int) {
    sweep(s, left, right, left, right - 1)
}

/// Wherever the sweep starts inside the range, the pivot comes to rest at or
/// after the forward cursor and inside the range, and no element is added or
/// lost.
pub proof fn lemma_sweep_in_range(s: Seq<i64>, left: int, right: int, i: int, j: int)
    requires
        0 <= left <= i <= right < s.len(),
        left <= j < right,
    ensures
        i <= sweep(s, left, right, i, j).1 <= right,
        sweep(s, left, right, i, j).0.len() == s.len(),
    decreases (right - i) + (j - left), out_of_order(s, i, j),
{
    if i < right && s[i] < s[right] {
        lemma_sweep_in_range(s, left, right, i + 1, j);
    } else if j > left && s[j] > s[right] {
        lemma_sweep_in_range(s, left, right, i, j - 1);
    } else if i < j && s[i] > s[j] {
        lemma_sweep_in_range(exchanged(s, i, j), left, right, i, j);
    }
}

/// Exchanges the elements at `a` and `b`.
fn exchange(array: &mut [i64], a: usize, b: usize)
    requires
        a < old(array)@.len(),
        b < old(array)@.len(),
    ensures
        final(array)@ == exchanged(old(array)@, a as int, b as int),
{
    let first: i64 = array[a];
    let second: i64 = array[b];
    array[a] = second;
    array[b] = first;
}

/// Rearranges `left..=right` around the value found at `right` and returns the
/// index where that value comes to rest: everything before it in the range is
/// below it, everything after it in the range is not below it.
pub fn partition(array: &mut [i64], left: isize, right: isize) -> (p: isize)
    requires
        partitionable(old(array)@, left as int, right as int),
    ensures
        (final(array)@, p as int) == partitioned(old(array)@, left as int, right as int),
        left <= p <= right,
        final(array)@[p as int] == old(array)@[right as int],
        forall|k: int| left <= k < p ==> final(array)@[k] < final(array)@[p as int],
        forall|k: int| p < k <= right ==> final(array)@[k] >= final(array)@[p as int],
        rearranged(old(array)@, final(array)@, left as int, right as int),
{
    let ghost before = array@;
    let ghost goal = partitioned(before, left as int, right as int);
    let pivot: i64 = array[right as usize];
    let mut i: isize = left;
    let mut j: isize = right - 1;
    loop
        invariant_except_break
            i <= j,
        invariant
            0 <= left <= i <= right < array@.len(),
            left <= j < right,
            array@.len() == before.len(),
            array@[right as int] == pivot,
            pivot == before[right as int],
            sweep(array@, left as int, right as int, i as int, j as int) == goal,
            forall|k: int| left <= k < i ==> array@[k] < pivot,
            forall|k: int| j < k < right ==> array@[k] > pivot,
            forall|a: int, b: int|
                left <= a < b < right ==> !(#[trigger] array@[a] == pivot && #[trigger] array@[b]
                    == pivot),
            values(array@, left as int, right + 1) == values(before, left as int, right + 1),
            forall|k: int| 0 <= k < before.len() && !(left <= k <= right) ==> array@[k] == before[k],
        ensures
            j <= i,
            i == right || array@[i as int] >= pivot,
            j == left || array@[j as int] <= pivot,
        decreases (right - i) + (j - left), out_of_order(array@, i as int, j as int),
    {
        while array[i as usize] < pivot && i < right
            invariant
                0 <= left <= i <= right < array@.len(),
                left <= j < right,
                array@[right as int] == pivot,
                sweep(array@, left as int, right as int, i as int, j as int) == goal,
                forall|k: int| left <= k < i ==> array@[k] < pivot,
            decreases right - i,
        {
            i += 1;
        }
        while array[j as usize] > pivot && j > left
            invariant
                0 <= left <= i <= right < array@.len(),
                left <= j < right,
                array@[right as int] == pivot,
                !(i < right && array@[i as int] < pivot),
                sweep(array@, left as int, right as int, i as int, j as int) == goal,
                forall|k: int| j < k < right ==> array@[k] > pivot,
            decreases j - left,
        {
            j -= 1;
        }
        if i < j {
            let ghost resting = array@;
            proof {
                lemma_exchange_keeps_values(resting, left as int, right + 1, i as int, j as int);
            }
            exchange(array, i as usize, j as usize);
            assert forall|a: int, b: int| left <= a < b < right implies !(#[trigger] array@[a]
                == pivot && #[trigger] array@[b] == pivot) by {
                let from_a = if a == i { j as int } else if a == j { i as int } else { a };
                let from_b = if b == i { j as int } else if b == j { i as int } else { b };
                assert(array@[a] == resting[from_a]);
                assert(array@[b] == resting[from_b]);
                if from_a < from_b {
                    assert(!(resting[from_a] == pivot && resting[from_b] == pivot));
                } else {
                    assert(!(resting[from_b] == pivot && resting[from_a] == pivot));
                }
            }
        } else {
            break ;
        }
    }
    proof {
        lemma_exchange_keeps_values(array@, left as int, right + 1, i as int, right as int);
    }
    exchange(array, i as usize, right as usize);
    i
}

} // verus!
