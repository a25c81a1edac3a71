//! The instrumented sort: it sorts a range in place and returns the tree of
//! its own invocations.

use crate::frame::{Frame, Tree};
use crate::partition::{lemma_sweep_in_range, partition, partitioned};
use crate::ranges::{
    ascending,
    at_most_twice,
    lemma_rearranged_at_most_twice,
    lemma_rearranged_bounds,
    lemma_values_agree,
    lemma_values_split,
    rearranged,
    values,
};
use vstd::prelude::*;
use vstd::slice::slice_to_vec;

verus! {

/// The bounds that a call may be given: a range with `left <= right` lies
/// inside `s`; an empty range is written with `right` one below `left`.
pub open spec fn in_bounds(s: Seq<i64>, left: int, right: int) -> bool {
    &&& left <= right + 1
    &&& left <= right ==> 0 <= left && right < s.len()
}

/// The inputs on which the sort has a result: the bounds are in order and no
/// value is held three times in the range.
///
/// With a value held three times the recursion reaches a range whose pivot
/// has two further copies, which cannot be partitioned.
pub open spec fn sortable(s: Seq<i64>, left: int, right: int) -> bool {
    &&& in_bounds(s, left, right)
    &&& at_most_twice(s, left, right)
}

/// The sequence that sorting `left..=right` of `s` leaves behind: a range of
/// fewer than two elements stays as it is; a longer one is partitioned, then
/// the part before the pivot is sorted, then the part after it.
pub open spec fn sort_result(s: Seq<i64>, left: int, right: int) -> Seq<i64>
    decreases right - left + 1,
    when right <= left || (0 <= left && right < s.len())
    via sort_result_decreases
{
    if right <= left {
        s
    } else {
        let (parted, pivot) = partitioned(s, left, right);
        sort_result(sort_result(parted, left, pivot - 1), pivot + 1, right)
    }
}

#[via_fn]
proof fn sort_result_decreases(s: Seq<i64>, left: int, right: int) {
    if right > left {
        lemma_sweep_in_range(s, left, right, left, right - 1);
    }
}

/// The tree of invocations that sorting `left..=right` of `s` makes: a leaf
/// for a range of fewer than two elements; otherwise a frame with the whole
/// sequence as partitioning left it, the pivot's index, the tree of sorting
/// the part before the pivot and the tree of sorting, after that, the part
/// behind it.
pub open spec fn recursion_tree(s: Seq<i64>, left: int, right: int) -> Tree
    decreases right - left + 1,
    when right <= left || (0 <= left && right < s.len())
    via recursion_tree_decreases
{
    if right <= left {
        Tree::Leaf { left, right }
    } else {
        let (parted, pivot) = partitioned(s, left, right);
        Tree::Internal {
            left,
            right,
            snapshot: parted,
            pivot,
            child0: Box::new(recursion_tree(parted, left, pivot - 1)),
            child1: Box::new(
                recursion_tree(sort_result(parted, left, pivot - 1), pivot + 1, right),
            ),
        }
    }
}

#[via_fn]
proof fn recursion_tree_decreases(s: Seq<i64>, left: int, right: int) {
    if right > left {
        lemma_sweep_in_range(s, left, right, left, right - 1);
    }
}

/// Sorting neither adds nor loses an element.
pub proof fn lemma_sort_result_len(s: Seq<i64>, left: int, right: int)
    requires
        in_bounds(s, left, right),
    ensures
        sort_result(s, left, right).len() == s.len(),
    decreases right - left + 1,
{
    if right > left {
        lemma_sweep_in_range(s, left, right, left, right - 1);
        let (parted, pivot) = partitioned(s, left, right);
        lemma_sort_result_len(parted, left, pivot - 1);
        lemma_sort_result_len(sort_result(parted, left, pivot - 1), pivot + 1, right);
    }
}

/// Tells whether [`quick_sort`] may be called with these arguments.
pub fn can_sort(array: &[i64], left: isize, right: isize) -> (ok: bool)
    ensures
        ok == (sortable(array@, left as int, right as int) && right < isize::MAX),
{
    if right < left {
        return right + 1 == left;
    }
    if left < 0 || right == isize::MAX || right as usize >= array.len() {
        return false;
    }
    let mut a: isize = left;
    while a <= right
        invariant
            0 <= left <= a <= right + 1,
            right < array@.len(),
            right < isize::MAX,
            forall|x: int, y: int, z: int|
                #![trigger array@[x], array@[y], array@[z]]
                left <= x < y < z <= right && x < a ==> !(array@[x] == array@[y] && array@[y]
                    == array@[z]),
        decreases right + 1 - a,
    {
        let value: i64 = array[a as usize];
        let mut copied: bool = false;
        let ghost mut copy: int = 0;
        let mut b: isize = a + 1;
        while b <= right
            invariant
                0 <= left <= a < b <= right + 1,
                right < array@.len(),
                right < isize::MAX,
                value == array@[a as int],
                copied ==> a < copy < b && array@[copy] == value,
                !copied ==> forall|y: int| a < y < b ==> array@[y] != value,
                forall|y: int, z: int|
                    a < y < z < b ==> !(#[trigger] array@[y] == value && #[trigger] array@[z]
                        == value),
            decreases right + 1 - b,
        {
            if array[b as usize] == value {
                if copied {
                    return false;
                }
                copied = true;
                proof {
                    copy = b as int;
                }
            }
            b += 1;
        }
        a += 1;
    }
    true
}

/// Sorts `left..=right` of `array` in place and returns the frame of this
/// invocation, with the frames of the invocations it made below it.
pub fn quick_sort(array: &mut [i64], left: isize, right: isize) -> (frame: Frame)
    requires
        sortable(old(array)@, left as int, right as int),
        right < isize::MAX,
    ensures
        final(array)@ == sort_result(old(array)@, left as int, right as int),
        frame@ == recursion_tree(old(array)@, left as int, right as int),
        ascending(final(array)@, left as int, right as int),
        rearranged(old(array)@, final(array)@, left as int, right as int),
        frame@.left() == left,
        frame@.right() == right,
        frame@.well_formed(old(array)@.len()),
        frame@.depth() <= frame@.count() <= usize::MAX,
    decreases right - left + 1,
{
    if right <= left {
        return Frame::new_empty(left, right);
    }
    let ghost before = array@;
    let pivot: isize = partition(array, left, right);
    let ghost parted = array@;
    let ghost middle = parted[pivot as int];
    let result: Vec<i64> = slice_to_vec(array);
    proof {
        lemma_rearranged_at_most_twice(before, parted, left as int, right as int);
    }
    let first: Frame = quick_sort(array, left, pivot - 1);
    let ghost halfway = array@;
    proof {
        if left <= pivot - 1 {
            lemma_rearranged_bounds(parted, halfway, left as int, pivot - 1, middle);
        }
        assert(at_most_twice(halfway, pivot + 1, right as int));
    }
    let second: Frame = quick_sort(array, pivot + 1, right);
    proof {
        let sorted = array@;
        if pivot + 1 <= right {
            lemma_rearranged_bounds(halfway, sorted, pivot + 1, right as int, middle);
        }
        assert(values(sorted, left as int, right + 1) == values(before, left as int, right + 1))
            by {
            lemma_values_split(sorted, left as int, pivot as int, right + 1);
            lemma_values_split(sorted, pivot as int, pivot + 1, right + 1);
            lemma_values_split(parted, left as int, pivot as int, right + 1);
            lemma_values_split(parted, pivot as int, pivot + 1, right + 1);
            lemma_values_agree(sorted, halfway, left as int, pivot as int);
            lemma_values_agree(sorted, parted, pivot as int, pivot + 1);
            lemma_values_agree(halfway, parted, pivot + 1, right + 1);
            if pivot == left {
                lemma_values_agree(halfway, parted, left as int, pivot as int);
            }
            if pivot == right {
                lemma_values_agree(sorted, halfway, pivot + 1, right + 1);
            }
        }
        first@.lemma_size(before.len());
        second@.lemma_size(before.len());
    }
    Frame::new(left, right, result, pivot, Box::new((first, second)))
}

} // verus!
