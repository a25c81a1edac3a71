//! What holds of the sort and of its tree on every input.

use crate::frame::Tree;
use crate::partition::{lemma_sweep_in_range, partitioned, sweep};
use crate::ranges::{ascending, at_most_twice};
use crate::sort::{in_bounds, lemma_sort_result_len, recursion_tree, sort_result, sortable};
use vstd::prelude::*;

verus! {

/// The inclusive range `left..=right` of `s` rises at every step.
pub open spec fn strictly_ascending(s: Seq<i64>, left: int, right: int) -> bool {
    forall|a: int, b: int| left <= a < b <= right ==> s[a] < s[b]
}

/// How many times the sort is entered when it is called on `left..=right` of
/// `s`: once for the call itself, and once more for every call made below it.
pub open spec fn invocations(s: Seq<i64>, left: int, right: int) -> nat
    decreases right - left + 1,
    when right <= left || (0 <= left && right < s.len())
    via invocations_decreases
{
    if right <= left {
        1
    } else {
        let (parted, pivot) = partitioned(s, left, right);
        1 + invocations(parted, left, pivot - 1) + invocations(
            sort_result(parted, left, pivot - 1),
            pivot + 1,
            right,
        )
    }
}

#[via_fn]
proof fn invocations_decreases(s: Seq<i64>, left: int, right: int) {
    if right > left {
        lemma_sweep_in_range(s, left, right, left, right - 1);
    }
}

/// The tree holds one frame for each time the sort was entered.
pub proof fn lemma_count_is_invocations(s: Seq<i64>, left: int, right: int)
    requires
        in_bounds(s, left, right),
    ensures
        recursion_tree(s, left, right).count() == invocations(s, left, right),
    decreases right - left + 1,
{
    if right > left {
        lemma_sweep_in_range(s, left, right, left, right - 1);
        let (parted, pivot) = partitioned(s, left, right);
        lemma_sort_result_len(parted, left, pivot - 1);
        lemma_count_is_invocations(parted, left, pivot - 1);
        lemma_count_is_invocations(sort_result(parted, left, pivot - 1), pivot + 1, right);
    }
}

/// On a non-decreasing range the forward cursor runs up to the first value
/// equal to the pivot, nothing is exchanged but equal values, and the
/// sequence stays as it is.
proof fn lemma_sweep_ascending(s: Seq<i64>, left: int, right: int, i: int)
    requires
        0 <= left <= i <= right < s.len(),
        left < right,
        ascending(s, left, right),
    ensures
        sweep(s, left, right, i, right - 1).0 == s,
        i <= sweep(s, left, right, i, right - 1).1 <= right,
        s[sweep(s, left, right, i, right - 1).1] == s[right],
        forall|k: int| i <= k < sweep(s, left, right, i, right - 1).1 ==> s[k] < s[right],
    decreases right - i,
{
    if i < right && s[i] < s[right] {
        lemma_sweep_ascending(s, left, right, i + 1);
    }
}

/// Sorting a range that is already in order leaves the sequence unchanged.
pub proof fn lemma_sorted_input_unchanged(s: Seq<i64>, left: int, right: int)
    requires
        sortable(s, left, right),
        ascending(s, left, right),
    ensures
        sort_result(s, left, right) == s,
    decreases right - left + 1,
{
    if right > left {
        lemma_sweep_ascending(s, left, right, left);
        let pivot = partitioned(s, left, right).1;
        lemma_sorted_input_unchanged(s, left, pivot - 1);
        lemma_sorted_input_unchanged(s, pivot + 1, right);
    }
}

/// Sorting a non-empty range that is in order and rises at every step after
/// its first yields a tree as deep as the range is long: each pivot is the
/// greatest value left, so each step splits off one leaf and nothing more.
pub proof fn lemma_sorted_input_depth(s: Seq<i64>, left: int, right: int)
    requires
        0 <= left <= right < s.len(),
        ascending(s, left, right),
        strictly_ascending(s, left + 1, right),
    ensures
        recursion_tree(s, left, right).depth() == right - left + 1,
    decreases right - left,
{
    if right > left {
        lemma_sweep_ascending(s, left, right, left);
        let (parted, pivot) = partitioned(s, left, right);
        let tree = recursion_tree(s, left, right);
        let first = recursion_tree(parted, left, pivot - 1);
        let second = recursion_tree(sort_result(parted, left, pivot - 1), pivot + 1, right);
        assert(tree.depth() == 1 + if first.depth() >= second.depth() {
            first.depth()
        } else {
            second.depth()
        });
        if right > left + 1 {
            assert(pivot == right);
            assert(at_most_twice(s, left, right - 1));
            lemma_sorted_input_unchanged(s, left, right - 1);
            lemma_sorted_input_depth(s, left, right - 1);
        }
    }
}

/// Sorting the whole of a non-empty sequence that rises at every step yields
/// a tree as deep as the sequence is long.
pub proof fn lemma_ascending_input_depth(s: Seq<i64>)
    requires
        s.len() >= 1,
        strictly_ascending(s, 0, s.len() - 1),
    ensures
        recursion_tree(s, 0, s.len() - 1).depth() == s.len(),
{
    lemma_sorted_input_depth(s, 0, s.len() - 1);
}

/// Every frame that the walk over a well-formed tree visits is the root of a
/// well-formed tree, and the walk visits as many frames as the tree counts.
pub proof fn lemma_every_frame_well_formed(tree: Tree, len: nat)
    requires
        tree.well_formed(len),
    ensures
        tree.preorder().len() == tree.count(),
        tree.preorder()[0] == tree,
        forall|k: int| 0 <= k < tree.preorder().len() ==> (#[trigger] tree.preorder()[k]).well_formed(len),
    decreases tree,
{
    match tree {
        Tree::Leaf { .. } => {},
        Tree::Internal { child0, child1, .. } => {
            lemma_every_frame_well_formed(*child0, len);
            lemma_every_frame_well_formed(*child1, len);
        },
    }
}

} // verus!
