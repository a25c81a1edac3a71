use quicksort_frames::frame::Frame;
use quicksort_frames::sort::{can_sort, quick_sort};

/// A plain recursive sort of the same rule that only counts how often it is
/// entered.
fn reference_invocations(array: &mut [i64], left: isize, right: isize) -> usize {
    if right <= left {
        return 1;
    }
    let pivot = array[right as usize];
    let mut i = left;
    let mut j = right - 1;
    loop {
        while array[i as usize] < pivot && i < right {
            i += 1;
        }
        while array[j as usize] > pivot && j > left {
            j -= 1;
        }
        if i < j {
            array.swap(i as usize, j as usize);
        } else {
            break;
        }
    }
    array.swap(i as usize, right as usize);
    1 + reference_invocations(array, left, i - 1) + reference_invocations(array, i + 1, right)
}

/// Counts and measures the tree by walking its fields.
fn measured(frame: &Frame) -> (usize, usize) {
    match &frame.full {
        None => (1, 1),
        Some(full) => {
            let (first_count, first_depth) = measured(&full.children.0);
            let (second_count, second_depth) = measured(&full.children.1);
            (1 + first_count + second_count, 1 + first_depth.max(second_depth))
        }
    }
}

/// Small arrays in which no value stands three times.
fn inputs() -> Vec<Vec<i64>> {
    let mut all: Vec<Vec<i64>> = vec![
        vec![],
        vec![7],
        vec![1, 2],
        vec![2, 1],
        vec![4, 4],
        vec![3, 5, 2, 7, 8, 6, 1, 9, 3, 4],
        vec![9, 8, 7, 6, 5, 4, 3, 2, 1, 0],
        vec![0, 1, 2, 3, 4, 5, 6, 7, 8, 9],
        vec![5, 1, 5, 1, 9, 2, 9, 2],
        vec![i64::MAX, i64::MIN, 0, -1, 1, i64::MIN, i64::MAX],
        vec![2, 2, 1, 1, 3, 3],
    ];
    let mut seed: u64 = 12345;
    for len in 3..40usize {
        let mut array: Vec<i64> = Vec::new();
        for _ in 0..len {
            seed = seed.wrapping_mul(6364136223846793005).wrapping_add(1442695040888963407);
            array.push(((seed >> 33) % (2 * len as u64)) as i64 - len as i64);
        }
        if can_sort(&array, 0, len as isize - 1) {
            all.push(array);
        }
    }
    assert!(all.len() > 20);
    all
}

fn check_frames(frame: &Frame, len: usize) {
    assert_eq!(frame.full.is_none(), frame.right <= frame.left);
    if let Some(full) = &frame.full {
        assert_eq!(full.result.len(), len);
        assert!(0 <= frame.left && (frame.right as usize) < len);
        assert!(frame.left <= full.pivot && full.pivot <= frame.right);
        let middle = full.result[full.pivot as usize];
        for k in frame.left..full.pivot {
            assert!(full.result[k as usize] <= middle);
        }
        for k in full.pivot + 1..=frame.right {
            assert!(full.result[k as usize] >= middle);
        }
        assert_eq!(full.children.0.left, frame.left);
        assert_eq!(full.children.0.right, full.pivot - 1);
        assert_eq!(full.children.1.left, full.pivot + 1);
        assert_eq!(full.children.1.right, frame.right);
        check_frames(&full.children.0, len);
        check_frames(&full.children.1, len);
    }
}

#[test]
fn sorted_and_rearranged_on_every_input() {
    for input in inputs() {
        let mut array = input.clone();
        let right = array.len() as isize - 1;
        assert!(can_sort(&array, 0, right));
        quick_sort(&mut array, 0, right);
        let mut expected = input.clone();
        expected.sort();
        assert_eq!(array, expected);
    }
}

#[test]
fn sorts_only_the_given_range() {
    let mut array: Vec<i64> = vec![9, 8, 7, 6, 5, 4, 3, 2, 1, 0];
    assert!(can_sort(&array, 2, 6));
    let frame = quick_sort(&mut array, 2, 6);
    assert_eq!(array, vec![9, 8, 3, 4, 5, 6, 7, 2, 1, 0]);
    assert_eq!((frame.left, frame.right), (2, 6));
    check_frames(&frame, 10);
}

#[test]
fn count_is_the_number_of_invocations() {
    for input in inputs() {
        let mut array = input.clone();
        let mut copy = input.clone();
        let right = array.len() as isize - 1;
        let frame = quick_sort(&mut array, 0, right);
        let entered = reference_invocations(&mut copy, 0, right);
        assert_eq!(frame.count(), entered);
        assert_eq!(array, copy);
    }
}

#[test]
fn metrics_agree_with_a_walk_over_the_fields() {
    for input in inputs() {
        let mut array = input.clone();
        let right = array.len() as isize - 1;
        let frame = quick_sort(&mut array, 0, right);
        let (count, depth) = measured(&frame);
        assert_eq!(frame.count(), count);
        assert_eq!(frame.max_depth(0), depth);
        assert_eq!(frame.walk().len(), count);
    }
}

#[test]
fn ascending_input_gives_depth_n() {
    let mut array = [1, 2, 3, 4, 5];
    let frame = quick_sort(&mut array, 0, 4);
    assert_eq!(frame.max_depth(0), 5);
    assert_eq!(frame.count(), 9);
    for n in 1..30usize {
        let mut array: Vec<i64> = (0..n as i64).map(|v| 3 * v - 7).collect();
        let frame = quick_sort(&mut array, 0, n as isize - 1);
        assert_eq!(frame.max_depth(0), n);
    }
}

#[test]
fn empty_array_gives_a_lone_leaf() {
    let mut array: [i64; 0] = [];
    assert!(can_sort(&array, 0, -1));
    let frame = quick_sort(&mut array, 0, -1);
    assert!(frame.full.is_none());
    assert_eq!((frame.left, frame.right), (0, -1));
    assert_eq!(frame.count(), 1);
    assert_eq!(frame.max_depth(0), 1);
}

#[test]
fn singleton_range_gives_a_lone_leaf() {
    let mut array = [5, 4, 3];
    let frame = quick_sort(&mut array, 1, 1);
    assert!(frame.full.is_none());
    assert_eq!((frame.left, frame.right), (1, 1));
    assert_eq!(array, [5, 4, 3]);
}

#[test]
fn leaf_exactly_when_right_is_not_above_left() {
    for input in inputs() {
        let mut array = input.clone();
        let right = array.len() as isize - 1;
        let frame = quick_sort(&mut array, 0, right);
        for visited in frame.walk() {
            assert_eq!(visited.full.is_none(), visited.right <= visited.left);
        }
    }
}

#[test]
fn every_frame_is_split_around_its_pivot_and_spans_its_range() {
    for input in inputs() {
        let mut array = input.clone();
        let right = array.len() as isize - 1;
        let frame = quick_sort(&mut array, 0, right);
        check_frames(&frame, input.len());
    }
}

#[test]
fn sorted_input_stays_as_it_is() {
    for input in inputs() {
        let mut array = input.clone();
        let right = array.len() as isize - 1;
        quick_sort(&mut array, 0, right);
        let sorted = array.clone();
        assert!(can_sort(&array, 0, right));
        quick_sort(&mut array, 0, right);
        assert_eq!(array, sorted);
    }
}

#[test]
fn sorted_pair_stays_in_order() {
    let mut array = [1, 2];
    let frame = quick_sort(&mut array, 0, 1);
    assert_eq!(array, [1, 2]);
    let full = frame.full.as_ref().unwrap();
    assert_eq!(full.pivot, 1);
    assert_eq!(full.result, vec![1, 2]);
    assert_eq!((full.children.0.left, full.children.0.right), (0, 0));
    assert_eq!((full.children.1.left, full.children.1.right), (2, 1));
}

#[test]
fn sorted_input_with_a_late_pair_is_shallower_than_long() {
    let mut array = [1, 2, 2];
    let frame = quick_sort(&mut array, 0, 2);
    assert_eq!(array, [1, 2, 2]);
    assert_eq!(frame.max_depth(0), 2);
    let mut array = [1, 1, 2, 3];
    let frame = quick_sort(&mut array, 0, 3);
    assert_eq!(array, [1, 1, 2, 3]);
    assert_eq!(frame.max_depth(0), 4);
}

#[test]
fn can_sort_refuses_a_value_held_three_times() {
    assert!(!can_sort(&[1, 1, 1], 0, 2));
    assert!(!can_sort(&[4, 1, 7, 1, 9, 1], 0, 5));
    assert!(can_sort(&[4, 1, 7, 1, 9, 1], 0, 4));
    assert!(can_sort(&[4, 1, 7, 1, 9, 1], 2, 5));
    assert!(can_sort(&[1, 1, 2, 2, 3, 3], 0, 5));
}

#[test]
fn can_sort_refuses_bounds_out_of_order_or_outside() {
    let array = [3, 1, 2];
    assert!(can_sort(&array, 0, 2));
    assert!(can_sort(&array, 0, -1));
    assert!(can_sort(&array, 3, 2));
    assert!(can_sort(&array, 7, 6));
    assert!(can_sort(&array, 1, 1));
    assert!(!can_sort(&array, 2, 0));
    assert!(!can_sort(&array, 0, 3));
    assert!(!can_sort(&array, -1, 2));
    assert!(!can_sort(&array, 3, 3));
    assert!(!can_sort(&array, -1, -1));
    assert!(!can_sort(&array, isize::MAX, isize::MAX));
    assert!(!can_sort(&array, isize::MIN, isize::MAX));
    assert!(!can_sort(&array, isize::MAX, isize::MIN));
}
