use quicksort_frames::frame::Frame;
use quicksort_frames::render::{Column, Renderer};
use quicksort_frames::sort::{can_sort, quick_sort};

fn sample() -> [i64; 10] {
    [3, 5, 2, 7, 8, 6, 1, 9, 3, 4]
}

/// Bounds, pivot and snapshot of every frame of the sample, in walk order.
fn sample_trace() -> Vec<(isize, isize, Option<(isize, Vec<i64>)>)> {
    vec![
        (0, 9, Some((4, vec![3, 3, 2, 1, 4, 6, 7, 9, 5, 8]))),
        (0, 3, Some((0, vec![1, 3, 2, 3, 4, 6, 7, 9, 5, 8]))),
        (0, -1, None),
        (1, 3, Some((2, vec![1, 2, 3, 3, 4, 6, 7, 9, 5, 8]))),
        (1, 1, None),
        (3, 3, None),
        (5, 9, Some((8, vec![1, 2, 3, 3, 4, 6, 7, 5, 8, 9]))),
        (5, 7, Some((5, vec![1, 2, 3, 3, 4, 5, 7, 6, 8, 9]))),
        (5, 4, None),
        (6, 7, Some((6, vec![1, 2, 3, 3, 4, 5, 6, 7, 8, 9]))),
        (6, 5, None),
        (7, 7, None),
        (9, 9, None),
    ]
}

#[test]
fn sorts_the_sample_array() {
    let mut array = sample();
    assert!(can_sort(&array, 0, 9));
    let frame = quick_sort(&mut array, 0, 9);
    assert_eq!(array, [1, 2, 3, 3, 4, 5, 6, 7, 8, 9]);
    let full = frame.full.as_ref().unwrap();
    assert_eq!(frame.left, 0);
    assert_eq!(frame.right, 9);
    assert_eq!(full.pivot, 4);
    assert_eq!(full.result, vec![3, 3, 2, 1, 4, 6, 7, 9, 5, 8]);
}

#[test]
fn sample_metrics() {
    let mut array = sample();
    let frame = quick_sort(&mut array, 0, 9);
    assert_eq!(frame.count(), 13);
    assert_eq!(frame.max_depth(0), 5);
    assert_eq!(frame.max_depth(3), 8);
    assert_eq!(frame.count(), 13);
    assert_eq!(frame.max_depth(0), 5);
}

#[test]
fn sample_walk_matches_the_trace() {
    let mut array = sample();
    let frame = quick_sort(&mut array, 0, 9);
    let visited: Vec<&Frame> = frame.walk();
    let expected = sample_trace();
    assert_eq!(visited.len(), expected.len());
    for (frame, (left, right, payload)) in visited.iter().zip(expected.iter()) {
        assert_eq!(frame.left, *left);
        assert_eq!(frame.right, *right);
        match (&frame.full, payload) {
            (None, None) => {}
            (Some(full), Some((pivot, snapshot))) => {
                assert_eq!(full.pivot, *pivot);
                assert_eq!(&full.result, snapshot);
            }
            _ => panic!("payload of frame ({left}, {right}) differs"),
        }
    }
}

#[test]
fn sample_children_are_first_and_second() {
    let mut array = sample();
    let frame = quick_sort(&mut array, 0, 9);
    let full = frame.full.as_ref().unwrap();
    assert_eq!((full.children.0.left, full.children.0.right), (0, 3));
    assert_eq!((full.children.1.left, full.children.1.right), (5, 9));
    assert_eq!(full.children.0.full.as_ref().unwrap().pivot, 0);
    assert_eq!(full.children.1.full.as_ref().unwrap().pivot, 8);
}

#[test]
fn sample_rows_follow_the_walk() {
    let mut array = sample();
    let frame = quick_sort(&mut array, 0, 9);
    let mut renderer = Renderer::new();
    renderer.render(&frame);
    assert_eq!(renderer.max_depth, 5);
    assert_eq!(renderer.frame_count, 13);
    assert_eq!(renderer.depth, 0);
    assert_eq!(renderer.y, 25 + 13 * 50);
    let levels: [usize; 13] = [0, 1, 2, 2, 3, 3, 1, 2, 3, 3, 4, 4, 2];
    let expected = sample_trace();
    assert_eq!(renderer.children.len(), 13);
    for (k, row) in renderer.children.iter().enumerate() {
        assert_eq!(row.x, 10 + levels[k] * 25);
        assert_eq!(row.y, 25 + 50 * k as u64);
        assert_eq!(row.left, expected[k].0);
        assert_eq!(row.right, expected[k].1);
        match (&row.full, &expected[k].2) {
            (None, None) => {}
            (Some(full), Some((pivot, snapshot))) => {
                assert_eq!(full.pivot_x, 400 + pivot * 50);
                assert_eq!(full.columns.len(), snapshot.len());
                for (i, column) in full.columns.iter().enumerate() {
                    assert_eq!(*column, Column { x: 400 + i * 50, value: snapshot[i] });
                }
            }
            _ => panic!("payload of row {k} differs"),
        }
    }
    assert_eq!(renderer.view_box(), "0 0 925 650");
    let diagram = renderer.finish();
    assert_eq!(diagram.view_box, "0 0 925 650");
    assert_eq!(diagram.children.len(), 13);
    assert_eq!(diagram.children[0].full.as_ref().unwrap().pivot_x, 600);
    assert_eq!(diagram.children[12].y, 625);
}
