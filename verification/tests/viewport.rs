use chunk_world::viewport::{
    compute_visible_bounds, floor_div_i32, is_single_step, ChunkBounds, ChunkChange, ViewRect,
    ViewportError, ViewportTracker,
};

fn rect(left: i32, top: i32, right: i32, bottom: i32) -> ViewRect {
    ViewRect { left, top, right, bottom }
}

fn change(x: i32, y: i32, load: bool) -> ChunkChange {
    ChunkChange::new(x, y, load)
}

/// A tracker whose range is x in 0..=1, y in 0..=2, with chunks of 100 pixels.
fn tracker_2_by_3() -> ViewportTracker {
    let mut t = ViewportTracker::new();
    t.apply(rect(0, 0, 150, 150), (100, 100)).unwrap();
    t.apply(rect(0, 0, 150, 250), (100, 100)).unwrap();
    assert_eq!(t.bounds, ChunkBounds { min_x: 0, min_y: 0, max_x: 1, max_y: 2 });
    t
}

#[test]
fn floor_division_rounds_down() {
    assert_eq!(floor_div_i32(7, 2), 3);
    assert_eq!(floor_div_i32(-7, 2), -4);
    assert_eq!(floor_div_i32(-1, 100), -1);
    assert_eq!(floor_div_i32(-100, 100), -1);
    assert_eq!(floor_div_i32(-101, 100), -2);
    assert_eq!(floor_div_i32(0, 5), 0);
    assert_eq!(floor_div_i32(i32::MIN, 1), i32::MIN);
    assert_eq!(floor_div_i32(i32::MAX, 1), i32::MAX);
    assert_eq!(floor_div_i32(i32::MIN, i32::MAX), -2);
}

#[test]
fn visible_bounds_divide_the_corners() {
    let b = compute_visible_bounds(rect(-250, -1, 499, 500), (250, 100));
    assert_eq!(b, ChunkBounds { min_x: -1, min_y: -1, max_x: 1, max_y: 5 });
}

#[test]
fn single_step_allows_one_chunk_per_edge() {
    let a = ChunkBounds { min_x: 0, min_y: 0, max_x: 3, max_y: 3 };
    assert!(is_single_step(a, a));
    assert!(is_single_step(a, ChunkBounds { min_x: -1, min_y: 1, max_x: 4, max_y: 2 }));
    assert!(!is_single_step(a, ChunkBounds { min_x: 2, ..a }));
    assert!(!is_single_step(a, ChunkBounds { min_y: -2, ..a }));
    assert!(!is_single_step(a, ChunkBounds { max_x: 5, ..a }));
    assert!(!is_single_step(a, ChunkBounds { max_y: 1, ..a }));
    let far = ChunkBounds { min_x: i32::MIN, min_y: 0, max_x: i32::MAX, max_y: 0 };
    let other = ChunkBounds { min_x: i32::MAX, min_y: 0, max_x: i32::MIN, max_y: 0 };
    assert!(!is_single_step(far, other));
}

#[test]
fn new_tracker_sees_the_origin_chunk() {
    let t = ViewportTracker::new();
    assert_eq!(t.min_chunk(), (0, 0));
    assert_eq!(t.max_chunk(), (0, 0));
    assert_eq!(t.view, rect(0, 0, 0, 0));
}

#[test]
fn unchanged_bounds_yield_no_changes() {
    let mut t = ViewportTracker::new();
    let first = t.apply(rect(10, 10, 90, 90), (100, 100)).unwrap();
    assert!(first.is_empty());
    let second = t.apply(rect(20, 5, 99, 80), (100, 100)).unwrap();
    assert!(second.is_empty());
    assert_eq!(t.bounds, ChunkBounds { min_x: 0, min_y: 0, max_x: 0, max_y: 0 });
    assert_eq!(t.view, rect(20, 5, 99, 80));
}

#[test]
fn right_edge_growing_loads_the_new_column() {
    let mut t = tracker_2_by_3();
    let changes = t.apply(rect(0, 0, 250, 250), (100, 100)).unwrap();
    assert_eq!(changes, vec![change(2, 0, true), change(2, 1, true), change(2, 2, true)]);
    assert_eq!(t.max_chunk(), (2, 2));
}

#[test]
fn right_edge_shrinking_drops_the_old_column() {
    let mut t = tracker_2_by_3();
    let changes = t.apply(rect(0, 0, 50, 250), (100, 100)).unwrap();
    assert_eq!(changes, vec![change(1, 0, false), change(1, 1, false), change(1, 2, false)]);
    assert_eq!(t.max_chunk(), (0, 2));
}

#[test]
fn left_edge_growing_loads_the_new_column() {
    let mut t = tracker_2_by_3();
    let changes = t.apply(rect(-1, 0, 150, 250), (100, 100)).unwrap();
    assert_eq!(changes, vec![change(-1, 0, true), change(-1, 1, true), change(-1, 2, true)]);
    assert_eq!(t.min_chunk(), (-1, 0));
}

#[test]
fn left_edge_shrinking_drops_the_old_column() {
    let mut t = tracker_2_by_3();
    let changes = t.apply(rect(100, 0, 150, 250), (100, 100)).unwrap();
    assert_eq!(changes, vec![change(0, 0, false), change(0, 1, false), change(0, 2, false)]);
    assert_eq!(t.min_chunk(), (1, 0));
}

#[test]
fn top_edge_growing_loads_the_new_row() {
    let mut t = tracker_2_by_3();
    let changes = t.apply(rect(0, -100, 150, 250), (100, 100)).unwrap();
    assert_eq!(changes, vec![change(0, -1, true), change(1, -1, true)]);
}

#[test]
fn top_edge_shrinking_drops_the_old_row() {
    let mut t = tracker_2_by_3();
    let changes = t.apply(rect(0, 100, 150, 250), (100, 100)).unwrap();
    assert_eq!(changes, vec![change(0, 0, false), change(1, 0, false)]);
}

#[test]
fn bottom_edge_growing_loads_the_new_row() {
    let mut t = tracker_2_by_3();
    let changes = t.apply(rect(0, 0, 150, 300), (100, 100)).unwrap();
    assert_eq!(changes, vec![change(0, 3, true), change(1, 3, true)]);
}

#[test]
fn bottom_edge_shrinking_drops_the_old_row() {
    let mut t = tracker_2_by_3();
    let changes = t.apply(rect(0, 0, 150, 199), (100, 100)).unwrap();
    assert_eq!(changes, vec![change(0, 2, false), change(1, 2, false)]);
}

#[test]
fn two_edges_moving_yield_both_lines_in_order() {
    let mut t = tracker_2_by_3();
    // the whole view moves one chunk to the right
    let changes = t.apply(rect(100, 0, 250, 250), (100, 100)).unwrap();
    assert_eq!(
        changes,
        vec![
            change(0, 0, false),
            change(0, 1, false),
            change(0, 2, false),
            change(2, 0, true),
            change(2, 1, true),
            change(2, 2, true),
        ]
    );
}

#[test]
fn corner_is_named_by_both_of_its_edges() {
    let mut t = ViewportTracker::new();
    let changes = t.apply(rect(0, 0, 100, 100), (100, 100)).unwrap();
    assert_eq!(
        changes,
        vec![change(1, 0, true), change(1, 1, true), change(0, 1, true), change(1, 1, true)]
    );
}

#[test]
fn jump_of_two_chunks_is_rejected() {
    let mut t = tracker_2_by_3();
    let before = t;
    assert_eq!(t.apply(rect(0, 0, 350, 250), (100, 100)), Err(ViewportError::StepTooLarge));
    assert_eq!(t, before);
    assert_eq!(t.apply(rect(-101, 0, 150, 250), (100, 100)), Err(ViewportError::StepTooLarge));
    assert_eq!(t.apply(rect(0, 200, 150, 250), (100, 100)), Err(ViewportError::StepTooLarge));
    assert_eq!(t.apply(rect(0, 0, 150, 50), (100, 100)), Err(ViewportError::StepTooLarge));
    assert_eq!(t, before);
}

#[test]
fn chunk_without_size_is_rejected() {
    let mut t = tracker_2_by_3();
    let before = t;
    assert_eq!(t.apply(rect(0, 0, 150, 250), (0, 100)), Err(ViewportError::EmptyChunk));
    assert_eq!(t.apply(rect(0, 0, 150, 250), (100, -1)), Err(ViewportError::EmptyChunk));
    assert_eq!(t, before);
}

#[test]
fn degenerate_range_yields_no_line() {
    let mut t = ViewportTracker::new();
    // the bottom edge rises above the top edge: no row is visible
    let changes = t.apply(rect(0, 0, 100, -1), (100, 100)).unwrap();
    assert_eq!(changes, vec![change(0, 0, false), change(1, 0, false)]);
    assert_eq!(t.bounds, ChunkBounds { min_x: 0, min_y: 0, max_x: 1, max_y: -1 });
}
