use tello::tracker::{closest_to, largest_of, FaceRect, FaceTracker};

fn rect(x: i32, y: i32, w: i32, h: i32) -> FaceRect {
    FaceRect::new(x, y, w, h)
}

#[test]
fn acquisition_takes_the_largest_perimeter() {
    let mut t = FaceTracker::new();
    assert_eq!(t.locked_face(), None);
    t.update(&[rect(0, 0, 10, 10), rect(0, 0, 50, 50)]);
    assert_eq!(t.locked_face(), Some(rect(0, 0, 50, 50)));
}

#[test]
fn acquisition_ties_go_to_the_last() {
    assert_eq!(largest_of(&[rect(1, 1, 20, 10), rect(2, 2, 10, 20), rect(3, 3, 5, 5)]), Some(rect(2, 2, 10, 20)));
}

#[test]
fn continuity_takes_the_least_dissimilar() {
    let mut t = FaceTracker::new();
    t.update(&[rect(100, 100, 40, 40)]);
    assert_eq!(t.locked_face(), Some(rect(100, 100, 40, 40)));
    t.update(&[rect(102, 101, 41, 39), rect(500, 500, 10, 10)]);
    assert_eq!(t.locked_face(), Some(rect(102, 101, 41, 39)));
}

#[test]
fn continuity_prefers_close_over_large() {
    let mut t = FaceTracker::new();
    t.update(&[rect(100, 100, 40, 40)]);
    t.update(&[rect(0, 0, 300, 300), rect(110, 95, 38, 44)]);
    assert_eq!(t.locked_face(), Some(rect(110, 95, 38, 44)));
}

#[test]
fn continuity_ties_go_to_the_first() {
    let prev = rect(10, 10, 10, 10);
    assert_eq!(closest_to(&[rect(12, 10, 10, 10), rect(8, 10, 10, 10)], prev), Some(rect(12, 10, 10, 10)));
    // Differences: 2 + 0 + 0 + 0 against 0 + 1 + 0 + 1.
    assert_eq!(closest_to(&[rect(12, 10, 10, 10), rect(10, 11, 10, 11)], prev), Some(rect(12, 10, 10, 10)));
}

#[test]
fn no_detections_select_nothing() {
    assert_eq!(largest_of(&[]), None);
    assert_eq!(closest_to(&[], rect(0, 0, 1, 1)), None);
}

#[test]
fn four_empty_cycles_keep_the_face() {
    let mut t = FaceTracker::new();
    t.update(&[rect(5, 5, 30, 30)]);
    for _ in 0..4 {
        t.update(&[]);
    }
    assert_eq!(t.locked_face(), Some(rect(5, 5, 30, 30)));
}

#[test]
fn five_empty_cycles_drop_the_face() {
    let mut t = FaceTracker::new();
    t.update(&[rect(5, 5, 30, 30)]);
    for _ in 0..5 {
        t.update(&[]);
    }
    assert_eq!(t.locked_face(), None);
}

#[test]
fn a_detection_refills_the_budget() {
    let mut t = FaceTracker::new();
    t.update(&[rect(5, 5, 30, 30)]);
    for _ in 0..4 {
        t.update(&[]);
    }
    t.update(&[rect(6, 6, 30, 30)]);
    for _ in 0..4 {
        t.update(&[]);
    }
    assert_eq!(t.locked_face(), Some(rect(6, 6, 30, 30)));
    t.update(&[]);
    assert_eq!(t.locked_face(), None);
}

#[test]
fn a_lost_face_is_acquired_afresh() {
    let mut t = FaceTracker::new();
    t.update(&[rect(5, 5, 30, 30)]);
    for _ in 0..7 {
        t.update(&[]);
    }
    assert_eq!(t.locked_face(), None);
    t.update(&[rect(400, 400, 10, 10), rect(0, 0, 60, 60)]);
    assert_eq!(t.locked_face(), Some(rect(0, 0, 60, 60)));
}

#[test]
fn a_zero_sized_detection_is_still_a_detection() {
    let mut t = FaceTracker::new();
    t.update(&[rect(0, 0, 0, 0)]);
    assert_eq!(t.locked_face(), Some(rect(0, 0, 0, 0)));
}

#[test]
fn detection_runs_every_third_frame() {
    let mut t = FaceTracker::new();
    let due: Vec<bool> = (0..9).map(|_| t.detection_due()).collect();
    assert_eq!(due, vec![false, false, true, false, false, true, false, false, true]);
}

#[test]
fn extreme_coordinates_do_not_overflow() {
    let prev = rect(i32::MIN, i32::MIN, i32::MAX, i32::MAX);
    assert_eq!(closest_to(&[rect(i32::MAX, i32::MAX, i32::MIN, i32::MIN)], prev), Some(rect(i32::MAX, i32::MAX, i32::MIN, i32::MIN)));
    assert_eq!(largest_of(&[rect(0, 0, i32::MAX, i32::MAX), rect(0, 0, 1, 1)]), Some(rect(0, 0, i32::MAX, i32::MAX)));
}
