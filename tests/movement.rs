use tello::movement::{
    advise, advise_frame, check_if_rect_in_rect, face_midpoint, inner_zone, needs_recentering, outer_zone,
    screen_zone, Advice, Movement, Region,
};
use tello::tracker::FaceRect;

fn rect(x: i32, y: i32, w: i32, h: i32) -> FaceRect {
    FaceRect::new(x, y, w, h)
}

#[test]
fn small_face_means_forward() {
    assert_eq!(advise(rect(400, 300, 100, 100)), Movement::Forward);
}

#[test]
fn large_face_means_backward() {
    assert_eq!(advise(rect(100, 50, 500, 500)), Movement::Backward);
}

#[test]
fn middle_sized_face_means_hold() {
    assert_eq!(advise(rect(300, 200, 300, 300)), Movement::Hold);
}

#[test]
fn wide_but_short_face_holds() {
    // All four corners in the outer zone, none in the inner one.
    assert_eq!(advise(rect(0, 0, 300, 100)), Movement::Hold);
}

#[test]
fn inner_zone_boundary_is_exclusive_on_the_far_side() {
    // Midpoint 120: the inner zone holds 0..240, so corners at 240 fall out.
    assert_eq!(advise(rect(0, 0, 240, 240)), Movement::Hold);
    assert_eq!(advise(rect(0, 0, 238, 238)), Movement::Forward);
    // Outer zone for a 400 face: midpoint 200, zone 0..400.
    assert_eq!(advise(rect(0, 0, 400, 400)), Movement::Backward);
    assert_eq!(advise(rect(0, 0, 398, 398)), Movement::Hold);
}

#[test]
fn zones_are_centered_on_the_face() {
    let face = rect(100, 200, 41, 60);
    assert_eq!(face_midpoint(face), (120, 230));
    assert_eq!(outer_zone(face), Region { x: -80, y: 30, width: 400, height: 400 });
    assert_eq!(inner_zone(face), Region { x: 0, y: 110, width: 240, height: 240 });
}

#[test]
fn midpoint_halves_toward_zero() {
    assert_eq!(face_midpoint(rect(0, 0, -5, 5)), (-2, 2));
}

#[test]
fn two_corners_are_enough() {
    let outer = Region { x: 0, y: 0, width: 100, height: 100 };
    // Left corners inside, right corners outside.
    assert!(check_if_rect_in_rect(outer, rect(50, 10, 100, 20)));
    // Only the top-left corner inside.
    assert!(!check_if_rect_in_rect(outer, rect(50, 50, 100, 100)));
    // None inside.
    assert!(!check_if_rect_in_rect(outer, rect(200, 200, 5, 5)));
    // All inside.
    assert!(check_if_rect_in_rect(outer, rect(10, 10, 5, 5)));
}

#[test]
fn screen_zone_is_round_the_frame_center() {
    assert_eq!(screen_zone(960, 720), Region { x: 280, y: 160, width: 400, height: 400 });
}

#[test]
fn off_center_face_needs_recentering() {
    assert!(!needs_recentering(rect(430, 310, 100, 100), 960, 720));
    assert!(needs_recentering(rect(0, 0, 100, 100), 960, 720));
    // Midpoint on the far edge of the zone: outside.
    assert!(needs_recentering(rect(630, 310, 100, 100), 960, 720));
}

#[test]
fn no_face_means_no_decision() {
    assert_eq!(advise_frame(None, 960, 720), None);
    assert_eq!(
        advise_frame(Some(rect(0, 0, 100, 100)), 960, 720),
        Some(Advice { movement: Movement::Forward, recenter: true })
    );
}

#[test]
fn extreme_faces_do_not_overflow() {
    assert_eq!(advise(rect(i32::MAX, i32::MAX, i32::MAX, i32::MAX)), Movement::Backward);
    assert_eq!(advise(rect(i32::MIN, i32::MIN, 0, 0)), Movement::Forward);
}
