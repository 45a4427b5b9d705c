//! Geometry that turns the locked face into a movement decision.

use crate::tracker::FaceRect;
use vstd::prelude::*;

verus! {

/// Half-extent of the outer tolerance zone, in pixels.
pub const OUTER_MOVEMENT_TOLERANCE: i64 = 200;

/// Half-extent of the inner tolerance zone, in pixels.
pub const INNER_MOVEMENT_TOLERANCE: i64 = OUTER_MOVEMENT_TOLERANCE - 80;

/// A rectangle that holds the points `x <= px < x + width` and
/// `y <= py < y + height`.
#[derive(Clone, Copy, Debug, PartialEq, Eq, Structural)]
pub struct Region {
    pub x: i64,
    pub y: i64,
    pub width: i64,
    pub height: i64,
}

/// What the drone should do about the distance to the face.
#[derive(Clone, Copy, Debug, PartialEq, Eq, Structural)]
pub enum Movement {
    /// The face is small: move towards it.
    Forward,
    /// The face is within tolerance.
    Hold,
    /// The face is large: move away from it.
    Backward,
}

/// The decision for one frame.
#[derive(Clone, Copy, Debug, PartialEq, Eq, Structural)]
pub struct Advice {
    pub movement: Movement,
    /// The face's midpoint lies outside the zone round the frame's center.
    pub recenter: bool,
}

pub open spec fn region_contains(r: Region, px: int, py: int) -> bool {
    r.x <= px < r.x + r.width && r.y <= py < r.y + r.height
}

pub open spec fn count_if(b: bool) -> nat {
    if b {
        1
    } else {
        0
    }
}

/// How many of the four corners of `inner` lie in `outer`.
pub open spec fn corners_inside(outer: Region, inner: FaceRect) -> nat {
    let left = inner.x as int;
    let top = inner.y as int;
    let right = inner.x + inner.width;
    let bottom = inner.y + inner.height;
    count_if(region_contains(outer, left, top)) + count_if(region_contains(outer, right, top))
        + count_if(region_contains(outer, left, bottom)) + count_if(
        region_contains(outer, right, bottom),
    )
}

/// The relaxed containment test: at least two corners inside.
pub open spec fn rect_in_rect(outer: Region, inner: FaceRect) -> bool {
    corners_inside(outer, inner) >= 2
}

/// Half of `v`, rounded toward zero.
pub open spec fn half(v: int) -> int {
    if v >= 0 {
        v / 2
    } else {
        -((-v) / 2)
    }
}

pub open spec fn midpoint(f: FaceRect) -> (int, int) {
    (f.x + half(f.width as int), f.y + half(f.height as int))
}

/// The square of half-extent `tolerance` centered on `(cx, cy)`.
pub open spec fn zone_around(cx: int, cy: int, tolerance: int) -> Region {
    Region {
        x: (cx - tolerance) as i64,
        y: (cy - tolerance) as i64,
        width: (2 * tolerance) as i64,
        height: (2 * tolerance) as i64,
    }
}

pub open spec fn outer_zone_of(f: FaceRect) -> Region {
    zone_around(midpoint(f).0, midpoint(f).1, OUTER_MOVEMENT_TOLERANCE as int)
}

pub open spec fn inner_zone_of(f: FaceRect) -> Region {
    zone_around(midpoint(f).0, midpoint(f).1, INNER_MOVEMENT_TOLERANCE as int)
}

/// Not in the outer zone: back; in the inner zone too: forward; else hold.
pub open spec fn advice_for(f: FaceRect) -> Movement {
    if !rect_in_rect(outer_zone_of(f), f) {
        Movement::Backward
    } else if rect_in_rect(inner_zone_of(f), f) {
        Movement::Forward
    } else {
        Movement::Hold
    }
}

/// The zone round the center of a `width` by `height` frame.
pub open spec fn screen_zone_of(width: nat, height: nat) -> Region {
    zone_around((width / 2) as int, (height / 2) as int, OUTER_MOVEMENT_TOLERANCE as int)
}

pub open spec fn recenter_for(f: FaceRect, width: nat, height: nat) -> bool {
    !region_contains(screen_zone_of(width, height), midpoint(f).0, midpoint(f).1)
}

/// The movement rules by corner count: a face wholly inside the inner zone
/// means forward; a face with at most one corner in the outer zone means
/// back; a face with two or more corners in the outer zone that fails the
/// inner test means hold.
pub proof fn lemma_advice_by_corners(f: FaceRect)
    ensures
        corners_inside(inner_zone_of(f), f) == 4 ==> advice_for(f) == Movement::Forward,
        corners_inside(outer_zone_of(f), f) <= 1 ==> advice_for(f) == Movement::Backward,
        corners_inside(outer_zone_of(f), f) >= 2 && corners_inside(inner_zone_of(f), f) < 2
            ==> advice_for(f) == Movement::Hold,
{
    let outer = outer_zone_of(f);
    let inner = inner_zone_of(f);
    assert forall|px: int, py: int| region_contains(inner, px, py) implies region_contains(
        outer,
        px,
        py,
    ) by {}
}

fn contains_point(r: &Region, px: i64, py: i64) -> (b: bool)
    ensures
        b == region_contains(*r, px as int, py as int),
{
    let x = r.x as i128;
    let y = r.y as i128;
    x <= px as i128 && (px as i128) < x + r.width as i128 && y <= py as i128 && (py as i128) < y
        + r.height as i128
}

/// Whether at least two corners of `inner_rect` lie in `outer_rect`.
pub fn check_if_rect_in_rect(outer_rect: Region, inner_rect: FaceRect) -> (r: bool)
    ensures
        r == rect_in_rect(outer_rect, inner_rect),
{
    let left = inner_rect.x as i64;
    let top = inner_rect.y as i64;
    let right = inner_rect.x as i64 + inner_rect.width as i64;
    let bottom = inner_rect.y as i64 + inner_rect.height as i64;
    let corners: [(i64, i64); 4] = [(left, top), (right, top), (left, bottom), (right, bottom)];
    let ghost found = seq![
        region_contains(outer_rect, left as int, top as int),
        region_contains(outer_rect, right as int, top as int),
        region_contains(outer_rect, left as int, bottom as int),
        region_contains(outer_rect, right as int, bottom as int),
    ];
    proof {
        reveal_with_fuel(count_prefix, 5);
        assert(count_prefix(found, 4) == corners_inside(outer_rect, inner_rect));
    }
    let mut inside: u32 = 0;
    let mut i: usize = 0;
    while i < 4
        invariant
            i <= 4,
            corners@ == seq![(left, top), (right, top), (left, bottom), (right, bottom)],
            inside <= 1,
            inside == count_prefix(found, i as int),
            found.len() == 4,
            count_prefix(found, 4) == corners_inside(outer_rect, inner_rect),
            forall|k: int|
                0 <= k < 4 ==> found[k] == region_contains(
                    outer_rect,
                    corners@[k].0 as int,
                    corners@[k].1 as int,
                ),
        decreases 4 - i,
    {
        let (px, py) = corners[i];
        if contains_point(&outer_rect, px, py) {
            inside = inside + 1;
            if inside > 1 {
                proof {
                    lemma_count_prefix_grows(found, i as int + 1, 4);
                }
                return true;
            }
        }
        i = i + 1;
    }
    false
}

fn half_of(v: i32) -> (h: i64)
    ensures
        h == half(v as int),
{
    let w = v as i64;
    if w >= 0 {
        w / 2
    } else {
        -((-w) / 2)
    }
}

/// The face's midpoint, with half extents rounded toward zero.
pub fn face_midpoint(face: FaceRect) -> (r: (i64, i64))
    ensures
        r.0 == midpoint(face).0,
        r.1 == midpoint(face).1,
{
    (face.x as i64 + half_of(face.width), face.y as i64 + half_of(face.height))
}

fn zone(cx: i64, cy: i64, tolerance: i64) -> (r: Region)
    requires
        0 <= tolerance <= OUTER_MOVEMENT_TOLERANCE,
        i64::MIN + OUTER_MOVEMENT_TOLERANCE <= cx <= i64::MAX,
        i64::MIN + OUTER_MOVEMENT_TOLERANCE <= cy <= i64::MAX,
    ensures
        r == zone_around(cx as int, cy as int, tolerance as int),
{
    Region { x: cx - tolerance, y: cy - tolerance, width: 2 * tolerance, height: 2 * tolerance }
}

/// The outer tolerance zone, centered on the face's midpoint.
pub fn outer_zone(face: FaceRect) -> (r: Region)
    ensures
        r == outer_zone_of(face),
{
    let (mx, my) = face_midpoint(face);
    zone(mx, my, OUTER_MOVEMENT_TOLERANCE)
}

/// The inner tolerance zone, centered on the face's midpoint.
pub fn inner_zone(face: FaceRect) -> (r: Region)
    ensures
        r == inner_zone_of(face),
{
    let (mx, my) = face_midpoint(face);
    zone(mx, my, INNER_MOVEMENT_TOLERANCE)
}

/// The zone round the center of a frame of the given size.
pub fn screen_zone(frame_width: usize, frame_height: usize) -> (r: Region)
    ensures
        r == screen_zone_of(frame_width as nat, frame_height as nat),
{
    zone((frame_width / 2) as i64, (frame_height / 2) as i64, OUTER_MOVEMENT_TOLERANCE)
}

/// The movement decision for the locked face.
pub fn advise(face: FaceRect) -> (r: Movement)
    ensures
        r == advice_for(face),
{
    if !check_if_rect_in_rect(outer_zone(face), face) {
        Movement::Backward
    } else if check_if_rect_in_rect(inner_zone(face), face) {
        Movement::Forward
    } else {
        Movement::Hold
    }
}

/// Whether the face's midpoint lies outside the zone round the frame's center.
pub fn needs_recentering(face: FaceRect, frame_width: usize, frame_height: usize) -> (r: bool)
    ensures
        r == recenter_for(face, frame_width as nat, frame_height as nat),
{
    let (mx, my) = face_midpoint(face);
    !contains_point(&screen_zone(frame_width, frame_height), mx, my)
}

/// The decision for one frame: none without a locked face.
pub fn advise_frame(locked: Option<FaceRect>, frame_width: usize, frame_height: usize) -> (r:
    Option<Advice>)
    ensures
        match locked {
            None => r is None,
            Some(f) => r == Some(
                Advice {
                    movement: advice_for(f),
                    recenter: recenter_for(f, frame_width as nat, frame_height as nat),
                },
            ),
        },
{
    match locked {
        None => None,
        Some(face) => Some(
            Advice {
                movement: advise(face),
                recenter: needs_recentering(face, frame_width, frame_height),
            },
        ),
    }
}

/// How many of the first `n` flags are set.
spec fn count_prefix(found: Seq<bool>, n: int) -> nat
    decreases n,
{
    if n <= 0 {
        0
    } else {
        count_prefix(found, n - 1) + count_if(found[n - 1])
    }
}

proof fn lemma_count_prefix_grows(found: Seq<bool>, n: int, m: int)
    requires
        0 <= n <= m,
    ensures
        count_prefix(found, n) <= count_prefix(found, m),
    decreases m - n,
{
    if n < m {
        lemma_count_prefix_grows(found, n, m - 1);
    }
}

} // verus!
