//! Keeps one face locked across frames, with hysteresis when it is lost.

use vstd::prelude::*;

verus! {

/// Detection cycles without a face after which the locked face is dropped.
pub const NO_FACE_BUDGET: u32 = 5;

/// Detection runs on every this-many-th processed frame.
pub const DETECTION_PERIOD: u32 = 3;

/// An axis-aligned rectangle in frame pixel coordinates.
#[derive(Clone, Copy, Debug, PartialEq, Eq, Structural)]
pub struct FaceRect {
    pub x: i32,
    pub y: i32,
    pub width: i32,
    pub height: i32,
}

impl FaceRect {
    pub fn new(x: i32, y: i32, width: i32, height: i32) -> (r: FaceRect)
        ensures
            r == (FaceRect { x, y, width, height }),
    {
        FaceRect { x, y, width, height }
    }
}

pub open spec fn perimeter(r: FaceRect) -> int {
    2 * r.width + 2 * r.height
}

pub open spec fn abs_diff(a: int, b: int) -> int {
    if a >= b {
        a - b
    } else {
        b - a
    }
}

/// How far `r` is from `prev`: the sum of the differences of the four fields.
pub open spec fn dissimilarity(prev: FaceRect, r: FaceRect) -> int {
    abs_diff(prev.x as int, r.x as int) + abs_diff(prev.y as int, r.y as int) + abs_diff(
        prev.width as int,
        r.width as int,
    ) + abs_diff(prev.height as int, r.height as int)
}

/// The detection with the largest perimeter; of several, the last.
pub open spec fn largest_face(d: Seq<FaceRect>) -> FaceRect
    recommends
        d.len() > 0,
    decreases d.len(),
{
    if d.len() <= 1 {
        d[0]
    } else {
        let best = largest_face(d.drop_last());
        if perimeter(best) <= perimeter(d.last()) {
            d.last()
        } else {
            best
        }
    }
}

/// The detection least dissimilar to `prev`; of several, the first.
pub open spec fn closest_face(d: Seq<FaceRect>, prev: FaceRect) -> FaceRect
    recommends
        d.len() > 0,
    decreases d.len(),
{
    if d.len() <= 1 {
        d[0]
    } else {
        let best = closest_face(d.drop_last(), prev);
        if dissimilarity(prev, d.last()) < dissimilarity(prev, best) {
            d.last()
        } else {
            best
        }
    }
}

/// Of the detections, the one with the largest perimeter is in the set, no
/// other has a larger perimeter, and none after it has an equal one.
pub proof fn lemma_largest_face(d: Seq<FaceRect>)
    requires
        d.len() > 0,
    ensures
        exists|k: int|
            0 <= k < d.len() && d[k] == largest_face(d) && forall|j: int|
                k < j < d.len() ==> perimeter(#[trigger] d[j]) < perimeter(d[k]),
        forall|j: int| 0 <= j < d.len() ==> perimeter(#[trigger] d[j]) <= perimeter(largest_face(d)),
    decreases d.len(),
{
    if d.len() == 1 {
        assert(d[0] == largest_face(d));
    } else {
        let rest = d.drop_last();
        lemma_largest_face(rest);
        let k0 = choose|k: int|
            0 <= k < rest.len() && rest[k] == largest_face(rest) && forall|j: int|
                k < j < rest.len() ==> perimeter(#[trigger] rest[j]) < perimeter(rest[k]);
        if perimeter(largest_face(rest)) <= perimeter(d.last()) {
            let k = d.len() - 1;
            assert(d[k] == largest_face(d));
            assert(0 <= k < d.len() && d[k] == largest_face(d) && forall|j: int|
                k < j < d.len() ==> perimeter(#[trigger] d[j]) < perimeter(d[k]));
        } else {
            assert(d[k0] == largest_face(d));
            assert forall|j: int| k0 < j < d.len() implies perimeter(#[trigger] d[j]) < perimeter(
                d[k0],
            ) by {
                if j < d.len() - 1 {
                    assert(d[j] == rest[j]);
                }
            }
            assert(0 <= k0 < d.len() && d[k0] == largest_face(d) && forall|j: int|
                k0 < j < d.len() ==> perimeter(#[trigger] d[j]) < perimeter(d[k0]));
        }
        assert forall|j: int| 0 <= j < d.len() implies perimeter(#[trigger] d[j]) <= perimeter(
            largest_face(d),
        ) by {
            if j < d.len() - 1 {
                assert(d[j] == rest[j]);
            }
        }
    }
}

/// Of the detections, the one closest to `prev` is in the set, no other is
/// closer, and none before it is as close.
pub proof fn lemma_closest_face(d: Seq<FaceRect>, prev: FaceRect)
    requires
        d.len() > 0,
    ensures
        exists|k: int|
            0 <= k < d.len() && d[k] == closest_face(d, prev) && forall|j: int|
                0 <= j < k ==> dissimilarity(prev, #[trigger] d[j]) > dissimilarity(prev, d[k]),
        forall|j: int|
            0 <= j < d.len() ==> dissimilarity(prev, #[trigger] d[j]) >= dissimilarity(
                prev,
                closest_face(d, prev),
            ),
    decreases d.len(),
{
    if d.len() == 1 {
        assert(d[0] == closest_face(d, prev));
    } else {
        let rest = d.drop_last();
        lemma_closest_face(rest, prev);
        let k0 = choose|k: int|
            0 <= k < rest.len() && rest[k] == closest_face(rest, prev) && forall|j: int|
                0 <= j < k ==> dissimilarity(prev, #[trigger] rest[j]) > dissimilarity(
                    prev,
                    rest[k],
                );
        if dissimilarity(prev, d.last()) < dissimilarity(prev, closest_face(rest, prev)) {
            let k = d.len() - 1;
            assert(d[k] == closest_face(d, prev));
            assert forall|j: int| 0 <= j < k implies dissimilarity(prev, #[trigger] d[j])
                > dissimilarity(prev, d[k]) by {
                assert(d[j] == rest[j]);
            }
            assert(0 <= k < d.len() && d[k] == closest_face(d, prev) && forall|j: int|
                0 <= j < k ==> dissimilarity(prev, #[trigger] d[j]) > dissimilarity(prev, d[k]));
        } else {
            assert(d[k0] == closest_face(d, prev));
            assert forall|j: int| 0 <= j < k0 implies dissimilarity(prev, #[trigger] d[j])
                > dissimilarity(prev, d[k0]) by {
                assert(d[j] == rest[j]);
            }
            assert(0 <= k0 < d.len() && d[k0] == closest_face(d, prev) && forall|j: int|
                0 <= j < k0 ==> dissimilarity(prev, #[trigger] d[j]) > dissimilarity(prev, d[k0]));
        }
        assert forall|j: int| 0 <= j < d.len() implies dissimilarity(prev, #[trigger] d[j])
            >= dissimilarity(prev, closest_face(d, prev)) by {
            if j < d.len() - 1 {
                assert(d[j] == rest[j]);
            }
        }
    }
}

fn perimeter_of(r: &FaceRect) -> (p: i64)
    ensures
        p == perimeter(*r),
{
    2 * (r.width as i64) + 2 * (r.height as i64)
}

fn abs_diff_of(a: i32, b: i32) -> (d: i64)
    ensures
        d == abs_diff(a as int, b as int),
{
    if a >= b {
        a as i64 - b as i64
    } else {
        b as i64 - a as i64
    }
}

fn dissimilarity_of(prev: &FaceRect, r: &FaceRect) -> (d: i64)
    ensures
        d == dissimilarity(*prev, *r),
{
    abs_diff_of(prev.x, r.x) + abs_diff_of(prev.y, r.y) + abs_diff_of(prev.width, r.width)
        + abs_diff_of(prev.height, r.height)
}

/// The detection with the largest perimeter (the last of several), or
/// `None` when there are no detections.
pub fn largest_of(detections: &[FaceRect]) -> (r: Option<FaceRect>)
    ensures
        match r {
            Some(f) => detections@.len() > 0 && f == largest_face(detections@),
            None => detections@.len() == 0,
        },
{
    let n = detections.len();
    if n == 0 {
        return None;
    }
    let mut best = detections[0];
    let mut i: usize = 1;
    while i < n
        invariant
            n == detections@.len(),
            1 <= i <= n,
            best == largest_face(detections@.subrange(0, i as int)),
        decreases n - i,
    {
        let face = detections[i];
        proof {
            let next = detections@.subrange(0, i + 1);
            assert(next.drop_last() == detections@.subrange(0, i as int));
            assert(next.last() == face);
        }
        if perimeter_of(&best) <= perimeter_of(&face) {
            best = face;
        }
        i = i + 1;
    }
    assert(detections@.subrange(0, n as int) == detections@);
    Some(best)
}

/// The detection least dissimilar to `prev` (the first of several), or
/// `None` when there are no detections.
pub fn closest_to(detections: &[FaceRect], prev: FaceRect) -> (r: Option<FaceRect>)
    ensures
        match r {
            Some(f) => detections@.len() > 0 && f == closest_face(detections@, prev),
            None => detections@.len() == 0,
        },
{
    let n = detections.len();
    if n == 0 {
        return None;
    }
    let mut best = detections[0];
    let mut best_score = dissimilarity_of(&prev, &best);
    let mut i: usize = 1;
    while i < n
        invariant
            n == detections@.len(),
            1 <= i <= n,
            best == closest_face(detections@.subrange(0, i as int), prev),
            best_score == dissimilarity(prev, best),
        decreases n - i,
    {
        let face = detections[i];
        proof {
            let next = detections@.subrange(0, i + 1);
            assert(next.drop_last() == detections@.subrange(0, i as int));
            assert(next.last() == face);
        }
        let score = dissimilarity_of(&prev, &face);
        if score < best_score {
            best = face;
            best_score = score;
        }
        i = i + 1;
    }
    assert(detections@.subrange(0, n as int) == detections@);
    Some(best)
}

/// The tracker's state: the face it holds, the detection cycles left before
/// it gives the face up, and the frames left until the next detection.
pub struct TrackerView {
    pub locked: Option<FaceRect>,
    pub no_face_since: nat,
    pub find_face_in: nat,
}

/// One processed frame: the frame count runs down, and when it reaches the
/// end a detection is due and the count starts over.
pub open spec fn after_frame(t: TrackerView) -> (TrackerView, bool) {
    if t.find_face_in <= 1 {
        (TrackerView { find_face_in: DETECTION_PERIOD as nat, ..t }, true)
    } else {
        (TrackerView { find_face_in: (t.find_face_in - 1) as nat, ..t }, false)
    }
}

/// One detection cycle. With detections, the tracker adopts the largest
/// one when it holds no face, else the one closest to the face it holds,
/// and its budget is full again. Without, the budget runs down by one; once
/// it is spent the face is dropped.
pub open spec fn after_detection(t: TrackerView, d: Seq<FaceRect>) -> TrackerView {
    if d.len() > 0 {
        TrackerView {
            locked: Some(
                match t.locked {
                    None => largest_face(d),
                    Some(prev) => closest_face(d, prev),
                },
            ),
            no_face_since: NO_FACE_BUDGET as nat,
            find_face_in: t.find_face_in,
        }
    } else {
        let left: nat = if t.no_face_since > 0 {
            (t.no_face_since - 1) as nat
        } else {
            0
        };
        TrackerView {
            locked: if left == 0 {
                None
            } else {
                t.locked
            },
            no_face_since: left,
            find_face_in: t.find_face_in,
        }
    }
}

/// The state after `n` detection cycles that found nothing.
pub open spec fn after_empty_cycles(t: TrackerView, n: nat) -> TrackerView
    decreases n,
{
    if n == 0 {
        t
    } else {
        after_detection(after_empty_cycles(t, (n - 1) as nat), Seq::empty())
    }
}

/// Hysteresis: from a full budget, four detection cycles in a row without a
/// face keep the locked face; the fifth drops it.
pub proof fn lemma_hysteresis(t: TrackerView)
    requires
        t.no_face_since == NO_FACE_BUDGET,
    ensures
        after_empty_cycles(t, 4).locked == t.locked,
        after_empty_cycles(t, 5).locked is None,
{
    reveal_with_fuel(after_empty_cycles, 6);
}

/// Keeps a single face locked across frames.
pub struct FaceTracker {
    locked: Option<FaceRect>,
    no_face_since: u32,
    find_face_in: u32,
}

impl View for FaceTracker {
    type V = TrackerView;

    closed spec fn view(&self) -> TrackerView {
        TrackerView {
            locked: self.locked,
            no_face_since: self.no_face_since as nat,
            find_face_in: self.find_face_in as nat,
        }
    }
}

impl FaceTracker {
    /// No face, a full budget, and a whole period until the first detection.
    pub fn new() -> (r: FaceTracker)
        ensures
            r@ == (TrackerView {
                locked: None,
                no_face_since: NO_FACE_BUDGET as nat,
                find_face_in: DETECTION_PERIOD as nat,
            }),
    {
        FaceTracker { locked: None, no_face_since: NO_FACE_BUDGET, find_face_in: DETECTION_PERIOD }
    }

    /// The face held, if any.
    pub fn locked_face(&self) -> (r: Option<FaceRect>)
        ensures
            r == self@.locked,
    {
        self.locked
    }

    /// Counts one processed frame and says whether detection runs on it.
    pub fn detection_due(&mut self) -> (due: bool)
        ensures
            (final(self)@, due) == after_frame(old(self)@),
    {
        if self.find_face_in <= 1 {
            self.find_face_in = DETECTION_PERIOD;
            true
        } else {
            self.find_face_in = self.find_face_in - 1;
            false
        }
    }

    /// Takes the result of one detection cycle.
    pub fn update(&mut self, detections: &[FaceRect])
        ensures
            final(self)@ == after_detection(old(self)@, detections@),
    {
        if detections.len() > 0 {
            let adopted = match self.locked {
                None => largest_of(detections),
                Some(prev) => closest_to(detections, prev),
            };
            self.locked = adopted;
            self.no_face_since = NO_FACE_BUDGET;
        } else {
            if self.no_face_since > 0 {
                self.no_face_since = self.no_face_since - 1;
            }
            if self.no_face_since == 0 {
                self.locked = None;
            }
        }
    }
}

} // verus!
