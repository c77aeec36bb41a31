//! Camera rules: following the actor in the level, and the timed camera
//! moves of the intro.

use vstd::prelude::*;
use crate::cue::Position;
use crate::geometry::Vec2i;
use crate::track::Fraction;

verus! {

/// Largest magnitude of a coordinate or a bound that the camera accepts:
/// 2^60.
pub const CAMERA_MAX: i64 = 0x1000_0000_0000_0000;

/// Where the camera goes along one axis: it stays while the target is within
/// `bound` of it, and else moves just far enough to have the target at
/// `bound`.
pub open spec fn panned(cam: int, target: int, bound: int) -> int {
    if target - cam > bound {
        target - bound
    } else if cam - target > bound {
        target + bound
    } else {
        cam
    }
}

/// After a pan the target is within the bound of the camera.
pub proof fn lemma_panned_in_bound(cam: int, target: int, bound: int)
    requires
        0 <= bound,
    ensures
        -bound <= target - panned(cam, target, bound) <= bound,
        -bound <= target - cam <= bound ==> panned(cam, target, bound) == cam,
{
}

/// Moves the camera after the target where it has come nearer than `bound`
/// to the edge of the camera's box, along each axis by itself.
pub fn pan_camera(cam: Vec2i, target: Vec2i, bound: i64) -> (r: Vec2i)
    requires
        0 <= bound <= CAMERA_MAX,
        -CAMERA_MAX <= cam.x <= CAMERA_MAX,
        -CAMERA_MAX <= cam.y <= CAMERA_MAX,
        -CAMERA_MAX <= target.x <= CAMERA_MAX,
        -CAMERA_MAX <= target.y <= CAMERA_MAX,
    ensures
        r.x == panned(cam.x as int, target.x as int, bound as int),
        r.y == panned(cam.y as int, target.y as int, bound as int),
{
    let x: i64 = if target.x - cam.x > bound {
        target.x - bound
    } else if cam.x - target.x > bound {
        target.x + bound
    } else {
        cam.x
    };
    let y: i64 = if target.y - cam.y > bound {
        target.y - bound
    } else if cam.y - target.y > bound {
        target.y + bound
    } else {
        cam.y
    };
    Vec2i { x, y }
}

/// A timed camera move: between the two times the zoom and the position go
/// from their first to their second value.
#[derive(Clone, Copy, Debug)]
pub struct CQ {
    pub time: (u64, u64),
    pub scale: (i64, i64),
    pub tran: (Position, Position),
}

/// Whether the move runs at `time`: from its start to its end, both
/// included.
pub open spec fn runs_at(cq: CQ, time: u64) -> bool {
    cq.time.0 <= time <= cq.time.1
}

/// The last of the first `i` moves that runs at `time`.
pub open spec fn running_at(cues: Seq<CQ>, time: u64, i: int) -> Option<int>
    decreases i,
{
    if i <= 0 {
        None
    } else if runs_at(cues[i - 1], time) {
        Some(i - 1)
    } else {
        running_at(cues, time, i - 1)
    }
}

/// How far `v` is through the range from `start` to `end`, where it is in
/// it. A range of a single point counts as gone through.
pub open spec fn share_of(start: u64, end: u64, v: u64) -> Option<Fraction> {
    if !(start <= v <= end) {
        None
    } else if start == end {
        Some(Fraction::one())
    } else {
        Some(Fraction { num: (v - start) as u64, den: (end - start) as u64 })
    }
}

/// How far `v` is through the range from `start` to `end`; `None` outside
/// the range.
pub fn inverse_lerp(start: u64, end: u64, v: u64) -> (r: Option<Fraction>)
    ensures
        r == share_of(start, end, v),
        r is Some ==> r->0.wf(),
{
    if !(start <= v && v <= end) {
        None
    } else if start == end {
        Some(Fraction { num: 1, den: 1 })
    } else {
        Some(Fraction { num: v - start, den: end - start })
    }
}

/// The camera move that runs at `time` and how far through it the time is:
/// of several that run, the last in the list.
pub fn sequence_camera(cues: &Vec<CQ>, time: u64) -> (r: Option<(usize, Fraction)>)
    ensures
        match r {
            Some((i, f)) => running_at(cues@, time, cues@.len() as int) == Some(i as int)
                && i < cues@.len() && share_of(cues@[i as int].time.0, cues@[i as int].time.1, time)
                == Some(f) && f.wf(),
            None => running_at(cues@, time, cues@.len() as int) is None,
        },
{
    let mut cur: Option<usize> = None;
    let mut i: usize = 0;
    while i < cues.len()
        invariant
            i <= cues@.len(),
            match cur {
                Some(j) => j < i && running_at(cues@, time, i as int) == Some(j as int) && runs_at(
                    cues@[j as int],
                    time,
                ),
                None => running_at(cues@, time, i as int) is None,
            },
        decreases cues@.len() - i,
    {
        if time >= cues[i].time.0 && time <= cues[i].time.1 {
            cur = Some(i);
        }
        i += 1;
    }
    match cur {
        Some(j) => match inverse_lerp(cues[j].time.0, cues[j].time.1, time) {
            Some(f) => Some((j, f)),
            None => None,
        },
        None => None,
    }
}

/// How far `x` is through the range from `a` to `b`, held at zero before the
/// range and at one behind it. A range of a single point counts as gone
/// through.
pub open spec fn clamped_share(a: u64, b: u64, x: u64) -> Fraction {
    if x < a {
        Fraction { num: 0, den: 1 }
    } else if x > b || a == b {
        Fraction::one()
    } else {
        Fraction { num: (x - a) as u64, den: (b - a) as u64 }
    }
}

/// How far `x` is through the range from `a` to `b`, held to the range.
pub fn inv_lerp(a: u64, b: u64, x: u64) -> (f: Fraction)
    ensures
        f == clamped_share(a, b, x),
        f.wf(),
{
    if x < a {
        Fraction { num: 0, den: 1 }
    } else if x > b || a == b {
        Fraction { num: 1, den: 1 }
    } else {
        Fraction { num: x - a, den: b - a }
    }
}

} // verus!
