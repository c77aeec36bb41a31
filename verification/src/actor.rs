//! The controlled actor: turning key states into a control vector, and
//! applying a solved displacement.

use vstd::prelude::*;
use crate::geometry::Vec2i;
use crate::solver::Movement;

verus! {

/// One step along an axis for a pair of opposite keys.
pub open spec fn axis(minus: bool, plus: bool) -> int {
    (if plus {
        1int
    } else {
        0int
    }) - (if minus {
        1int
    } else {
        0int
    })
}

/// The control vector for the keys held: one `speed` along each axis whose
/// key is held, nothing for two opposite keys.
pub fn check_kbd(left: bool, right: bool, up: bool, down: bool, speed: i64) -> (ctl: Vec2i)
    requires
        i64::MIN < speed,
    ensures
        ctl.x == axis(left, right) * speed,
        ctl.y == axis(down, up) * speed,
{
    let x: i64 = if right && !left {
        speed
    } else if left && !right {
        -speed
    } else {
        0
    };
    let y: i64 = if up && !down {
        speed
    } else if down && !up {
        -speed
    } else {
        0
    };
    assert(1 * speed == speed && 0 * speed == 0 && (-1) * speed == -speed) by (nonlinear_arith);
    Vec2i { x, y }
}

/// Where and how the actor shows.
#[derive(Clone, Copy, Debug, PartialEq, Eq, Structural)]
pub struct Pose {
    pub pos: Vec2i,
    /// Whether the sprite is mirrored.
    pub flip_x: bool,
    /// Whether the actor is turned on its side, climbing.
    pub climbing: bool,
    /// Whether the actor fell below the floor and was put back at the
    /// origin.
    pub fell: bool,
}

/// The pose after a solved movement.
///
/// The actor moves by the displacement. Climbing, it is mirrored and turned;
/// else it is upright and faces where the controls point, keeping its facing
/// where they point nowhere. Below `floor` it is put back at the origin.
pub open spec fn posed(pos: Vec2i, flip_x: bool, v: Movement, floor: i64) -> Pose {
    let y = pos.y + v.out.y;
    Pose {
        pos: if y < floor {
            Vec2i::zero()
        } else {
            Vec2i { x: (pos.x + v.out.x) as i64, y: y as i64 }
        },
        flip_x: if v.climb {
            true
        } else if v.ctl.x < 0 {
            true
        } else if v.ctl.x > 0 {
            false
        } else {
            flip_x
        },
        climbing: v.climb,
        fell: y < floor,
    }
}

/// Applies a solved movement to the actor at `pos`.
pub fn update_movement(pos: Vec2i, flip_x: bool, v: &Movement, floor: i64) -> (r: Pose)
    requires
        i64::MIN <= pos.x + v.out.x <= i64::MAX,
        i64::MIN <= pos.y + v.out.y <= i64::MAX,
    ensures
        r == posed(pos, flip_x, *v, floor),
{
    let x: i64 = pos.x + v.out.x;
    let y: i64 = pos.y + v.out.y;
    let flip: bool = if v.climb {
        true
    } else if v.ctl.x < 0 {
        true
    } else if v.ctl.x > 0 {
        false
    } else {
        flip_x
    };
    let at: Vec2i = if y < floor {
        Vec2i { x: 0, y: 0 }
    } else {
        Vec2i { x, y }
    };
    Pose { pos: at, flip_x: flip, climbing: v.climb, fell: y < floor }
}

} // verus!
