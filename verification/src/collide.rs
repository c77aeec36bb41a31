//! Collision shape rules: how far a moving box has to be pushed to clear a
//! static tile of a given shape, and which force the contact dampens.
//!
//! A square tile pushes along one axis. Step and slope tiles are right
//! triangles: only the half of the tile's box under the hypotenuse is solid,
//! and the push may also run along the diagonal, at right angles to the
//! hypotenuse. A box can land on either; pushed along the diagonal it comes
//! to rest on a step and slides on a slope.

use vstd::prelude::*;
use crate::geometry::{Aabb, Rect, Vec2i, abs};

verus! {

/// The shape of a static tile.
#[derive(Clone, Copy, Debug, PartialEq, Eq, Structural)]
pub enum Collide {
    /// Solid throughout.
    Square,
    /// Solid below the diagonal from top left to bottom right; can be stood
    /// on.
    StepL,
    /// Solid below the diagonal from bottom left to top right; can be stood
    /// on.
    StepR,
    /// Shaped like `StepL`, but a slide: a diagonal contact dampens nothing.
    SlopeL,
    /// Shaped like `StepR`, but a slide: a diagonal contact dampens nothing.
    SlopeR,
}

impl Default for Collide {
    fn default() -> (c: Collide)
        ensures
            c == Collide::Square,
    {
        Collide::Square
    }
}

/// The shorter of the two pushes that clear the tile sideways: negative to
/// the left, positive to the right. Of two equally long ones, the one to the
/// right.
pub open spec fn horz_push(a: Rect, s: Rect) -> int {
    let lt = s.min_x() - a.max_x();
    let rt = s.max_x() - a.min_x();
    if abs(lt) < abs(rt) {
        lt
    } else {
        rt
    }
}

/// The shorter of the two pushes that clear the tile vertically: positive up,
/// negative down. Of two equally long ones, the one up.
pub open spec fn vert_push(a: Rect, s: Rect) -> int {
    let up = s.max_y() - a.min_y();
    let dn = s.min_y() - a.max_y();
    if abs(dn) < abs(up) {
        dn
    } else {
        up
    }
}

/// How far the bottom left corner of `a` lies under the hypotenuse of a left
/// triangle on `s`, measured as the sum of the corner's distances to the
/// line along both axes. Negative above the line.
pub open spec fn depth_left(a: Rect, s: Rect) -> int {
    -((a.min_x() - s.cx) + (a.min_y() - s.cy))
}

/// How far the bottom right corner of `a` lies under the hypotenuse of a
/// right triangle on `s`, measured as for `depth_left`.
pub open spec fn depth_right(a: Rect, s: Rect) -> int {
    (a.max_x() - s.cx) - (a.min_y() - s.cy)
}

/// Whether a push of `x` along an axis is shorter than the way to the
/// hypotenuse at right angles to it, for a corner `depth` under the line.
/// That way is `depth / sqrt(2)` long; squared, the comparison is exact.
pub open spec fn shorter_than_diagonal(x: int, depth: int) -> bool {
    2 * x * x < depth * depth
}

/// A push `(x, y)` and the forces it dampens, horizontal and vertical.
pub type Push = (int, int, bool, bool);

/// The push off a triangle for a corner `depth >= 0` under its hypotenuse.
///
/// The sideways push wins when it is shorter than both others, then the
/// vertical one when it is shorter than the diagonal one, else the diagonal
/// one, which moves the corner up to the line: `depth / 2` along each axis,
/// rounded down, to the right when `side` is 1 and to the left when it is -1.
/// A vertical push dampens vertical force, on a step and on a slope alike: a
/// box can land on either. A diagonal push dampens it on a step only: down a
/// slope the box slides.
pub open spec fn triangle_push(horz: int, vert: int, depth: int, step: bool, side: int) -> Push {
    if shorter_than_diagonal(horz, depth) && abs(horz) < abs(vert) {
        (horz, 0, true, false)
    } else if shorter_than_diagonal(vert, depth) {
        (0, vert, false, true)
    } else {
        (side * (depth / 2), depth / 2, false, step)
    }
}

/// The push that the tile `s` of shape `col` gives the moving box `a`.
///
/// A square pushes vertically when that is the shorter way, else sideways,
/// and dampens the force along the push. A triangle does not push a box whose
/// corner is above its hypotenuse.
pub open spec fn push_of(a: Rect, col: Collide, s: Rect) -> Push {
    let horz = horz_push(a, s);
    let vert = vert_push(a, s);
    match col {
        Collide::Square => if abs(horz) > abs(vert) {
            (0, vert, false, true)
        } else {
            (horz, 0, true, false)
        },
        Collide::StepL | Collide::SlopeL => if depth_left(a, s) < 0 {
            (0, 0, false, false)
        } else {
            triangle_push(horz, vert, depth_left(a, s), col == Collide::StepL, 1)
        },
        Collide::StepR | Collide::SlopeR => if depth_right(a, s) < 0 {
            (0, 0, false, false)
        } else {
            triangle_push(horz, vert, depth_right(a, s), col == Collide::StepR, -1)
        },
    }
}

/// Bounds on the candidates of a push between two well-formed boxes.
pub proof fn lemma_push_bounds(a: Aabb, s: Aabb)
    requires
        a.wf(),
        s.wf(),
    ensures
        abs(horz_push(a@, s@)) <= 0x4000_0000_0000_0000,
        abs(vert_push(a@, s@)) <= 0x4000_0000_0000_0000,
        abs(depth_left(a@, s@)) <= 0x6000_0000_0000_0000,
        abs(depth_right(a@, s@)) <= 0x6000_0000_0000_0000,
{
}

/// A square dampens exactly the force along its push, and its push brings
/// the facing sides of the two boxes together.
pub proof fn lemma_square_push(a: Rect, s: Rect)
    ensures
        ({
            let p = push_of(a, Collide::Square, s);
            &&& p.2 != p.3
            &&& p.3 ==> p.0 == 0 && (a.min_y() + p.1 == s.max_y() || a.max_y() + p.1 == s.min_y())
            &&& p.2 ==> p.1 == 0 && (a.min_x() + p.0 == s.max_x() || a.max_x() + p.0 == s.min_x())
        }),
{
}

/// A triangle leaves a box alone whose corner is above its hypotenuse, and
/// never dampens horizontal and vertical force together. Its push along one
/// axis dampens the force along that axis, whatever the triangle; its
/// diagonal push dampens vertical force on a step and none on a slope.
pub proof fn lemma_triangle_push(a: Rect, col: Collide, s: Rect)
    requires
        col != Collide::Square,
    ensures
        ({
            let p = push_of(a, col, s);
            let depth = if col == Collide::StepL || col == Collide::SlopeL {
                depth_left(a, s)
            } else {
                depth_right(a, s)
            };
            &&& depth < 0 ==> p == (0int, 0int, false, false)
            &&& !(p.2 && p.3)
            &&& p.2 ==> p.1 == 0
            &&& p.0 == 0 && p.1 != 0 ==> p.3
            &&& p.1 == 0 && p.0 != 0 ==> p.2
            &&& p.0 != 0 && p.1 != 0 ==> p.3 == (col == Collide::StepL || col == Collide::StepR)
        }),
{
}

/// A diagonal push off a left triangle moves the corner up to the
/// hypotenuse, or to one unit under it where the depth is odd.
pub proof fn lemma_diagonal_push_left(a: Rect, col: Collide, s: Rect)
    requires
        col == Collide::StepL || col == Collide::SlopeL,
        push_of(a, col, s).0 != 0,
        push_of(a, col, s).1 != 0,
    ensures
        ({
            let moved = a.moved(push_of(a, col, s).0, push_of(a, col, s).1);
            &&& 0 <= depth_left(moved, s) <= 1
            &&& push_of(moved, col, s).0 == 0 || push_of(moved, col, s).1 == 0
        }),
{
    let moved = a.moved(push_of(a, col, s).0, push_of(a, col, s).1);
    let depth = depth_left(a, s);
    assert(depth >= 0);
    assert(1 * (depth / 2) == depth / 2);
    let d2 = depth_left(moved, s);
    let half = d2 / 2;
    assert(half == 0);
    assert(1 * half == 0);
}

/// A diagonal push off a right triangle moves the corner up to the
/// hypotenuse, or to one unit under it where the depth is odd.
pub proof fn lemma_diagonal_push_right(a: Rect, col: Collide, s: Rect)
    requires
        col == Collide::StepR || col == Collide::SlopeR,
        push_of(a, col, s).0 != 0,
        push_of(a, col, s).1 != 0,
    ensures
        ({
            let moved = a.moved(push_of(a, col, s).0, push_of(a, col, s).1);
            &&& 0 <= depth_right(moved, s) <= 1
            &&& push_of(moved, col, s).0 == 0 || push_of(moved, col, s).1 == 0
        }),
{
    let moved = a.moved(push_of(a, col, s).0, push_of(a, col, s).1);
    let depth = depth_right(a, s);
    assert(depth >= 0);
    let m = depth / 2;
    assert((-1int) * m == -m) by (nonlinear_arith);
    let p = push_of(a, col, s);
    assert(p == triangle_push(horz_push(a, s), vert_push(a, s), depth, col == Collide::StepR, -1));
    assert(p.1 == m);
    assert(p.0 == -m);
    let d2 = depth_right(moved, s);
    assert(d2 == depth - 2 * m);
    let half = d2 / 2;
    assert(half == 0);
    assert((-1int) * half == 0) by (nonlinear_arith)
        requires
            half == 0,
    ;
}

/// Whether `2 * x * x < depth * depth`.
fn is_shorter_than_diagonal(x: i64, depth: i64) -> (b: bool)
    requires
        abs(x as int) <= 0x4000_0000_0000_0000,
        0 <= depth <= 0x6000_0000_0000_0000,
    ensures
        b == shorter_than_diagonal(x as int, depth as int),
{
    let wide_x: i128 = x as i128;
    let wide_d: i128 = depth as i128;
    assert(0 <= wide_x * wide_x <= 0x4000_0000_0000_0000 * 0x4000_0000_0000_0000)
        by (nonlinear_arith)
        requires
            -0x4000_0000_0000_0000 <= wide_x <= 0x4000_0000_0000_0000,
    ;
    assert(0 <= wide_d * wide_d <= 0x6000_0000_0000_0000 * 0x6000_0000_0000_0000)
        by (nonlinear_arith)
        requires
            0 <= wide_d <= 0x6000_0000_0000_0000,
    ;
    assert(2 * (x as int) * (x as int) == 2 * (wide_x * wide_x)) by (nonlinear_arith)
        requires
            wide_x == x,
    ;
    let xx: i128 = wide_x * wide_x;
    let dd: i128 = wide_d * wide_d;
    2 * xx < dd
}

/// The magnitude of `x`.
fn magnitude(x: i64) -> (m: i64)
    requires
        x > i64::MIN,
    ensures
        m == abs(x as int),
{
    if x < 0 {
        -x
    } else {
        x
    }
}

/// The push off a triangle; see `triangle_push`.
fn push_off_triangle(horz: i64, vert: i64, depth: i64, step: bool, right: bool) -> (r: (
    Vec2i,
    bool,
    bool,
))
    requires
        abs(horz as int) <= 0x4000_0000_0000_0000,
        abs(vert as int) <= 0x4000_0000_0000_0000,
        0 <= depth <= 0x6000_0000_0000_0000,
    ensures
        ({
            let m = triangle_push(
                horz as int,
                vert as int,
                depth as int,
                step,
                if right {
                    1
                } else {
                    -1
                },
            );
            r.0.x == m.0 && r.0.y == m.1 && r.1 == m.2 && r.2 == m.3
        }),
{
    if is_shorter_than_diagonal(horz, depth) && magnitude(horz) < magnitude(vert) {
        (Vec2i { x: horz, y: 0 }, true, false)
    } else if is_shorter_than_diagonal(vert, depth) {
        (Vec2i { x: 0, y: vert }, false, true)
    } else {
        let m: i64 = depth / 2;
        let x: i64 = if right {
            m
        } else {
            -m
        };
        assert(1 * (depth as int / 2) == depth as int / 2);
        assert(-1 * (depth as int / 2) == -(depth as int / 2));
        (Vec2i { x, y: m }, false, step)
    }
}

/// How far the moving box `aabb` has to be pushed to stop colliding with the
/// tile `col_aabb` of shape `col`, and whether the contact dampens the
/// horizontal and the vertical force.
pub fn collide_push(aabb: &Aabb, col: &Collide, col_aabb: &Aabb) -> (r: (Vec2i, bool, bool))
    requires
        aabb.wf(),
        col_aabb.wf(),
    ensures
        r.0.x == push_of(aabb@, *col, col_aabb@).0,
        r.0.y == push_of(aabb@, *col, col_aabb@).1,
        r.1 == push_of(aabb@, *col, col_aabb@).2,
        r.2 == push_of(aabb@, *col, col_aabb@).3,
{
    proof {
        lemma_push_bounds(*aabb, *col_aabb);
    }
    let a_min_x: i64 = aabb.center.x - aabb.half.x;
    let a_max_x: i64 = aabb.center.x + aabb.half.x;
    let a_min_y: i64 = aabb.center.y - aabb.half.y;
    let a_max_y: i64 = aabb.center.y + aabb.half.y;
    let lt: i64 = (col_aabb.center.x - col_aabb.half.x) - a_max_x;
    let rt: i64 = (col_aabb.center.x + col_aabb.half.x) - a_min_x;
    let up: i64 = (col_aabb.center.y + col_aabb.half.y) - a_min_y;
    let dn: i64 = (col_aabb.center.y - col_aabb.half.y) - a_max_y;
    let horz: i64 = if magnitude(lt) < magnitude(rt) {
        lt
    } else {
        rt
    };
    let vert: i64 = if magnitude(dn) < magnitude(up) {
        dn
    } else {
        up
    };
    match col {
        Collide::Square => {
            if magnitude(horz) > magnitude(vert) {
                (Vec2i { x: 0, y: vert }, false, true)
            } else {
                (Vec2i { x: horz, y: 0 }, true, false)
            }
        },
        Collide::StepL | Collide::SlopeL => {
            let depth: i64 = -((a_min_x - col_aabb.center.x) + (a_min_y - col_aabb.center.y));
            if depth < 0 {
                (Vec2i { x: 0, y: 0 }, false, false)
            } else {
                push_off_triangle(horz, vert, depth, matches!(col, Collide::StepL), true)
            }
        },
        Collide::StepR | Collide::SlopeR => {
            let depth: i64 = (a_max_x - col_aabb.center.x) - (a_min_y - col_aabb.center.y);
            if depth < 0 {
                (Vec2i { x: 0, y: 0 }, false, false)
            } else {
                push_off_triangle(horz, vert, depth, matches!(col, Collide::StepR), false)
            }
        },
    }
}

} // verus!
