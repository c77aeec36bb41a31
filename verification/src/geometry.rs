//! Integer vectors and axis-aligned boxes.

use vstd::prelude::*;

verus! {

/// Largest magnitude of a box centre, and largest half-extent, that the
/// collision rules accept: 2^60.
pub const COORD_MAX: i64 = 0x1000_0000_0000_0000;

/// A vector, or a point, in the plane.
#[derive(Clone, Copy, Debug, PartialEq, Eq, Structural)]
pub struct Vec2i {
    pub x: i64,
    pub y: i64,
}

impl Vec2i {
    /// The zero vector.
    pub open spec fn zero() -> Vec2i {
        Vec2i { x: 0, y: 0 }
    }

    /// Whether both components are zero.
    pub fn is_zero(&self) -> (b: bool)
        ensures
            b == (*self == Vec2i::zero()),
    {
        self.x == 0 && self.y == 0
    }
}

/// The magnitude of an integer.
pub open spec fn abs(x: int) -> int {
    if x < 0 {
        -x
    } else {
        x
    }
}

/// The mathematical box: centre and half-extent as unbounded integers.
pub struct Rect {
    pub cx: int,
    pub cy: int,
    pub hx: int,
    pub hy: int,
}

impl Rect {
    pub open spec fn min_x(self) -> int {
        self.cx - self.hx
    }

    pub open spec fn max_x(self) -> int {
        self.cx + self.hx
    }

    pub open spec fn min_y(self) -> int {
        self.cy - self.hy
    }

    pub open spec fn max_y(self) -> int {
        self.cy + self.hy
    }

    /// Whether two boxes share a point. Boxes that only touch do.
    pub open spec fn overlaps(self, other: Rect) -> bool {
        &&& self.min_x() <= other.max_x()
        &&& self.max_x() >= other.min_x()
        &&& self.min_y() <= other.max_y()
        &&& self.max_y() >= other.min_y()
    }

    /// The square of the distance between the centres of two boxes.
    pub open spec fn center_distance_squared(self, other: Rect) -> int {
        (other.cx - self.cx) * (other.cx - self.cx) + (other.cy - self.cy) * (other.cy - self.cy)
    }

    /// The box moved by `(dx, dy)`.
    pub open spec fn moved(self, dx: int, dy: int) -> Rect {
        Rect { cx: self.cx + dx, cy: self.cy + dy, ..self }
    }
}

/// An axis-aligned box, by its centre and half-extent.
#[derive(Clone, Copy, Debug, PartialEq, Eq, Structural)]
pub struct Aabb {
    pub center: Vec2i,
    pub half: Vec2i,
}

impl View for Aabb {
    type V = Rect;

    open spec fn view(&self) -> Rect {
        Rect {
            cx: self.center.x as int,
            cy: self.center.y as int,
            hx: self.half.x as int,
            hy: self.half.y as int,
        }
    }
}

impl Aabb {
    /// The half-extent is not negative, and centre and half-extent are within
    /// `COORD_MAX`.
    pub open spec fn wf(self) -> bool {
        &&& -COORD_MAX <= self.center.x <= COORD_MAX
        &&& -COORD_MAX <= self.center.y <= COORD_MAX
        &&& 0 <= self.half.x <= COORD_MAX
        &&& 0 <= self.half.y <= COORD_MAX
    }

    /// A box from its centre and half-extent.
    pub fn new(center: Vec2i, half: Vec2i) -> (b: Aabb)
        ensures
            b.center == center,
            b.half == half,
    {
        Aabb { center, half }
    }

    /// Whether two boxes share a point; touching counts.
    pub fn intersects(&self, other: &Aabb) -> (b: bool)
        requires
            self.wf(),
            other.wf(),
        ensures
            b == self@.overlaps(other@),
    {
        let x_overlaps = self.center.x - self.half.x <= other.center.x + other.half.x
            && self.center.x + self.half.x >= other.center.x - other.half.x;
        let y_overlaps = self.center.y - self.half.y <= other.center.y + other.half.y
            && self.center.y + self.half.y >= other.center.y - other.half.y;
        x_overlaps && y_overlaps
    }
}

/// Overlapping is symmetric.
pub proof fn lemma_overlaps_symmetric(a: Rect, b: Rect)
    ensures
        a.overlaps(b) == b.overlaps(a),
{
}

} // verus!
