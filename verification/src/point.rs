//! Points of a polyline.
use vstd::prelude::*;
use vstd::std_specs::cmp::PartialEqSpecImpl;
use crate::number::{equal, spec_equal, ZERO};

verus! {

/// A point in the plane or in space. Each coordinate is the bit pattern of a
/// binary64 number.
#[derive(Clone, Copy, Debug)]
pub enum Point {
    /// A point in the plane, given by `x` and `y`.
    Point2D(u64, u64),
    /// A point in space, given by `x`, `y` and `z`.
    Point3D(u64, u64, u64),
}

/// Whether two points lie at the same position: their canonical coordinates
/// are equal as numbers, one by one. A point in the plane and a point in
/// space with `z` zero can be at the same position; a point with a NaN among
/// its coordinates is at the same position as no point, itself included.
pub open spec fn same_position(a: Point, b: Point) -> bool {
    &&& spec_equal(a.canonical().0, b.canonical().0)
    &&& spec_equal(a.canonical().1, b.canonical().1)
    &&& spec_equal(a.canonical().2, b.canonical().2)
}

impl Point {
    /// The canonical coordinates `(x, y, z)` of the point; a point in the
    /// plane lies at `z` zero.
    pub open spec fn canonical(self) -> (u64, u64, u64) {
        match self {
            Point::Point2D(x, y) => (x, y, ZERO),
            Point::Point3D(x, y, z) => (x, y, z),
        }
    }

    /// Returns the canonical coordinates of the point.
    pub fn map(&self) -> (r: (u64, u64, u64))
        ensures
            r == self.canonical(),
    {
        match self {
            Point::Point2D(x, y) => (*x, *y, ZERO),
            Point::Point3D(x, y, z) => (*x, *y, *z),
        }
    }
}

impl PartialEq for Point {
    /// Two points are equal when they lie at the same position.
    fn eq(&self, other: &Point) -> (r: bool) {
        let (xa, ya, za) = self.map();
        let (xb, yb, zb) = other.map();
        equal(xa, xb) && equal(ya, yb) && equal(za, zb)
    }
}

impl PartialEqSpecImpl for Point {
    open spec fn obeys_eq_spec() -> bool {
        true
    }

    open spec fn eq_spec(&self, other: &Point) -> bool {
        same_position(*self, *other)
    }
}

} // verus!
