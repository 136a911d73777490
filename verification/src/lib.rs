//! Simplification of polylines in two or three dimensions.
//!
//! A polyline is a sequence of points; to simplify it is to drop points of it
//! so that what is left still follows its course within a tolerance.
//!
//! Coordinates are binary64 numbers, each carried as its 64-bit pattern. The
//! library orders and compares them itself (`number`) and is handed the
//! arithmetic on them (`arithmetic`).
use vstd::prelude::*;
use crate::algorithms::{
    douglas_peucker, radial_distance, simplify_douglas_peucker, simplify_radial_distance, squared,
};
use crate::arithmetic::{is_arithmetic, table, Operation, Table};
use crate::laws::law_ends_are_preserved;
use crate::point::{same_position, Point};

pub mod algorithms;
pub mod arithmetic;
pub mod laws;
pub mod number;
pub mod point;

verus! {

/// The simplification of `points` at the distance `tolerance`.
///
/// Up to two points are left as they are. A longer sequence is simplified at
/// the square of `tolerance`: in high quality by the Douglas-Peucker
/// algorithm alone, otherwise by the radial-distance pass and then, on what
/// that retains, by the Douglas-Peucker algorithm.
pub open spec fn simplified(f: Table, points: Seq<Point>, tolerance: u64, high_quality: bool) -> Seq<
    Point,
> {
    if points.len() <= 2 {
        points
    } else if high_quality {
        douglas_peucker(f, points, squared(f, tolerance))
    } else {
        douglas_peucker(
            f,
            radial_distance(f, points, squared(f, tolerance)),
            squared(f, tolerance),
        )
    }
}

/// Simplifies the polyline `points` at the distance `tolerance`, which is in
/// the unit of the coordinates and is squared here, once.
pub fn simplify<A: Fn(Operation, u64, u64) -> u64>(
    points: &[Point],
    tolerance: u64,
    high_quality: bool,
    arith: &A,
) -> (r: Vec<Point>)
    requires
        is_arithmetic(arith),
    ensures
        r@ == simplified(table(arith), points@, tolerance, high_quality),
        points@.len() <= 2 ==> r@ == points@,
        points@.len() > 0 ==> r@.len() > 0 && r@[0] == points@[0] && (r@.last() == points@.last()
            || same_position(points@.last(), r@.last())),
{
    proof {
        if points@.len() > 0 {
            law_ends_are_preserved(table(arith), points@, tolerance, high_quality);
        }
    }
    if points.len() <= 2 {
        vstd::slice::slice_to_vec(points)
    } else {
        let squared_tolerance = arith(Operation::Mul, tolerance, tolerance);
        if high_quality {
            simplify_douglas_peucker(points, squared_tolerance, arith)
        } else {
            let thinned = simplify_radial_distance(points, squared_tolerance, arith);
            simplify_douglas_peucker(thinned.as_slice(), squared_tolerance, arith)
        }
    }
}

} // verus!
