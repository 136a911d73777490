//! Distances between points, and the two passes that thin a polyline out.
use vstd::prelude::*;
use crate::arithmetic::{is_arithmetic, table, Operation, Table};
use crate::number::{
    at_least, equal, greater, less, spec_at_least, spec_equal, spec_greater, spec_less, ONE, ZERO,
};
use crate::point::{same_position, Point};

verus! {

/// The square of `x`: the product of `x` with itself.
pub open spec fn squared(f: Table, x: u64) -> u64 {
    f(Operation::Mul, x, x)
}

/// The squared length of the vector `(dx, dy, dz)`: the squares of its
/// components, summed from left to right.
pub open spec fn squared_length(f: Table, dx: u64, dy: u64, dz: u64) -> u64 {
    f(Operation::Add, f(Operation::Add, squared(f, dx), squared(f, dy)), squared(f, dz))
}

/// The squared distance from the point with canonical coordinates `p` to the
/// one with canonical coordinates `q`.
pub open spec fn squared_gap(f: Table, p: (u64, u64, u64), q: (u64, u64, u64)) -> u64 {
    squared_length(
        f,
        f(Operation::Sub, p.0, q.0),
        f(Operation::Sub, p.1, q.1),
        f(Operation::Sub, p.2, q.2),
    )
}

/// The squared Euclidean distance between two points, over their canonical
/// coordinates.
pub open spec fn squared_distance(f: Table, left: Point, right: Point) -> u64 {
    squared_gap(f, left.canonical(), right.canonical())
}

/// Whether the vector `(dx, dy, dz)` has a component that is not zero. A NaN
/// is not zero.
pub open spec fn has_extent(dx: u64, dy: u64, dz: u64) -> bool {
    !spec_equal(dx, ZERO) || !spec_equal(dy, ZERO) || !spec_equal(dz, ZERO)
}

/// The parameter of the projection of `p` on the line through `s` along
/// `d`: the dot product of `p - s` with `d`, over the squared length of `d`.
/// It is 0 at `s` and 1 at `s + d`.
pub open spec fn projection(
    f: Table,
    p: (u64, u64, u64),
    s: (u64, u64, u64),
    d: (u64, u64, u64),
) -> u64 {
    let dot = f(
        Operation::Add,
        f(
            Operation::Add,
            f(Operation::Mul, f(Operation::Sub, p.0, s.0), d.0),
            f(Operation::Mul, f(Operation::Sub, p.1, s.1), d.1),
        ),
        f(Operation::Mul, f(Operation::Sub, p.2, s.2), d.2),
    );
    f(Operation::Div, dot, squared_length(f, d.0, d.1, d.2))
}

/// The point at parameter `t` on the line through `s` along `d`.
pub open spec fn along(f: Table, s: (u64, u64, u64), d: (u64, u64, u64), t: u64) -> (
    u64,
    u64,
    u64,
) {
    (
        f(Operation::Add, s.0, f(Operation::Mul, d.0, t)),
        f(Operation::Add, s.1, f(Operation::Mul, d.1, t)),
        f(Operation::Add, s.2, f(Operation::Mul, d.2, t)),
    )
}

/// The squared distance from `point` to the segment from `start` to `end`.
///
/// Where the segment has no extent, it is the squared distance to `start`.
/// Otherwise `point` is projected on the line through the segment: where the
/// projection lies beyond `end` (its parameter is above 1), the result is the
/// squared distance to `end`; else it is the squared distance to the
/// projection, also where that lies before `start`.
pub open spec fn squared_segment_distance(f: Table, point: Point, start: Point, end: Point) -> u64 {
    let p = point.canonical();
    let s = start.canonical();
    let e = end.canonical();
    let d = (f(Operation::Sub, e.0, s.0), f(Operation::Sub, e.1, s.1), f(Operation::Sub, e.2, s.2));
    if has_extent(d.0, d.1, d.2) {
        let t = projection(f, p, s, d);
        if spec_greater(t, ONE) {
            squared_gap(f, p, e)
        } else {
            squared_gap(f, p, along(f, s, d, t))
        }
    } else {
        squared_gap(f, p, s)
    }
}

/// Computes the squared length of `(dx, dy, dz)`.
fn length_squared<A: Fn(Operation, u64, u64) -> u64>(dx: u64, dy: u64, dz: u64, arith: &A) -> (r:
    u64)
    requires
        is_arithmetic(arith),
    ensures
        r == squared_length(table(arith), dx, dy, dz),
{
    let xx = arith(Operation::Mul, dx, dx);
    let yy = arith(Operation::Mul, dy, dy);
    let zz = arith(Operation::Mul, dz, dz);
    arith(Operation::Add, arith(Operation::Add, xx, yy), zz)
}

/// Computes the squared distance between two triples of coordinates.
fn gap_squared<A: Fn(Operation, u64, u64) -> u64>(
    p: (u64, u64, u64),
    q: (u64, u64, u64),
    arith: &A,
) -> (r: u64)
    requires
        is_arithmetic(arith),
    ensures
        r == squared_gap(table(arith), p, q),
{
    let dx = arith(Operation::Sub, p.0, q.0);
    let dy = arith(Operation::Sub, p.1, q.1);
    let dz = arith(Operation::Sub, p.2, q.2);
    length_squared(dx, dy, dz, arith)
}

/// Computes the squared Euclidean distance between `left` and `right`.
pub fn square_distance<A: Fn(Operation, u64, u64) -> u64>(
    left: &Point,
    right: &Point,
    arith: &A,
) -> (r: u64)
    requires
        is_arithmetic(arith),
    ensures
        r == squared_distance(table(arith), *left, *right),
{
    gap_squared(left.map(), right.map(), arith)
}

/// Computes the squared distance from `point` to the segment from `start` to
/// `end`.
pub fn segment_square_distance<A: Fn(Operation, u64, u64) -> u64>(
    point: &Point,
    start: &Point,
    end: &Point,
    arith: &A,
) -> (r: u64)
    requires
        is_arithmetic(arith),
    ensures
        r == squared_segment_distance(table(arith), *point, *start, *end),
{
    let p = point.map();
    let s = start.map();
    let e = end.map();
    let dx = arith(Operation::Sub, e.0, s.0);
    let dy = arith(Operation::Sub, e.1, s.1);
    let dz = arith(Operation::Sub, e.2, s.2);
    if !equal(dx, ZERO) || !equal(dy, ZERO) || !equal(dz, ZERO) {
        let ax = arith(Operation::Mul, arith(Operation::Sub, p.0, s.0), dx);
        let ay = arith(Operation::Mul, arith(Operation::Sub, p.1, s.1), dy);
        let az = arith(Operation::Mul, arith(Operation::Sub, p.2, s.2), dz);
        let dot = arith(Operation::Add, arith(Operation::Add, ax, ay), az);
        let t = arith(Operation::Div, dot, length_squared(dx, dy, dz, arith));
        if greater(t, ONE) {
            gap_squared(p, e, arith)
        } else {
            let cx = arith(Operation::Add, s.0, arith(Operation::Mul, dx, t));
            let cy = arith(Operation::Add, s.1, arith(Operation::Mul, dy, t));
            let cz = arith(Operation::Add, s.2, arith(Operation::Mul, dz, t));
            gap_squared(p, (cx, cy, cz), arith)
        }
    } else {
        gap_squared(p, s, arith)
    }
}

/// The points retained of the first `k` points of `points`, `k` at least 1,
/// by the pass over them at the squared tolerance `tolerance`.
///
/// The first point is retained. Each later point is measured against the
/// last point retained before it: it is dropped where its squared distance
/// to that one is below `tolerance`, and retained otherwise.
pub open spec fn retained(f: Table, points: Seq<Point>, tolerance: u64, k: int) -> Seq<Point>
    decreases k,
{
    if k <= 1 {
        seq![points[0]]
    } else {
        let before = retained(f, points, tolerance, k - 1);
        if spec_less(squared_distance(f, points[k - 1], before.last()), tolerance) {
            before
        } else {
            before.push(points[k - 1])
        }
    }
}

/// The points retained by a pass begin with the first point.
pub proof fn lemma_retained_begins(f: Table, points: Seq<Point>, tolerance: u64, k: int)
    ensures
        retained(f, points, tolerance, k).len() >= 1,
        retained(f, points, tolerance, k)[0] == points[0],
    decreases k,
{
    if k > 1 {
        lemma_retained_begins(f, points, tolerance, k - 1);
    }
}

/// The radial-distance simplification of `points` at the squared tolerance
/// `tolerance`.
///
/// Up to one point is left as it is. Of a longer sequence it is the points
/// retained by the pass over all of it, followed by the last point of
/// `points` unless the last point retained lies at its position.
pub open spec fn radial_distance(f: Table, points: Seq<Point>, tolerance: u64) -> Seq<Point> {
    if points.len() <= 1 {
        points
    } else {
        let kept = retained(f, points, tolerance, points.len() as int);
        if same_position(points.last(), kept.last()) {
            kept
        } else {
            kept.push(points.last())
        }
    }
}

/// Simplifies `points` in one pass at the squared tolerance `tolerance`: it
/// drops each point that lies nearer than the tolerance to the last point
/// kept before it, and ends on the last point of `points`.
pub fn simplify_radial_distance<A: Fn(Operation, u64, u64) -> u64>(
    points: &[Point],
    tolerance: u64,
    arith: &A,
) -> (r: Vec<Point>)
    requires
        is_arithmetic(arith),
    ensures
        r@ == radial_distance(table(arith), points@, tolerance),
        points@.len() <= 1 ==> r@ == points@,
        points@.len() > 0 ==> r@.len() > 0 && r@[0] == points@[0] && (r@.last() == points@.last()
            || same_position(points@.last(), r@.last())),
{
    proof {
        lemma_retained_begins(table(arith), points@, tolerance, points@.len() as int);
    }
    let n = points.len();
    let mut out: Vec<Point> = Vec::new();
    if n == 0 {
        return out;
    }
    let mut previous = points[0];
    out.push(previous);
    if n == 1 {
        return out;
    }
    let mut i: usize = 1;
    while i < n
        invariant
            is_arithmetic(arith),
            n == points@.len(),
            1 <= i <= n,
            out@ == retained(table(arith), points@, tolerance, i as int),
            out@.len() >= 1,
            previous == out@.last(),
        decreases n - i,
    {
        let point = points[i];
        if !less(square_distance(&point, &previous, arith), tolerance) {
            out.push(point);
            previous = point;
        }
        i += 1;
    }
    let last = points[n - 1];
    if last != previous {
        out.push(last);
    }
    out
}

/// Whether the point at index `i` can be the one at which `points` is split:
/// it lies strictly between the two ends, and at the position of neither.
pub open spec fn is_candidate(points: Seq<Point>, i: int) -> bool {
    &&& 0 < i < points.len() - 1
    &&& !same_position(points[i], points[0])
    &&& !same_position(points[i], points[points.len() - 1])
}

/// The squared distance from the point at index `i` to the chord of
/// `points`, the segment from its first point to its last.
pub open spec fn deviation(f: Table, points: Seq<Point>, i: int) -> u64 {
    squared_segment_distance(f, points[i], points[0], points[points.len() - 1])
}

/// The largest deviation found among the candidates below index `k`, and the
/// index at which it was found; `(ZERO, 0)` where none was found.
///
/// The candidates are taken in order, each against the largest so far, which
/// starts at zero. One that is at least as far takes its place, so of several
/// that are equally far the last one stays. A deviation that is a NaN, or
/// below zero, is never taken.
pub open spec fn farthest(f: Table, points: Seq<Point>, k: int) -> (u64, int)
    decreases k,
{
    if k <= 1 {
        (ZERO, 0)
    } else {
        let so_far = farthest(f, points, k - 1);
        let d = deviation(f, points, k - 1);
        if is_candidate(points, k - 1) && spec_at_least(d, so_far.0) {
            (d, k - 1)
        } else {
            so_far
        }
    }
}

/// The index at which `points` is split at `tolerance`, if it is split: the
/// index of the farthest candidate, where its deviation is above `tolerance`.
pub open spec fn split_index(f: Table, points: Seq<Point>, tolerance: u64) -> Option<int> {
    let found = farthest(f, points, points.len() - 1);
    if 0 < found.1 < points.len() - 1 && spec_greater(found.0, tolerance) {
        Some(found.1)
    } else {
        None
    }
}

/// The Douglas-Peucker simplification of `points` at the squared tolerance
/// `tolerance`.
///
/// Up to one point is left as it is. A longer sequence that is not split
/// collapses to its two ends. One that is split at index `i` gives the
/// simplification of its part up to `i`, without that part's last point,
/// followed by the simplification of its part from `i` on; both parts hold the
/// point at `i`.
pub open spec fn douglas_peucker(f: Table, points: Seq<Point>, tolerance: u64) -> Seq<Point>
    decreases points.len(),
{
    if points.len() <= 1 {
        points
    } else {
        match split_index(f, points, tolerance) {
            Some(i) => douglas_peucker(f, points.subrange(0, i + 1), tolerance).drop_last()
                + douglas_peucker(f, points.subrange(i, points.len() as int), tolerance),
            None => seq![points[0], points[points.len() - 1]],
        }
    }
}

/// A simplification of two points or more has two points or more, and the
/// ends of its input at its ends.
pub proof fn lemma_douglas_peucker_ends(f: Table, points: Seq<Point>, tolerance: u64)
    requires
        points.len() >= 2,
    ensures
        douglas_peucker(f, points, tolerance).len() >= 2,
        douglas_peucker(f, points, tolerance)[0] == points[0],
        douglas_peucker(f, points, tolerance).last() == points.last(),
    decreases points.len(),
{
    match split_index(f, points, tolerance) {
        Some(i) => {
            lemma_douglas_peucker_ends(f, points.subrange(0, i + 1), tolerance);
            lemma_douglas_peucker_ends(f, points.subrange(i, points.len() as int), tolerance);
        },
        None => {},
    }
}

/// Finds the farthest candidate of the part of `points` from `lo` to `hi`,
/// both included: its deviation and its index in `points`, or `(ZERO, lo)`
/// where there is none.
fn farthest_point<A: Fn(Operation, u64, u64) -> u64>(
    points: &[Point],
    lo: usize,
    hi: usize,
    arith: &A,
) -> (r: (u64, usize))
    requires
        is_arithmetic(arith),
        lo < hi < points@.len(),
    ensures
        lo <= r.1 < hi,
        (r.0, r.1 - lo) == farthest(
            table(arith),
            points@.subrange(lo as int, hi + 1),
            hi - lo,
        ),
{
    let ghost part = points@.subrange(lo as int, hi + 1);
    let mut best: u64 = ZERO;
    let mut found: usize = lo;
    let mut i: usize = lo + 1;
    while i < hi
        invariant
            is_arithmetic(arith),
            lo < i <= hi < points@.len(),
            lo <= found < i,
            part == points@.subrange(lo as int, hi + 1),
            (best, found - lo) == farthest(table(arith), part, i - lo),
        decreases hi - i,
    {
        let point = &points[i];
        if !(*point == points[lo] || *point == points[hi]) {
            let distance = segment_square_distance(point, &points[lo], &points[hi], arith);
            if at_least(distance, best) {
                best = distance;
                found = i;
            }
        }
        i += 1;
    }
    (best, found)
}

/// Appends to `out` the simplification of the part of `points` from `lo` to
/// `hi`, both included, without its last point.
fn refine<A: Fn(Operation, u64, u64) -> u64>(
    points: &[Point],
    lo: usize,
    hi: usize,
    tolerance: u64,
    arith: &A,
    out: &mut Vec<Point>,
)
    requires
        is_arithmetic(arith),
        lo < hi < points@.len(),
    ensures
        final(out)@ == old(out)@ + douglas_peucker(
            table(arith),
            points@.subrange(lo as int, hi + 1),
            tolerance,
        ).drop_last(),
    decreases hi - lo,
{
    let ghost f = table(arith);
    let ghost part = points@.subrange(lo as int, hi + 1);
    let (best, found) = farthest_point(points, lo, hi, arith);
    if found > lo && greater(best, tolerance) {
        proof {
            let i = found - lo;
            assert(part.subrange(0, i + 1) =~= points@.subrange(lo as int, found + 1));
            assert(part.subrange(i, part.len() as int) =~= points@.subrange(
                found as int,
                hi + 1,
            ));
            lemma_douglas_peucker_ends(f, part.subrange(i, part.len() as int), tolerance);
        }
        refine(points, lo, found, tolerance, arith, out);
        refine(points, found, hi, tolerance, arith, out);
    } else {
        out.push(points[lo]);
    }
}

/// Simplifies `points` by the Douglas-Peucker algorithm at the squared
/// tolerance `tolerance`: of a run of points it keeps the two ends, and
/// between them, again and again, the point that lies farthest from the chord
/// of the run, as long as that is farther than the tolerance.
pub fn simplify_douglas_peucker<A: Fn(Operation, u64, u64) -> u64>(
    points: &[Point],
    tolerance: u64,
    arith: &A,
) -> (r: Vec<Point>)
    requires
        is_arithmetic(arith),
    ensures
        r@ == douglas_peucker(table(arith), points@, tolerance),
        points@.len() <= 2 ==> r@ == points@,
        points@.len() > 0 ==> r@.len() > 0 && r@[0] == points@[0] && r@.last() == points@.last(),
{
    let n = points.len();
    let mut out: Vec<Point> = Vec::new();
    if n == 0 {
        return out;
    }
    if n >= 2 {
        refine(points, 0, n - 1, tolerance, arith, &mut out);
    }
    out.push(points[n - 1]);
    proof {
        assert(points@.subrange(0, n as int) =~= points@);
        if n >= 2 {
            lemma_douglas_peucker_ends(table(arith), points@, tolerance);
        }
    }
    out
}

} // verus!
