//! What holds of the simplifications, whatever the arithmetic.
use vstd::prelude::*;
use crate::algorithms::{
    deviation, douglas_peucker, farthest, is_candidate, lemma_douglas_peucker_ends,
    lemma_retained_begins, radial_distance, retained, split_index, squared, squared_distance,
};
use crate::arithmetic::Table;
use crate::number::{rank, spec_at_least, spec_at_most, spec_greater, spec_less, ZERO};
use crate::point::{same_position, Point};
use crate::simplified;

verus! {

/// Whether the point at index `i` can be taken for the farthest: it is a
/// candidate, and its deviation is a number that is not below zero.
pub open spec fn is_eligible(f: Table, points: Seq<Point>, i: int) -> bool {
    is_candidate(points, i) && spec_at_least(deviation(f, points, i), ZERO)
}

/// The farthest candidate below index `k` is the last of those, among the
/// eligible ones, whose deviation none of them exceeds; where none is
/// eligible, none is found.
pub proof fn law_farthest_is_last_of_largest(f: Table, points: Seq<Point>, k: int)
    ensures
        spec_at_least(farthest(f, points, k).0, ZERO),
        farthest(f, points, k).1 == 0 ==> {
            &&& farthest(f, points, k).0 == ZERO
            &&& forall|i: int| 0 < i < k ==> !is_eligible(f, points, i)
        },
        farthest(f, points, k).1 != 0 ==> {
            &&& 0 < farthest(f, points, k).1 < k
            &&& is_eligible(f, points, farthest(f, points, k).1)
            &&& farthest(f, points, k).0 == deviation(f, points, farthest(f, points, k).1)
            &&& forall|i: int|
                0 < i < k && is_eligible(f, points, i) ==> {
                    ||| rank(deviation(f, points, i)) < rank(farthest(f, points, k).0)
                    ||| (rank(deviation(f, points, i)) == rank(farthest(f, points, k).0) && i
                        <= farthest(f, points, k).1)
                }
        },
    decreases k,
{
    if k > 1 {
        law_farthest_is_last_of_largest(f, points, k - 1);
    }
}

/// At a tolerance that is not below zero, a sequence of two points or more is
/// split exactly when the largest deviation found is above the tolerance:
/// such a deviation was found at a candidate.
pub proof fn law_split_follows_largest_deviation(f: Table, points: Seq<Point>, tolerance: u64)
    requires
        points.len() >= 2,
        !spec_less(tolerance, ZERO),
    ensures
        split_index(f, points, tolerance).is_some() <==> spec_greater(
            farthest(f, points, points.len() - 1).0,
            tolerance,
        ),
{
    law_farthest_is_last_of_largest(f, points, points.len() - 1);
}

/// Each pass, and the whole simplification, leaves a sequence of up to one
/// point as it is, at every tolerance.
pub proof fn law_up_to_one_point_is_unchanged(
    f: Table,
    points: Seq<Point>,
    tolerance: u64,
    high_quality: bool,
)
    requires
        points.len() <= 1,
    ensures
        radial_distance(f, points, tolerance) == points,
        douglas_peucker(f, points, tolerance) == points,
        simplified(f, points, tolerance, high_quality) == points,
{
}

/// The Douglas-Peucker simplification, and the whole simplification, leave a
/// sequence of two points as it is, at every tolerance. The radial-distance
/// pass leaves it as it is unless it drops the second point for being too
/// near and finds it at the position of the first, or retains the second
/// point and finds it at no position at all.
pub proof fn law_two_points_are_unchanged(
    f: Table,
    points: Seq<Point>,
    tolerance: u64,
    high_quality: bool,
)
    requires
        points.len() == 2,
    ensures
        douglas_peucker(f, points, tolerance) == points,
        simplified(f, points, tolerance, high_quality) == points,
        radial_distance(f, points, tolerance) == points <==> (if spec_less(
            squared_distance(f, points[1], points[0]),
            tolerance,
        ) {
            !same_position(points[1], points[0])
        } else {
            same_position(points[1], points[1])
        }),
{
    assert(farthest(f, points, 1) == (ZERO, 0int));
    assert(seq![points[0], points[1]] =~= points);
    let first = retained(f, points, tolerance, 1);
    assert(first =~= seq![points[0]]);
    let kept = retained(f, points, tolerance, 2);
    if spec_less(squared_distance(f, points[1], points[0]), tolerance) {
        assert(kept == first);
        if !same_position(points[1], points[0]) {
            assert(first.push(points[1]) =~= points);
        } else {
            assert(radial_distance(f, points, tolerance).len() == 1);
        }
    } else {
        assert(kept =~= points);
        if !same_position(points[1], points[1]) {
            assert(radial_distance(f, points, tolerance).len() == 3);
        }
    }
}

/// The radial-distance simplification of a sequence that is not empty is not
/// empty. It begins with the first point, and ends with the last point or
/// with one at its position.
pub proof fn law_radial_distance_keeps_ends(f: Table, points: Seq<Point>, tolerance: u64)
    requires
        points.len() > 0,
    ensures
        radial_distance(f, points, tolerance).len() > 0,
        radial_distance(f, points, tolerance)[0] == points[0],
        radial_distance(f, points, tolerance).last() == points.last() || same_position(
            points.last(),
            radial_distance(f, points, tolerance).last(),
        ),
{
    lemma_retained_begins(f, points, tolerance, points.len() as int);
}

/// The Douglas-Peucker simplification of a sequence that is not empty is not
/// empty, and begins and ends with the very points that the sequence begins
/// and ends with.
pub proof fn law_douglas_peucker_keeps_ends(f: Table, points: Seq<Point>, tolerance: u64)
    requires
        points.len() > 0,
    ensures
        douglas_peucker(f, points, tolerance).len() > 0,
        douglas_peucker(f, points, tolerance)[0] == points[0],
        douglas_peucker(f, points, tolerance).last() == points.last(),
{
    if points.len() >= 2 {
        lemma_douglas_peucker_ends(f, points, tolerance);
    }
}

/// The simplification of a sequence that is not empty is not empty. It
/// begins with the first point, and ends with the last point or with one at
/// its position.
pub proof fn law_ends_are_preserved(
    f: Table,
    points: Seq<Point>,
    tolerance: u64,
    high_quality: bool,
)
    requires
        points.len() > 0,
    ensures
        simplified(f, points, tolerance, high_quality).len() > 0,
        simplified(f, points, tolerance, high_quality)[0] == points[0],
        simplified(f, points, tolerance, high_quality).last() == points.last() || same_position(
            points.last(),
            simplified(f, points, tolerance, high_quality).last(),
        ),
{
    if points.len() > 2 {
        let t = squared(f, tolerance);
        if high_quality {
            law_douglas_peucker_keeps_ends(f, points, t);
        } else {
            law_radial_distance_keeps_ends(f, points, t);
            law_douglas_peucker_keeps_ends(f, radial_distance(f, points, t), t);
        }
    }
}

/// The points retained of the first `k` points are at most `k`.
proof fn lemma_retained_is_no_longer(f: Table, points: Seq<Point>, tolerance: u64, k: int)
    requires
        k >= 1,
    ensures
        retained(f, points, tolerance, k).len() <= k,
        retained(f, points, tolerance, k).len() == k ==> retained(f, points, tolerance, k).last()
            == points[k - 1],
    decreases k,
{
    if k > 1 {
        lemma_retained_is_no_longer(f, points, tolerance, k - 1);
    }
}

/// The radial-distance simplification has at most one point more than its
/// input, and no more points than its input where the last point of the
/// input has a position, that is, no NaN among its coordinates.
pub proof fn law_radial_distance_is_no_longer(f: Table, points: Seq<Point>, tolerance: u64)
    ensures
        radial_distance(f, points, tolerance).len() <= points.len() + 1,
        points.len() > 0 && same_position(points.last(), points.last()) ==> radial_distance(
            f,
            points,
            tolerance,
        ).len() <= points.len(),
{
    if points.len() >= 2 {
        lemma_retained_is_no_longer(f, points, tolerance, points.len() as int);
    }
}

/// The Douglas-Peucker simplification has no more points than its input.
pub proof fn law_douglas_peucker_is_no_longer(f: Table, points: Seq<Point>, tolerance: u64)
    ensures
        douglas_peucker(f, points, tolerance).len() <= points.len(),
    decreases points.len(),
{
    if points.len() >= 2 {
        match split_index(f, points, tolerance) {
            Some(i) => {
                let left = points.subrange(0, i + 1);
                let right = points.subrange(i, points.len() as int);
                law_douglas_peucker_is_no_longer(f, left, tolerance);
                law_douglas_peucker_is_no_longer(f, right, tolerance);
                lemma_douglas_peucker_ends(f, left, tolerance);
            },
            None => {},
        }
    }
}

/// The simplification has no more points than its input, where the last
/// point of the input has a position.
pub proof fn law_simplified_is_no_longer(
    f: Table,
    points: Seq<Point>,
    tolerance: u64,
    high_quality: bool,
)
    requires
        points.len() > 0,
        same_position(points.last(), points.last()),
    ensures
        simplified(f, points, tolerance, high_quality).len() <= points.len(),
{
    let t = squared(f, tolerance);
    law_douglas_peucker_is_no_longer(f, points, t);
    law_radial_distance_is_no_longer(f, points, t);
    law_douglas_peucker_is_no_longer(f, radial_distance(f, points, t), t);
}

/// A larger tolerance gives the Douglas-Peucker simplification no more
/// points.
pub proof fn law_douglas_peucker_is_monotone(
    f: Table,
    points: Seq<Point>,
    smaller: u64,
    larger: u64,
)
    requires
        spec_at_most(smaller, larger),
    ensures
        douglas_peucker(f, points, larger).len() <= douglas_peucker(f, points, smaller).len(),
    decreases points.len(),
{
    if points.len() >= 2 {
        lemma_douglas_peucker_ends(f, points, smaller);
        match split_index(f, points, larger) {
            Some(i) => {
                assert(split_index(f, points, smaller) == Some(i));
                let left = points.subrange(0, i + 1);
                let right = points.subrange(i, points.len() as int);
                law_douglas_peucker_is_monotone(f, left, smaller, larger);
                law_douglas_peucker_is_monotone(f, right, smaller, larger);
                lemma_douglas_peucker_ends(f, left, larger);
                lemma_douglas_peucker_ends(f, left, smaller);
            },
            None => {},
        }
    }
}

/// A tolerance with a larger square gives the simplification no more points,
/// in high quality and on up to two points. (After a radial-distance pass it
/// can give more: the pass at the larger tolerance may retain a point that
/// lies farther from the chord than any that the pass at the smaller one
/// retains.)
pub proof fn law_simplified_is_monotone(
    f: Table,
    points: Seq<Point>,
    smaller: u64,
    larger: u64,
    high_quality: bool,
)
    requires
        spec_at_most(squared(f, smaller), squared(f, larger)),
        high_quality || points.len() <= 2,
    ensures
        simplified(f, points, larger, high_quality).len() <= simplified(
            f,
            points,
            smaller,
            high_quality,
        ).len(),
{
    law_douglas_peucker_is_monotone(f, points, squared(f, smaller), squared(f, larger));
}

/// The places in `points` of the points of its Douglas-Peucker
/// simplification: they rise from the first index to the last, and where
/// `points` is split, the index of the split is at the place where the two
/// simplified parts meet.
proof fn lemma_places(f: Table, points: Seq<Point>, tolerance: u64) -> (at: Seq<int>)
    requires
        points.len() >= 2,
    ensures
        at.len() == douglas_peucker(f, points, tolerance).len(),
        at[0] == 0,
        at[at.len() - 1] == points.len() - 1,
        forall|j: int|
            0 <= j < at.len() ==> 0 <= #[trigger] at[j] < points.len() && douglas_peucker(
                f,
                points,
                tolerance,
            )[j] == points[at[j]],
        forall|i: int, j: int| 0 <= i < j < at.len() ==> #[trigger] at[i] < #[trigger] at[j],
        match split_index(f, points, tolerance) {
            Some(s) => at[douglas_peucker(f, points.subrange(0, s + 1), tolerance).len() - 1]
                == s,
            None => true,
        },
    decreases points.len(),
{
    let n = points.len() as int;
    match split_index(f, points, tolerance) {
        Some(s) => {
            let left = points.subrange(0, s + 1);
            let right = points.subrange(s, n);
            let at_left = lemma_places(f, left, tolerance);
            let at_right = lemma_places(f, right, tolerance);
            lemma_douglas_peucker_ends(f, left, tolerance);
            lemma_douglas_peucker_ends(f, right, tolerance);
            let simple_left = douglas_peucker(f, left, tolerance);
            let simple_right = douglas_peucker(f, right, tolerance);
            let whole = douglas_peucker(f, points, tolerance);
            let m = simple_left.len() - 1;
            let at = Seq::new(
                whole.len(),
                |j: int|
                    if j < m {
                        at_left[j]
                    } else {
                        at_right[j - m] + s
                    },
            );
            assert forall|j: int| 0 <= j < at.len() implies 0 <= #[trigger] at[j] < points.len()
                && whole[j] == points[at[j]] by {
                if j < m {
                    assert(whole[j] == simple_left[j]);
                    assert(left[at_left[j]] == points[at_left[j]]);
                } else {
                    assert(whole[j] == simple_right[j - m]);
                    assert(right[at_right[j - m]] == points[at_right[j - m] + s]);
                }
            }
            assert forall|i: int, j: int| 0 <= i < j < at.len() implies #[trigger] at[i]
                < #[trigger] at[j] by {
                if j < m {
                    assert(at_left[i] < at_left[j]);
                } else if i >= m {
                    assert(at_right[i - m] < at_right[j - m]);
                } else {
                    assert(at_left[i] < at_left[m]);
                    assert(0 <= at_right[j - m]);
                }
            }
            at
        },
        None => seq![0int, n - 1],
    }
}

/// Whether `out` is drawn from `points` at the indices `at`: each point of
/// `out` is the point of `points` at its index, and the indices never fall.
pub open spec fn is_drawn_from(out: Seq<Point>, points: Seq<Point>, at: Seq<int>) -> bool {
    &&& at.len() == out.len()
    &&& forall|j: int|
        0 <= j < at.len() ==> 0 <= #[trigger] at[j] < points.len() && out[j] == points[at[j]]
    &&& forall|i: int, j: int| 0 <= i <= j < at.len() ==> #[trigger] at[i] <= #[trigger] at[j]
}

/// Whether the indices `at` rise from each to the next.
pub open spec fn is_rising(at: Seq<int>) -> bool {
    forall|i: int, j: int| 0 <= i < j < at.len() ==> #[trigger] at[i] < #[trigger] at[j]
}

/// The Douglas-Peucker simplification is drawn from its input, each point
/// from a later index than the one before.
pub proof fn law_douglas_peucker_is_drawn_from_input(
    f: Table,
    points: Seq<Point>,
    tolerance: u64,
)
    ensures
        exists|at: Seq<int>| #[trigger]
            is_drawn_from(douglas_peucker(f, points, tolerance), points, at) && is_rising(at),
{
    if points.len() >= 2 {
        let at = lemma_places(f, points, tolerance);
        assert(is_drawn_from(douglas_peucker(f, points, tolerance), points, at));
    } else {
        let at = Seq::new(points.len(), |j: int| j);
        assert(is_drawn_from(douglas_peucker(f, points, tolerance), points, at));
    }
}

/// The places in `points` of the points retained of its first `k` points:
/// they rise from the first index and stay below `k`.
proof fn lemma_retained_places(f: Table, points: Seq<Point>, tolerance: u64, k: int) -> (at: Seq<
    int,
>)
    requires
        1 <= k <= points.len(),
    ensures
        is_drawn_from(retained(f, points, tolerance, k), points, at),
        is_rising(at),
        forall|j: int| 0 <= j < at.len() ==> #[trigger] at[j] < k,
    decreases k,
{
    if k <= 1 {
        seq![0int]
    } else {
        let before = lemma_retained_places(f, points, tolerance, k - 1);
        if retained(f, points, tolerance, k) == retained(f, points, tolerance, k - 1) {
            before
        } else {
            before.push(k - 1)
        }
    }
}

/// The radial-distance simplification is drawn from its input, in the order
/// of the input.
pub proof fn law_radial_distance_is_drawn_from_input(
    f: Table,
    points: Seq<Point>,
    tolerance: u64,
)
    ensures
        exists|at: Seq<int>| #[trigger]
            is_drawn_from(radial_distance(f, points, tolerance), points, at),
{
    let at = lemma_radial_places(f, points, tolerance);
}

/// The places in `points` of the points of its radial-distance
/// simplification.
proof fn lemma_radial_places(f: Table, points: Seq<Point>, tolerance: u64) -> (at: Seq<int>)
    ensures
        is_drawn_from(radial_distance(f, points, tolerance), points, at),
{
    let n = points.len() as int;
    if n >= 2 {
        let kept = lemma_retained_places(f, points, tolerance, n);
        if radial_distance(f, points, tolerance) == retained(f, points, tolerance, n) {
            kept
        } else {
            kept.push(n - 1)
        }
    } else {
        Seq::new(points.len(), |j: int| j)
    }
}

/// The simplification is drawn from its input, in the order of the input.
pub proof fn law_simplified_is_drawn_from_input(
    f: Table,
    points: Seq<Point>,
    tolerance: u64,
    high_quality: bool,
)
    ensures
        exists|at: Seq<int>| #[trigger]
            is_drawn_from(simplified(f, points, tolerance, high_quality), points, at),
{
    let t = squared(f, tolerance);
    let out = simplified(f, points, tolerance, high_quality);
    if points.len() <= 2 {
        let at = Seq::new(points.len(), |j: int| j);
        assert(is_drawn_from(out, points, at));
    } else if high_quality {
        law_douglas_peucker_is_drawn_from_input(f, points, t);
    } else {
        let thinned = radial_distance(f, points, t);
        let first = lemma_radial_places(f, points, t);
        if thinned.len() >= 2 {
            let second = lemma_places(f, thinned, t);
            let at = Seq::new(out.len(), |j: int| first[second[j]]);
            assert forall|i: int, j: int| 0 <= i <= j < at.len() implies #[trigger] at[i]
                <= #[trigger] at[j] by {
                if i < j {
                    assert(second[i] < second[j]);
                }
            }
            assert(is_drawn_from(out, points, at));
        } else {
            assert(is_drawn_from(out, points, first));
        }
    }
}

/// Where `points` is split, its simplification is split at the place where
/// its two simplified parts meet.
proof fn lemma_split_survives(f: Table, points: Seq<Point>, tolerance: u64)
    requires
        points.len() >= 2,
        split_index(f, points, tolerance).is_some(),
    ensures
        split_index(f, douglas_peucker(f, points, tolerance), tolerance) == Some(
            douglas_peucker(
                f,
                points.subrange(0, split_index(f, points, tolerance).unwrap() + 1),
                tolerance,
            ).len() - 1,
        ),
{
    let n = points.len() as int;
    let s = split_index(f, points, tolerance).unwrap();
    let left = points.subrange(0, s + 1);
    let right = points.subrange(s, n);
    let whole = douglas_peucker(f, points, tolerance);
    let m = douglas_peucker(f, left, tolerance).len() - 1;
    let at = lemma_places(f, points, tolerance);
    lemma_douglas_peucker_ends(f, points, tolerance);
    lemma_douglas_peucker_ends(f, left, tolerance);
    lemma_douglas_peucker_ends(f, right, tolerance);
    law_farthest_is_last_of_largest(f, points, n - 1);
    law_farthest_is_last_of_largest(f, whole, whole.len() - 1);
    assert forall|j: int| 0 < j < whole.len() - 1 implies (is_eligible(f, whole, j)
        <==> is_eligible(f, points, at[j])) && deviation(f, whole, j) == deviation(
        f,
        points,
        at[j],
    ) && 0 < at[j] < n - 1 by {
        assert(at[0] < at[j]);
        assert(at[j] < at[whole.len() - 1]);
        assert(whole[j] == points[at[j]]);
    }
    let found = farthest(f, whole, whole.len() - 1);
    assert(0 < m < whole.len() - 1);
    assert(is_eligible(f, whole, m));
    assert(found.1 != 0);
    assert(is_eligible(f, points, at[found.1]));
    if found.1 < m {
        assert(at[found.1] < at[m]);
    }
    if m < found.1 {
        assert(at[m] < at[found.1]);
    }
}

/// The Douglas-Peucker simplification of a Douglas-Peucker simplification, at
/// the same tolerance, is that simplification.
pub proof fn law_douglas_peucker_is_idempotent(f: Table, points: Seq<Point>, tolerance: u64)
    ensures
        douglas_peucker(f, douglas_peucker(f, points, tolerance), tolerance) == douglas_peucker(
            f,
            points,
            tolerance,
        ),
    decreases points.len(),
{
    let n = points.len() as int;
    let whole = douglas_peucker(f, points, tolerance);
    if n >= 2 {
        match split_index(f, points, tolerance) {
            Some(s) => {
                let left = points.subrange(0, s + 1);
                let right = points.subrange(s, n);
                let simple_left = douglas_peucker(f, left, tolerance);
                let simple_right = douglas_peucker(f, right, tolerance);
                let m = simple_left.len() - 1;
                lemma_split_survives(f, points, tolerance);
                lemma_douglas_peucker_ends(f, left, tolerance);
                lemma_douglas_peucker_ends(f, right, tolerance);
                law_douglas_peucker_is_idempotent(f, left, tolerance);
                law_douglas_peucker_is_idempotent(f, right, tolerance);
                assert(whole.subrange(0, m + 1) =~= simple_left);
                assert(whole.subrange(m, whole.len() as int) =~= simple_right);
            },
            None => {
                assert(farthest(f, whole, 1) == (ZERO, 0int));
                assert(seq![whole[0], whole[1]] =~= whole);
            },
        }
    }
}

} // verus!
