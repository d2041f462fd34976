//! Locating the knot interval that contains a query point.

use vstd::prelude::*;

use crate::scalar::Scalar;
use crate::scalar::lemma_increasing_pairwise;
use crate::scalar::strictly_increasing;

verus! {

/// What the interval search returns for `point` against `knots`: `0` below the
/// first knot, `knots.len()` at or above the last knot, and otherwise the
/// unique interval index `r` with `knots[r - 1] <= point < knots[r]`,
/// phrased through the strict order alone.
pub open spec fn locates<T: Scalar>(knots: Seq<T>, point: T, r: int) -> bool {
    if point.lt_spec(knots[0]) {
        r == 0
    } else if !point.lt_spec(knots[knots.len() - 1]) {
        r == knots.len()
    } else {
        &&& 1 <= r < knots.len()
        &&& !point.lt_spec(knots[r - 1])
        &&& point.lt_spec(knots[r])
    }
}

/// Returns the index of the knot interval containing `point`.
///
/// `knot_guess` is a hint: the search first probes the intervals around it and
/// only then falls back to bisection. The contract does not mention the hint,
/// and `lemma_interval_unique` shows that on strictly increasing knots the
/// returned index is fully determined by `knots` and `point` alone, so the
/// hint can only affect speed, never the result.
pub fn find_knot_interval<T: Scalar>(knots: &Vec<T>, point: T, knot_guess: usize) -> (r: usize)
    requires
        knots@.len() >= 1,
    ensures
        locates(knots@, point, r as int),
{
    if point.lt(knots[0]) {
        return 0;
    }
    let num_knots = knots.len();
    if point.ge(knots[num_knots - 1]) {
        return num_knots;
    }
    // Neither boundary case applies, which rules out a single knot.
    assert(num_knots >= 2);

    let mut knot_interval = if knot_guess > 1 {
        knot_guess
    } else {
        1
    };
    if knot_interval >= num_knots {
        knot_interval = num_knots - 1;
    }

    let mut lower_index: usize;
    let mut upper_index: usize;
    // The point often lies in an interval adjoining the hinted one.
    if point.ge(knots[knot_interval - 1]) {
        if point.lt(knots[knot_interval]) {
            return knot_interval;
        } else {
            assert(knot_interval != num_knots - 1);
            knot_interval = knot_interval + 1;
            if point.lt(knots[knot_interval]) {
                return knot_interval;
            }
            assert(knot_interval != num_knots - 1);
            lower_index = knot_interval + 1;
            upper_index = num_knots;
        }
    } else {
        assert(knot_interval != 1);
        knot_interval = knot_interval - 1;
        if point.ge(knots[knot_interval - 1]) {
            return knot_interval;
        } else {
            assert(knot_interval != 1);
            lower_index = 1;
            upper_index = knot_interval;
        }
    }

    // Bisection over the remaining range.
    loop
        invariant
            1 <= lower_index < upper_index <= num_knots,
            num_knots == knots@.len(),
            !point.lt_spec(knots@[0]),
            point.lt_spec(knots@[num_knots - 1]),
            !point.lt_spec(knots@[lower_index - 1]),
            point.lt_spec(knots@[upper_index - 1]),
        decreases upper_index - lower_index,
    {
        knot_interval = lower_index + (upper_index - lower_index) / 2;
        if upper_index - lower_index <= 1 {
            return knot_interval;
        }
        if point.lt(knots[knot_interval - 1]) {
            upper_index = knot_interval;
        } else {
            lower_index = knot_interval;
        }
    }
}

/// On strictly increasing knots the located interval is unique: any two
/// indices that satisfy the search's contract for the same point are equal.
/// In particular two searches with different hints return the same index.
pub proof fn lemma_interval_unique<T: Scalar>(knots: Seq<T>, point: T, r1: int, r2: int)
    requires
        knots.len() >= 1,
        strictly_increasing(knots),
        locates(knots, point, r1),
        locates(knots, point, r2),
    ensures
        r1 == r2,
{
    if !point.lt_spec(knots[0]) && point.lt_spec(knots[knots.len() - 1]) {
        // If the two interior indices differed, the point would lie both
        // strictly below and not below the same knot.
        if r1 < r2 && r1 < r2 - 1 {
            lemma_increasing_pairwise(knots, r1, r2 - 1);
            T::lt_transitive(point, knots[r1], knots[r2 - 1]);
        }
        if r2 < r1 && r2 < r1 - 1 {
            lemma_increasing_pairwise(knots, r2, r1 - 1);
            T::lt_transitive(point, knots[r2], knots[r1 - 1]);
        }
    }
}

} // verus!
