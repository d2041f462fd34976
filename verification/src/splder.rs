//! Evaluation of a fitted spline, or one of its derivatives, at a point.

use vstd::prelude::*;

use crate::filled_vec;
use crate::scalar::Scalar;
use crate::scalar::strictly_increasing;
use crate::search::find_knot_interval;
use crate::search::lemma_interval_unique;
use crate::search::locates;

verus! {

/// The knot interval of the query point: on strictly increasing knots the
/// unique index satisfying the interval search's contract.
pub open spec fn located_interval<T: Scalar>(knots: Seq<T>, point: T) -> int {
    choose|r: int| locates(knots, point, r)
}

/// Position `p` of the evaluation window before any differencing: the
/// coefficient the window covers, or zero where the window runs past either
/// boundary.
pub open spec fn coefficient_window<T: Scalar>(
    coefficients: Seq<T>,
    m: int,
    interval: int,
    p: int,
) -> T {
    if interval + p >= m && interval + p - m < coefficients.len() {
        coefficients[interval + p - m]
    } else {
        T::from_count_spec(0)
    }
}

/// Position `p` of the window after `rounds` rounds of divided differences of
/// the coefficients; windows running past the left edge are completed by
/// negating the previous difference instead of dividing by a knot gap.
pub open spec fn differenced_window<T: Scalar>(
    knots: Seq<T>,
    coefficients: Seq<T>,
    m: int,
    interval: int,
    rounds: int,
    p: int,
) -> T
    decreases rounds,
{
    let n = knots.len() as int;
    if rounds <= 0 {
        coefficient_window(coefficients, m, interval, p)
    } else {
        let prev_here = differenced_window(knots, coefficients, m, interval, rounds - 1, p);
        let prev_left = differenced_window(knots, coefficients, m, interval, rounds - 1, p - 1);
        let idx = p + interval + 1 - 2 * m;
        if (if interval + 1 + rounds > 2 * m {
            interval + 1 + rounds - 2 * m
        } else {
            1int
        }) <= idx && idx <= (if interval < n - 2 * m + rounds {
            interval as int
        } else {
            n - 2 * m + rounds
        }) {
            prev_here.sub_spec(prev_left).div_spec(
                knots[idx + 2 * m - rounds - 1].sub_spec(knots[idx - 1]),
            )
        } else if interval + rounds < 2 * m && rounds <= p <= 2 * m - interval - 1 {
            T::from_count_spec(1).neg_spec().mul_spec(prev_left)
        } else {
            prev_here
        }
    }
}

/// Position `p` of the window after the triangular blossoming has processed
/// rows up to `row`: each row folds the window positions from the top down,
/// choosing the right-hand, middle, or left-hand spline rule by where the
/// window stands relative to the boundaries.
pub open spec fn blossomed_window<T: Scalar>(
    knots: Seq<T>,
    coefficients: Seq<T>,
    m: int,
    derivative_order: int,
    point: T,
    interval: int,
    row: int,
    p: int,
) -> T
    decreases row,
{
    let n = knots.len() as int;
    let q = 2 * m - derivative_order;
    if row <= 0 {
        differenced_window(knots, coefficients, m, interval, derivative_order,
            p + derivative_order)
    } else if p < row || p > q - 1 {
        blossomed_window(knots, coefficients, m, derivative_order, point, interval, row - 1, p)
    } else {
        let prev_here = blossomed_window(
            knots,
            coefficients,
            m,
            derivative_order,
            point,
            interval,
            row - 1,
            p,
        );
        let prev_left = blossomed_window(
            knots,
            coefficients,
            m,
            derivative_order,
            point,
            interval,
            row - 1,
            p - 1,
        );
        let ki = p + interval + 1 - q;
        if ki > n - q + row {
            // Right-hand splines.
            prev_left.add_spec(point.sub_spec(knots[ki - 1]).mul_spec(prev_here))
        } else if ki >= 1 {
            // Middle splines.
            let y = knots[ki + q - row - 1];
            prev_here.add_spec(
                y.sub_spec(point).mul_spec(prev_left.sub_spec(prev_here)).div_spec(
                    y.sub_spec(knots[ki - 1]),
                ),
            )
        } else {
            // Left-hand splines.
            prev_here.add_spec(knots[p + interval - row].sub_spec(point).mul_spec(prev_left))
        }
    }
}

/// `x` multiplied, in ascending order, by the counts `lo` through `hi`.
pub open spec fn factorial_scaled<T: Scalar>(x: T, lo: int, hi: int) -> T
    decreases hi - lo + 1,
{
    if hi < lo {
        x
    } else {
        factorial_scaled(x, lo, hi - 1).mul_spec(T::from_count_spec(hi as u64))
    }
}

/// The value of the `derivative_order`-th derivative of the spline at
/// `point`: the fully differenced and blossomed window entry, scaled by the
/// falling factorial of the exhausted orders. A pure function of the order,
/// the point, the knots, and the coefficients — in particular independent of
/// any interval hint.
pub open spec fn derivative_value<T: Scalar>(
    derivative_order: int,
    half_order: int,
    point: T,
    knots: Seq<T>,
    coefficients: Seq<T>,
) -> T {
    let q = 2 * half_order - derivative_order;
    let interval = located_interval(knots, point);
    let core = blossomed_window(
        knots,
        coefficients,
        half_order,
        derivative_order,
        point,
        interval,
        q - 1,
        q - 1,
    );
    if derivative_order > 0 {
        factorial_scaled(core, q, 2 * half_order - 1)
    } else {
        core
    }
}

/// Builds the evaluation window: the local coefficients around the interval,
/// zero-padded past either boundary.
#[verifier::loop_isolation(false)]
fn initial_window<T: Scalar>(
    coefficients: &Vec<T>,
    half_order: usize,
    num_knots: usize,
    knot_interval: usize,
) -> (w: Vec<T>)
    requires
        half_order >= 1,
        num_knots >= 2 * half_order,
        coefficients@.len() == num_knots,
        knot_interval <= num_knots,
        num_knots + 2 * half_order <= usize::MAX,
    ensures
        w@.len() == 2 * half_order,
        forall|p: int|
            0 <= p < 2 * half_order ==> w@[p] == coefficient_window(
                coefficients@,
                half_order as int,
                knot_interval as int,
                p,
            ),
{
    let mut tableau = filled_vec(T::from_count(0), 2 * half_order);
    let mut window: usize = 0;
    while window < 2 * half_order
        invariant
            window <= 2 * half_order,
            tableau@.len() == 2 * half_order,
            forall|p: int|
                0 <= p < window ==> tableau@[p] == coefficient_window(
                    coefficients@,
                    half_order as int,
                    knot_interval as int,
                    p,
                ),
        decreases 2 * half_order - window,
    {
        let position = knot_interval + 1 + window;
        if position >= half_order + 1 && position <= num_knots + half_order {
            tableau.set(window, coefficients[position - half_order - 1]);
        } else {
            tableau.set(window, T::from_count(0));
        }
        window = window + 1;
    }
    tableau
}

/// Applies one round of divided differences to the window: the interior
/// positions become difference quotients over the knot gaps, and positions
/// past the left edge become the negated previous difference.
#[verifier::loop_isolation(false)]
#[verifier::rlimit(100)]
fn difference_round<T: Scalar>(
    tableau: &mut Vec<T>,
    knots: &Vec<T>,
    half_order: usize,
    knot_interval: usize,
    der_index: usize,
    Ghost(coefficients_view): Ghost<Seq<T>>,
)
    requires
        half_order >= 1,
        knots@.len() >= 2 * half_order,
        knot_interval <= knots@.len(),
        knots@.len() + 2 * half_order <= usize::MAX,
        1 <= der_index < 2 * half_order,
        old(tableau)@.len() == 2 * half_order,
        forall|p: int|
            0 <= p < 2 * half_order ==> old(tableau)@[p] == differenced_window(
                knots@,
                coefficients_view,
                half_order as int,
                knot_interval as int,
                der_index - 1,
                p,
            ),
    ensures
        final(tableau)@.len() == 2 * half_order,
        forall|p: int|
            0 <= p < 2 * half_order ==> final(tableau)@[p] == differenced_window(
                knots@,
                coefficients_view,
                half_order as int,
                knot_interval as int,
                der_index as int,
                p,
            ),
{
    let num_knots = knots.len();
    let inner_index = num_knots - 2 * half_order + der_index;
    let idx_1 = if knot_interval + 1 + der_index > 2 * half_order {
        knot_interval + 1 + der_index - 2 * half_order
    } else {
        1
    };
    let idx_2 = if knot_interval < inner_index {
        knot_interval
    } else {
        inner_index
    };
    let mut idx = idx_2 + 1;
    if idx_1 <= idx_2 {
        let mut count = idx_1;
        while count <= idx_2
            invariant
                idx_1 <= count <= idx_2 + 1,
                idx == idx_2 + 1 - (count - idx_1),
                tableau@.len() == 2 * half_order,
                forall|p: int|
                    0 <= p < 2 * half_order ==> tableau@[p] == (if p >= 2 * half_order + idx
                        - knot_interval - 1 {
                        differenced_window(
                            knots@,
                            coefficients_view,
                            half_order as int,
                            knot_interval as int,
                            der_index as int,
                            p,
                        )
                    } else {
                        differenced_window(
                            knots@,
                            coefficients_view,
                            half_order as int,
                            knot_interval as int,
                            der_index - 1,
                            p,
                        )
                    }),
            decreases idx_2 + 1 - count,
        {
            idx = idx - 1;
            let work_idx = 2 * half_order + idx - knot_interval;
            tableau.set(
                work_idx - 1,
                tableau[work_idx - 1].sub(tableau[work_idx - 2]).div(
                    knots[idx + 2 * half_order - der_index - 1].sub(knots[idx - 1]),
                ),
            );
            count = count + 1;
        }
    }
    if knot_interval + der_index < 2 * half_order {
        let index_bound = 2 * half_order - knot_interval;
        let mut idx = index_bound + 1;
        if der_index + 1 <= index_bound {
            let mut count = der_index + 1;
            while count <= index_bound
                invariant
                    der_index + 1 <= count <= index_bound + 1,
                    idx == index_bound + 1 - (count - der_index - 1),
                    tableau@.len() == 2 * half_order,
                    forall|p: int|
                        0 <= p < 2 * half_order ==> tableau@[p] == (if p >= idx - 1 {
                            differenced_window(
                                knots@,
                                coefficients_view,
                                half_order as int,
                                knot_interval as int,
                                der_index as int,
                                p,
                            )
                        } else {
                            differenced_window(
                                knots@,
                                coefficients_view,
                                half_order as int,
                                knot_interval as int,
                                der_index - 1,
                                p,
                            )
                        }),
                decreases index_bound + 1 - count,
            {
                idx = idx - 1;
                tableau.set(idx - 1, T::from_count(1).neg().mul(tableau[idx - 2]));
                count = count + 1;
            }
        }
    }
    assert forall|p: int| 0 <= p < 2 * half_order implies tableau@[p] == differenced_window(
        knots@,
        coefficients_view,
        half_order as int,
        knot_interval as int,
        der_index as int,
        p,
    ) by {}
}

/// Folds one blossoming row over the window: the positions from the top of
/// the window down to the row's floor, each combined with its left neighbour
/// by the right-hand, middle, or left-hand spline rule.
#[verifier::loop_isolation(false)]
#[verifier::rlimit(100)]
fn blossom_row<T: Scalar>(
    tableau: &mut Vec<T>,
    knots: &Vec<T>,
    point: T,
    half_order: usize,
    derivative_order: usize,
    knot_interval: usize,
    row: usize,
    Ghost(coefficients_view): Ghost<Seq<T>>,
)
    requires
        half_order >= 1,
        knots@.len() >= 2 * half_order,
        knot_interval <= knots@.len(),
        knots@.len() + 2 * half_order <= usize::MAX,
        derivative_order < 2 * half_order,
        1 <= row <= 2 * half_order - derivative_order - 1,
        old(tableau)@.len() == 2 * half_order,
        forall|p: int|
            0 <= p < 2 * half_order - derivative_order ==> old(tableau)@[p] == blossomed_window(
                knots@,
                coefficients_view,
                half_order as int,
                derivative_order as int,
                point,
                knot_interval as int,
                row - 1,
                p,
            ),
    ensures
        final(tableau)@.len() == 2 * half_order,
        forall|p: int|
            0 <= p < 2 * half_order - derivative_order ==> final(tableau)@[p] == blossomed_window(
                knots@,
                coefficients_view,
                half_order as int,
                derivative_order as int,
                point,
                knot_interval as int,
                row as int,
                p,
            ),
{
    let num_knots = knots.len();
    let order = 2 * half_order - derivative_order;
    let order_idx = num_knots - order + row;
    let mut working_idx = order;
    let mut knot_idx = knot_interval;

    // Right-hand splines.
    if knot_interval >= order_idx + 1 {
        let mut count = order_idx + 1;
        while count <= knot_interval
            invariant
                order_idx + 1 <= count <= knot_interval + 1,
                working_idx == order - (count - order_idx - 1),
                knot_idx == knot_interval - (count - order_idx - 1),
                tableau@.len() == 2 * half_order,
                forall|p: int|
                    0 <= p < order ==> tableau@[p] == (if p >= working_idx {
                        blossomed_window(
                            knots@,
                            coefficients_view,
                            half_order as int,
                            derivative_order as int,
                            point,
                            knot_interval as int,
                            row as int,
                            p,
                        )
                    } else {
                        blossomed_window(
                            knots@,
                            coefficients_view,
                            half_order as int,
                            derivative_order as int,
                            point,
                            knot_interval as int,
                            row - 1,
                            p,
                        )
                    }),
            decreases knot_interval + 1 - count,
        {
            tableau.set(
                working_idx - 1,
                tableau[working_idx - 2].add(
                    point.sub(knots[knot_idx - 1]).mul(tableau[working_idx - 1]),
                ),
            );
            knot_idx = knot_idx - 1;
            working_idx = working_idx - 1;
            count = count + 1;
        }
    }
    assert(working_idx == order - (if knot_interval >= order_idx + 1 {
        knot_interval - order_idx
    } else {
        0int
    }));
    assert(knot_idx == (if knot_interval < order_idx {
        knot_interval as int
    } else {
        order_idx as int
    }));

    // Middle splines.
    let idx_1 = if knot_interval + row + 1 > order {
        knot_interval + row + 1 - order
    } else {
        1
    };
    let idx_2 = if knot_interval < order_idx {
        knot_interval
    } else {
        order_idx
    };
    if idx_1 <= idx_2 {
        let mut count = idx_1;
        while count <= idx_2
            invariant
                idx_1 <= count <= idx_2 + 1,
                working_idx == order - (if knot_interval >= order_idx + 1 {
                    knot_interval - order_idx
                } else {
                    0int
                }) - (count - idx_1),
                knot_idx == idx_2 - (count - idx_1),
                tableau@.len() == 2 * half_order,
                forall|p: int|
                    0 <= p < order ==> tableau@[p] == (if p >= working_idx {
                        blossomed_window(
                            knots@,
                            coefficients_view,
                            half_order as int,
                            derivative_order as int,
                            point,
                            knot_interval as int,
                            row as int,
                            p,
                        )
                    } else {
                        blossomed_window(
                            knots@,
                            coefficients_view,
                            half_order as int,
                            derivative_order as int,
                            point,
                            knot_interval as int,
                            row - 1,
                            p,
                        )
                    }),
            decreases idx_2 + 1 - count,
        {
            let working_knot = knots[knot_idx + order - row - 1];
            let previous = tableau[working_idx - 1];
            tableau.set(
                working_idx - 1,
                previous.add(
                    working_knot.sub(point).mul(tableau[working_idx - 2].sub(previous)).div(
                        working_knot.sub(knots[knot_idx - 1]),
                    ),
                ),
            );
            working_idx = working_idx - 1;
            knot_idx = knot_idx - 1;
            count = count + 1;
        }
    }

    // Left-hand splines.
    if knot_interval + row + 1 <= order {
        assert(working_idx == order - knot_interval);
        knot_idx = order - row;
        let iterations = order - row - knot_interval;
        let mut count: usize = 1;
        while count <= iterations
            invariant
                1 <= count <= iterations + 1,
                working_idx == order - knot_interval - (count - 1),
                knot_idx == order - row - (count - 1),
                tableau@.len() == 2 * half_order,
                forall|p: int|
                    0 <= p < order ==> tableau@[p] == (if p >= working_idx {
                        blossomed_window(
                            knots@,
                            coefficients_view,
                            half_order as int,
                            derivative_order as int,
                            point,
                            knot_interval as int,
                            row as int,
                            p,
                        )
                    } else {
                        blossomed_window(
                            knots@,
                            coefficients_view,
                            half_order as int,
                            derivative_order as int,
                            point,
                            knot_interval as int,
                            row - 1,
                            p,
                        )
                    }),
            decreases iterations + 1 - count,
        {
            tableau.set(
                working_idx - 1,
                tableau[working_idx - 1].add(
                    knots[knot_idx - 1].sub(point).mul(tableau[working_idx - 2]),
                ),
            );
            knot_idx = knot_idx - 1;
            working_idx = working_idx - 1;
            count = count + 1;
        }
    }
    assert forall|p: int| 0 <= p < 2 * half_order - derivative_order implies tableau@[p]
        == blossomed_window(
        knots@,
        coefficients_view,
        half_order as int,
        derivative_order as int,
        point,
        knot_interval as int,
        row as int,
        p,
    ) by {}
}

/// Evaluates the `derivative_order`-th derivative (order zero: the value) of
/// the spline with the given knots and coefficients at `point`; `knot_guess`
/// only speeds up the interval search. Derivatives of order at least
/// `2 * half_order` are identically zero, the polynomial degree being
/// exhausted, and the result is exactly the zero of the arithmetic; every
/// lower order's result is pinned to `derivative_value`, a function of the
/// order, the point, the knots, and the coefficients alone, so the hint
/// cannot change the returned value.
///
/// Inputs are assumed validated at fit time: at least `2 * half_order` knots
/// and one coefficient per knot. On knots that are not strictly increasing
/// the interval search has no unique answer and no value is pinned.
#[verifier::loop_isolation(false)]
#[verifier::rlimit(100)]
pub fn evaluate_spline<T: Scalar>(
    derivative_order: usize,
    half_order: usize,
    point: T,
    knots: &Vec<T>,
    coefficients: &Vec<T>,
    knot_guess: usize,
) -> (result: T)
    requires
        half_order >= 1,
        knots@.len() >= 2 * half_order,
        coefficients@.len() == knots@.len(),
        knots@.len() + 2 * half_order <= usize::MAX,
    ensures
        derivative_order >= 2 * half_order ==> result == T::from_count_spec(0),
        derivative_order < 2 * half_order && strictly_increasing(knots@) ==> result
            == derivative_value(
            derivative_order as int,
            half_order as int,
            point,
            knots@,
            coefficients@,
        ),
{
    let num_knots = knots.len();

    // Derivatives beyond the polynomial degree vanish identically.
    if derivative_order >= 2 * half_order {
        return T::from_count(0);
    }
    let order = 2 * half_order - derivative_order;

    let knot_interval = find_knot_interval(knots, point, knot_guess);
    proof {
        if strictly_increasing(knots@) {
            assert(locates(knots@, point, located_interval(knots@, point)));
            lemma_interval_unique(
                knots@,
                point,
                knot_interval as int,
                located_interval(knots@, point),
            );
        }
    }

    // Local window of coefficients, zero-padded past either boundary.
    let mut tableau = initial_window(coefficients, half_order, num_knots, knot_interval);

    // Divided differences of the window, once per derivative order, then the
    // differenced values move to the front of the window.
    if derivative_order > 0 {
        let mut der_index: usize = 1;
        while der_index <= derivative_order
            invariant
                1 <= der_index <= derivative_order + 1,
                tableau@.len() == 2 * half_order,
                forall|p: int|
                    0 <= p < 2 * half_order ==> tableau@[p] == differenced_window(
                        knots@,
                        coefficients@,
                        half_order as int,
                        knot_interval as int,
                        der_index - 1,
                        p,
                    ),
            decreases derivative_order + 1 - der_index,
        {
            difference_round(
                &mut tableau,
                knots,
                half_order,
                knot_interval,
                der_index,
                Ghost(coefficients@),
            );
            der_index = der_index + 1;
        }
        let mut idx: usize = 1;
        while idx <= order
            invariant
                1 <= idx <= order + 1,
                tableau@.len() == 2 * half_order,
                forall|p: int|
                    idx - 1 <= p < 2 * half_order ==> tableau@[p] == differenced_window(
                        knots@,
                        coefficients@,
                        half_order as int,
                        knot_interval as int,
                        derivative_order as int,
                        p,
                    ),
                forall|p: int|
                    0 <= p < idx - 1 ==> tableau@[p] == differenced_window(
                        knots@,
                        coefficients@,
                        half_order as int,
                        knot_interval as int,
                        derivative_order as int,
                        p + derivative_order,
                    ),
            decreases order + 1 - idx,
        {
            tableau.set(idx - 1, tableau[idx + derivative_order - 1]);
            idx = idx + 1;
        }
    }
    assert forall|p: int| 0 <= p < order implies tableau@[p] == blossomed_window(
        knots@,
        coefficients@,
        half_order as int,
        derivative_order as int,
        point,
        knot_interval as int,
        0,
        p,
    ) by {}

    // Triangular blossoming of the window down to one value; the window is
    // already reduced when the derivative order exhausts all but one entry.
    if order >= 2 {
        let mut row: usize = 1;
        while row <= order - 1
            invariant
                1 <= row <= order,
                tableau@.len() == 2 * half_order,
                forall|p: int|
                    0 <= p < order ==> tableau@[p] == blossomed_window(
                        knots@,
                        coefficients@,
                        half_order as int,
                        derivative_order as int,
                        point,
                        knot_interval as int,
                        row - 1,
                        p,
                    ),
            decreases order - row,
        {
            blossom_row(
                &mut tableau,
                knots,
                point,
                half_order,
                derivative_order,
                knot_interval,
                row,
                Ghost(coefficients@),
            );
            row = row + 1;
        }
    }

    let mut solution = tableau[order - 1];
    assert(solution == blossomed_window(
        knots@,
        coefficients@,
        half_order as int,
        derivative_order as int,
        point,
        knot_interval as int,
        order - 1,
        order - 1,
    ));

    // A derivative picks up the falling factorial of the exhausted orders.
    if derivative_order > 0 {
        let mut factor: usize = order;
        while factor <= 2 * half_order - 1
            invariant
                order <= factor <= 2 * half_order,
                solution == factorial_scaled(
                    blossomed_window(
                        knots@,
                        coefficients@,
                        half_order as int,
                        derivative_order as int,
                        point,
                        knot_interval as int,
                        order - 1,
                        order - 1,
                    ),
                    order as int,
                    factor - 1,
                ),
            decreases 2 * half_order - factor,
        {
            solution = solution.mul(T::from_count(factor as u64));
            factor = factor + 1;
        }
    }

    solution
}

} // verus!
