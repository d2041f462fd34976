//! Construction of the banded B-spline basis tableau over the knot sequence.

use vstd::prelude::*;

use crate::band::lemma_band_entry;
use crate::band::lemma_entry_encode;
use crate::band::lemma_flat_decode;
use crate::band::lemma_flat_row_bound;
use crate::filled_vec;
use crate::scalar::Scalar;
use crate::scalar::strictly_increasing;
use crate::support::FittingError;
use crate::support::check_increasing;
use crate::support::check_order;

verus! {

/// The seed of knot `k`'s window: one at either boundary, otherwise the
/// reciprocal of the two-knot gap around the knot.
pub open spec fn window_seed<T: Scalar>(knots: Seq<T>, k: int) -> T {
    if k != 1 && k != knots.len() {
        T::from_count_spec(1).div_spec(knots[k].sub_spec(knots[k - 2]))
    } else {
        T::from_count_spec(1)
    }
}

/// The value at position `p` of knot `k`'s working window after the
/// triangular divided-difference recurrence has processed rows up to `t`.
/// Row `t` rewrites the positions `2m - t` through `2m - 2` from the previous
/// row's values at `p` and `p + 1`, choosing the left, ordinary, or right
/// spline rule by where the window stands relative to the boundaries.
pub open spec fn window_value<T: Scalar>(knots: Seq<T>, m: int, k: int, t: int, p: int) -> T
    decreases t,
{
    let n = knots.len() as int;
    if t < 3 {
        if p == 2 * m - 2 {
            window_seed(knots, k)
        } else {
            T::from_count_spec(0)
        }
    } else if p < 2 * m - t || p > 2 * m - 2 {
        window_value(knots, m, k, t - 1, p)
    } else {
        let u = window_value(knots, m, k, t - 1, p);
        let v = window_value(knots, m, k, t - 1, p + 1);
        let current = knots[k - 1];
        if k < t && p + k + 1 <= 2 * m {
            // Left splines.
            let s = p - 2 * m + t + k + 1;
            u.add_spec(knots[s - 1].sub_spec(current).mul_spec(v))
        } else {
            let s = p + k + 1 - 2 * m;
            if s <= k - 1 && s <= n - t {
                // Ordinary splines.
                let y = knots[t + s - 1];
                if t < 2 * m {
                    u.add_spec(
                        v.sub_spec(u).mul_spec(y.sub_spec(current)).div_spec(
                            y.sub_spec(knots[s - 1]),
                        ),
                    )
                } else {
                    current.sub_spec(knots[s - 1]).mul_spec(u).add_spec(
                        y.sub_spec(current).mul_spec(v),
                    )
                }
            } else {
                // Right splines.
                current.sub_spec(knots[s - 1]).mul_spec(u).add_spec(v)
            }
        }
    }
}

/// Entry `j` of the packed spline tableau: the finished window of its knot.
pub open spec fn basis_entry<T: Scalar>(knots: Seq<T>, m: int, j: int) -> T {
    window_value(knots, m, j / (2 * m - 1) + 1, 2 * m, j % (2 * m - 1))
}

/// The absolute values of the first `i + 1` entries of a buffer, summed.
pub open spec fn abs_sum<T: Scalar>(s: Seq<T>, i: int) -> T
    decreases i + 1,
{
    if i < 0 {
        T::from_count_spec(0)
    } else {
        abs_sum(s, i - 1).add_spec(s[i].abs_spec())
    }
}

/// Buffers that agree up to position `i` have the same absolute-value sum.
pub proof fn lemma_abs_sum_prefix<T: Scalar>(s1: Seq<T>, s2: Seq<T>, i: int)
    requires
        forall|q: int| 0 <= q <= i ==> s1[q] == s2[q],
    ensures
        abs_sum(s1, i) == abs_sum(s2, i),
    decreases i + 1,
{
    if i >= 0 {
        lemma_abs_sum_prefix(s1, s2, i - 1);
    }
}

/// Builds the packed spline tableau: for each knot one window of
/// `2 * half_order - 1` basis values, produced by the triangular
/// divided-difference recurrence of `window_value`, with each tableau entry
/// pinned to that recurrence. Also returns the tableau's mean absolute value,
/// which later scales the smoothing-parameter search. The linear case is a
/// constant basis of ones.
#[verifier::loop_isolation(false)]
#[verifier::rlimit(100)]
pub fn create_basis<T: Scalar>(half_order: usize, knots: &Vec<T>) -> (r: Result<
    (Vec<T>, T),
    FittingError,
>)
    requires
        half_order >= 1,
        knots@.len() * (2 * half_order - 1) <= usize::MAX,
    ensures
        r is Ok <==> (knots@.len() >= 2 && strictly_increasing(knots@) && knots@.len() >= 2
            * half_order),
        knots@.len() < 2 ==> (r matches Err(e) && e == FittingError::InsufficientKnots),
        knots@.len() >= 2 && !strictly_increasing(knots@) ==> (r matches Err(e) && e
            == FittingError::KnotsNotStrictlyIncreasing),
        knots@.len() >= 2 && strictly_increasing(knots@) && knots@.len() < 2 * half_order ==> (
        r matches Err(e) && e == FittingError::NotEnoughKnotsForOrder),
        r matches Ok(out) ==> ({
            &&& out.0@.len() == knots@.len() * (2 * half_order - 1)
            &&& half_order == 1 ==> (forall|j: int|
                0 <= j < out.0@.len() ==> out.0@[j] == T::from_count_spec(1)) && out.1
                == T::from_count_spec(1)
            &&& half_order >= 2 ==> (forall|j: int|
                0 <= j < out.0@.len() ==> out.0@[j] == basis_entry(
                    knots@,
                    half_order as int,
                    j,
                )) && out.1 == abs_sum(out.0@, out.0@.len() - 1).div_spec(
                T::from_count_spec(knots@.len() as u64),
            )
        }),
{
    let num_knots = knots.len();
    check_increasing(knots)?;
    check_order(half_order, num_knots)?;

    let spline_order = 2 * half_order - 1;

    // Linear case: the basis is the constant one.
    if half_order == 1 {
        assert(knots@.len() * (2 * half_order - 1) == knots@.len()) by (nonlinear_arith)
            requires
                half_order == 1,
        ;
        return Ok((filled_vec(T::from_count(1), num_knots), T::from_count(1)));
    }

    proof {
        assert(num_knots * 3 <= num_knots * (2 * half_order - 1)) by (nonlinear_arith)
            requires
                half_order >= 2,
                num_knots >= 0,
        ;
    }
    let mut spline_tableau = filled_vec(T::from_count(0), num_knots * spline_order);

    let mut row: usize = 0;
    while row < num_knots
        invariant
            row <= num_knots,
            spline_tableau@.len() == num_knots * spline_order,
            forall|j: int|
                0 <= j < spline_tableau@.len() ==> spline_tableau@[j] == (if j / (2 * half_order
                    - 1) < row {
                    basis_entry(knots@, half_order as int, j)
                } else {
                    T::from_count_spec(0)
                }),
        decreases num_knots - row,
    {
        let knot_index = row + 1;
        let mut working_vec = filled_vec(T::from_count(0), 2 * half_order);

        // First row of the triangular recurrence.
        if knot_index != 1 && knot_index != num_knots {
            working_vec.set(
                2 * half_order - 2,
                T::from_count(1).div(knots[knot_index].sub(knots[knot_index - 2])),
            );
        } else {
            working_vec.set(2 * half_order - 2, T::from_count(1));
        }
        assert forall|q: int| 0 <= q < 2 * half_order implies working_vec@[q] == window_value(
            knots@,
            half_order as int,
            knot_index as int,
            2,
            q,
        ) by {}

        // Further rows, each extending the window by one position.
        let current_knot = knots[knot_index - 1];
        let mut tableau_index: usize = 3;
        while tableau_index <= 2 * half_order
            invariant
                3 <= tableau_index <= 2 * half_order + 1,
                working_vec@.len() == 2 * half_order,
                spline_tableau@.len() == num_knots * spline_order,
                forall|q: int|
                    0 <= q < 2 * half_order ==> working_vec@[q] == window_value(
                        knots@,
                        half_order as int,
                        knot_index as int,
                        tableau_index - 1,
                        q,
                    ),
            decreases 2 * half_order + 1 - tableau_index,
        {
            let mut wi_off: usize = 2 * half_order - tableau_index;
            let mut v_working = working_vec[wi_off];

            // Left splines: the window still overlaps the first knot.
            if knot_index < tableau_index {
                let mut s: usize = knot_index + 1;
                while s <= tableau_index
                    invariant
                        knot_index + 1 <= s <= tableau_index + 1,
                        wi_off == 2 * half_order - tableau_index + (s - knot_index - 1),
                        working_vec@.len() == 2 * half_order,
                        v_working == window_value(
                            knots@,
                            half_order as int,
                            knot_index as int,
                            tableau_index - 1,
                            wi_off as int,
                        ),
                        forall|q: int|
                            0 <= q < 2 * half_order ==> working_vec@[q] == (if 2 * half_order
                                - tableau_index <= q < wi_off {
                                window_value(
                                    knots@,
                                    half_order as int,
                                    knot_index as int,
                                    tableau_index as int,
                                    q,
                                )
                            } else {
                                window_value(
                                    knots@,
                                    half_order as int,
                                    knot_index as int,
                                    tableau_index - 1,
                                    q,
                                )
                            }),
                    decreases tableau_index + 1 - s,
                {
                    let u_working = v_working;
                    v_working = working_vec[wi_off + 1];
                    working_vec.set(
                        wi_off,
                        u_working.add(knots[s - 1].sub(current_knot).mul(v_working)),
                    );
                    wi_off = wi_off + 1;
                    s = s + 1;
                }
            }

            let lower_bound = if knot_index + 1 > tableau_index {
                knot_index + 1 - tableau_index
            } else {
                1
            };
            let upper_bound = if knot_index - 1 < num_knots - tableau_index {
                knot_index - 1
            } else {
                num_knots - tableau_index
            };
            assert(wi_off == 2 * half_order + lower_bound - knot_index - 1);

            if lower_bound <= upper_bound {
                if tableau_index < 2 * half_order {
                    // Ordinary splines: interior divided differences.
                    let mut s: usize = lower_bound;
                    while s <= upper_bound
                        invariant
                            lower_bound <= s <= upper_bound + 1,
                            wi_off == 2 * half_order + s - knot_index - 1,
                            working_vec@.len() == 2 * half_order,
                            v_working == window_value(
                                knots@,
                                half_order as int,
                                knot_index as int,
                                tableau_index - 1,
                                wi_off as int,
                            ),
                            forall|q: int|
                                0 <= q < 2 * half_order ==> working_vec@[q] == (if 2 * half_order
                                    - tableau_index <= q < wi_off {
                                    window_value(
                                        knots@,
                                        half_order as int,
                                        knot_index as int,
                                        tableau_index as int,
                                        q,
                                    )
                                } else {
                                    window_value(
                                        knots@,
                                        half_order as int,
                                        knot_index as int,
                                        tableau_index - 1,
                                        q,
                                    )
                                }),
                        decreases upper_bound + 1 - s,
                    {
                        let y_working = knots[tableau_index + s - 1];
                        let u_working = v_working;
                        v_working = working_vec[wi_off + 1];
                        working_vec.set(
                            wi_off,
                            u_working.add(
                                v_working.sub(u_working).mul(y_working.sub(current_knot)).div(
                                    y_working.sub(knots[s - 1]),
                                ),
                            ),
                        );
                        wi_off = wi_off + 1;
                        s = s + 1;
                    }
                } else {
                    // Final row of ordinary splines.
                    let mut s: usize = lower_bound;
                    while s <= upper_bound
                        invariant
                            lower_bound <= s <= upper_bound + 1,
                            wi_off == 2 * half_order + s - knot_index - 1,
                            working_vec@.len() == 2 * half_order,
                            v_working == window_value(
                                knots@,
                                half_order as int,
                                knot_index as int,
                                tableau_index - 1,
                                wi_off as int,
                            ),
                            forall|q: int|
                                0 <= q < 2 * half_order ==> working_vec@[q] == (if 2 * half_order
                                    - tableau_index <= q < wi_off {
                                    window_value(
                                        knots@,
                                        half_order as int,
                                        knot_index as int,
                                        tableau_index as int,
                                        q,
                                    )
                                } else {
                                    window_value(
                                        knots@,
                                        half_order as int,
                                        knot_index as int,
                                        tableau_index - 1,
                                        q,
                                    )
                                }),
                        decreases upper_bound + 1 - s,
                    {
                        let u_working = v_working;
                        v_working = working_vec[wi_off + 1];
                        working_vec.set(
                            wi_off,
                            current_knot.sub(knots[s - 1]).mul(u_working).add(
                                knots[tableau_index + s - 1].sub(current_knot).mul(v_working),
                            ),
                        );
                        wi_off = wi_off + 1;
                        s = s + 1;
                    }
                }
            }

            // Right splines: the window runs past the last knot.
            if num_knots - tableau_index + 1 < knot_index {
                assert(wi_off == 2 * half_order + (num_knots - tableau_index + 1) - knot_index
                    - 1);
                let mut s: usize = num_knots - tableau_index + 1;
                while s <= knot_index - 1
                    invariant
                        num_knots - tableau_index + 1 <= s <= knot_index,
                        wi_off == 2 * half_order + s - knot_index - 1,
                        working_vec@.len() == 2 * half_order,
                        v_working == window_value(
                            knots@,
                            half_order as int,
                            knot_index as int,
                            tableau_index - 1,
                            wi_off as int,
                        ),
                        forall|q: int|
                            0 <= q < 2 * half_order ==> working_vec@[q] == (if 2 * half_order
                                - tableau_index <= q < wi_off {
                                window_value(
                                    knots@,
                                    half_order as int,
                                    knot_index as int,
                                    tableau_index as int,
                                    q,
                                )
                            } else {
                                window_value(
                                    knots@,
                                    half_order as int,
                                    knot_index as int,
                                    tableau_index - 1,
                                    q,
                                )
                            }),
                    decreases knot_index - s,
                {
                    let u_working = v_working;
                    v_working = working_vec[wi_off + 1];
                    working_vec.set(
                        wi_off,
                        current_knot.sub(knots[s - 1]).mul(u_working).add(v_working),
                    );
                    wi_off = wi_off + 1;
                    s = s + 1;
                }
            }
            assert forall|q: int| 0 <= q < 2 * half_order implies working_vec@[q] == window_value(
                knots@,
                half_order as int,
                knot_index as int,
                tableau_index as int,
                q,
            ) by {}
            tableau_index = tableau_index + 1;
        }

        // Pack this knot's window into the tableau.
        let mut spline_index: usize = 0;
        while spline_index < spline_order
            invariant
                spline_index <= spline_order,
                working_vec@.len() == 2 * half_order,
                spline_tableau@.len() == num_knots * spline_order,
                forall|q: int|
                    0 <= q < 2 * half_order ==> working_vec@[q] == window_value(
                        knots@,
                        half_order as int,
                        knot_index as int,
                        2 * half_order,
                        q,
                    ),
                forall|j: int|
                    0 <= j < spline_tableau@.len() ==> spline_tableau@[j] == (if j / (2
                        * half_order - 1) < row || (j / (2 * half_order - 1) == row && j % (2
                        * half_order - 1) < spline_index) {
                        basis_entry(knots@, half_order as int, j)
                    } else {
                        T::from_count_spec(0)
                    }),
            decreases spline_order - spline_index,
        {
            proof {
                lemma_band_entry(
                    row as int,
                    spline_index as int,
                    num_knots as int,
                    spline_order as int,
                );
                lemma_entry_encode(row as int, spline_index as int, spline_order as int);
            }
            spline_tableau.set(row * spline_order + spline_index, working_vec[spline_index]);
            assert forall|j: int| 0 <= j < spline_tableau@.len() implies spline_tableau@[j] == (
            if j / (2 * half_order - 1) < row || (j / (2 * half_order - 1) == row && j % (2
                * half_order - 1) < spline_index + 1) {
                basis_entry(knots@, half_order as int, j)
            } else {
                T::from_count_spec(0)
            }) by {
                lemma_flat_decode(j, spline_order as int);
            }
            spline_index = spline_index + 1;
        }
        assert forall|j: int| 0 <= j < spline_tableau@.len() implies spline_tableau@[j] == (if j
            / (2 * half_order - 1) < row + 1 {
            basis_entry(knots@, half_order as int, j)
        } else {
            T::from_count_spec(0)
        }) by {
            lemma_flat_decode(j, spline_order as int);
        }
        row = row + 1;
    }
    assert forall|j: int| 0 <= j < spline_tableau@.len() implies spline_tableau@[j]
        == basis_entry(knots@, half_order as int, j) by {
        lemma_flat_row_bound(j, spline_order as int, num_knots as int);
    }

    // Mean absolute value of the tableau.
    let mut basis_l1_norm = T::from_count(0);
    let mut idx: usize = 0;
    let tableau_len = spline_tableau.len();
    while idx < tableau_len
        invariant
            idx <= tableau_len,
            spline_tableau@.len() == tableau_len,
            basis_l1_norm == abs_sum(spline_tableau@, idx - 1),
        decreases tableau_len - idx,
    {
        basis_l1_norm = basis_l1_norm.add(spline_tableau[idx].abs());
        idx = idx + 1;
    }
    basis_l1_norm = basis_l1_norm.div(T::from_count(num_knots as u64));

    Ok((spline_tableau, basis_l1_norm))
}

} // verus!
