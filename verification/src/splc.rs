//! One trial of the smoothing search: assemble the system for a trial
//! smoothing value, decompose and solve it, and grade the fit.

use vstd::prelude::*;

use crate::band::lemma_band_entry;
use crate::band::lemma_entry_encode;
use crate::band::lemma_flat_decode;
use crate::band::lemma_flat_row_bound;
use crate::band::lemma_mul_div_exact;
use crate::bandet::consume_and_decompose;
use crate::bandet::eliminated_entry;
use crate::bansol::back_substituted;
use crate::bansol::solve_decomposed_system;
use crate::filled_vec;
use crate::scalar::Scalar;
use crate::support::FittingError;
use crate::support::check_order;
use crate::support::check_vector_length;
use crate::trinv::running_trace;
use crate::trinv::trace_inverse;

verus! {

/// The smoothing-ratio statistic recorded in the fourth stats slot: `0` when
/// the trial smoothing is clamped to pseudo-interpolation, `1` when it is
/// clamped to a pseudo least-squares polynomial, and `p / (1 + p)` otherwise.
pub open spec fn smoothing_ratio_stat<T: Scalar>(
    real_smoothing: T,
    weighted_norm: T,
    tolerance: T,
) -> T {
    if real_smoothing.mul_spec(weighted_norm).lt_spec(tolerance) {
        T::from_count_spec(0)
    } else if T::from_count_spec(1).lt_spec(
        real_smoothing.mul_spec(weighted_norm).mul_spec(tolerance),
    ) {
        T::from_count_spec(1)
    } else {
        real_smoothing.div_spec(T::from_count_spec(1).add_spec(real_smoothing))
    }
}

/// The smoothing value the system is actually assembled with: the trial value,
/// unless it falls outside the regularization limits and is clamped.
pub open spec fn clamped_smoothing<T: Scalar>(
    real_smoothing: T,
    weighted_norm: T,
    tolerance: T,
) -> T {
    if real_smoothing.mul_spec(weighted_norm).lt_spec(tolerance) {
        tolerance.div_spec(weighted_norm)
    } else if T::from_count_spec(1).lt_spec(
        real_smoothing.mul_spec(weighted_norm).mul_spec(tolerance),
    ) {
        T::from_count_spec(1).div_spec(tolerance.mul_spec(weighted_norm))
    } else {
        real_smoothing
    }
}

/// Entry `j` of the assembled trial system: the penalty entry scaled by the
/// smoothing value, plus the basis entry wherever the narrower basis band
/// overlaps; zero outside the band.
pub open spec fn assembled_entry<T: Scalar>(
    spline_tableau: Seq<T>,
    weighted_tableau: Seq<T>,
    half_order: int,
    num_knots: int,
    smoothing: T,
    j: int,
) -> T {
    let row = j / (2 * half_order + 1);
    let col = j % (2 * half_order + 1);
    let col_low = half_order - (if half_order < row {
        half_order
    } else {
        row
    });
    let col_high = half_order + (if half_order < num_knots - 1 - row {
        half_order
    } else {
        num_knots - 1 - row
    });
    if col_low <= col <= col_high {
        if col == 0 || col == 2 * half_order {
            smoothing.mul_spec(weighted_tableau[j])
        } else {
            spline_tableau[row * (2 * half_order - 1) + col - 1].add_spec(
                smoothing.mul_spec(weighted_tableau[j]),
            )
        }
    } else {
        T::from_count_spec(0)
    }
}

/// The coefficients of one trial: the band solve, against the data, of the
/// decomposed assembly of the two tableaus under the clamped smoothing value.
pub open spec fn trial_coefficients<T: Scalar>(
    spline_tableau: Seq<T>,
    weighted_tableau: Seq<T>,
    data: Seq<T>,
    half_order: int,
    smoothing: T,
    i: int,
) -> T {
    let num_knots = spline_tableau.len() as int / (2 * half_order - 1);
    let len = num_knots * (2 * half_order + 1);
    let assembled = Seq::new(
        len as nat,
        |j: int| assembled_entry(spline_tableau, weighted_tableau, half_order, num_knots,
            smoothing, j),
    );
    let decomposed = Seq::new(
        len as nat,
        |j: int| eliminated_entry(assembled, half_order, num_knots, j),
    );
    back_substituted(decomposed, data, half_order, num_knots, i)
}

/// The reconstruction deviation at `row`, folded over the basis window
/// columns up to `col`: the fitted value minus the datum.
pub open spec fn residual_point<T: Scalar>(
    spline_tableau: Seq<T>,
    coefficients: Seq<T>,
    data: Seq<T>,
    half_order: int,
    row: int,
    col: int,
) -> T
    decreases col + 1,
{
    let col_low = (half_order - 1) - (if half_order - 1 < row {
        half_order - 1
    } else {
        row
    });
    if col < col_low || col < 0 {
        data[row].neg_spec()
    } else {
        residual_point(spline_tableau, coefficients, data, half_order, row, col - 1).add_spec(
            spline_tableau[row * (2 * half_order - 1) + col].mul_spec(
                coefficients[row + 1 + col - half_order],
            ),
        )
    }
}

/// The weighted squared reconstruction deviations summed over the first
/// `row + 1` knots.
pub open spec fn residual_sum<T: Scalar>(
    spline_tableau: Seq<T>,
    coefficients: Seq<T>,
    data: Seq<T>,
    weight_factors: Seq<T>,
    half_order: int,
    num_knots: int,
    row: int,
) -> T
    decreases row + 1,
{
    if row < 0 {
        T::from_count_spec(0)
    } else {
        let deviation = residual_point(
            spline_tableau,
            coefficients,
            data,
            half_order,
            row,
            (half_order - 1) + (if half_order - 1 < num_knots - 1 - row {
                half_order - 1
            } else {
                num_knots - 1 - row
            }),
        );
        residual_sum(
            spline_tableau,
            coefficients,
            data,
            weight_factors,
            half_order,
            num_knots,
            row - 1,
        ).add_spec(deviation.mul_spec(deviation).mul_spec(weight_factors[row]))
    }
}

/// The mean squared weighted residual of the trial fit.
pub open spec fn mean_squared_residual<T: Scalar>(
    spline_tableau: Seq<T>,
    coefficients: Seq<T>,
    data: Seq<T>,
    weight_factors: Seq<T>,
    half_order: int,
    num_knots: int,
) -> T {
    residual_sum(
        spline_tableau,
        coefficients,
        data,
        weight_factors,
        half_order,
        num_knots,
        num_knots - 1,
    ).div_spec(T::from_count_spec(num_knots as u64))
}

/// The hat-matrix trace of one trial: the running trace of the penalty
/// matrix against the inverse of the decomposed trial system.
pub open spec fn trial_trace<T: Scalar>(
    spline_tableau: Seq<T>,
    weighted_tableau: Seq<T>,
    half_order: int,
    smoothing: T,
) -> T {
    let num_knots = spline_tableau.len() as int / (2 * half_order - 1);
    let len = num_knots * (2 * half_order + 1);
    let assembled = Seq::new(
        len as nat,
        |j: int| assembled_entry(spline_tableau, weighted_tableau, half_order, num_knots,
            smoothing, j),
    );
    let decomposed = Seq::new(
        len as nat,
        |j: int| eliminated_entry(assembled, half_order, num_knots, j),
    );
    running_trace(weighted_tableau, decomposed, half_order, num_knots, num_knots, half_order)
}

/// The six statistics slots of one trial, each a pure function of the
/// tableaus, the data, the weights, and the trial smoothing value: the GCV
/// ratio, the mean squared weighted residual, the hat-matrix trace, the
/// smoothing ratio, the variance-difference term of the chosen objective, and
/// the estimated variance.
pub open spec fn trial_statistics<T: Scalar>(
    spline_tableau: Seq<T>,
    weighted_tableau: Seq<T>,
    data: Seq<T>,
    weight_factors: Seq<T>,
    half_order: int,
    variance: T,
    real_smoothing: T,
    tolerance: T,
    weighted_norm: T,
) -> Seq<T> {
    let num_knots = spline_tableau.len() as int / (2 * half_order - 1);
    let smoothing = clamped_smoothing(real_smoothing, weighted_norm, tolerance);
    let coefficients = Seq::new(
        num_knots as nat,
        |i: int| trial_coefficients(spline_tableau, weighted_tableau, data, half_order, smoothing,
            i),
    );
    let residual = mean_squared_residual(
        spline_tableau,
        coefficients,
        data,
        weight_factors,
        half_order,
        num_knots,
    );
    let trace = trial_trace(spline_tableau, weighted_tableau, half_order, smoothing);
    let normalized_trace = trace.div_spec(T::from_count_spec(num_knots as u64));
    let estimated_variance = residual.div_spec(normalized_trace);
    seq![
        estimated_variance.div_spec(normalized_trace),
        residual,
        trace,
        smoothing_ratio_stat(real_smoothing, weighted_norm, tolerance),
        if variance.lt_spec(T::from_count_spec(0)) {
            estimated_variance.sub_spec(residual)
        } else {
            residual.sub_spec(
                variance.mul_spec(
                    T::from_count_spec(2).mul_spec(normalized_trace).sub_spec(
                        T::from_count_spec(1),
                    ),
                ),
            )
        },
        estimated_variance,
    ]
}

/// Builds the banded trial system: the penalty tableau scaled by `smoothing`
/// plus the basis tableau inside its band.
#[verifier::loop_isolation(false)]
#[verifier::rlimit(100)]
fn assemble_system<T: Scalar>(
    spline_tableau: &Vec<T>,
    weighted_tableau: &Vec<T>,
    half_order: usize,
    num_knots: usize,
    smoothing: T,
) -> (sys: Vec<T>)
    requires
        1 <= half_order <= usize::MAX / 2,
        spline_tableau@.len() == num_knots * (2 * half_order - 1),
        spline_tableau@.len() <= usize::MAX,
        weighted_tableau@.len() == num_knots * (2 * half_order + 1),
    ensures
        sys@.len() == weighted_tableau@.len(),
        forall|j: int|
            0 <= j < sys@.len() ==> sys@[j] == assembled_entry(
                spline_tableau@,
                weighted_tableau@,
                half_order as int,
                num_knots as int,
                smoothing,
                j,
            ),
{
    let width = 2 * half_order + 1;
    let band_width = 2 * half_order - 1;
    let mut system = filled_vec(T::from_count(0), weighted_tableau.len());
    let mut row: usize = 0;
    while row < num_knots
        invariant
            row <= num_knots,
            system@.len() == weighted_tableau@.len(),
            forall|j: int|
                0 <= j < system@.len() ==> system@[j] == (if j / (2 * half_order + 1) < row {
                    assembled_entry(
                        spline_tableau@,
                        weighted_tableau@,
                        half_order as int,
                        num_knots as int,
                        smoothing,
                        j,
                    )
                } else {
                    T::from_count_spec(0)
                }),
        decreases num_knots - row,
    {
        let knot_index = row + 1;
        let col_low = half_order - (if half_order < knot_index - 1 {
            half_order
        } else {
            knot_index - 1
        });
        let col_high = half_order + (if half_order < num_knots - knot_index {
            half_order
        } else {
            num_knots - knot_index
        });
        let mut col: usize = col_low;
        while col <= col_high
            invariant
                col_low <= col <= col_high + 1,
                system@.len() == weighted_tableau@.len(),
                forall|j: int|
                    0 <= j < system@.len() ==> system@[j] == (if j / (2 * half_order + 1) < row || (
                    j / (2 * half_order + 1) == row && j % (2 * half_order + 1) < col) {
                        assembled_entry(
                            spline_tableau@,
                            weighted_tableau@,
                            half_order as int,
                            num_knots as int,
                            smoothing,
                            j,
                        )
                    } else {
                        T::from_count_spec(0)
                    }),
            decreases col_high + 1 - col,
        {
            proof {
                lemma_band_entry(row as int, col as int, num_knots as int, width as int);
                lemma_entry_encode(row as int, col as int, width as int);
            }
            let index = row * width + col;
            if col == 0 || col == 2 * half_order {
                system.set(index, smoothing.mul(weighted_tableau[index]));
            } else {
                proof {
                    lemma_band_entry(row as int, col - 1 as int, num_knots as int,
                        band_width as int);
                }
                let index_b = row * band_width + col - 1;
                system.set(
                    index,
                    spline_tableau[index_b].add(smoothing.mul(weighted_tableau[index])),
                );
            }
            assert forall|j: int| 0 <= j < system@.len() implies system@[j] == (if j / (2
                * half_order + 1) < row || (j / (2 * half_order + 1) == row && j % (2 * half_order
                + 1) < col + 1) {
                assembled_entry(
                    spline_tableau@,
                    weighted_tableau@,
                    half_order as int,
                    num_knots as int,
                    smoothing,
                    j,
                )
            } else {
                T::from_count_spec(0)
            }) by {
                lemma_flat_decode(j, width as int);
            }
            col = col + 1;
        }
        assert forall|j: int| 0 <= j < system@.len() implies system@[j] == (if j / (2 * half_order
            + 1) < row + 1 {
            assembled_entry(
                spline_tableau@,
                weighted_tableau@,
                half_order as int,
                num_knots as int,
                smoothing,
                j,
            )
        } else {
            T::from_count_spec(0)
        }) by {
            lemma_flat_decode(j, width as int);
        }
        row = row + 1;
    }
    assert forall|j: int| 0 <= j < system@.len() implies system@[j] == assembled_entry(
        spline_tableau@,
        weighted_tableau@,
        half_order as int,
        num_knots as int,
        smoothing,
        j,
    ) by {
        lemma_flat_row_bound(j, width as int, num_knots as int);
    }
    system
}

/// Evaluates the fit for one trial smoothing value.
///
/// Assembles the banded system `spline_tableau + smoothing * weighted_tableau`
/// (after clamping the trial value against the regularization limits),
/// decomposes it, solves it against `data`, computes the hat-matrix trace, and
/// grades the trial: the returned objective is the GCV ratio when `variance`
/// is negative (unknown) and the estimated mean squared error otherwise. Hands
/// back the objective, the coefficients — exactly the band solve of the
/// decomposed trial system — the six statistics slots, and the scratch buffer
/// of the trace computation.
#[verifier::loop_isolation(false)]
#[verifier::rlimit(100)]
pub fn fit_spline_coefficients_with_stats<T: Scalar>(
    half_order: usize,
    data: &Vec<T>,
    weight_factors: &Vec<T>,
    variance: T,
    real_smoothing: T,
    tolerance: T,
    spline_tableau: &Vec<T>,
    weighted_tableau: &Vec<T>,
    weighted_norm: T,
) -> (r: Result<(T, Vec<T>, Vec<T>, Vec<T>), FittingError>)
    requires
        1 <= half_order <= usize::MAX / 2,
        spline_tableau@.len() as int % (2 * half_order - 1) == 0,
        weighted_tableau@.len() == (spline_tableau@.len() as int / (2 * half_order - 1)) * (2
            * half_order + 1),
    ensures
        r is Ok <==> (spline_tableau@.len() as int / (2 * half_order - 1) >= 2 * half_order
            && data@.len() == spline_tableau@.len() as int / (2 * half_order - 1)
            && weight_factors@.len() == spline_tableau@.len() as int / (2 * half_order - 1)),
        spline_tableau@.len() as int / (2 * half_order - 1) < 2 * half_order ==> (r matches Err(e)
            && e == FittingError::NotEnoughKnotsForOrder),
        r is Err && spline_tableau@.len() as int / (2 * half_order - 1) >= 2 * half_order ==> (
        r matches Err(e) && e == FittingError::VectorLengthMismatch),
        r matches Ok(out) ==> ({
            &&& out.1@.len() == spline_tableau@.len() as int / (2 * half_order - 1)
            &&& forall|i: int|
                0 <= i < out.1@.len() ==> out.1@[i] == trial_coefficients(
                    spline_tableau@,
                    weighted_tableau@,
                    data@,
                    half_order as int,
                    clamped_smoothing(real_smoothing, weighted_norm, tolerance),
                    i,
                )
            &&& out.2@.len() == 6
            &&& out.3@.len() == weighted_tableau@.len()
            &&& out.2@[3] == smoothing_ratio_stat(real_smoothing, weighted_norm, tolerance)
            &&& out.2@[1] == mean_squared_residual(
                spline_tableau@,
                out.1@,
                data@,
                weight_factors@,
                half_order as int,
                spline_tableau@.len() as int / (2 * half_order - 1),
            )
            &&& out.2@ == trial_statistics(
                spline_tableau@,
                weighted_tableau@,
                data@,
                weight_factors@,
                half_order as int,
                variance,
                real_smoothing,
                tolerance,
                weighted_norm,
            )
            &&& out.0 == if variance.lt_spec(T::from_count_spec(0)) {
                out.2@[0]
            } else {
                out.2@[4]
            }
        }),
{
    let band_width = 2 * half_order - 1;
    let num_knots = spline_tableau.len() / band_width;
    check_order(half_order, num_knots)?;
    check_vector_length(data, num_knots)?;
    check_vector_length(weight_factors, num_knots)?;
    proof {
        vstd::arithmetic::div_mod::lemma_fundamental_div_mod(
            spline_tableau@.len() as int,
            band_width as int,
        );
        vstd::arithmetic::mul::lemma_mul_is_commutative(band_width as int, num_knots as int);
        assert(spline_tableau@.len() == num_knots * band_width);
    }

    let mut smoothing = real_smoothing;
    let mut stats = filled_vec(T::from_count(0), 6);

    stats.set(3, real_smoothing.div(T::from_count(1).add(real_smoothing)));

    // Pseudo least-squares polynomial when the trial smoothing is too large.
    if real_smoothing.mul(weighted_norm).mul(tolerance).gt(T::from_count(1)) {
        stats.set(3, T::from_count(1));
        smoothing = T::from_count(1).div(tolerance.mul(weighted_norm));
    }

    // Pseudo interpolation when the trial smoothing is too small.
    if real_smoothing.mul(weighted_norm).lt(tolerance) {
        smoothing = tolerance.div(weighted_norm);
        stats.set(3, T::from_count(0));
    }
    assert(stats@[3] == smoothing_ratio_stat(real_smoothing, weighted_norm, tolerance));
    assert(smoothing == clamped_smoothing(real_smoothing, weighted_norm, tolerance));

    // Assemble the system matrix inside the band.
    let width = 2 * half_order + 1;
    let inverted_weighted_matrix = assemble_system(
        spline_tableau,
        weighted_tableau,
        half_order,
        num_knots,
        smoothing,
    );

    // Solve the system for the coefficients and take the hat-matrix trace.
    proof {
        lemma_mul_div_exact(num_knots as int, width as int);
        assert(2 * half_order * (2 * half_order + 1) <= num_knots * (2 * half_order + 1))
            by (nonlinear_arith)
            requires
                2 * half_order <= num_knots,
        ;
    }
    let ghost assembled_view = inverted_weighted_matrix@;
    let decomposed_weighted_matrix = consume_and_decompose(inverted_weighted_matrix, half_order)?;
    let coefficients = solve_decomposed_system(&decomposed_weighted_matrix, data, half_order)?;
    proof {
        let n = num_knots as int;
        let len = n * (2 * half_order + 1);
        let assembled = Seq::new(
            len as nat,
            |j: int| assembled_entry(spline_tableau@, weighted_tableau@, half_order as int, n,
                clamped_smoothing(real_smoothing, weighted_norm, tolerance), j),
        );
        assert(assembled_view =~= assembled);
        let decomposed = Seq::new(
            len as nat,
            |j: int| eliminated_entry(assembled, half_order as int, n, j),
        );
        assert(decomposed_weighted_matrix@ =~= decomposed);
        assert(forall|i: int|
            0 <= i < coefficients@.len() ==> coefficients@[i] == trial_coefficients(
                spline_tableau@,
                weighted_tableau@,
                data@,
                half_order as int,
                clamped_smoothing(real_smoothing, weighted_norm, tolerance),
                i,
            ));
    }
    let (traced_matrix, trace) = trace_inverse(
        weighted_tableau,
        decomposed_weighted_matrix,
        half_order,
    )?;
    stats.set(2, trace);
    let normalized_trace = trace.div(T::from_count(num_knots as u64));

    // Mean squared weighted residual of the reconstructed fit.
    proof {
        assert(num_knots + (2 * half_order - 2) <= usize::MAX) by (nonlinear_arith)
            requires
                half_order >= 1,
                2 * half_order <= num_knots,
                num_knots * (2 * half_order - 1) == spline_tableau@.len(),
                spline_tableau@.len() <= usize::MAX,
        ;
    }
    let mut residual = T::from_count(0);
    let mut row: usize = 0;
    while row < num_knots
        invariant
            row <= num_knots,
            coefficients@.len() == num_knots,
            residual == residual_sum(
                spline_tableau@,
                coefficients@,
                data@,
                weight_factors@,
                half_order as int,
                num_knots as int,
                row - 1,
            ),
        decreases num_knots - row,
    {
        let knot_index = row + 1;
        let mut point = data[row].neg();
        let col_low = (half_order - 1) - (if half_order - 1 < knot_index - 1 {
            half_order - 1
        } else {
            knot_index - 1
        });
        let col_high = (half_order - 1) + (if half_order - 1 < num_knots - knot_index {
            half_order - 1
        } else {
            num_knots - knot_index
        });
        let mut col: usize = col_low;
        assert(point == residual_point(
            spline_tableau@,
            coefficients@,
            data@,
            half_order as int,
            row as int,
            col_low - 1,
        ));
        while col <= col_high
            invariant
                col_low <= col <= col_high + 1,
                coefficients@.len() == num_knots,
                point == residual_point(
                    spline_tableau@,
                    coefficients@,
                    data@,
                    half_order as int,
                    row as int,
                    col - 1,
                ),
            decreases col_high + 1 - col,
        {
            proof {
                lemma_band_entry(row as int, col as int, num_knots as int, band_width as int);
            }
            point = point.add(
                spline_tableau[row * band_width + col].mul(
                    coefficients[knot_index + col - half_order],
                ),
            );
            col = col + 1;
        }
        residual = residual.add(point.mul(point).mul(weight_factors[row]));
        row = row + 1;
    }
    residual = residual.div(T::from_count(num_knots as u64));
    assert(residual == mean_squared_residual(
        spline_tableau@,
        coefficients@,
        data@,
        weight_factors@,
        half_order as int,
        num_knots as int,
    ));

    let estimated_variance = residual.div(normalized_trace);
    stats.set(5, estimated_variance);
    stats.set(0, estimated_variance.div(normalized_trace));
    stats.set(1, residual);

    let objective: T;
    if variance.lt(T::from_count(0)) {
        // Unknown variance: generalized cross-validation.
        stats.set(4, estimated_variance.sub(residual));
        objective = stats[0];
    } else {
        // Known variance: estimated mean squared error.
        stats.set(
            4,
            residual.sub(
                variance.mul(T::from_count(2).mul(normalized_trace).sub(T::from_count(1))),
            ),
        );
        objective = stats[4];
    }

    proof {
        let n = num_knots as int;
        let coefs = Seq::new(
            n as nat,
            |i: int| trial_coefficients(spline_tableau@, weighted_tableau@, data@,
                half_order as int, clamped_smoothing(real_smoothing, weighted_norm, tolerance), i),
        );
        assert(coefficients@ =~= coefs);
        assert(stats@ =~= trial_statistics(
            spline_tableau@,
            weighted_tableau@,
            data@,
            weight_factors@,
            half_order as int,
            variance,
            real_smoothing,
            tolerance,
            weighted_norm,
        ));
    }
    Ok((objective, coefficients, stats, traced_matrix))
}

} // verus!
