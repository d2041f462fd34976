//! The top-level fit: build the design matrices once, then search the
//! smoothing parameter for the minimum of the fit objective.

use vstd::prelude::*;

use crate::band::lemma_mul_div_exact;
use crate::basis::abs_sum;
use crate::basis::basis_entry;
use crate::basis::create_basis;
use crate::filled_vec;
use crate::prep::create_weighted_matrix;
use crate::prep::penalty_entry;
use crate::scalar::Scalar;
use crate::scalar::strictly_increasing;
use crate::splc::clamped_smoothing;
use crate::splc::fit_spline_coefficients_with_stats;
use crate::splc::trial_coefficients;
use crate::splc::trial_statistics;
use crate::support::FittingError;
use crate::support::check_increasing;
use crate::support::check_order;
use crate::support::check_vector_length;

verus! {

/// Upper bound on fitter trials in one smoothing search. Every bracketing
/// step halves, doubles, or golden-ratio-shrinks the trial smoothing value, so
/// fixed-width arithmetic raises a boundary flag or meets the tolerance after
/// at most a few thousand trials; the cap makes termination of the search a
/// theorem rather than a property of the arithmetic.
pub const MAX_SEARCH_TRIALS: usize = 16384;

/// The spline tableau the fit builds over its knots.
pub open spec fn fit_basis_tableau<T: Scalar>(knots: Seq<T>, half_order: int) -> Seq<T> {
    Seq::new(
        (knots.len() * (2 * half_order - 1)) as nat,
        |j: int|
            if half_order == 1 {
                T::from_count_spec(1)
            } else {
                basis_entry(knots, half_order, j)
            },
    )
}

/// The penalty matrix the fit builds over its knots and weights.
pub open spec fn fit_penalty_matrix<T: Scalar>(
    knots: Seq<T>,
    weights: Seq<T>,
    half_order: int,
) -> Seq<T> {
    Seq::new(
        (knots.len() * (2 * half_order + 1)) as nat,
        |j: int| penalty_entry(knots, weights, half_order, j),
    )
}

/// The penalty norm the smoothing search is scaled by: the penalty matrix's
/// mean absolute value over the basis tableau's.
pub open spec fn fit_penalty_norm<T: Scalar>(knots: Seq<T>, weights: Seq<T>, half_order: int) -> T {
    let n = knots.len() as int;
    let basis_norm: T = if half_order == 1 {
        T::from_count_spec(1)
    } else {
        abs_sum(fit_basis_tableau(knots, half_order), n * (2 * half_order - 1) - 1).div_spec(
            T::from_count_spec(n as u64),
        )
    };
    abs_sum(fit_penalty_matrix(knots, weights, half_order), n * (2 * half_order + 1) - 1).div_spec(
        T::from_count_spec(n as u64),
    ).div_spec(basis_norm)
}

/// The coefficients of the single zero-smoothing trial that a declared exact
/// variance asks for: a pure function of knots, data, and weights.
pub open spec fn interpolating_coefficients<T: Scalar>(
    knots: Seq<T>,
    data: Seq<T>,
    weights: Seq<T>,
    half_order: int,
    i: int,
) -> T {
    let epsilon = T::from_count_spec(1).div_spec(T::from_count_spec(1000000000000000));
    trial_coefficients(
        fit_basis_tableau(knots, half_order),
        fit_penalty_matrix(knots, weights, half_order),
        data,
        half_order,
        clamped_smoothing(
            T::from_count_spec(0),
            fit_penalty_norm(knots, weights, half_order),
            epsilon,
        ),
        i,
    )
}

/// The statistics of the single zero-smoothing trial that a declared exact
/// variance asks for.
pub open spec fn interpolating_statistics<T: Scalar>(
    knots: Seq<T>,
    data: Seq<T>,
    weights: Seq<T>,
    half_order: int,
    declared_variance: T,
) -> Seq<T> {
    let epsilon = T::from_count_spec(1).div_spec(T::from_count_spec(1000000000000000));
    trial_statistics(
        fit_basis_tableau(knots, half_order),
        fit_penalty_matrix(knots, weights, half_order),
        data,
        weights,
        half_order,
        declared_variance,
        T::from_count_spec(0),
        epsilon,
        fit_penalty_norm(knots, weights, half_order),
    )
}

/// Whether `coefficients` and `stats` are, entry for entry, the complete
/// output of the single fitter trial at smoothing value `smoothing`: the fit
/// never returns a mixture of trials or a partial pair. Kept opaque: callers
/// pass it on whole and open it only where a trial's output is named.
#[verifier::opaque]
pub open spec fn is_final_trial<T: Scalar>(
    knots: Seq<T>,
    data: Seq<T>,
    weights: Seq<T>,
    half_order: int,
    declared_variance: T,
    smoothing: T,
    coefficients: Seq<T>,
    stats: Seq<T>,
) -> bool {
    let epsilon = T::from_count_spec(1).div_spec(T::from_count_spec(1000000000000000));
    let basis = fit_basis_tableau(knots, half_order);
    let penalty = fit_penalty_matrix(knots, weights, half_order);
    let norm = fit_penalty_norm(knots, weights, half_order);
    &&& (forall|i: int|
        0 <= i < coefficients.len() ==> coefficients[i] == trial_coefficients(
            basis,
            penalty,
            data,
            half_order,
            clamped_smoothing(smoothing, norm, epsilon),
            i,
        ))
    &&& stats == trial_statistics(
        basis,
        penalty,
        data,
        weights,
        half_order,
        declared_variance,
        smoothing,
        epsilon,
        norm,
    )
}

/// Packages a finished trial as the search's result; the witness smoothing
/// value rides along as ghost information.
fn finish_search<T: Scalar>(
    coefficients: Vec<T>,
    stats: Vec<T>,
    Ghost(knots_view): Ghost<Seq<T>>,
    Ghost(data_view): Ghost<Seq<T>>,
    Ghost(weights_view): Ghost<Seq<T>>,
    Ghost(order): Ghost<int>,
    Ghost(declared_variance): Ghost<T>,
    Ghost(smoothing): Ghost<T>,
) -> (r: Result<(Vec<T>, Vec<T>), FittingError>)
    requires
        coefficients@.len() == knots_view.len(),
        stats@.len() == 6,
        is_final_trial(
            knots_view,
            data_view,
            weights_view,
            order,
            declared_variance,
            smoothing,
            coefficients@,
            stats@,
        ),
    ensures
        r is Ok,
        r matches Ok(out) ==> ({
            &&& out.0@.len() == knots_view.len()
            &&& out.1@.len() == 6
            &&& exists|p: T|
                is_final_trial(
                    knots_view,
                    data_view,
                    weights_view,
                    order,
                    declared_variance,
                    p,
                    out.0@,
                    out.1@,
                )
        }),
{
    Ok((coefficients, stats))
}

/// Runs the bracketing and golden-section search over the smoothing
/// parameter against prebuilt design matrices, and returns the coefficients
/// and statistics of the one final fitter trial it settles on.
#[verifier::loop_isolation(false)]
#[verifier::rlimit(100)]
#[verifier::spinoff_prover]
fn search_smoothing<T: Scalar>(
    knots: &Vec<T>,
    data: &Vec<T>,
    weight_factors: &Vec<T>,
    half_order: usize,
    variance: T,
    spline_tableau: &Vec<T>,
    weighted_matrix: &Vec<T>,
    weighted_matrix_norm: T,
) -> (r: Result<(Vec<T>, Vec<T>), FittingError>)
    requires
        half_order >= 1,
        knots@.len() >= 2 * half_order,
        knots@.len() * (2 * half_order + 1) <= usize::MAX,
        data@.len() == knots@.len(),
        weight_factors@.len() == knots@.len(),
        spline_tableau@.len() == knots@.len() * (2 * half_order - 1),
        weighted_matrix@.len() == knots@.len() * (2 * half_order + 1),
        spline_tableau@ == fit_basis_tableau(knots@, half_order as int),
        weighted_matrix@ == fit_penalty_matrix(knots@, weight_factors@, half_order as int),
        weighted_matrix_norm == fit_penalty_norm(knots@, weight_factors@, half_order as int),
    ensures
        r is Ok,
        r matches Ok(out) ==> ({
            &&& out.0@.len() == knots@.len()
            &&& out.1@.len() == 6
            &&& exists|p: T|
                is_final_trial(
                    knots@,
                    data@,
                    weight_factors@,
                    half_order as int,
                    variance,
                    p,
                    out.0@,
                    out.1@,
                )
        }),
{
    let num_knots = knots.len();
    let smoothing_ratio = T::from_count(2);
    let tau = T::from_count(1618033983).div(T::from_count(1000000000));
    let epsilon = T::from_count(1).div(T::from_count(1000000000000000));
    let tolerance = T::from_count(1).div(T::from_count(1000000));
    let mut coefficients: Vec<T>;
    let mut stats: Vec<T>;
    let ghost mut final_smoothing: T = variance;
    proof {
        lemma_mul_div_exact(num_knots as int, 2 * half_order - 1);
        assert(spline_tableau@.len() as int % (2 * half_order - 1) == 0) by (nonlinear_arith)
            requires
                spline_tableau@.len() == num_knots * (2 * half_order - 1),
                half_order >= 1,
        ;
        assert(2 * half_order * (2 * half_order + 1) <= num_knots * (2 * half_order + 1))
            by (nonlinear_arith)
            requires
                2 * half_order <= num_knots,
        ;
    }
    let mut solved = false;
    let mut trials: usize = 0;
    let mut smoothing_1 = T::from_count(1).div(weighted_matrix_norm);
    let mut smoothing_2 = smoothing_1.mul(smoothing_ratio);
    let out = fit_spline_coefficients_with_stats(
        half_order,
        data,
        weight_factors,
        variance,
        smoothing_2,
        epsilon,
        spline_tableau,
        weighted_matrix,
        weighted_matrix_norm,
    )?;
    let mut gcv_f2 = out.0;
    let out = fit_spline_coefficients_with_stats(
        half_order,
        data,
        weight_factors,
        variance,
        smoothing_1,
        epsilon,
        spline_tableau,
        weighted_matrix,
        weighted_matrix_norm,
    )?;
    let mut gcv_f1 = out.0;
    coefficients = out.1;
    stats = out.2;
    proof {
        final_smoothing = smoothing_1;
        reveal(is_final_trial);
        assert(is_final_trial(
            knots@,
            data@,
            weight_factors@,
            half_order as int,
            variance,
            smoothing_1,
            coefficients@,
            stats@,
        ));
    }

    // Bracket downward while smaller smoothing does not worsen the
    // objective and the interpolation limit is not reached.
    while trials < MAX_SEARCH_TRIALS && gcv_f1.le(gcv_f2) && !solved
        invariant
            trials <= MAX_SEARCH_TRIALS,
            stats@.len() == 6,
            coefficients@.len() == num_knots,
            is_final_trial(
                knots@,
                data@,
                weight_factors@,
                half_order as int,
                variance,
                final_smoothing,
                coefficients@,
                stats@,
            ),
        decreases MAX_SEARCH_TRIALS - trials, (if solved {
            0int
        } else {
            1int
        }),
    {
        if stats[3].le(T::from_count(0)) {
            solved = true;
        } else {
            smoothing_2 = smoothing_1;
            gcv_f2 = gcv_f1;
            smoothing_1 = smoothing_1.div(smoothing_ratio);
            let out = fit_spline_coefficients_with_stats(
                half_order,
                data,
                weight_factors,
                variance,
                smoothing_1,
                epsilon,
                spline_tableau,
                weighted_matrix,
                weighted_matrix_norm,
            )?;
            gcv_f1 = out.0;
            coefficients = out.1;
            stats = out.2;
            proof {
                final_smoothing = smoothing_1;
                reveal(is_final_trial);
                assert(is_final_trial(
                    knots@,
                    data@,
                    weight_factors@,
                    half_order as int,
                    variance,
                    smoothing_1,
                    coefficients@,
                    stats@,
                ));
            }
            trials = trials + 1;
        }
    }

    if !solved {
        // Bracket upward while larger smoothing does not worsen the
        // objective and the least-squares limit is not reached.
        let mut smoothing_3 = smoothing_2.mul(smoothing_ratio);
        let out = fit_spline_coefficients_with_stats(
            half_order,
            data,
            weight_factors,
            variance,
            smoothing_3,
            epsilon,
            spline_tableau,
            weighted_matrix,
            weighted_matrix_norm,
        )?;
        let mut gcv_f3 = out.0;
        coefficients = out.1;
        stats = out.2;
        proof {
            final_smoothing = smoothing_3;
            reveal(is_final_trial);
            assert(is_final_trial(
                knots@,
                data@,
                weight_factors@,
                half_order as int,
                variance,
                smoothing_3,
                coefficients@,
                stats@,
            ));
        }
        while trials < MAX_SEARCH_TRIALS && gcv_f3.le(gcv_f2) && !solved
            invariant
                trials <= MAX_SEARCH_TRIALS,
                stats@.len() == 6,
                coefficients@.len() == num_knots,
                is_final_trial(
                    knots@,
                    data@,
                    weight_factors@,
                    half_order as int,
                    variance,
                    final_smoothing,
                    coefficients@,
                    stats@,
                ),
            decreases MAX_SEARCH_TRIALS - trials, (if solved {
                0int
            } else {
                1int
            }),
        {
            if stats[3].ge(T::from_count(1)) {
                solved = true;
            } else {
                gcv_f2 = gcv_f3;
                smoothing_3 = smoothing_3.mul(smoothing_ratio);
                let out = fit_spline_coefficients_with_stats(
                    half_order,
                    data,
                    weight_factors,
                    variance,
                    smoothing_3,
                    epsilon,
                    spline_tableau,
                    weighted_matrix,
                    weighted_matrix_norm,
                )?;
                gcv_f3 = out.0;
                coefficients = out.1;
                stats = out.2;
                proof {
                    final_smoothing = smoothing_3;
                    reveal(is_final_trial);
                    assert(is_final_trial(
                        knots@,
                        data@,
                        weight_factors@,
                        half_order as int,
                        variance,
                        smoothing_3,
                        coefficients@,
                        stats@,
                    ));
                }
                trials = trials + 1;
            }
        }

        if !solved {
            // Golden-section narrowing of the bracket.
            smoothing_2 = smoothing_3;
            gcv_f2 = gcv_f3;
            let mut alpha = smoothing_2.sub(smoothing_1).div(tau);
            let mut smoothing_4 = smoothing_1.add(alpha);
            smoothing_3 = smoothing_2.sub(alpha);
            let out = fit_spline_coefficients_with_stats(
                half_order,
                data,
                weight_factors,
                variance,
                smoothing_3,
                epsilon,
                spline_tableau,
                weighted_matrix,
                weighted_matrix_norm,
            )?;
            gcv_f3 = out.0;
            coefficients = out.1;
            stats = out.2;
            proof {
                final_smoothing = smoothing_3;
                reveal(is_final_trial);
                assert(is_final_trial(
                    knots@,
                    data@,
                    weight_factors@,
                    half_order as int,
                    variance,
                    smoothing_3,
                    coefficients@,
                    stats@,
                ));
            }
            let out = fit_spline_coefficients_with_stats(
                half_order,
                data,
                weight_factors,
                variance,
                smoothing_4,
                epsilon,
                spline_tableau,
                weighted_matrix,
                weighted_matrix_norm,
            )?;
            let mut gcv_f4 = out.0;
            coefficients = out.1;
            stats = out.2;
            proof {
                final_smoothing = smoothing_4;
                reveal(is_final_trial);
                assert(is_final_trial(
                    knots@,
                    data@,
                    weight_factors@,
                    half_order as int,
                    variance,
                    smoothing_4,
                    coefficients@,
                    stats@,
                ));
            }
            while trials < MAX_SEARCH_TRIALS && !solved
                invariant
                    trials <= MAX_SEARCH_TRIALS,
                    stats@.len() == 6,
                    coefficients@.len() == num_knots,
                    is_final_trial(
                        knots@,
                        data@,
                        weight_factors@,
                        half_order as int,
                        variance,
                        final_smoothing,
                        coefficients@,
                        stats@,
                    ),
                decreases MAX_SEARCH_TRIALS - trials, (if solved {
                    0int
                } else {
                    1int
                }),
            {
                if gcv_f3.le(gcv_f4) {
                    smoothing_2 = smoothing_4;
                    gcv_f2 = gcv_f4;
                    let error = smoothing_2.sub(smoothing_1).div(
                        smoothing_1.add(smoothing_2),
                    );
                    if error.mul(error).add(T::from_count(1)).eq_value(T::from_count(1))
                        || error.le(tolerance) {
                        solved = true;
                    } else {
                        smoothing_4 = smoothing_3;
                        gcv_f4 = gcv_f3;
                        alpha = alpha.div(tau);
                        smoothing_3 = smoothing_2.sub(alpha);
                        let out = fit_spline_coefficients_with_stats(
                            half_order,
                            data,
                            weight_factors,
                            variance,
                            smoothing_3,
                            epsilon,
                            spline_tableau,
                            weighted_matrix,
                            weighted_matrix_norm,
                        )?;
                        gcv_f3 = out.0;
                        coefficients = out.1;
                        stats = out.2;
                        proof {
                            final_smoothing = smoothing_3;
                            reveal(is_final_trial);
                            assert(is_final_trial(
                                knots@,
                                data@,
                                weight_factors@,
                                half_order as int,
                                variance,
                                smoothing_3,
                                coefficients@,
                                stats@,
                            ));
                        }
                        trials = trials + 1;
                    }
                } else {
                    smoothing_1 = smoothing_3;
                    gcv_f1 = gcv_f3;
                    let error = smoothing_2.sub(smoothing_1).div(
                        smoothing_1.add(smoothing_2),
                    );
                    if error.mul(error).add(T::from_count(1)).le(T::from_count(1))
                        || error.le(tolerance) {
                        solved = true;
                    } else {
                        smoothing_3 = smoothing_4;
                        gcv_f3 = gcv_f4;
                        alpha = alpha.div(tau);
                        smoothing_4 = smoothing_1.add(alpha);
                        let out = fit_spline_coefficients_with_stats(
                            half_order,
                            data,
                            weight_factors,
                            variance,
                            smoothing_4,
                            epsilon,
                            spline_tableau,
                            weighted_matrix,
                            weighted_matrix_norm,
                        )?;
                        gcv_f4 = out.0;
                        coefficients = out.1;
                        stats = out.2;
                        proof {
                            final_smoothing = smoothing_4;
                            reveal(is_final_trial);
                            assert(is_final_trial(
                                knots@,
                                data@,
                                weight_factors@,
                                half_order as int,
                                variance,
                                smoothing_4,
                                coefficients@,
                                stats@,
                            ));
                        }
                        trials = trials + 1;
                    }
                }
            }

            // Converged: one final trial at the bracket midpoint.
            smoothing_1 = T::from_count(1).div(T::from_count(2)).mul(
                smoothing_1.add(smoothing_2),
            );
            let out = fit_spline_coefficients_with_stats(
                half_order,
                data,
                weight_factors,
                variance,
                smoothing_1,
                epsilon,
                spline_tableau,
                weighted_matrix,
                weighted_matrix_norm,
            )?;
            gcv_f1 = out.0;
            coefficients = out.1;
            stats = out.2;
            proof {
                final_smoothing = smoothing_1;
                reveal(is_final_trial);
                assert(is_final_trial(
                    knots@,
                    data@,
                    weight_factors@,
                    half_order as int,
                    variance,
                    smoothing_1,
                    coefficients@,
                    stats@,
                ));
            }
        }
    }

    finish_search(
        coefficients,
        stats,
        Ghost(knots@),
        Ghost(data@),
        Ghost(weight_factors@),
        Ghost(half_order as int),
        Ghost(variance),
        Ghost(final_smoothing),
    )
}

/// Fits a GCV spline: validates the inputs, builds the basis and penalty
/// matrices, and selects the smoothing parameter. A declared `error_variance`
/// of zero asks for exact interpolation (one trial at zero smoothing); a
/// negative value asks for the GCV search with the variance re-estimated from
/// the final trial; a positive value asks for the known-variance search.
/// Returns the coefficients, the (possibly re-estimated) variance, and the six
/// statistics slots of the final trial: whatever the declared variance, the
/// returned pair is the complete output of one single fitter trial
/// (`is_final_trial`), never a mixture of trials and never partial.
#[verifier::loop_isolation(false)]
#[verifier::rlimit(100)]
#[verifier::spinoff_prover]
pub fn fit_gcv_spline<T: Scalar>(
    knots: &Vec<T>,
    data: &Vec<T>,
    weight_factors: &Vec<T>,
    half_order: usize,
    error_variance: T,
) -> (r: Result<(Vec<T>, T, Vec<T>), FittingError>)
    requires
        half_order >= 1,
        knots@.len() * (2 * half_order + 1) <= usize::MAX,
    ensures
        r is Ok <==> (knots@.len() >= 2 * half_order && strictly_increasing(knots@) && data@.len()
            == knots@.len() && weight_factors@.len() == knots@.len()),
        knots@.len() < 2 * half_order ==> (r matches Err(e) && e
            == FittingError::NotEnoughKnotsForOrder),
        knots@.len() >= 2 * half_order && !strictly_increasing(knots@) ==> (r matches Err(e) && e
            == FittingError::KnotsNotStrictlyIncreasing),
        knots@.len() >= 2 * half_order && strictly_increasing(knots@) && (data@.len()
            != knots@.len() || weight_factors@.len() != knots@.len()) ==> (r matches Err(e) && e
            == FittingError::VectorLengthMismatch),
        r matches Ok(out) ==> ({
            &&& out.0@.len() == knots@.len()
            &&& out.2@.len() == 6
            &&& error_variance.eq_spec(T::from_count_spec(0)) ==> out.1 == error_variance
            &&& !error_variance.eq_spec(T::from_count_spec(0)) && error_variance.lt_spec(
                T::from_count_spec(0),
            ) ==> out.1 == out.2@[5]
            &&& !error_variance.eq_spec(T::from_count_spec(0)) && !error_variance.lt_spec(
                T::from_count_spec(0),
            ) ==> out.1 == error_variance
            &&& error_variance.eq_spec(T::from_count_spec(0)) ==> forall|i: int|
                0 <= i < out.0@.len() ==> out.0@[i] == interpolating_coefficients(
                    knots@,
                    data@,
                    weight_factors@,
                    half_order as int,
                    i,
                )
            &&& error_variance.eq_spec(T::from_count_spec(0)) ==> out.2@
                == interpolating_statistics(
                knots@,
                data@,
                weight_factors@,
                half_order as int,
                error_variance,
            )
            &&& exists|p: T|
                is_final_trial(
                    knots@,
                    data@,
                    weight_factors@,
                    half_order as int,
                    error_variance,
                    p,
                    out.0@,
                    out.2@,
                )
        }),
{
    let num_knots = knots.len();
    check_order(half_order, num_knots)?;
    check_increasing(knots)?;
    check_vector_length(data, num_knots)?;
    check_vector_length(weight_factors, num_knots)?;

    let epsilon = T::from_count(1).div(T::from_count(1000000000000000));
    let mut variance = error_variance;
    let mut coefficients = filled_vec(T::from_count(0), num_knots);
    let mut stats = filled_vec(T::from_count(0), 6);
    let ghost mut final_smoothing: T = error_variance;

    // Design matrices and their norms, computed once.
    proof {
        assert(num_knots * (2 * half_order - 1) <= num_knots * (2 * half_order + 1))
            by (nonlinear_arith)
            requires
                num_knots >= 0,
                half_order >= 1,
        ;
    }
    let (spline_tableau, basis_l1_norm) = create_basis(half_order, knots)?;
    let (weighted_matrix, prep_norm) = create_weighted_matrix(half_order, knots, weight_factors)?;
    let weighted_matrix_norm = prep_norm.div(basis_l1_norm);

    proof {
        lemma_mul_div_exact(num_knots as int, 2 * half_order - 1);
        assert(spline_tableau@.len() as int % (2 * half_order - 1) == 0) by (nonlinear_arith)
            requires
                spline_tableau@.len() == num_knots * (2 * half_order - 1),
                half_order >= 1,
        ;
        assert(spline_tableau@ =~= fit_basis_tableau(knots@, half_order as int));
        assert(weighted_matrix@ =~= fit_penalty_matrix(
            knots@,
            weight_factors@,
            half_order as int,
        ));
        assert(weighted_matrix_norm == fit_penalty_norm(
            knots@,
            weight_factors@,
            half_order as int,
        ));
    }

    if variance.eq_value(T::from_count(0)) {
        // Declared exact data: a single trial at zero smoothing.
        let smoothing_1 = T::from_count(0);
        let out = fit_spline_coefficients_with_stats(
            half_order,
            data,
            weight_factors,
            variance,
            smoothing_1,
            epsilon,
            &spline_tableau,
            &weighted_matrix,
            weighted_matrix_norm,
        )?;
        coefficients = out.1;
        stats = out.2;
        proof {
            final_smoothing = smoothing_1;
            reveal(is_final_trial);
            assert(is_final_trial(
                knots@,
                data@,
                weight_factors@,
                half_order as int,
                error_variance,
                smoothing_1,
                coefficients@,
                stats@,
            ));
            assert(forall|i: int|
                0 <= i < coefficients@.len() ==> coefficients@[i] == interpolating_coefficients(
                    knots@,
                    data@,
                    weight_factors@,
                    half_order as int,
                    i,
                ));
            assert(stats@ == interpolating_statistics(
                knots@,
                data@,
                weight_factors@,
                half_order as int,
                error_variance,
            ));
        }
    } else {
        let out = search_smoothing(
            knots,
            data,
            weight_factors,
            half_order,
            variance,
            &spline_tableau,
            &weighted_matrix,
            weighted_matrix_norm,
        )?;
        coefficients = out.0;
        stats = out.1;
        proof {
            final_smoothing = choose|p: T|
                is_final_trial(
                    knots@,
                    data@,
                    weight_factors@,
                    half_order as int,
                    error_variance,
                    p,
                    coefficients@,
                    stats@,
                );
        }
        if variance.lt(T::from_count(0)) {
            variance = stats[5];
        }
    }

    let result = (coefficients, variance, stats);
    proof {
        assert(is_final_trial(
            knots@,
            data@,
            weight_factors@,
            half_order as int,
            error_variance,
            final_smoothing,
            result.0@,
            result.2@,
        ));
    }
    Ok(result)
}

} // verus!
