//! Forward elimination and back substitution against a decomposed band matrix.

use vstd::prelude::*;

use crate::band::lemma_band_entry;
use crate::band::lemma_rows_fit;
use crate::filled_vec;
use crate::scalar::Scalar;
use crate::support::FittingError;
use crate::support::check_order;

verus! {

/// The forward-eliminated value at knot `i`: the right-hand side entry with
/// each stored multiplier times an earlier eliminated value subtracted, in
/// band order.
pub open spec fn forward_eliminated<T: Scalar>(
    matrix: Seq<T>,
    rhs: Seq<T>,
    half_order: int,
    i: int,
) -> T {
    forward_partial(
        matrix,
        rhs,
        half_order,
        i,
        if half_order < i {
            half_order
        } else {
            i
        },
    )
}

/// The forward elimination at knot `i` after its first `j` subtractions.
pub open spec fn forward_partial<T: Scalar>(
    matrix: Seq<T>,
    rhs: Seq<T>,
    half_order: int,
    i: int,
    j: int,
) -> T
    decreases i, j,
{
    if j <= 0 || i < j {
        rhs[i]
    } else {
        forward_partial(matrix, rhs, half_order, i, j - 1).sub_spec(
            matrix[i * (2 * half_order + 1) + half_order - j].mul_spec(
                forward_partial(
                    matrix,
                    rhs,
                    half_order,
                    i - j,
                    if half_order < i - j {
                        half_order
                    } else {
                        i - j
                    },
                ),
            ),
        )
    }
}

/// The solution at knot `i`: the forward-eliminated value with each stored
/// upper entry times a later solution value subtracted, divided by the pivot.
pub open spec fn back_substituted<T: Scalar>(
    matrix: Seq<T>,
    rhs: Seq<T>,
    half_order: int,
    num_knots: int,
    i: int,
) -> T {
    back_partial(
        matrix,
        rhs,
        half_order,
        num_knots,
        i,
        if half_order < num_knots - 1 - i {
            half_order
        } else {
            num_knots - 1 - i
        },
    ).div_spec(matrix[i * (2 * half_order + 1) + half_order])
}

/// The back substitution at knot `i` after its first `j` subtractions.
pub open spec fn back_partial<T: Scalar>(
    matrix: Seq<T>,
    rhs: Seq<T>,
    half_order: int,
    num_knots: int,
    i: int,
    j: int,
) -> T
    decreases num_knots - i, j,
{
    if j <= 0 || i + j >= num_knots {
        forward_eliminated(matrix, rhs, half_order, i)
    } else {
        back_partial(matrix, rhs, half_order, num_knots, i, j - 1).sub_spec(
            matrix[i * (2 * half_order + 1) + half_order + j].mul_spec(
                back_partial(
                    matrix,
                    rhs,
                    half_order,
                    num_knots,
                    i + j,
                    if half_order < num_knots - 1 - (i + j) {
                        half_order
                    } else {
                        num_knots - 1 - (i + j)
                    },
                ).div_spec(matrix[(i + j) * (2 * half_order + 1) + half_order]),
            ),
        )
    }
}

/// Solves the banded system held in a decomposed `matrix` against the
/// right-hand side `rhs`: each returned entry is exactly the band
/// forward-elimination and back-substitution recurrence over the scalar
/// arithmetic. With bandwidth zero the system is diagonal and solved directly.
#[verifier::loop_isolation(false)]
#[verifier::rlimit(60)]
pub fn solve_decomposed_system<T: Scalar>(
    matrix: &Vec<T>,
    rhs: &Vec<T>,
    half_order: usize,
) -> (r: Result<Vec<T>, FittingError>)
    requires
        half_order <= usize::MAX / 2,
        rhs@.len() == matrix@.len() as int / (2 * half_order + 1),
    ensures
        r is Ok <==> matrix@.len() as int / (2 * half_order + 1) >= 2 * half_order,
        r matches Err(e) ==> e == FittingError::NotEnoughKnotsForOrder,
        r matches Ok(s) ==> ({
            &&& s@.len() == matrix@.len() as int / (2 * half_order + 1)
            &&& forall|i: int|
                0 <= i < s@.len() ==> s@[i] == back_substituted(
                    matrix@,
                    rhs@,
                    half_order as int,
                    s@.len() as int,
                    i,
                )
        }),
{
    let width = 2 * half_order + 1;
    let num_knots = matrix.len() / width;
    check_order(half_order, num_knots)?;
    proof {
        lemma_rows_fit(matrix@.len() as int, width as int);
    }
    let mut solution = filled_vec(T::from_count(0), num_knots);

    if half_order == 0 {
        let mut row: usize = 0;
        while row < num_knots
            invariant
                row <= num_knots,
                solution@.len() == num_knots,
                forall|i: int|
                    0 <= i < row ==> solution@[i] == back_substituted(
                        matrix@,
                        rhs@,
                        half_order as int,
                        num_knots as int,
                        i,
                    ),
            decreases num_knots - row,
        {
            proof {
                lemma_band_entry(row as int, half_order as int, num_knots as int, width as int);
            }
            solution.set(row, rhs[row].div(matrix[row * width + half_order]));
            row = row + 1;
        }
    } else {
        // Forward elimination.
        solution.set(0, rhs[0]);
        let mut row: usize = 1;
        while row < num_knots
            invariant
                1 <= row <= num_knots,
                solution@.len() == num_knots,
                forall|i: int|
                    0 <= i < row ==> solution@[i] == forward_eliminated(
                        matrix@,
                        rhs@,
                        half_order as int,
                        i,
                    ),
            decreases num_knots - row,
        {
            let outer = row + 1;
            let inner_limit = if half_order < outer - 1 {
                half_order
            } else {
                outer - 1
            };
            let mut solution_point = rhs[outer - 1];
            let mut inner: usize = 1;
            while inner <= inner_limit
                invariant
                    1 <= inner <= inner_limit + 1,
                    solution@.len() == num_knots,
                    solution_point == forward_partial(
                        matrix@,
                        rhs@,
                        half_order as int,
                        row as int,
                        inner - 1,
                    ),
                    forall|i: int|
                        0 <= i < row ==> solution@[i] == forward_eliminated(
                            matrix@,
                            rhs@,
                            half_order as int,
                            i,
                        ),
                decreases inner_limit + 1 - inner,
            {
                proof {
                    lemma_band_entry(
                        outer - 1 as int,
                        half_order - inner as int,
                        num_knots as int,
                        width as int,
                    );
                }
                solution_point = solution_point.sub(
                    matrix[(outer - 1) * width + (half_order - inner)].mul(
                        solution[outer - inner - 1],
                    ),
                );
                inner = inner + 1;
            }
            solution.set(outer - 1, solution_point);
            row = row + 1;
        }

        // Back substitution.
        proof {
            lemma_band_entry(
                num_knots - 1 as int,
                half_order as int,
                num_knots as int,
                width as int,
            );
        }
        solution.set(
            num_knots - 1,
            solution[num_knots - 1].div(matrix[(num_knots - 1) * width + half_order]),
        );
        let mut outer: usize = num_knots - 1;
        while outer >= 1
            invariant
                0 <= outer <= num_knots - 1,
                solution@.len() == num_knots,
                forall|i: int|
                    0 <= i < outer ==> solution@[i] == forward_eliminated(
                        matrix@,
                        rhs@,
                        half_order as int,
                        i,
                    ),
                forall|i: int|
                    outer <= i < num_knots ==> solution@[i] == back_substituted(
                        matrix@,
                        rhs@,
                        half_order as int,
                        num_knots as int,
                        i,
                    ),
            decreases outer,
        {
            let inner_limit = if half_order < num_knots - outer {
                half_order
            } else {
                num_knots - outer
            };
            let mut solution_point = solution[outer - 1];
            let mut inner: usize = 1;
            while inner <= inner_limit
                invariant
                    1 <= inner <= inner_limit + 1,
                    solution@.len() == num_knots,
                    solution_point == back_partial(
                        matrix@,
                        rhs@,
                        half_order as int,
                        num_knots as int,
                        outer - 1,
                        inner - 1,
                    ),
                    forall|i: int|
                        outer <= i < num_knots ==> solution@[i] == back_substituted(
                            matrix@,
                            rhs@,
                            half_order as int,
                            num_knots as int,
                            i,
                        ),
                decreases inner_limit + 1 - inner,
            {
                proof {
                    lemma_band_entry(
                        outer - 1 as int,
                        half_order + inner as int,
                        num_knots as int,
                        width as int,
                    );
                }
                solution_point = solution_point.sub(
                    matrix[(outer - 1) * width + half_order + inner].mul(
                        solution[outer + inner - 1],
                    ),
                );
                inner = inner + 1;
            }
            proof {
                lemma_band_entry(
                    outer - 1 as int,
                    half_order as int,
                    num_knots as int,
                    width as int,
                );
            }
            solution.set(
                outer - 1,
                solution_point.div(matrix[(outer - 1) * width + half_order]),
            );
            outer = outer - 1;
        }
    }

    Ok(solution)
}

} // verus!
