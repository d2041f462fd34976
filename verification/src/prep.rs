//! Construction of the banded roughness-penalty matrix, scaled per row by the
//! point weights.

use vstd::prelude::*;

use crate::band::lemma_band_entry;
use crate::band::lemma_entry_encode;
use crate::band::lemma_flat_decode;
use crate::band::lemma_flat_row_bound;
use crate::basis::abs_sum;
use crate::basis::lemma_abs_sum_prefix;
use crate::filled_vec;
use crate::scalar::Scalar;
use crate::scalar::strictly_increasing;
use crate::support::FittingError;
use crate::support::check_increasing;
use crate::support::check_order;
use crate::support::check_vector_length;

verus! {

/// Where the column pointer of the penalty assembly stands when the window of
/// knot `knot_index` begins: the first `half_order` windows advance by one
/// entry, all later ones by a full band row.
pub open spec fn penalty_window_start(knot_index: int, half_order: int, width: int) -> int {
    if knot_index <= half_order + 1 {
        half_order + knot_index
    } else {
        (knot_index - half_order) * width
    }
}

/// The alternating factorial scale before any boundary sign flip: minus one
/// times the factors `2..=half_order` negated, times `half_order+1..=i`.
pub open spec fn factor_seed<T: Scalar>(half_order: int, i: int) -> T
    decreases i + 1,
{
    if i <= 1 {
        T::from_count_spec(1).neg_spec()
    } else if i <= half_order {
        factor_seed::<T>(half_order, i - 1).mul_spec(T::from_count_spec(i as u64).neg_spec())
    } else {
        factor_seed::<T>(half_order, i - 1).mul_spec(T::from_count_spec(i as u64))
    }
}

/// The running factor when knot `k`'s window is built: the seed, negated once
/// for every knot within `half_order` of the right boundary seen so far.
pub open spec fn factor_at<T: Scalar>(half_order: int, num_knots: int, k: int) -> T
    decreases k,
{
    if k <= 0 {
        factor_seed::<T>(half_order, 2 * half_order - 1)
    } else if k > num_knots - half_order {
        factor_at::<T>(half_order, num_knots, k - 1).neg_spec()
    } else {
        factor_at::<T>(half_order, num_knots, k - 1)
    }
}

/// The numerator of knot `k`'s window entries: the running factor, scaled by
/// the spanned knot gap for interior knots.
pub open spec fn window_factor<T: Scalar>(knots: Seq<T>, half_order: int, k: int) -> T {
    let n = knots.len() as int;
    if k > n - half_order || k < half_order + 1 {
        factor_at::<T>(half_order, n, k)
    } else {
        factor_at::<T>(half_order, n, k).mul_spec(
            knots[k + half_order - 1].sub_spec(knots[k - half_order - 1]),
        )
    }
}

/// `x` divided, in ascending order, by the gaps from knot `outer` to every
/// knot of `lo..=hi` except `outer` itself.
pub open spec fn divided_by_gaps<T: Scalar>(knots: Seq<T>, x: T, outer: int, lo: int, hi: int) -> T
    decreases hi - lo + 1,
{
    if hi < lo {
        x
    } else if hi == outer {
        divided_by_gaps(knots, x, outer, lo, hi - 1)
    } else {
        divided_by_gaps(knots, x, outer, lo, hi - 1).div_spec(
            knots[outer - 1].sub_spec(knots[hi - 1]),
        )
    }
}

/// The unweighted penalty entry of knot `k`'s window at position `outer`: the
/// divided difference of the window factor over the window's knots.
pub open spec fn penalty_factor<T: Scalar>(knots: Seq<T>, half_order: int, k: int, outer: int) -> T {
    let n = knots.len() as int;
    let lo = if k - half_order < 1 {
        1int
    } else {
        k - half_order
    };
    let hi = if half_order + k > n {
        n
    } else {
        half_order + k
    };
    divided_by_gaps(knots, window_factor(knots, half_order, k), outer, lo, hi)
}

/// Entry `j` of the unweighted penalty buffer while the assembly stands
/// before window `upto_knot`'s entry at band row `upto_outer`: finished
/// windows hold their divided differences, everything else is still zero.
pub open spec fn penalty_progress<T: Scalar>(
    knots: Seq<T>,
    half_order: int,
    upto_knot: int,
    upto_outer: int,
    j: int,
) -> T {
    let row = j / (2 * half_order + 1);
    let col = j % (2 * half_order + 1);
    let k = row + col - half_order + 1;
    if half_order <= row + col && (k < upto_knot || (k == upto_knot && row + 1 < upto_outer)) {
        penalty_factor(knots, half_order, k, row + 1)
    } else {
        T::from_count_spec(0)
    }
}

/// Entry `j` of the finished penalty matrix: the divided difference of its
/// band position, divided by its row's weight (the corners outside the band
/// are zero, weighted exactly as the scaling pass leaves them).
pub open spec fn penalty_entry<T: Scalar>(
    knots: Seq<T>,
    weights_diagonal: Seq<T>,
    half_order: int,
    j: int,
) -> T {
    penalty_progress(knots, half_order, knots.len() as int + 1, 0, j).div_spec(
        weights_diagonal[j / (2 * half_order + 1)],
    )
}

/// Knot `k`'s window entry `outer` stands at band position
/// `(outer - 1, half_order + k - outer)`.
proof fn lemma_window_position(
    k: int,
    outer: int,
    index_1: int,
    half_order: int,
    width: int,
    start: int,
)
    by (nonlinear_arith)
    requires
        width == 2 * half_order + 1,
        half_order >= 1,
        1 <= k,
        start == penalty_window_start(k, half_order, width),
        index_1 == (if k >= half_order + 2 {
            k - half_order
        } else {
            1int
        }),
        index_1 <= outer,
    ensures
        start + (outer - index_1) * (2 * half_order) - 1 == (outer - 1) * width + (half_order + k
            - outer),
        outer == index_1 ==> start - 1 == (outer - 1) * width + (half_order + k - outer),
{
}

/// Writes the interior entries of knot `knot_index`'s window (all but its
/// first and last) and moves the write pointer past them.
#[verifier::loop_isolation(false)]
#[verifier::rlimit(100)]
fn build_window_interior<T: Scalar>(
    weighted_matrix: &mut Vec<T>,
    knots: &Vec<T>,
    half_order: usize,
    num_knots: usize,
    knot_index: usize,
    index_1: usize,
    index_2: usize,
    order_index: usize,
    matrix_index: usize,
    factor: T,
) -> (final_index: usize)
    requires
        half_order >= 1,
        2 * half_order <= num_knots,
        1 <= knot_index <= num_knots,
        knots@.len() == num_knots,
        old(weighted_matrix)@.len() == num_knots * (2 * half_order + 1),
        old(weighted_matrix)@.len() <= usize::MAX,
        1 <= index_1,
        index_1 + 1 <= index_2 <= num_knots,
        order_index == penalty_window_start(
            knot_index as int,
            half_order as int,
            2 * half_order + 1,
        ),
        index_1 == (if knot_index >= half_order + 2 {
            knot_index - half_order
        } else {
            1int
        }),
        index_2 == (if half_order + knot_index <= num_knots {
            half_order + knot_index
        } else {
            num_knots as int
        }),
        matrix_index == order_index + 2 * half_order,
        order_index >= 1,
        order_index + (index_2 - index_1) * (2 * half_order) <= num_knots * (2 * half_order + 1),
        factor == window_factor(knots@, half_order as int, knot_index as int),
        forall|j: int|
            0 <= j < old(weighted_matrix)@.len() ==> old(weighted_matrix)@[j] == penalty_progress(
                knots@,
                half_order as int,
                knot_index as int,
                index_1 + 1,
                j,
            ),
    ensures
        final(weighted_matrix)@.len() == old(weighted_matrix)@.len(),
        (index_2 >= index_1 + 2 && final_index == order_index + (index_2 - index_1) * (2
            * half_order)) || (index_2 == index_1 + 1 && final_index == order_index + 2
            * half_order),
        forall|j: int|
            0 <= j < old(weighted_matrix)@.len() ==> final(weighted_matrix)@[j]
                == penalty_progress(
                knots@,
                half_order as int,
                knot_index as int,
                index_2 as int,
                j,
            ),
{
    let width = 2 * half_order + 1;
    proof {
        assert(num_knots * 3 <= num_knots * width) by (nonlinear_arith)
            requires
                width >= 3,
                num_knots >= 0,
        ;
    }
    let mut matrix_index = matrix_index;
    let mut matrix_factor = factor;
    let mut knot_value = factor;
    if index_1 + 1 <= index_2 - 1 {
        proof {
            assert((index_1 + 1 - index_1) * (2 * half_order) == 2 * half_order)
                by (nonlinear_arith);
        }
        let mut outer: usize = index_1 + 1;
        while outer <= index_2 - 1
            invariant
                index_1 + 1 <= outer <= index_2,
                matrix_index == order_index + (outer - index_1) * (2 * half_order),
                weighted_matrix@.len() == num_knots * width,
                forall|j: int|
                    0 <= j < weighted_matrix@.len() ==> weighted_matrix@[j] == penalty_progress(
                        knots@,
                        half_order as int,
                        knot_index as int,
                        outer as int,
                        j,
                    ),
            decreases index_2 - outer,
        {
            matrix_factor = factor;
            knot_value = knots[outer - 1];
            let mut inner: usize = index_1;
            while inner <= outer - 1
                invariant
                    index_1 <= inner <= outer,
                    matrix_factor == divided_by_gaps(
                        knots@,
                        window_factor(knots@, half_order as int, knot_index as int),
                        outer as int,
                        index_1 as int,
                        inner - 1,
                    ),
                decreases outer - inner,
            {
                matrix_factor = matrix_factor.div(knot_value.sub(knots[inner - 1]));
                inner = inner + 1;
            }
            assert(matrix_factor == divided_by_gaps(
                knots@,
                window_factor(knots@, half_order as int, knot_index as int),
                outer as int,
                index_1 as int,
                outer as int,
            ));
            let mut inner: usize = outer + 1;
            while inner <= index_2
                invariant
                    outer + 1 <= inner <= index_2 + 1,
                    matrix_factor == divided_by_gaps(
                        knots@,
                        window_factor(knots@, half_order as int, knot_index as int),
                        outer as int,
                        index_1 as int,
                        inner - 1,
                    ),
                decreases index_2 + 1 - inner,
            {
                matrix_factor = matrix_factor.div(knot_value.sub(knots[inner - 1]));
                inner = inner + 1;
            }
            proof {
                assert(matrix_index + 2 * half_order <= order_index + (index_2 - index_1) * (2
                    * half_order) && matrix_index + 2 * half_order == order_index + (outer + 1
                    - index_1) * (2 * half_order)) by (nonlinear_arith)
                    requires
                        matrix_index == order_index + (outer - index_1) * (2 * half_order),
                        index_1 <= outer <= index_2 - 1,
                        half_order >= 1,
                ;
                lemma_window_position(
                    knot_index as int,
                    outer as int,
                    index_1 as int,
                    half_order as int,
                    width as int,
                    order_index as int,
                );
                lemma_entry_encode(
                    outer - 1 as int,
                    half_order + knot_index - outer as int,
                    width as int,
                );
            }
            weighted_matrix.set(matrix_index - 1, matrix_factor);
            assert forall|j: int| 0 <= j < weighted_matrix@.len() implies weighted_matrix@[j]
                == penalty_progress(
                knots@,
                half_order as int,
                knot_index as int,
                outer + 1,
                j,
            ) by {
                lemma_flat_decode(j, width as int);
                lemma_flat_row_bound(j, width as int, num_knots as int);
                if j == matrix_index - 1 {
                    assert(j == (outer - 1) * width + (half_order + knot_index - outer));
                    assert(j / (width as int) == outer - 1);
                    assert(j % (width as int) == half_order + knot_index - outer);
                }
            }
            matrix_index = matrix_index + 2 * half_order;
            outer = outer + 1;
        }
    }

    matrix_index
}

/// Writes knot `knot_index`'s window of divided differences into the band
/// buffer: one entry per window knot, each the window factor divided by its
/// gaps, landing one band row apart.
#[verifier::loop_isolation(false)]
#[verifier::rlimit(100)]
fn build_window<T: Scalar>(
    weighted_matrix: &mut Vec<T>,
    knots: &Vec<T>,
    half_order: usize,
    num_knots: usize,
    knot_index: usize,
    index_1: usize,
    index_2: usize,
    order_index: usize,
    factor: T,
)
    requires
        half_order >= 1,
        2 * half_order <= num_knots,
        1 <= knot_index <= num_knots,
        knots@.len() == num_knots,
        old(weighted_matrix)@.len() == num_knots * (2 * half_order + 1),
        old(weighted_matrix)@.len() <= usize::MAX,
        index_1 == (if knot_index >= half_order + 2 {
            knot_index - half_order
        } else {
            1int
        }),
        index_2 == (if half_order + knot_index <= num_knots {
            half_order + knot_index
        } else {
            num_knots as int
        }),
        order_index == penalty_window_start(
            knot_index as int,
            half_order as int,
            2 * half_order + 1,
        ),
        factor == window_factor(knots@, half_order as int, knot_index as int),
        forall|j: int|
            0 <= j < old(weighted_matrix)@.len() ==> old(weighted_matrix)@[j] == penalty_progress(
                knots@,
                half_order as int,
                knot_index as int,
                0,
                j,
            ),
    ensures
        final(weighted_matrix)@.len() == old(weighted_matrix)@.len(),
        forall|j: int|
            0 <= j < old(weighted_matrix)@.len() ==> final(weighted_matrix)@[j]
                == penalty_progress(
                knots@,
                half_order as int,
                knot_index + 1,
                0,
                j,
            ),
{
    let width = 2 * half_order + 1;
    proof {
        assert(num_knots * 3 <= num_knots * width) by (nonlinear_arith)
            requires
                width >= 3,
                num_knots >= 0,
        ;
        assert(order_index >= 1 && 2 * half_order <= (index_2 - index_1) * (2 * half_order)
            && order_index + (index_2 - index_1) * (2 * half_order) <= num_knots * width)
            by (nonlinear_arith)
            requires
                width == 2 * half_order + 1,
                half_order >= 1,
                2 * half_order <= num_knots,
                1 <= knot_index <= num_knots,
                order_index == penalty_window_start(
                    knot_index as int,
                    half_order as int,
                    width as int,
                ),
                index_1 == (if knot_index >= half_order + 2 {
                    knot_index - half_order
                } else {
                    1int
                }),
                index_2 == (if half_order + knot_index <= num_knots {
                    half_order + knot_index
                } else {
                    num_knots as int
                }),
        ;
    }

    let mut matrix_index = order_index;
    let mut matrix_factor = factor;
    let mut knot_value = knots[index_1 - 1];
    proof {
        assert(divided_by_gaps(
            knots@,
            window_factor(knots@, half_order as int, knot_index as int),
            index_1 as int,
            index_1 as int,
            index_1 - 1,
        ) == window_factor(knots@, half_order as int, knot_index as int));
    }
    let mut idx: usize = index_1 + 1;
    while idx <= index_2
        invariant
            index_1 + 1 <= idx <= index_2 + 1,
            matrix_factor == divided_by_gaps(
                knots@,
                window_factor(knots@, half_order as int, knot_index as int),
                index_1 as int,
                index_1 as int,
                idx - 1,
            ),
        decreases index_2 + 1 - idx,
    {
        matrix_factor = matrix_factor.div(knot_value.sub(knots[idx - 1]));
        idx = idx + 1;
    }
    proof {
        lemma_window_position(
            knot_index as int,
            index_1 as int,
            index_1 as int,
            half_order as int,
            width as int,
            order_index as int,
        );
        lemma_entry_encode(
            index_1 - 1 as int,
            half_order + knot_index - index_1 as int,
            width as int,
        );
    }
    weighted_matrix.set(matrix_index - 1, matrix_factor);
    assert forall|j: int| 0 <= j < weighted_matrix@.len() implies weighted_matrix@[j]
        == penalty_progress(
        knots@,
        half_order as int,
        knot_index as int,
        index_1 + 1,
        j,
    ) by {
        lemma_flat_decode(j, width as int);
        lemma_flat_row_bound(j, width as int, num_knots as int);
        if j == matrix_index - 1 {
            assert(j == (index_1 - 1) * width + (half_order + knot_index - index_1));
            assert(j / (width as int) == index_1 - 1);
            assert(j % (width as int) == half_order + knot_index - index_1);
        }
    }
    matrix_index = matrix_index + 2 * half_order;

    matrix_index = build_window_interior(
        weighted_matrix,
        knots,
        half_order,
        num_knots,
        knot_index,
        index_1,
        index_2,
        order_index,
        matrix_index,
        factor,
    );

    matrix_factor = factor;
    knot_value = knots[index_2 - 1];
    proof {
        assert(divided_by_gaps(
            knots@,
            window_factor(knots@, half_order as int, knot_index as int),
            index_2 as int,
            index_1 as int,
            index_1 - 1,
        ) == window_factor(knots@, half_order as int, knot_index as int));
    }
    let mut idx: usize = index_1;
    while idx <= index_2 - 1
        invariant
            index_1 <= idx <= index_2,
            matrix_factor == divided_by_gaps(
                knots@,
                window_factor(knots@, half_order as int, knot_index as int),
                index_2 as int,
                index_1 as int,
                idx - 1,
            ),
        decreases index_2 - idx,
    {
        matrix_factor = matrix_factor.div(knot_value.sub(knots[idx - 1]));
        idx = idx + 1;
    }
    proof {
        assert(matrix_index == order_index + (index_2 - index_1) * (2 * half_order))
            by (nonlinear_arith)
            requires
                (index_2 >= index_1 + 2 && matrix_index == order_index + (index_2 - index_1) * (2
                    * half_order)) || (index_2 == index_1 + 1 && matrix_index == order_index + 2
                    * half_order),
                half_order >= 1,
        ;
        lemma_window_position(
            knot_index as int,
            index_2 as int,
            index_1 as int,
            half_order as int,
            width as int,
            order_index as int,
        );
        lemma_entry_encode(
            index_2 - 1 as int,
            half_order + knot_index - index_2 as int,
            width as int,
        );
    }
    weighted_matrix.set(matrix_index - 1, matrix_factor);
    assert forall|j: int| 0 <= j < weighted_matrix@.len() implies weighted_matrix@[j]
        == penalty_progress(
        knots@,
        half_order as int,
        knot_index + 1,
        0,
        j,
    ) by {
        lemma_flat_decode(j, width as int);
        lemma_flat_row_bound(j, width as int, num_knots as int);
        if j == matrix_index - 1 {
            assert(j == (index_2 - 1) * width + (half_order + knot_index - index_2));
            assert(j / (width as int) == index_2 - 1);
            assert(j % (width as int) == half_order + knot_index - index_2);
        }
    }
}

/// Builds the banded matrix of the `2 * half_order`-th divided difference
/// operator: a leading alternating factorial scale, then one window of divided
/// differences per knot (truncated near both boundaries), each row divided by
/// its weight. Every entry of the returned matrix is pinned to
/// `penalty_entry`, and the returned norm is its mean absolute value.
#[verifier::loop_isolation(false)]
#[verifier::rlimit(100)]
pub fn create_weighted_matrix<T: Scalar>(
    half_order: usize,
    knots: &Vec<T>,
    weights_diagonal: &Vec<T>,
) -> (r: Result<(Vec<T>, T), FittingError>)
    requires
        half_order >= 1,
        knots@.len() * (2 * half_order + 1) <= usize::MAX,
    ensures
        r is Ok <==> (knots@.len() >= 2 && strictly_increasing(knots@) && knots@.len() >= 2
            * half_order && weights_diagonal@.len() == knots@.len()),
        knots@.len() < 2 ==> (r matches Err(e) && e == FittingError::InsufficientKnots),
        knots@.len() >= 2 && !strictly_increasing(knots@) ==> (r matches Err(e) && e
            == FittingError::KnotsNotStrictlyIncreasing),
        knots@.len() >= 2 && strictly_increasing(knots@) && knots@.len() < 2 * half_order ==> (
        r matches Err(e) && e == FittingError::NotEnoughKnotsForOrder),
        knots@.len() >= 2 && strictly_increasing(knots@) && knots@.len() >= 2 * half_order
            && weights_diagonal@.len() != knots@.len() ==> (r matches Err(e) && e
            == FittingError::VectorLengthMismatch),
        r matches Ok(out) ==> ({
            &&& out.0@.len() == knots@.len() * (2 * half_order + 1)
            &&& forall|j: int|
                0 <= j < out.0@.len() ==> out.0@[j] == penalty_entry(
                    knots@,
                    weights_diagonal@,
                    half_order as int,
                    j,
                )
            &&& out.1 == abs_sum(out.0@, out.0@.len() - 1).div_spec(
                T::from_count_spec(knots@.len() as u64),
            )
        }),
{
    let num_knots = knots.len();
    check_increasing(knots)?;
    check_order(half_order, num_knots)?;
    check_vector_length(weights_diagonal, num_knots)?;

    let width = 2 * half_order + 1;
    let mut weighted_matrix = filled_vec(T::from_count(0), num_knots * width);
    proof {
        assert(num_knots * 3 <= num_knots * width) by (nonlinear_arith)
            requires
                width >= 3,
                num_knots >= 0,
        ;
    }

    // Leading alternating factorial factor.
    let mut factor_1 = T::from_count(1).neg();
    if half_order != 1 {
        let mut idx: usize = 2;
        while idx <= half_order
            invariant
                2 <= idx <= half_order + 1,
                factor_1 == factor_seed::<T>(half_order as int, idx - 1),
            decreases half_order + 1 - idx,
        {
            factor_1 = factor_1.mul(T::from_count(idx as u64).neg());
            idx = idx + 1;
        }
        let mut idx: usize = half_order + 1;
        while idx <= 2 * half_order - 1
            invariant
                half_order + 1 <= idx <= 2 * half_order,
                factor_1 == factor_seed::<T>(half_order as int, idx - 1),
            decreases 2 * half_order - idx,
        {
            factor_1 = factor_1.mul(T::from_count(idx as u64));
            idx = idx + 1;
        }
    }
    assert(factor_1 == factor_at::<T>(half_order as int, num_knots as int, 0));

    // Unweighted divided-difference windows, column by column.
    let mut index_1: usize = 1;
    let mut index_2: usize = half_order;
    let mut order_index: usize = half_order + 1;
    let mut row: usize = 0;
    while row < num_knots
        invariant
            row <= num_knots,
            weighted_matrix@.len() == num_knots * width,
            factor_1 == factor_at::<T>(half_order as int, num_knots as int, row as int),
            order_index == penalty_window_start(row as int + 1, half_order as int, width as int),
            index_1 == (if row >= half_order + 1 {
                row - half_order
            } else {
                1int
            }),
            index_2 == (if half_order + row <= num_knots {
                half_order + row
            } else {
                num_knots as int
            }),
            forall|j: int|
                0 <= j < weighted_matrix@.len() ==> weighted_matrix@[j] == penalty_progress(
                    knots@,
                    half_order as int,
                    row as int + 1,
                    0,
                    j,
                ),
        decreases num_knots - row,
    {
        let knot_index = row + 1;
        let mut increment = 2 * half_order + 1;
        let mut factor = factor_1;
        if knot_index > num_knots - half_order {
            factor_1 = factor_1.neg();
            factor = factor_1;
        } else {
            if knot_index < half_order + 1 {
                increment = 1;
                factor = factor_1;
            } else {
                factor = factor_1.mul(
                    knots[knot_index + half_order - 1].sub(knots[knot_index - half_order - 1]),
                );
            }
        }
        assert(factor_1 == factor_at::<T>(
            half_order as int,
            num_knots as int,
            knot_index as int,
        ));
        assert(factor == window_factor(knots@, half_order as int, knot_index as int));
        if knot_index > half_order + 1 {
            index_1 = index_1 + 1;
        }
        if index_2 < num_knots {
            index_2 = index_2 + 1;
        }

        build_window(
            &mut weighted_matrix,
            knots,
            half_order,
            num_knots,
            knot_index,
            index_1,
            index_2,
            order_index,
            factor,
        );

        proof {
            assert(penalty_window_start(row as int + 1, half_order as int, width as int)
                + increment == penalty_window_start(row as int + 2, half_order as int, width as int)
                && penalty_window_start(row as int + 2, half_order as int, width as int)
                <= num_knots * width) by (nonlinear_arith)
                requires
                    width == 2 * half_order + 1,
                    half_order >= 1,
                    2 * half_order <= num_knots,
                    row + 1 <= num_knots,
                    increment == (if row + 1 <= half_order && row + 1 <= num_knots - half_order {
                        1int
                    } else {
                        width as int
                    }),
            ;
        }
        order_index = order_index + increment;
        row = row + 1;
    }

    // Scale each row by its weight and accumulate the mean absolute value.
    let mut matrix_index: usize = 0;
    let mut matrix_norm = T::from_count(0);
    let mut row: usize = 0;
    while row < num_knots
        invariant
            row <= num_knots,
            matrix_index == row * width,
            weighted_matrix@.len() == num_knots * width,
            matrix_norm == abs_sum(weighted_matrix@, matrix_index - 1),
            forall|j: int|
                0 <= j < weighted_matrix@.len() ==> weighted_matrix@[j] == (if j < row * width {
                    penalty_entry(knots@, weights_diagonal@, half_order as int, j)
                } else {
                    penalty_progress(knots@, half_order as int, num_knots as int + 1, 0, j)
                }),
        decreases num_knots - row,
    {
        let current_weight = weights_diagonal[row];
        let mut inner: usize = 0;
        while inner < width
            invariant
                inner <= width,
                matrix_index == row * width + inner,
                weighted_matrix@.len() == num_knots * width,
                matrix_norm == abs_sum(weighted_matrix@, matrix_index - 1),
                forall|j: int|
                    0 <= j < weighted_matrix@.len() ==> weighted_matrix@[j] == (if j < row * width
                        + inner {
                        penalty_entry(knots@, weights_diagonal@, half_order as int, j)
                    } else {
                        penalty_progress(knots@, half_order as int, num_knots as int + 1, 0, j)
                    }),
            decreases width - inner,
        {
            proof {
                lemma_band_entry(row as int, inner as int, num_knots as int, width as int);
                lemma_entry_encode(row as int, inner as int, width as int);
            }
            let ghost before = weighted_matrix@;
            weighted_matrix.set(matrix_index, weighted_matrix[matrix_index].div(current_weight));
            matrix_norm = matrix_norm.add(weighted_matrix[matrix_index].abs());
            proof {
                lemma_abs_sum_prefix(before, weighted_matrix@, matrix_index - 1);
                assert forall|j: int| 0 <= j < weighted_matrix@.len() implies weighted_matrix@[j]
                    == (if j < row * width + inner + 1 {
                    penalty_entry(knots@, weights_diagonal@, half_order as int, j)
                } else {
                    penalty_progress(knots@, half_order as int, num_knots as int + 1, 0, j)
                }) by {
                    lemma_flat_decode(j, width as int);
                }
            }
            matrix_index = matrix_index + 1;
            inner = inner + 1;
        }
        proof {
            assert((row + 1) * width == row * width + width) by (nonlinear_arith);
        }
        row = row + 1;
    }
    matrix_norm = matrix_norm.div(T::from_count(num_knots as u64));

    Ok((weighted_matrix, matrix_norm))
}

} // verus!
