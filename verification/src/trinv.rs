//! Trace of (band matrix · inverse of a decomposed band matrix), computed
//! without forming a dense inverse.

use vstd::prelude::*;

use crate::band::lemma_band_entry;
use crate::band::lemma_entry_encode;
use crate::band::lemma_flat_decode;
use crate::band::lemma_flat_row_bound;
use crate::band::lemma_flat_row_lower;
use crate::band::lemma_rows_fit;
use crate::bandet::original_diag;
use crate::bandet::original_lower;
use crate::bandet::original_upper;
use crate::scalar::Scalar;
use crate::support::FittingError;
use crate::support::check_matrix_size;
use crate::support::check_order;

verus! {

/// The reciprocal of row `r`'s decomposed pivot.
pub open spec fn pivot_inverse<T: Scalar>(a: Seq<T>, m: int, r: int) -> T {
    T::from_count_spec(1).div_spec(original_diag(a, m, r))
}

/// What the sweep saves of row `k`'s upper band: the entry scaled by the
/// pivot's reciprocal.
pub open spec fn saved_upper<T: Scalar>(a: Seq<T>, m: int, k: int, idx: int) -> T {
    original_upper(a, m, k, idx).mul_spec(pivot_inverse(a, m, k))
}

/// What the sweep saves of row `k`'s column of multipliers: the multiplier
/// standing `idx` rows below it.
pub open spec fn saved_lower<T: Scalar>(a: Seq<T>, m: int, k: int, idx: int) -> T {
    original_lower(a, m, k + idx, idx)
}

/// The inverse's upper band entry `o` places right of pivot `k`, after its
/// first `inner` subtractions: each saved upper times the already inverted
/// entry the band product walks through.
pub open spec fn inverse_upper_sum<T: Scalar>(
    a: Seq<T>,
    m: int,
    n: int,
    k: int,
    o: int,
    inner: int,
) -> T
    decreases n - k, 0int, 0int, inner,
{
    if inner <= 0 || k < 1 || k > n - 1 || inner > m || inner > n - k || o < 1 || o > m || o > n
        - k {
        T::from_count_spec(0)
    } else {
        inverse_upper_sum(a, m, n, k, o, inner - 1).sub_spec(
            saved_upper(a, m, k, inner).mul_spec(
                if o - inner > 0 {
                    inverse_upper(a, m, n, k + inner, o - inner)
                } else if o == inner {
                    inverse_diag(a, m, n, k + inner)
                } else {
                    inverse_lower(a, m, n, k + o, inner - o)
                },
            ),
        )
    }
}

/// The inverse's upper band entry `o` places right of pivot `k`.
pub open spec fn inverse_upper<T: Scalar>(a: Seq<T>, m: int, n: int, k: int, o: int) -> T
    decreases n - k, 0int, 0int, m + 2,
{
    if k < 1 || k > n - 1 || m < 0 {
        T::from_count_spec(0)
    } else {
        inverse_upper_sum(
            a,
            m,
            n,
            k,
            o,
            if m < n - k {
                m
            } else {
                n - k
            },
        )
    }
}

/// The inverse's lower band entry `o` places below pivot `k` (stored in row
/// `k + o`), after its first `inner` subtractions.
pub open spec fn inverse_lower_sum<T: Scalar>(
    a: Seq<T>,
    m: int,
    n: int,
    k: int,
    o: int,
    inner: int,
) -> T
    decreases n - k, 0int, 0int, inner,
{
    if inner <= 0 || k < 1 || k > n - 1 || inner > m || inner > n - k || o < 1 || o > m || o > n
        - k {
        T::from_count_spec(0)
    } else {
        inverse_lower_sum(a, m, n, k, o, inner - 1).sub_spec(
            saved_lower(a, m, k, inner).mul_spec(
                if inner - o > 0 {
                    inverse_upper(a, m, n, k + o, inner - o)
                } else if inner == o {
                    inverse_diag(a, m, n, k + o)
                } else {
                    inverse_lower(a, m, n, k + inner, o - inner)
                },
            ),
        )
    }
}

/// The inverse's lower band entry `o` places below pivot `k`.
pub open spec fn inverse_lower<T: Scalar>(a: Seq<T>, m: int, n: int, k: int, o: int) -> T
    decreases n - k, 0int, 0int, m + 2,
{
    if k < 1 || k > n - 1 || m < 0 {
        T::from_count_spec(0)
    } else {
        inverse_lower_sum(
            a,
            m,
            n,
            k,
            o,
            if m < n - k {
                m
            } else {
                n - k
            },
        )
    }
}

/// The inverse's pivot at row `k` before halving, after the band columns from
/// the window edge down to `outer` have contributed: twice the pivot's
/// reciprocal, less each saved pair times the matching inverted entries.
pub open spec fn inverse_pivot_sum<T: Scalar>(a: Seq<T>, m: int, n: int, k: int, outer: int) -> T
    decreases n - k, 1int, m + 2 - outer, 0int,
{
    if k < 1 || k > n - 1 || outer > (if m < n - k {
        m
    } else {
        n - k
    }) || outer < 1 {
        pivot_inverse(a, m, k).add_spec(pivot_inverse(a, m, k))
    } else {
        inverse_pivot_sum(a, m, n, k, outer + 1).sub_spec(
            saved_upper(a, m, k, outer).mul_spec(inverse_lower(a, m, n, k, outer)).add_spec(
                saved_lower(a, m, k, outer).mul_spec(inverse_upper(a, m, n, k, outer)),
            ),
        )
    }
}

/// The inverse's pivot at row `k`: the halved pivot sum; the last row's pivot
/// is simply inverted.
pub open spec fn inverse_diag<T: Scalar>(a: Seq<T>, m: int, n: int, k: int) -> T
    decreases n - k, 2int, 0int, 0int,
{
    if k < 1 || k >= n || m < 0 {
        pivot_inverse(a, m, k)
    } else {
        inverse_pivot_sum(a, m, n, k, 1).div_spec(T::from_count_spec(2))
    }
}

/// The running trace after the band windows of the first `k - 1` knots have
/// contributed fully and knot `k`'s window has contributed its columns up to
/// `idx`: each contribution is the basis entry times the matching inverted
/// entry, added in sweep order.
pub open spec fn running_trace<T: Scalar>(
    basis: Seq<T>,
    a: Seq<T>,
    m: int,
    n: int,
    k: int,
    idx: int,
) -> T
    decreases k, idx + 1,
{
    if k <= 0 || k > n || m < 0 {
        T::from_count_spec(0)
    } else if idx > (if m < n - k {
        m
    } else {
        n - k
    }) {
        running_trace(
            basis,
            a,
            m,
            n,
            k,
            if m < n - k {
                m
            } else {
                n - k
            },
        )
    } else if idx < (if m < k - 1 {
        m
    } else {
        k - 1
    }) || idx < 0 {
        running_trace(basis, a, m, n, k - 1, m)
    } else {
        running_trace(basis, a, m, n, k, idx - 1).add_spec(
            basis[(k - 1) * (2 * m + 1) + idx + m].mul_spec(
                if idx == 0 {
                    inverse_diag(a, m, n, k)
                } else {
                    inverse_lower(a, m, n, k, idx)
                },
            ),
        )
    }
}

/// Whether flat position `j` is one of the sweep's scratch slots: the unused
/// band padding right of the last row's pivot and left of the first row's.
pub open spec fn is_scratch(m: int, n: int, j: int) -> bool {
    let r = j / (2 * m + 1) + 1;
    let off = j % (2 * m + 1) - m;
    (r == n && off > 0) || (r == 1 && off < 0)
}

/// Entry `j` of the buffer when the backward sweep has inverted the pivots
/// from the last row down to (but not including) row `k`, and of row `k`'s
/// window the columns above `outer`; scratch slots are not described.
pub open spec fn inversion_state<T: Scalar>(
    a: Seq<T>,
    m: int,
    n: int,
    k: int,
    outer: int,
    j: int,
) -> T {
    let r = j / (2 * m + 1) + 1;
    let off = j % (2 * m + 1) - m;
    if r > n {
        a[j]
    } else if off == 0 {
        if r > k {
            inverse_diag(a, m, n, r)
        } else {
            a[j]
        }
    } else if off > 0 {
        if r > k && off <= n - r {
            inverse_upper(a, m, n, r, off)
        } else if r == k && off > outer && off <= n - r {
            inverse_upper(a, m, n, r, off)
        } else {
            a[j]
        }
    } else {
        if r + off > k || (r + off == k && 0 - off > outer) {
            inverse_lower(a, m, n, r + off, 0 - off)
        } else {
            a[j]
        }
    }
}

/// Saves row `knot_index`'s upper band, scaled by the reciprocal of its
/// pivot, and its column of multipliers into the scratch slots, and returns
/// twice the reciprocal, the starting value of the pivot inversion.
#[verifier::loop_isolation(false)]
#[verifier::rlimit(100)]
fn save_pivot_row<T: Scalar>(
    decomp_matrix: &mut Vec<T>,
    half_order: usize,
    num_knots: usize,
    knot_index: usize,
    order_index: usize,
    Ghost(orig): Ghost<Seq<T>>,
) -> (inversion: T)
    requires
        1 <= half_order,
        2 * half_order <= num_knots,
        1 <= knot_index <= num_knots - 1,
        order_index == (if half_order < num_knots - knot_index {
            half_order as int
        } else {
            num_knots - knot_index
        }),
        num_knots * (2 * half_order + 1) <= orig.len(),
        orig.len() <= usize::MAX,
        old(decomp_matrix)@.len() == orig.len(),
        forall|j: int|
            0 <= j < orig.len() && !is_scratch(half_order as int, num_knots as int, j) ==> #[trigger] old(decomp_matrix)@[j] == inversion_state(
                orig,
                half_order as int,
                num_knots as int,
                knot_index as int,
                order_index as int,
                j,
            ),
    ensures
        final(decomp_matrix)@.len() == orig.len(),
        inversion == pivot_inverse(orig, half_order as int, knot_index as int).add_spec(
            pivot_inverse(orig, half_order as int, knot_index as int),
        ),
        forall|j: int|
            0 <= j < orig.len() && !is_scratch(half_order as int, num_knots as int, j) ==> #[trigger] final(decomp_matrix)@[j] == inversion_state(
                orig,
                half_order as int,
                num_knots as int,
                knot_index as int,
                order_index as int,
                j,
            ),
        forall|idx: int|
            1 <= idx <= order_index ==> final(decomp_matrix)@[(num_knots - 1) * (2 * half_order
                + 1) + half_order + idx] == saved_upper(
                orig,
                half_order as int,
                knot_index as int,
                idx,
            ),
        forall|idx: int|
            1 <= idx <= order_index ==> final(decomp_matrix)@[half_order - idx] == saved_lower(
                orig,
                half_order as int,
                knot_index as int,
                idx,
            ),
{
    let width = 2 * half_order + 1;
    proof {
        lemma_band_entry(
            knot_index - 1 as int,
            half_order as int,
            num_knots as int,
            width as int,
        );
        lemma_entry_encode(knot_index - 1 as int, half_order as int, width as int);
    }
    let inversion = T::from_count(1).div(
        decomp_matrix[(knot_index - 1) * width + half_order],
    );
    assert(inversion == pivot_inverse(orig, half_order as int, knot_index as int));

    let mut idx: usize = 1;
    while idx <= order_index
        invariant
            1 <= idx <= order_index + 1,
            decomp_matrix@.len() == orig.len(),
            inversion == pivot_inverse(orig, half_order as int, knot_index as int),
            forall|j: int|
                0 <= j < orig.len() && !is_scratch(half_order as int, num_knots as int, j)
                    ==> #[trigger] decomp_matrix@[j] == inversion_state(
                    orig,
                    half_order as int,
                    num_knots as int,
                    knot_index as int,
                    order_index as int,
                    j,
                ),
            forall|q: int|
                1 <= q < idx ==> decomp_matrix@[(num_knots - 1) * (2 * half_order + 1) + half_order
                    + q] == saved_upper(orig, half_order as int, knot_index as int, q),
            forall|q: int|
                1 <= q < idx ==> decomp_matrix@[half_order - q] == saved_lower(
                    orig,
                    half_order as int,
                    knot_index as int,
                    q,
                ),
        decreases order_index + 1 - idx,
    {
        proof {
            lemma_band_entry(
                num_knots - 1 as int,
                idx + half_order as int,
                num_knots as int,
                width as int,
            );
            lemma_entry_encode(num_knots - 1 as int, idx + half_order as int, width as int);
            lemma_band_entry(
                knot_index - 1 as int,
                idx + half_order as int,
                num_knots as int,
                width as int,
            );
            lemma_entry_encode(knot_index - 1 as int, idx + half_order as int, width as int);
            lemma_band_entry(
                idx + knot_index - 1 as int,
                half_order - idx as int,
                num_knots as int,
                width as int,
            );
            lemma_entry_encode(
                idx + knot_index - 1 as int,
                half_order - idx as int,
                width as int,
            );
            lemma_band_entry(0, half_order - idx as int, num_knots as int, width as int);
            lemma_entry_encode(0, half_order - idx as int, width as int);
        }
        decomp_matrix.set(
            (num_knots - 1) * width + idx + half_order,
            decomp_matrix[(knot_index - 1) * width + idx + half_order].mul(inversion),
        );
        decomp_matrix.set(
            half_order - idx,
            decomp_matrix[(idx + knot_index - 1) * width + (half_order - idx)],
        );
        idx = idx + 1;
    }
    inversion.add(inversion)
}

/// Inverts the band around pivot `knot_index` at window column `outer`:
/// writes the inverse's upper entry of the pivot's row and the inverse's
/// lower entry of row `knot_index + outer`, and charges both against the
/// running pivot inversion.
#[verifier::loop_isolation(false)]
#[verifier::rlimit(100)]
fn invert_window_column<T: Scalar>(
    decomp_matrix: &mut Vec<T>,
    half_order: usize,
    num_knots: usize,
    knot_index: usize,
    order_index: usize,
    outer: usize,
    inversion: T,
    Ghost(orig): Ghost<Seq<T>>,
) -> (updated: T)
    requires
        1 <= half_order,
        2 * half_order <= num_knots,
        1 <= knot_index <= num_knots - 1,
        1 <= outer <= order_index,
        order_index == (if half_order < num_knots - knot_index {
            half_order as int
        } else {
            num_knots - knot_index
        }),
        num_knots * (2 * half_order + 1) <= orig.len(),
        orig.len() <= usize::MAX,
        old(decomp_matrix)@.len() == orig.len(),
        inversion == inverse_pivot_sum(
            orig,
            half_order as int,
            num_knots as int,
            knot_index as int,
            outer + 1,
        ),
        forall|j: int|
            0 <= j < orig.len() && !is_scratch(half_order as int, num_knots as int, j) ==> #[trigger] old(decomp_matrix)@[j] == inversion_state(
                orig,
                half_order as int,
                num_knots as int,
                knot_index as int,
                outer as int,
                j,
            ),
        forall|idx: int|
            1 <= idx <= order_index ==> old(decomp_matrix)@[(num_knots - 1) * (2 * half_order + 1)
                + half_order + idx] == saved_upper(
                orig,
                half_order as int,
                knot_index as int,
                idx,
            ),
        forall|idx: int|
            1 <= idx <= order_index ==> old(decomp_matrix)@[half_order - idx] == saved_lower(
                orig,
                half_order as int,
                knot_index as int,
                idx,
            ),
    ensures
        final(decomp_matrix)@.len() == orig.len(),
        updated == inverse_pivot_sum(
            orig,
            half_order as int,
            num_knots as int,
            knot_index as int,
            outer as int,
        ),
        forall|j: int|
            0 <= j < orig.len() && !is_scratch(half_order as int, num_knots as int, j) ==> #[trigger] final(decomp_matrix)@[j] == inversion_state(
                orig,
                half_order as int,
                num_knots as int,
                knot_index as int,
                outer - 1,
                j,
            ),
        forall|idx: int|
            1 <= idx <= order_index ==> final(decomp_matrix)@[(num_knots - 1) * (2 * half_order
                + 1) + half_order + idx] == saved_upper(
                orig,
                half_order as int,
                knot_index as int,
                idx,
            ),
        forall|idx: int|
            1 <= idx <= order_index ==> final(decomp_matrix)@[half_order - idx] == saved_lower(
                orig,
                half_order as int,
                knot_index as int,
                idx,
            ),
{
    let width = 2 * half_order + 1;
    let mut invert_upper = T::from_count(0);
    let mut invert_lower = T::from_count(0);
    let mut inner: usize = 1;
    while inner <= order_index
        invariant
            1 <= inner <= order_index + 1,
            decomp_matrix@.len() == orig.len(),
            invert_upper == inverse_upper_sum(
                orig,
                half_order as int,
                num_knots as int,
                knot_index as int,
                outer as int,
                inner - 1,
            ),
            invert_lower == inverse_lower_sum(
                orig,
                half_order as int,
                num_knots as int,
                knot_index as int,
                outer as int,
                inner - 1,
            ),
        decreases order_index + 1 - inner,
    {
        proof {
            lemma_band_entry(
                num_knots - 1 as int,
                inner + half_order as int,
                num_knots as int,
                width as int,
            );
            lemma_band_entry(
                knot_index + inner - 1 as int,
                half_order + outer - inner as int,
                num_knots as int,
                width as int,
            );
            lemma_entry_encode(
                knot_index + inner - 1 as int,
                half_order + outer - inner as int,
                width as int,
            );
            lemma_band_entry(
                knot_index + outer - 1 as int,
                half_order + inner - outer as int,
                num_knots as int,
                width as int,
            );
            lemma_entry_encode(
                knot_index + outer - 1 as int,
                half_order + inner - outer as int,
                width as int,
            );
            lemma_band_entry(0, half_order - inner as int, num_knots as int, width as int);
        }
        invert_upper = invert_upper.sub(
            decomp_matrix[(num_knots - 1) * width + inner + half_order].mul(
                decomp_matrix[(knot_index + inner - 1) * width + (half_order + outer - inner)],
            ),
        );
        invert_lower = invert_lower.sub(
            decomp_matrix[half_order - inner].mul(
                decomp_matrix[(knot_index + outer - 1) * width + (half_order + inner - outer)],
            ),
        );
        inner = inner + 1;
    }
    assert(invert_upper == inverse_upper(
        orig,
        half_order as int,
        num_knots as int,
        knot_index as int,
        outer as int,
    ));
    assert(invert_lower == inverse_lower(
        orig,
        half_order as int,
        num_knots as int,
        knot_index as int,
        outer as int,
    ));

    proof {
        lemma_band_entry(
            knot_index - 1 as int,
            outer + half_order as int,
            num_knots as int,
            width as int,
        );
        lemma_entry_encode(knot_index - 1 as int, outer + half_order as int, width as int);
        lemma_band_entry(
            outer + knot_index - 1 as int,
            half_order - outer as int,
            num_knots as int,
            width as int,
        );
        lemma_entry_encode(
            outer + knot_index - 1 as int,
            half_order - outer as int,
            width as int,
        );
        lemma_band_entry(
            num_knots - 1 as int,
            outer + half_order as int,
            num_knots as int,
            width as int,
        );
        lemma_entry_encode(num_knots - 1 as int, outer + half_order as int, width as int);
        lemma_band_entry(0, half_order - outer as int, num_knots as int, width as int);
        lemma_entry_encode(0, half_order - outer as int, width as int);
    }
    decomp_matrix.set((knot_index - 1) * width + outer + half_order, invert_upper);
    decomp_matrix.set(
        (outer + knot_index - 1) * width + (half_order - outer),
        invert_lower,
    );
    assert forall|j: int|
        0 <= j < orig.len() && !is_scratch(half_order as int, num_knots as int, j) implies
        decomp_matrix@[j] == inversion_state(
        orig,
        half_order as int,
        num_knots as int,
        knot_index as int,
        outer - 1,
        j,
    ) by {
        lemma_flat_decode(j, width as int);
        if j < num_knots * width {
            lemma_flat_row_bound(j, width as int, num_knots as int);
        } else {
            lemma_flat_row_lower(j, width as int, num_knots as int);
        }
    }
    assert forall|idx: int| 1 <= idx <= order_index implies decomp_matrix@[(num_knots - 1) * (2
        * half_order + 1) + half_order + idx] == saved_upper(
        orig,
        half_order as int,
        knot_index as int,
        idx,
    ) by {
        lemma_entry_encode(num_knots - 1 as int, half_order + idx, width as int);
        lemma_band_entry(num_knots - 1 as int, half_order + idx, num_knots as int, width as int);
    }
    assert forall|idx: int| 1 <= idx <= order_index implies decomp_matrix@[half_order - idx]
        == saved_lower(orig, half_order as int, knot_index as int, idx) by {
        lemma_entry_encode(0, half_order - idx, width as int);
        lemma_band_entry(0, half_order - idx, num_knots as int, width as int);
    }
    inversion.sub(
        decomp_matrix[(num_knots - 1) * width + outer + half_order].mul(invert_lower).add(
            decomp_matrix[half_order - outer].mul(invert_upper),
        ),
    )
}

/// Computes the band-diagonal entries of the inverse of `decomp_matrix` by a
/// backward sweep, reusing the buffer as scratch, and returns that buffer
/// together with the trace of `basis_tableau` times the inverse — exactly the
/// `trace_sum` of the two inputs. Only the scalar trace is meaningful to
/// callers; the buffer is returned for reuse.
#[verifier::loop_isolation(false)]
#[verifier::rlimit(100)]
pub fn trace_inverse<T: Scalar>(
    basis_tableau: &Vec<T>,
    decomp_matrix: Vec<T>,
    half_order: usize,
) -> (r: Result<(Vec<T>, T), FittingError>)
    requires
        1 <= half_order <= usize::MAX / 2,
    ensures
        r is Ok <==> (decomp_matrix@.len() as int / (2 * half_order + 1) >= 2 * half_order
            && basis_tableau@.len() == decomp_matrix@.len()),
        decomp_matrix@.len() as int / (2 * half_order + 1) < 2 * half_order ==> (r matches Err(e)
            && e == FittingError::NotEnoughKnotsForOrder),
        decomp_matrix@.len() as int / (2 * half_order + 1) >= 2 * half_order
            && basis_tableau@.len() != decomp_matrix@.len() ==> (r matches Err(e) && e
            == FittingError::MatrixMismatch),
        r matches Ok(p) ==> ({
            &&& p.0@.len() == decomp_matrix@.len()
            &&& p.1 == running_trace(
                basis_tableau@,
                decomp_matrix@,
                half_order as int,
                decomp_matrix@.len() as int / (2 * half_order + 1),
                decomp_matrix@.len() as int / (2 * half_order + 1),
                half_order as int,
            )
        }),
{
    let mut decomp_matrix = decomp_matrix;
    let ghost orig = decomp_matrix@;
    let ghost len0 = decomp_matrix@.len();
    let width = 2 * half_order + 1;
    let num_knots = decomp_matrix.len() / width;
    check_order(half_order, num_knots)?;
    check_matrix_size(basis_tableau, &decomp_matrix)?;
    proof {
        lemma_rows_fit(len0 as int, width as int);
        lemma_band_entry(
            num_knots - 1 as int,
            half_order as int,
            num_knots as int,
            width as int,
        );
        lemma_entry_encode(num_knots - 1 as int, half_order as int, width as int);
    }

    // Invert the final pivot in place.
    decomp_matrix.set(
        (num_knots - 1) * width + half_order,
        T::from_count(1).div(decomp_matrix[(num_knots - 1) * width + half_order]),
    );
    assert forall|j: int|
        0 <= j < len0 && !is_scratch(half_order as int, num_knots as int, j) implies
        decomp_matrix@[j] == inversion_state(
        orig,
        half_order as int,
        num_knots as int,
        num_knots - 1 as int,
        (if half_order < 1 {
            half_order as int
        } else {
            1int
        }),
        j,
    ) by {
        lemma_flat_decode(j, width as int);
        if j < num_knots * width {
            lemma_flat_row_bound(j, width as int, num_knots as int);
        } else {
            lemma_flat_row_lower(j, width as int, num_knots as int);
        }
    }

    // Backward sweep inverting around each earlier pivot.
    let mut knot_index: usize = num_knots - 1;
    while knot_index >= 1
        invariant
            knot_index <= num_knots - 1,
            decomp_matrix@.len() == len0,
            forall|j: int|
                0 <= j < len0 && !is_scratch(half_order as int, num_knots as int, j)
                    ==> #[trigger] decomp_matrix@[j] == inversion_state(
                    orig,
                    half_order as int,
                    num_knots as int,
                    knot_index as int,
                    (if half_order < num_knots - knot_index {
                        half_order as int
                    } else {
                        num_knots - knot_index
                    }),
                    j,
                ),
        decreases knot_index,
    {
        let order_index = if half_order < num_knots - knot_index {
            half_order
        } else {
            num_knots - knot_index
        };
        let mut inversion = save_pivot_row(
            &mut decomp_matrix,
            half_order,
            num_knots,
            knot_index,
            order_index,
            Ghost(orig),
        );
        assert(inversion == inverse_pivot_sum(
            orig,
            half_order as int,
            num_knots as int,
            knot_index as int,
            order_index + 1,
        ));

        let mut outer: usize = order_index;
        while outer >= 1
            invariant
                outer <= order_index,
                decomp_matrix@.len() == len0,
                inversion == inverse_pivot_sum(
                    orig,
                    half_order as int,
                    num_knots as int,
                    knot_index as int,
                    outer + 1,
                ),
                forall|j: int|
                    0 <= j < len0 && !is_scratch(half_order as int, num_knots as int, j)
                        ==> #[trigger] decomp_matrix@[j] == inversion_state(
                        orig,
                        half_order as int,
                        num_knots as int,
                        knot_index as int,
                        outer as int,
                        j,
                    ),
                forall|idx: int|
                    1 <= idx <= order_index ==> decomp_matrix@[(num_knots - 1) * (2 * half_order
                        + 1) + half_order + idx] == saved_upper(
                        orig,
                        half_order as int,
                        knot_index as int,
                        idx,
                    ),
                forall|idx: int|
                    1 <= idx <= order_index ==> decomp_matrix@[half_order - idx] == saved_lower(
                        orig,
                        half_order as int,
                        knot_index as int,
                        idx,
                    ),
            decreases outer,
        {
            inversion = invert_window_column(
                &mut decomp_matrix,
                half_order,
                num_knots,
                knot_index,
                order_index,
                outer,
                inversion,
                Ghost(orig),
            );
            outer = outer - 1;
        }
        proof {
            lemma_band_entry(
                knot_index - 1 as int,
                half_order as int,
                num_knots as int,
                width as int,
            );
            lemma_entry_encode(knot_index - 1 as int, half_order as int, width as int);
        }
        decomp_matrix.set(
            (knot_index - 1) * width + half_order,
            inversion.div(T::from_count(2)),
        );
        assert forall|j: int|
            0 <= j < len0 && !is_scratch(half_order as int, num_knots as int, j) implies
            decomp_matrix@[j] == inversion_state(
            orig,
            half_order as int,
            num_knots as int,
            knot_index - 1 as int,
            (if half_order < num_knots - (knot_index - 1) {
                half_order as int
            } else {
                num_knots - (knot_index - 1)
            }),
            j,
        ) by {
            lemma_flat_decode(j, width as int);
            if j < num_knots * width {
                lemma_flat_row_bound(j, width as int, num_knots as int);
            } else {
                lemma_flat_row_lower(j, width as int, num_knots as int);
            }
        }
        knot_index = knot_index - 1;
    }

    // Trace of basis tableau times the inverted band.
    assert(num_knots < usize::MAX) by (nonlinear_arith)
        requires
            num_knots * width <= len0,
            len0 <= usize::MAX,
            width >= 3,
            num_knots >= 2,
    ;
    let mut trace = T::from_count(0);
    let mut knot_index: usize = 1;
    while knot_index <= num_knots
        invariant
            1 <= knot_index <= num_knots + 1,
            decomp_matrix@.len() == len0,
            trace == running_trace(
                basis_tableau@,
                orig,
                half_order as int,
                num_knots as int,
                knot_index - 1,
                half_order as int,
            ),
            forall|j: int|
                0 <= j < len0 && !is_scratch(half_order as int, num_knots as int, j)
                    ==> #[trigger] decomp_matrix@[j] == inversion_state(
                    orig,
                    half_order as int,
                    num_knots as int,
                    0,
                    (if half_order < num_knots {
                        half_order as int
                    } else {
                        num_knots as int
                    }),
                    j,
                ),
        decreases num_knots + 1 - knot_index,
    {
        let lower_bound = if half_order < knot_index - 1 {
            half_order
        } else {
            knot_index - 1
        };
        let upper_bound = if half_order < num_knots - knot_index {
            half_order
        } else {
            num_knots - knot_index
        };
        proof {
            if lower_bound - 1 > upper_bound {
                assert(running_trace(
                    basis_tableau@,
                    orig,
                    half_order as int,
                    num_knots as int,
                    knot_index as int,
                    lower_bound - 1,
                ) == running_trace(
                    basis_tableau@,
                    orig,
                    half_order as int,
                    num_knots as int,
                    knot_index as int,
                    upper_bound as int,
                ));
                assert(running_trace(
                    basis_tableau@,
                    orig,
                    half_order as int,
                    num_knots as int,
                    knot_index as int,
                    upper_bound as int,
                ) == running_trace(
                    basis_tableau@,
                    orig,
                    half_order as int,
                    num_knots as int,
                    knot_index - 1,
                    half_order as int,
                ));
            } else {
                assert(running_trace(
                    basis_tableau@,
                    orig,
                    half_order as int,
                    num_knots as int,
                    knot_index as int,
                    lower_bound - 1,
                ) == running_trace(
                    basis_tableau@,
                    orig,
                    half_order as int,
                    num_knots as int,
                    knot_index - 1,
                    half_order as int,
                ));
            }
        }
        let mut idx: usize = lower_bound;
        while idx <= upper_bound
            invariant
                lower_bound <= idx,
                idx <= upper_bound + 1 || idx == lower_bound,
                decomp_matrix@.len() == len0,
                trace == running_trace(
                    basis_tableau@,
                    orig,
                    half_order as int,
                    num_knots as int,
                    knot_index as int,
                    idx - 1,
                ),
            decreases upper_bound + 1 - idx,
        {
            proof {
                lemma_band_entry(
                    knot_index - 1 as int,
                    idx + half_order as int,
                    num_knots as int,
                    width as int,
                );
                lemma_band_entry(
                    idx + knot_index - 1 as int,
                    half_order - idx as int,
                    num_knots as int,
                    width as int,
                );
                lemma_entry_encode(
                    idx + knot_index - 1 as int,
                    half_order - idx as int,
                    width as int,
                );
            }
            trace = trace.add(
                basis_tableau[(knot_index - 1) * width + idx + half_order].mul(
                    decomp_matrix[(idx + knot_index - 1) * width + (half_order - idx)],
                ),
            );
            idx = idx + 1;
        }
        proof {
            if half_order > upper_bound {
                assert(running_trace(
                    basis_tableau@,
                    orig,
                    half_order as int,
                    num_knots as int,
                    knot_index as int,
                    half_order as int,
                ) == running_trace(
                    basis_tableau@,
                    orig,
                    half_order as int,
                    num_knots as int,
                    knot_index as int,
                    upper_bound as int,
                ));
            }
        }
        knot_index = knot_index + 1;
    }

    // Clear the scratch slots borrowed from the first and last rows.
    let mut order_index: usize = 1;
    while order_index <= half_order
        invariant
            1 <= order_index <= half_order + 1,
            decomp_matrix@.len() == len0,
        decreases half_order + 1 - order_index,
    {
        proof {
            lemma_band_entry(
                num_knots - 1 as int,
                order_index + half_order as int,
                num_knots as int,
                width as int,
            );
            lemma_band_entry(0, half_order - order_index as int, num_knots as int, width as int);
        }
        decomp_matrix.set((num_knots - 1) * width + order_index + half_order, T::from_count(0));
        decomp_matrix.set(half_order - order_index, T::from_count(0));
        order_index = order_index + 1;
    }

    Ok((decomp_matrix, trace))
}

} // verus!
