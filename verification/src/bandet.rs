//! In-place banded elimination of the combined system matrix.

use vstd::prelude::*;

use crate::band::lemma_band_entry;
use crate::band::lemma_entry_encode;
use crate::band::lemma_flat_decode;
use crate::band::lemma_rows_fit;
use crate::scalar::Scalar;
use crate::support::FittingError;
use crate::support::check_order;

verus! {

/// Entry of buffer `a` standing `o` places left of row `r`'s diagonal.
pub open spec fn original_lower<T: Scalar>(a: Seq<T>, m: int, r: int, o: int) -> T {
    a[(r - 1) * (2 * m + 1) + m - o]
}

/// Entry of buffer `a` standing `o` places right of row `r`'s diagonal.
pub open spec fn original_upper<T: Scalar>(a: Seq<T>, m: int, r: int, o: int) -> T {
    a[(r - 1) * (2 * m + 1) + m + o]
}

/// Row `r`'s diagonal entry of buffer `a`.
pub open spec fn original_diag<T: Scalar>(a: Seq<T>, m: int, r: int) -> T {
    a[(r - 1) * (2 * m + 1) + m]
}

/// The eliminated multiplier `o` places below row `r`'s diagonal: its original
/// value, cleared of the already eliminated band products, divided by the
/// pivot of the row it eliminates against.
pub open spec fn eliminated_lower<T: Scalar>(a: Seq<T>, m: int, r: int, o: int) -> T
    decreases r, 0int, m - o, m + 2,
{
    if o < 1 || o > m || r - o < 1 {
        original_lower(a, m, r, o)
    } else {
        lower_terms(
            a,
            m,
            r,
            o,
            if m - o < r - o - 1 {
                m - o
            } else {
                r - o - 1
            },
        ).div_spec(eliminated_diag(a, m, r - o))
    }
}

/// The lower elimination in row `r` at depth `o` after its first `j`
/// subtractions.
pub open spec fn lower_terms<T: Scalar>(a: Seq<T>, m: int, r: int, o: int, j: int) -> T
    decreases r, 0int, m - o, j,
{
    if j <= 0 || o < 1 || o + j > m || j > r - o - 1 {
        original_lower(a, m, r, o)
    } else {
        lower_terms(a, m, r, o, j - 1).sub_spec(
            eliminated_lower(a, m, r, o + j).mul_spec(eliminated_upper(a, m, r - o - j, j)),
        )
    }
}

/// The eliminated entry `o` places above row `r`'s diagonal.
pub open spec fn eliminated_upper<T: Scalar>(a: Seq<T>, m: int, r: int, o: int) -> T
    decreases r, 1int, m - o, m + 2,
{
    if o < 1 || o > m || r < 1 {
        original_upper(a, m, r, o)
    } else {
        upper_terms(
            a,
            m,
            r,
            o,
            if m - o < r - 1 {
                m - o
            } else {
                r - 1
            },
        )
    }
}

/// The upper elimination in row `r` at height `o` after its first `j`
/// subtractions.
pub open spec fn upper_terms<T: Scalar>(a: Seq<T>, m: int, r: int, o: int, j: int) -> T
    decreases r, 1int, m - o, j,
{
    if j <= 0 || o < 1 || o + j > m || j > r - 1 {
        original_upper(a, m, r, o)
    } else {
        upper_terms(a, m, r, o, j - 1).sub_spec(
            eliminated_lower(a, m, r, j).mul_spec(eliminated_upper(a, m, r - j, o + j)),
        )
    }
}

/// Row `r`'s eliminated pivot.
pub open spec fn eliminated_diag<T: Scalar>(a: Seq<T>, m: int, r: int) -> T
    decreases r, 2int, 0int, 0int,
{
    if r < 1 || m < 0 {
        original_diag(a, m, r)
    } else {
        diag_terms(
            a,
            m,
            r,
            if m < r - 1 {
                m
            } else {
                r - 1
            },
        )
    }
}

/// Row `r`'s pivot after its first `j` subtractions.
pub open spec fn diag_terms<T: Scalar>(a: Seq<T>, m: int, r: int, j: int) -> T
    decreases r, 1int, m + 1, j,
{
    if j <= 0 || j > m || j > r - 1 {
        original_diag(a, m, r)
    } else {
        diag_terms(a, m, r, j - 1).sub_spec(
            eliminated_lower(a, m, r, j).mul_spec(eliminated_upper(a, m, r - j, j)),
        )
    }
}

/// Entry `j` of the buffer when the elimination sweep stands before window
/// column `o` of row `k`: earlier rows are fully eliminated, row `k`'s pivot
/// is eliminated once `o` is positive, and the columns of its window below
/// `o` are eliminated. Positions past the counted rows are never touched.
pub open spec fn elimination_state<T: Scalar>(
    a: Seq<T>,
    m: int,
    n: int,
    k: int,
    o: int,
    j: int,
) -> T {
    let r = j / (2 * m + 1) + 1;
    let off = j % (2 * m + 1) - m;
    if r > n {
        a[j]
    } else if off == 0 {
        if r < k || (r == k && o >= 1) {
            eliminated_diag(a, m, r)
        } else {
            a[j]
        }
    } else if off > 0 {
        if (r < k && off <= n - r) || (r == k && off < o) {
            eliminated_upper(a, m, r, off)
        } else {
            a[j]
        }
    } else {
        if (0 - off <= r - 1 && r + off < k) || (r + off == k && 0 - off < o) {
            eliminated_lower(a, m, r, 0 - off)
        } else {
            a[j]
        }
    }
}

/// Entry `j` of the fully decomposed buffer of `n` rows.
pub open spec fn eliminated_entry<T: Scalar>(a: Seq<T>, m: int, n: int, j: int) -> T {
    elimination_state(a, m, n, n + 1, 0, j)
}

/// Eliminates row `knot_index`'s pivot against the already processed rows and
/// returns it; the buffer moves from the state before the row's pivot to the
/// state before its first window column.
#[verifier::loop_isolation(false)]
#[verifier::rlimit(100)]
fn eliminate_pivot<T: Scalar>(
    matrix: &mut Vec<T>,
    half_order: usize,
    num_knots: usize,
    knot_index: usize,
    Ghost(orig): Ghost<Seq<T>>,
) -> (pivot: T)
    requires
        half_order <= usize::MAX / 2,
        1 <= knot_index <= num_knots,
        num_knots * (2 * half_order + 1) <= orig.len(),
        orig.len() <= usize::MAX,
        old(matrix)@.len() == orig.len(),
        forall|j: int|
            0 <= j < orig.len() ==> old(matrix)@[j] == elimination_state(
                orig,
                half_order as int,
                num_knots as int,
                knot_index as int,
                0,
                j,
            ),
    ensures
        final(matrix)@.len() == orig.len(),
        pivot == eliminated_diag(orig, half_order as int, knot_index as int),
        forall|j: int|
            0 <= j < orig.len() ==> final(matrix)@[j] == elimination_state(
                orig,
                half_order as int,
                num_knots as int,
                knot_index as int,
                1,
                j,
            ),
{
    let width = 2 * half_order + 1;
    proof {
        lemma_band_entry(
            knot_index - 1 as int,
            half_order as int,
            num_knots as int,
            width as int,
        );
        lemma_entry_encode(knot_index - 1 as int, half_order as int, width as int);
    }
    let mut decomp_inner = matrix[(knot_index - 1) * width + half_order];
    assert(decomp_inner == diag_terms(orig, half_order as int, knot_index as int, 0));
    let order_index = if half_order < knot_index - 1 {
        half_order
    } else {
        knot_index - 1
    };

    if order_index >= 1 {
        let mut idx: usize = 1;
        while idx <= order_index
            invariant
                1 <= idx <= order_index + 1,
                matrix@ == old(matrix)@,
                decomp_inner == diag_terms(orig, half_order as int, knot_index as int, idx - 1),
            decreases order_index + 1 - idx,
        {
            proof {
                lemma_band_entry(
                    knot_index - 1 as int,
                    half_order - idx as int,
                    num_knots as int,
                    width as int,
                );
                lemma_entry_encode(knot_index - 1 as int, half_order - idx as int, width as int);
                lemma_band_entry(
                    knot_index - idx - 1 as int,
                    idx + half_order as int,
                    num_knots as int,
                    width as int,
                );
                lemma_entry_encode(
                    knot_index - idx - 1 as int,
                    idx + half_order as int,
                    width as int,
                );
            }
            decomp_inner = decomp_inner.sub(
                matrix[(knot_index - 1) * width + (half_order - idx)].mul(
                    matrix[(knot_index - idx - 1) * width + idx + half_order],
                ),
            );
            idx = idx + 1;
        }
        matrix.set((knot_index - 1) * width + half_order, decomp_inner);
    }
    assert(decomp_inner == eliminated_diag(orig, half_order as int, knot_index as int));
    assert forall|j: int| 0 <= j < orig.len() implies matrix@[j] == elimination_state(
        orig,
        half_order as int,
        num_knots as int,
        knot_index as int,
        1,
        j,
    ) by {
        lemma_flat_decode(j, width as int);
    }
    decomp_inner
}

/// Eliminates window column `outer` of row `knot_index`: the upper entry of
/// the row and the matching lower multiplier of row `knot_index + outer`. The
/// buffer moves from the state before column `outer` to the state before the
/// next column.
#[verifier::loop_isolation(false)]
#[verifier::rlimit(100)]
fn eliminate_window_column<T: Scalar>(
    matrix: &mut Vec<T>,
    half_order: usize,
    num_knots: usize,
    knot_index: usize,
    outer: usize,
    pivot: T,
    Ghost(orig): Ghost<Seq<T>>,
)
    requires
        half_order <= usize::MAX / 2,
        1 <= knot_index <= num_knots,
        1 <= outer <= half_order,
        knot_index + outer <= num_knots,
        num_knots * (2 * half_order + 1) <= orig.len(),
        orig.len() <= usize::MAX,
        old(matrix)@.len() == orig.len(),
        pivot == eliminated_diag(orig, half_order as int, knot_index as int),
        forall|j: int|
            0 <= j < orig.len() ==> old(matrix)@[j] == elimination_state(
                orig,
                half_order as int,
                num_knots as int,
                knot_index as int,
                outer as int,
                j,
            ),
    ensures
        final(matrix)@.len() == orig.len(),
        forall|j: int|
            0 <= j < orig.len() ==> final(matrix)@[j] == elimination_state(
                orig,
                half_order as int,
                num_knots as int,
                knot_index as int,
                outer + 1,
                j,
            ),
{
    let width = 2 * half_order + 1;
    proof {
        lemma_band_entry(
            knot_index + outer - 1 as int,
            half_order - outer as int,
            num_knots as int,
            width as int,
        );
        lemma_entry_encode(
            knot_index + outer - 1 as int,
            half_order - outer as int,
            width as int,
        );
        lemma_band_entry(
            knot_index - 1 as int,
            outer + half_order as int,
            num_knots as int,
            width as int,
        );
        lemma_entry_encode(knot_index - 1 as int, outer + half_order as int, width as int);
    }
    let mut decomp_lower = matrix[(knot_index + outer - 1) * width + (half_order - outer)];
    assert(decomp_lower == lower_terms(
        orig,
        half_order as int,
        knot_index + outer,
        outer as int,
        0,
    ));
    let inner_limit = if half_order - outer < knot_index - 1 {
        half_order - outer
    } else {
        knot_index - 1
    };

    if inner_limit >= 1 {
        let mut decomp_upper = matrix[(knot_index - 1) * width + outer + half_order];
        assert(decomp_upper == upper_terms(
            orig,
            half_order as int,
            knot_index as int,
            outer as int,
            0,
        ));
        let mut inner: usize = 1;
        while inner <= inner_limit
            invariant
                1 <= inner <= inner_limit + 1,
                matrix@ == old(matrix)@,
                decomp_upper == upper_terms(
                    orig,
                    half_order as int,
                    knot_index as int,
                    outer as int,
                    inner - 1,
                ),
                decomp_lower == lower_terms(
                    orig,
                    half_order as int,
                    knot_index + outer,
                    outer as int,
                    inner - 1,
                ),
            decreases inner_limit + 1 - inner,
        {
            proof {
                lemma_band_entry(
                    knot_index - 1 as int,
                    half_order - inner as int,
                    num_knots as int,
                    width as int,
                );
                lemma_entry_encode(knot_index - 1 as int, half_order - inner as int, width as int);
                lemma_band_entry(
                    knot_index - inner - 1 as int,
                    outer + inner + half_order as int,
                    num_knots as int,
                    width as int,
                );
                lemma_entry_encode(
                    knot_index - inner - 1 as int,
                    outer + inner + half_order as int,
                    width as int,
                );
                lemma_band_entry(
                    outer + knot_index - 1 as int,
                    half_order - outer - inner as int,
                    num_knots as int,
                    width as int,
                );
                lemma_entry_encode(
                    outer + knot_index - 1 as int,
                    half_order - outer - inner as int,
                    width as int,
                );
                lemma_band_entry(
                    knot_index - inner - 1 as int,
                    inner + half_order as int,
                    num_knots as int,
                    width as int,
                );
                lemma_entry_encode(
                    knot_index - inner - 1 as int,
                    inner + half_order as int,
                    width as int,
                );
            }
            decomp_upper = decomp_upper.sub(
                matrix[(knot_index - 1) * width + (half_order - inner)].mul(
                    matrix[(knot_index - inner - 1) * width + outer + inner + half_order],
                ),
            );
            decomp_lower = decomp_lower.sub(
                matrix[(outer + knot_index - 1) * width + (half_order - outer - inner)].mul(
                    matrix[(knot_index - inner - 1) * width + inner + half_order],
                ),
            );
            inner = inner + 1;
        }
        matrix.set((knot_index - 1) * width + outer + half_order, decomp_upper);
    }
    assert(matrix@[(knot_index - 1) * width + outer + half_order] == eliminated_upper(
        orig,
        half_order as int,
        knot_index as int,
        outer as int,
    ));
    matrix.set(
        (knot_index + outer - 1) * width + (half_order - outer),
        decomp_lower.div(pivot),
    );
    assert(matrix@[(knot_index + outer - 1) * width + (half_order - outer)] == eliminated_lower(
        orig,
        half_order as int,
        knot_index + outer,
        outer as int,
    ));
    assert forall|j: int| 0 <= j < orig.len() implies matrix@[j] == elimination_state(
        orig,
        half_order as int,
        num_knots as int,
        knot_index as int,
        outer + 1,
        j,
    ) by {
        lemma_flat_decode(j, width as int);
    }
}

/// Decomposes a banded system matrix in place, exploiting bandwidth
/// `half_order`; the input buffer is consumed and the buffer handed back holds
/// exactly the band elimination recurrence of the original entries. No
/// pivoting is performed: the system is assumed positive definite by
/// construction.
#[verifier::loop_isolation(false)]
#[verifier::rlimit(100)]
pub fn consume_and_decompose<T: Scalar>(matrix: Vec<T>, half_order: usize) -> (r: Result<
    Vec<T>,
    FittingError,
>)
    requires
        half_order <= usize::MAX / 2,
    ensures
        r is Ok <==> matrix@.len() as int / (2 * half_order + 1) >= 2 * half_order,
        r matches Err(e) ==> e == FittingError::NotEnoughKnotsForOrder,
        r matches Ok(d) ==> ({
            &&& d@.len() == matrix@.len()
            &&& forall|j: int|
                0 <= j < matrix@.len() ==> d@[j] == eliminated_entry(
                    matrix@,
                    half_order as int,
                    matrix@.len() as int / (2 * half_order + 1),
                    j,
                )
        }),
{
    let mut matrix = matrix;
    let ghost orig = matrix@;
    let ghost len0 = matrix@.len();
    let width = 2 * half_order + 1;
    let num_knots = matrix.len() / width;
    check_order(half_order, num_knots)?;
    proof {
        lemma_rows_fit(len0 as int, width as int);
    }

    assert forall|j: int| 0 <= j < len0 implies matrix@[j] == elimination_state(
        orig,
        half_order as int,
        num_knots as int,
        1,
        0,
        j,
    ) by {
        lemma_flat_decode(j, width as int);
    }

    let mut row: usize = 0;
    while row < num_knots
        invariant
            row <= num_knots,
            matrix@.len() == len0,
            forall|j: int|
                0 <= j < len0 ==> matrix@[j] == elimination_state(
                    orig,
                    half_order as int,
                    num_knots as int,
                    row + 1,
                    0,
                    j,
                ),
        decreases num_knots - row,
    {
        let knot_index = row + 1;
        let pivot = eliminate_pivot(&mut matrix, half_order, num_knots, knot_index, Ghost(orig));

        let outer_limit = if half_order < num_knots - knot_index {
            half_order
        } else {
            num_knots - knot_index
        };

        let mut outer: usize = 1;
        while outer <= outer_limit
            invariant
                1 <= outer <= outer_limit + 1,
                matrix@.len() == len0,
                forall|j: int|
                    0 <= j < len0 ==> matrix@[j] == elimination_state(
                        orig,
                        half_order as int,
                        num_knots as int,
                        knot_index as int,
                        outer as int,
                        j,
                    ),
            decreases outer_limit + 1 - outer,
        {
            eliminate_window_column(
                &mut matrix,
                half_order,
                num_knots,
                knot_index,
                outer,
                pivot,
                Ghost(orig),
            );
            outer = outer + 1;
        }
        assert forall|j: int| 0 <= j < len0 implies matrix@[j] == elimination_state(
            orig,
            half_order as int,
            num_knots as int,
            knot_index + 1,
            0,
            j,
        ) by {
            lemma_flat_decode(j, width as int);
        }
        row = row + 1;
    }

    Ok(matrix)
}

} // verus!
