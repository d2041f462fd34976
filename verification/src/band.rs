//! Index facts about the compact band storage used throughout the pipeline:
//! a band matrix of `rows` rows is kept as one contiguous buffer of
//! `rows * width` entries, row-major, one window of `width` entries per knot.

use vstd::prelude::*;

verus! {

/// Any entry of a band buffer lies inside the buffer.
pub proof fn lemma_band_entry(row: int, col: int, rows: int, width: int)
    by (nonlinear_arith)
    requires
        0 <= row < rows,
        0 <= col < width,
    ensures
        0 <= row * width + col,
        row * width + col < rows * width,
{
}

/// A buffer holds at least the rows that integer division counts in it.
pub proof fn lemma_rows_fit(len: int, width: int)
    by (nonlinear_arith)
    requires
        width >= 1,
        len >= 0,
    ensures
        0 <= (len / width) * width <= len,
{
}

/// Dividing an exact multiple recovers the row count.
pub proof fn lemma_mul_div_exact(rows: int, width: int)
    by (nonlinear_arith)
    requires
        width >= 1,
        rows >= 0,
    ensures
        (rows * width) / width == rows,
{
}

/// A flat buffer position splits into its row and column.
pub proof fn lemma_flat_decode(j: int, width: int)
    by (nonlinear_arith)
    requires
        width >= 1,
        0 <= j,
    ensures
        j == (j / width) * width + (j % width),
        0 <= j % width < width,
{
}

/// A flat position inside the buffer lies in one of its counted rows.
pub proof fn lemma_flat_row_bound(j: int, width: int, rows: int)
    by (nonlinear_arith)
    requires
        width >= 1,
        0 <= j < rows * width,
    ensures
        0 <= j / width < rows,
{
}

/// A row and column recombine to their flat buffer position.
pub proof fn lemma_entry_encode(row: int, col: int, width: int)
    by (nonlinear_arith)
    requires
        width >= 1,
        0 <= col < width,
        0 <= row,
    ensures
        (row * width + col) / width == row,
        (row * width + col) % width == col,
{
}

/// A flat position past the counted rows decodes to a later row.
pub proof fn lemma_flat_row_lower(j: int, width: int, rows: int)
    by (nonlinear_arith)
    requires
        width >= 1,
        rows >= 0,
        rows * width <= j,
    ensures
        j / width >= rows,
{
}

} // verus!
