//! Input validation shared by the fitting pipeline, and the error taxonomy.

use vstd::prelude::*;

use crate::scalar::Scalar;
use crate::scalar::strictly_increasing;

verus! {

/// Reports input errors that prevent fitting a GCV spline.
#[derive(Clone, Copy, Debug, PartialEq, Eq, Structural)]
pub enum FittingError {
    /// Fewer knots than the requested spline order needs.
    NotEnoughKnotsForOrder,
    /// A data or weight vector whose length differs from the knot count.
    VectorLengthMismatch,
    /// A knot sequence that is not strictly increasing.
    KnotsNotStrictlyIncreasing,
    /// Fewer than two knots.
    InsufficientKnots,
    /// Two cooperating band matrices of different storage size.
    MatrixMismatch,
}

/// A spline of half-order `m` needs at least `2m` knots.
pub fn check_order(half_order: usize, num_knots: usize) -> (r: Result<(), FittingError>)
    ensures
        r is Ok <==> num_knots >= 2 * half_order,
        r is Err ==> r == Result::<(), FittingError>::Err(FittingError::NotEnoughKnotsForOrder),
{
    if num_knots / 2 < half_order {
        assert(num_knots < 2 * half_order);
        return Err(FittingError::NotEnoughKnotsForOrder);
    }
    assert(num_knots >= 2 * half_order);
    Ok(())
}

/// A vector aligned with the knots must have exactly one entry per knot.
pub fn check_vector_length<T>(vector: &Vec<T>, num_knots: usize) -> (r: Result<(), FittingError>)
    ensures
        r is Ok <==> vector@.len() == num_knots,
        r is Err ==> r == Result::<(), FittingError>::Err(FittingError::VectorLengthMismatch),
{
    if vector.len() != num_knots {
        return Err(FittingError::VectorLengthMismatch);
    }
    Ok(())
}

/// The weight diagonal must have exactly one entry per knot.
pub fn check_weights_length<T>(weights_diagonal: &Vec<T>, num_knots: usize) -> (r: Result<
    (),
    FittingError,
>)
    ensures
        r is Ok <==> weights_diagonal@.len() == num_knots,
        r is Err ==> r == Result::<(), FittingError>::Err(FittingError::VectorLengthMismatch),
{
    check_vector_length(weights_diagonal, num_knots)
}

/// Knots must number at least two and be strictly increasing.
pub fn check_increasing<T: Scalar>(knots: &Vec<T>) -> (r: Result<(), FittingError>)
    ensures
        r is Ok <==> knots@.len() >= 2 && strictly_increasing(knots@),
        knots@.len() < 2 ==> r == Result::<(), FittingError>::Err(FittingError::InsufficientKnots),
        knots@.len() >= 2 && !strictly_increasing(knots@) ==> r == Result::<
            (),
            FittingError,
        >::Err(FittingError::KnotsNotStrictlyIncreasing),
{
    if knots.len() < 2 {
        return Err(FittingError::InsufficientKnots);
    }
    let mut i: usize = 0;
    while i < knots.len() - 1
        invariant
            knots@.len() >= 2,
            i <= knots@.len() - 1,
            forall|j: int| 0 <= j < i ==> #[trigger] knots@[j].lt_spec(knots@[j + 1]),
        decreases knots@.len() - 1 - i,
    {
        if !knots[i].lt(knots[i + 1]) {
            assert(!strictly_increasing(knots@));
            return Err(FittingError::KnotsNotStrictlyIncreasing);
        }
        i = i + 1;
    }
    Ok(())
}

/// Two band buffers that cooperate must have the same storage size.
pub fn check_matrix_size<T>(matrix_1: &Vec<T>, matrix_2: &Vec<T>) -> (r: Result<(), FittingError>)
    ensures
        r is Ok <==> matrix_1@.len() == matrix_2@.len(),
        r is Err ==> r == Result::<(), FittingError>::Err(FittingError::MatrixMismatch),
{
    if matrix_1.len() != matrix_2.len() {
        return Err(FittingError::MatrixMismatch);
    }
    Ok(())
}

} // verus!
