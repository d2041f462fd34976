//! Generalized cross-validated smoothing splines: fitting, evaluation, and
//! derivative computation over strictly increasing knot sequences.
//!
//! The numeric engine is generic over [`scalar::Scalar`], an abstract
//! arithmetic interface; callers supply a concrete implementation such as
//! IEEE double precision.

use vstd::prelude::*;

mod band;

pub mod bandet;
pub mod bansol;
pub mod basis;
pub mod gcvspl;
pub mod prep;
pub mod scalar;
pub mod search;
pub mod splc;
pub mod splder;
pub mod support;
pub mod trinv;

pub use crate::support::FittingError;

verus! {

/// Builds a vector holding `len` copies of `value`.
pub fn filled_vec<T: Copy>(value: T, len: usize) -> (v: Vec<T>)
    ensures
        v@.len() == len,
        forall|i: int| 0 <= i < len ==> v@[i] == value,
{
    let mut v: Vec<T> = Vec::new();
    let mut i: usize = 0;
    while i < len
        invariant
            i <= len,
            v@.len() == i,
            forall|j: int| 0 <= j < i ==> v@[j] == value,
        decreases len - i,
    {
        v.push(value);
        i = i + 1;
    }
    v
}

} // verus!
