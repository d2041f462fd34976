//! The abstract numeric interface of the fitting engine.
//!
//! Every algorithm in this crate is generic over [`Scalar`], which asks for
//! exactly the operations the engine needs: the four arithmetic operations,
//! negation, absolute value, comparison, and conversion from small counts.
//! Callers provide the concrete arithmetic (typically IEEE double precision).

use vstd::prelude::*;

verus! {

/// Abstract arithmetic for the spline engine.
///
/// The `*_spec` functions are the mathematical meaning of the operations; the
/// executable methods promise to agree with them. The strict order `lt_spec`
/// must be transitive (`lt_transitive`), and the remaining comparisons must be
/// its complement or converse, as each method's contract states. A total order
/// of that kind is what the fitting logic relies on; IEEE floating point
/// provides it on every value except NaN, which the engine's inputs are
/// assumed not to contain (non-finite values propagate through the arithmetic
/// itself, not through the control decisions verified here).
///
/// Nothing else is assumed: in particular no algebraic law (associativity,
/// rounding behaviour, ...) of the arithmetic itself is used by any proof.
pub trait Scalar: Sized + Copy {
    /// Meaning of "strictly less than".
    spec fn lt_spec(self, rhs: Self) -> bool;

    /// Meaning of "equal as a number" (distinct from structural equality).
    spec fn eq_spec(self, rhs: Self) -> bool;

    /// Meaning of addition.
    spec fn add_spec(self, rhs: Self) -> Self;

    /// Meaning of subtraction.
    spec fn sub_spec(self, rhs: Self) -> Self;

    /// Meaning of multiplication.
    spec fn mul_spec(self, rhs: Self) -> Self;

    /// Meaning of division.
    spec fn div_spec(self, rhs: Self) -> Self;

    /// Meaning of negation.
    spec fn neg_spec(self) -> Self;

    /// Meaning of absolute value.
    spec fn abs_spec(self) -> Self;

    /// Meaning of conversion from a count.
    spec fn from_count_spec(v: u64) -> Self;

    /// The strict order is transitive.
    proof fn lt_transitive(a: Self, b: Self, c: Self)
        requires
            a.lt_spec(b),
            b.lt_spec(c),
        ensures
            a.lt_spec(c),
    ;

    fn lt(self, rhs: Self) -> (r: bool)
        ensures
            r == self.lt_spec(rhs),
    ;

    fn le(self, rhs: Self) -> (r: bool)
        ensures
            r == !rhs.lt_spec(self),
    ;

    fn gt(self, rhs: Self) -> (r: bool)
        ensures
            r == rhs.lt_spec(self),
    ;

    fn ge(self, rhs: Self) -> (r: bool)
        ensures
            r == !self.lt_spec(rhs),
    ;

    fn eq_value(self, rhs: Self) -> (r: bool)
        ensures
            r == self.eq_spec(rhs),
    ;

    fn add(self, rhs: Self) -> (r: Self)
        ensures
            r == self.add_spec(rhs),
    ;

    fn sub(self, rhs: Self) -> (r: Self)
        ensures
            r == self.sub_spec(rhs),
    ;

    fn mul(self, rhs: Self) -> (r: Self)
        ensures
            r == self.mul_spec(rhs),
    ;

    fn div(self, rhs: Self) -> (r: Self)
        ensures
            r == self.div_spec(rhs),
    ;

    fn neg(self) -> (r: Self)
        ensures
            r == self.neg_spec(),
    ;

    fn abs(self) -> (r: Self)
        ensures
            r == self.abs_spec(),
    ;

    /// Conversion from a small nonnegative integer.
    fn from_count(v: u64) -> (r: Self)
        ensures
            r == Self::from_count_spec(v),
    ;
}

/// The knot sequence invariant: each knot is strictly below its successor.
pub open spec fn strictly_increasing<T: Scalar>(s: Seq<T>) -> bool {
    forall|i: int| 0 <= i < s.len() - 1 ==> #[trigger] s[i].lt_spec(s[i + 1])
}

/// In a strictly increasing sequence, any earlier element is strictly below
/// any later one.
pub proof fn lemma_increasing_pairwise<T: Scalar>(s: Seq<T>, i: int, j: int)
    requires
        strictly_increasing(s),
        0 <= i < j < s.len(),
    ensures
        s[i].lt_spec(s[j]),
    decreases j - i,
{
    if i + 1 == j {
        assert(s[i].lt_spec(s[i + 1]));
    } else {
        lemma_increasing_pairwise(s, i, j - 1);
        assert(s[j - 1].lt_spec(s[j - 1 + 1]));
        T::lt_transitive(s[i], s[j - 1], s[j]);
    }
}

} // verus!
