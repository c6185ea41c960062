//! The arithmetic that a matrix needs from its entries.
//!
//! [`Scalar`] names the four things a matrix computes with: a zero, a one, a
//! sum and a product. Each executable operation returns exactly the value of
//! its specification function, so a matrix operation can say which value
//! stands in every cell. [`ScalarLaws`] adds the algebraic laws that the laws
//! of matrices rest on. The laws are a trait of their own so that `Scalar`
//! can be implemented for arithmetic that lacks them, such as floating point,
//! where zero times infinity is not zero.

use vstd::prelude::*;

verus! {

/// A type of matrix entries.
pub trait Scalar: Copy {
    /// The value that [`Scalar::zero`] returns.
    spec fn zero_value() -> Self;

    /// The value that [`Scalar::one`] returns.
    spec fn one_value() -> Self;

    /// The value that [`Scalar::plus`] returns.
    spec fn sum(self, rhs: Self) -> Self;

    /// The value that [`Scalar::times`] returns.
    spec fn product(self, rhs: Self) -> Self;

    /// The entry that an empty sum starts from.
    fn zero() -> (r: Self)
        ensures
            r == Self::zero_value(),
    ;

    /// The entry on the diagonal of an identity matrix.
    fn one() -> (r: Self)
        ensures
            r == Self::one_value(),
    ;

    /// The sum of two entries.
    fn plus(self, rhs: Self) -> (r: Self)
        ensures
            r == self.sum(rhs),
    ;

    /// The product of two entries.
    fn times(self, rhs: Self) -> (r: Self)
        ensures
            r == self.product(rhs),
    ;
}

/// Entries whose sum commutes, whose zero is neutral for the sum and
/// absorbing for the product, and whose one is neutral for the product.
pub trait ScalarLaws: Scalar {
    /// The sum does not depend on the order of its operands.
    proof fn lemma_sum_commutes(a: Self, b: Self)
        ensures
            a.sum(b) == b.sum(a),
    ;

    /// Adding zero on either side changes nothing.
    proof fn lemma_zero_neutral(a: Self)
        ensures
            Self::zero_value().sum(a) == a,
            a.sum(Self::zero_value()) == a,
    ;

    /// Zero times anything is zero.
    proof fn lemma_zero_absorbs(a: Self)
        ensures
            Self::zero_value().product(a) == Self::zero_value(),
    ;

    /// One times anything is that thing.
    proof fn lemma_one_neutral(a: Self)
        ensures
            Self::one_value().product(a) == a,
    ;
}

/// Signed 64-bit integers with wrapping arithmetic.
impl Scalar for i64 {
    open spec fn zero_value() -> i64 {
        0
    }

    open spec fn one_value() -> i64 {
        1
    }

    open spec fn sum(self, rhs: i64) -> i64 {
        vstd::wrapping::i64_specs::wrapping_add(self, rhs)
    }

    open spec fn product(self, rhs: i64) -> i64 {
        vstd::wrapping::i64_specs::wrapping_mul(self, rhs)
    }

    fn zero() -> (r: i64) {
        0
    }

    fn one() -> (r: i64) {
        1
    }

    fn plus(self, rhs: i64) -> (r: i64) {
        self.wrapping_add(rhs)
    }

    fn times(self, rhs: i64) -> (r: i64) {
        self.wrapping_mul(rhs)
    }
}

impl ScalarLaws for i64 {
    proof fn lemma_sum_commutes(a: i64, b: i64) {
    }

    proof fn lemma_zero_neutral(a: i64) {
    }

    proof fn lemma_zero_absorbs(a: i64) {
    }

    proof fn lemma_one_neutral(a: i64) {
    }
}

} // verus!
