//! The numbers a network computes with.
//!
//! The engine never looks inside a number. It asks the [`Scalar`] operations
//! for every constant, sum, product and comparison, and its contracts say
//! which operation produced which cell from which operands. Nothing is assumed
//! of the operations themselves: an operation may round, saturate or answer
//! differently on two calls, and every contract still holds.

use vstd::prelude::*;

verus! {

/// The arithmetic a cell type has to offer.
///
/// The methods carry no contract. What a call returned is spoken of through
/// the relations below (`is_sum`, `is_product`, ...), each of which holds of
/// exactly the values that the operation can hand back for the given operands.
pub trait Scalar: Copy + Sized {
    /// The additive identity.
    fn zero() -> Self;

    /// The multiplicative identity.
    fn one() -> Self;

    /// The circle constant.
    fn pi() -> Self;

    /// The smallest value that a logarithm is taken of.
    fn tiny() -> Self;

    /// The number nearest to a count.
    fn from_count(n: usize) -> Self;

    fn negate(self) -> Self;

    fn plus(self, rhs: Self) -> Self;

    fn minus(self, rhs: Self) -> Self;

    fn times(self, rhs: Self) -> Self;

    fn over(self, rhs: Self) -> Self;

    fn exp(self) -> Self;

    fn ln(self) -> Self;

    fn tanh(self) -> Self;

    fn sqrt(self) -> Self;

    fn sin(self) -> Self;

    fn cos(self) -> Self;

    /// Whether `self` is strictly greater than `rhs`.
    fn greater(self, rhs: Self) -> bool;

    /// Whether `self` and `rhs` are the same number.
    fn same(self, rhs: Self) -> bool;
}

pub open spec fn is_zero<T: Scalar>(r: T) -> bool {
    call_ensures(T::zero, (), r)
}

pub open spec fn is_one<T: Scalar>(r: T) -> bool {
    call_ensures(T::one, (), r)
}

pub open spec fn is_pi<T: Scalar>(r: T) -> bool {
    call_ensures(T::pi, (), r)
}

pub open spec fn is_tiny<T: Scalar>(r: T) -> bool {
    call_ensures(T::tiny, (), r)
}

pub open spec fn is_count<T: Scalar>(n: usize, r: T) -> bool {
    call_ensures(T::from_count, (n,), r)
}

pub open spec fn is_negation<T: Scalar>(a: T, r: T) -> bool {
    call_ensures(T::negate, (a,), r)
}

pub open spec fn is_sum<T: Scalar>(a: T, b: T, r: T) -> bool {
    call_ensures(T::plus, (a, b), r)
}

pub open spec fn is_difference<T: Scalar>(a: T, b: T, r: T) -> bool {
    call_ensures(T::minus, (a, b), r)
}

pub open spec fn is_product<T: Scalar>(a: T, b: T, r: T) -> bool {
    call_ensures(T::times, (a, b), r)
}

pub open spec fn is_quotient<T: Scalar>(a: T, b: T, r: T) -> bool {
    call_ensures(T::over, (a, b), r)
}

pub open spec fn is_exp<T: Scalar>(a: T, r: T) -> bool {
    call_ensures(T::exp, (a,), r)
}

pub open spec fn is_ln<T: Scalar>(a: T, r: T) -> bool {
    call_ensures(T::ln, (a,), r)
}

pub open spec fn is_tanh<T: Scalar>(a: T, r: T) -> bool {
    call_ensures(T::tanh, (a,), r)
}

pub open spec fn is_sqrt<T: Scalar>(a: T, r: T) -> bool {
    call_ensures(T::sqrt, (a,), r)
}

pub open spec fn is_sin<T: Scalar>(a: T, r: T) -> bool {
    call_ensures(T::sin, (a,), r)
}

pub open spec fn is_cos<T: Scalar>(a: T, r: T) -> bool {
    call_ensures(T::cos, (a,), r)
}

/// `answer` is what comparing `a > b` can report.
pub open spec fn is_greater<T: Scalar>(a: T, b: T, answer: bool) -> bool {
    call_ensures(T::greater, (a, b), answer)
}

/// `answer` is what comparing `a` with `b` for sameness can report.
pub open spec fn is_same<T: Scalar>(a: T, b: T, answer: bool) -> bool {
    call_ensures(T::same, (a, b), answer)
}

} // verus!
