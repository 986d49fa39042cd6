//! The numbers a network computes with.
//!
//! Every algorithm of this crate is written against [`Scalar`], and every
//! contract is stated over its specification functions, so a contract fixes
//! not only the formula that is computed but also the order in which its
//! operations are applied.

use vstd::prelude::*;

verus! {

/// A mathematical integer, as an implementation of [`Scalar`] names it in
/// the signature of `spec_from_int`.
pub type Integer = int;

/// A number type with the four arithmetic operations and an order.
///
/// Each operation has a specification function that names its result; the
/// executable operation returns exactly that value. Nothing else is asked of
/// the operations: they may round, saturate or have special values.
pub trait Scalar: Copy {
    /// The number that stands for the integer `n`.
    spec fn spec_from_int(n: Integer) -> Self;

    /// The result of `self + rhs`.
    spec fn spec_add(self, rhs: Self) -> Self;

    /// The result of `self - rhs`.
    spec fn spec_sub(self, rhs: Self) -> Self;

    /// The result of `self * rhs`.
    spec fn spec_mul(self, rhs: Self) -> Self;

    /// The result of `self / rhs`.
    spec fn spec_div(self, rhs: Self) -> Self;

    /// Whether `self <= rhs`.
    spec fn spec_le(self, rhs: Self) -> bool;

    /// Converts an integer.
    fn from_int(n: i32) -> (r: Self)
        ensures
            r == Self::spec_from_int(n as int),
    ;

    /// Converts a count.
    fn from_usize(n: usize) -> (r: Self)
        ensures
            r == Self::spec_from_int(n as int),
    ;

    /// Adds two numbers.
    fn add(self, rhs: Self) -> (r: Self)
        ensures
            r == self.spec_add(rhs),
    ;

    /// Subtracts `rhs` from `self`.
    fn sub(self, rhs: Self) -> (r: Self)
        ensures
            r == self.spec_sub(rhs),
    ;

    /// Multiplies two numbers.
    fn mul(self, rhs: Self) -> (r: Self)
        ensures
            r == self.spec_mul(rhs),
    ;

    /// Divides `self` by `rhs`.
    fn div(self, rhs: Self) -> (r: Self)
        ensures
            r == self.spec_div(rhs),
    ;

    /// Compares two numbers.
    fn le(self, rhs: Self) -> (r: bool)
        ensures
            r == self.spec_le(rhs),
    ;
}

/// The number zero.
pub open spec fn zero<S: Scalar>() -> S {
    S::spec_from_int(0)
}

/// The number one.
pub open spec fn one<S: Scalar>() -> S {
    S::spec_from_int(1)
}

/// The number reached from `start` by adding one `k` times.
///
/// This is how a running count is kept in a scalar.
pub open spec fn counted<S: Scalar>(start: S, k: nat) -> S
    decreases k,
{
    if k == 0 {
        start
    } else {
        counted(start, (k - 1) as nat).spec_add(one::<S>())
    }
}

/// The sum `xs[0] * ws[0][col] + .. + xs[n - 1] * ws[n - 1][col]`, added up
/// from zero and from the left.
pub open spec fn weighted_sum<S: Scalar>(xs: Seq<S>, ws: Seq<Seq<S>>, col: int, n: nat) -> S
    decreases n,
{
    if n == 0 {
        zero::<S>()
    } else {
        weighted_sum(xs, ws, col, (n - 1) as nat).spec_add(xs[n - 1].spec_mul(ws[n - 1][col]))
    }
}

/// The sum `ws[0] * es[0] + .. + ws[n - 1] * es[n - 1]`, added up from zero
/// and from the left.
pub open spec fn dot<S: Scalar>(ws: Seq<S>, es: Seq<S>, n: nat) -> S
    decreases n,
{
    if n == 0 {
        zero::<S>()
    } else {
        dot(ws, es, (n - 1) as nat).spec_add(ws[n - 1].spec_mul(es[n - 1]))
    }
}

} // verus!
