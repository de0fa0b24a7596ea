//! What the vector operations compute, stated over sequences of scalars, and
//! the capabilities that vectors offer.
//!
//! Operations on two vectors pair their elements position by position and stop
//! at the end of the shorter one. Sums start from zero and add the terms from
//! the first position to the last, in that order.
use crate::index_layout::IndexLayout;
use crate::scalar::{RealScalar, Scalar};
use crate::types::SparseLinAlgResult;
use vstd::prelude::*;

verus! {

/// The number of positions that two sequences share.
pub open spec fn common_len<T>(a: Seq<T>, b: Seq<T>) -> nat {
    if a.len() <= b.len() {
        a.len()
    } else {
        b.len()
    }
}

/// The sum of `a[i] * conj(b[i])` over the first `n` positions.
pub open spec fn inner_upto<T: Scalar>(a: Seq<T>, b: Seq<T>, n: nat) -> T
    decreases n,
{
    if n == 0 {
        T::zero_spec()
    } else {
        inner_upto(a, b, (n - 1) as nat).add_spec(a[n - 1].mul_spec(b[n - 1].conj_spec()))
    }
}

/// The inner product of `a` with `b`, conjugate-linear in `b`.
pub open spec fn inner_product<T: Scalar>(a: Seq<T>, b: Seq<T>) -> T {
    inner_upto(a, b, common_len(a, b))
}

/// The sum of the squared absolute values of the first `n` elements.
pub open spec fn square_sum_upto<T: Scalar>(a: Seq<T>, n: nat) -> T::Real
    decreases n,
{
    if n == 0 {
        T::Real::zero_spec()
    } else {
        square_sum_upto(a, (n - 1) as nat).add_spec(a[n - 1].square_spec())
    }
}

/// The sum of the squared absolute values of all elements.
pub open spec fn square_sum<T: Scalar>(a: Seq<T>) -> T::Real {
    square_sum_upto(a, a.len())
}

/// The sum of the absolute values of the first `n` elements.
pub open spec fn abs_sum_upto<T: Scalar>(a: Seq<T>, n: nat) -> T::Real
    decreases n,
{
    if n == 0 {
        T::Real::zero_spec()
    } else {
        abs_sum_upto(a, (n - 1) as nat).add_spec(a[n - 1].abs_spec())
    }
}

/// The sum of the absolute values of all elements.
pub open spec fn abs_sum<T: Scalar>(a: Seq<T>) -> T::Real {
    abs_sum_upto(a, a.len())
}

/// The largest absolute value among the first `n` elements; negative
/// infinity for `n == 0`.
pub open spec fn abs_max_upto<T: Scalar>(a: Seq<T>, n: nat) -> T::Real
    decreases n,
{
    if n == 0 {
        T::Real::neg_infinity_spec()
    } else {
        abs_max_upto(a, (n - 1) as nat).max_spec(a[n - 1].abs_spec())
    }
}

/// The largest absolute value of all elements; negative infinity for an
/// empty sequence, so that it never wins a maximum over several sequences.
pub open spec fn abs_max<T: Scalar>(a: Seq<T>) -> T::Real {
    abs_max_upto(a, a.len())
}

/// `a` with the elements of `b` written over the positions they share.
pub open spec fn overwritten<T>(a: Seq<T>, b: Seq<T>) -> Seq<T> {
    Seq::new(
        a.len(),
        |i: int|
            if i < b.len() {
                b[i]
            } else {
                a[i]
            },
    )
}

/// Every element of `a` multiplied by `scalar`.
pub open spec fn scaled<T: Scalar>(a: Seq<T>, scalar: T) -> Seq<T> {
    Seq::new(a.len(), |i: int| a[i].mul_spec(scalar))
}

/// What one element becomes when `scalar` times `y` is added to it. A scalar
/// that compares equal to zero leaves the element as it is, and one that
/// compares equal to one adds `y` itself, without a multiplication.
pub open spec fn mult_sum_element<T: Scalar>(x: T, y: T, scalar: T) -> T {
    if scalar.is_zero_spec() {
        x
    } else if scalar.is_one_spec() {
        x.add_spec(y)
    } else {
        x.add_spec(scalar.mul_spec(y))
    }
}

/// `a + scalar * b` on the positions that `a` and `b` share; the other
/// elements of `a` stay.
pub open spec fn mult_sum<T: Scalar>(a: Seq<T>, b: Seq<T>, scalar: T) -> Seq<T> {
    Seq::new(
        a.len(),
        |i: int|
            if i < b.len() {
                mult_sum_element(a[i], b[i], scalar)
            } else {
                a[i]
            },
    )
}

/// A vector whose elements are indexed by the local positions of an index
/// layout.
pub trait IndexableVector {
    /// The type of the elements.
    type T: Scalar;

    /// The type of the layout.
    type Ind: IndexLayout;

    /// The elements that this rank holds, in order.
    spec fn values(&self) -> Seq<Self::T>;

    /// The layout that the vector was built on.
    fn index_layout(&self) -> &Self::Ind;
}

/// Inner product with another object.
pub trait Inner: IndexableVector + Sized {
    /// The inner product with `other`, conjugate-linear in `other`; where the
    /// two vectors cannot be combined, the failure of the operation `inner`.
    fn inner(&self, other: &Self) -> (result: SparseLinAlgResult<Self::T>)
        ensures
            match result {
                Ok(product) => product == inner_product(self.values(), other.values()),
                Err(e) => e.is_failure_of("inner"@),
            },
    ;
}

/// Take the sum of the squares of the absolute values of the entries.
pub trait AbsSquareSum: IndexableVector {
    fn abs_square_sum(&self) -> (sum: <Self::T as Scalar>::Real)
        ensures
            sum == square_sum(self.values()),
    ;
}

/// Return the 1-norm (sum of the absolute values of the entries).
pub trait Norm1: IndexableVector {
    fn norm_1(&self) -> (norm: <Self::T as Scalar>::Real)
        ensures
            norm == abs_sum(self.values()),
    ;
}

/// Return the 2-norm (square root of the sum of squares).
pub trait Norm2: IndexableVector {
    fn norm_2(&self) -> (norm: <Self::T as Scalar>::Real)
        ensures
            norm == square_sum(self.values()).sqrt_spec(),
    ;
}

/// Return the supremum norm (largest absolute value of the entries).
pub trait NormInf: IndexableVector {
    /// The largest absolute value; negative infinity for a vector without
    /// elements.
    fn norm_inf(&self) -> (norm: <Self::T as Scalar>::Real)
        ensures
            norm == abs_max(self.values()),
    ;
}

/// Swap entries with another vector.
pub trait Swap: IndexableVector + Sized {
    /// Exchanges the elements of the two vectors; where they cannot be
    /// combined, both stay as they are and the operation `swap` fails.
    fn swap(&mut self, other: &mut Self) -> (result: SparseLinAlgResult<()>)
        ensures
            match result {
                Ok(_) => {
                    &&& final(self).values() == old(other).values()
                    &&& final(other).values() == old(self).values()
                },
                Err(e) => {
                    &&& e.is_failure_of("swap"@)
                    &&& final(self).values() == old(self).values()
                    &&& final(other).values() == old(other).values()
                },
            },
    ;
}

/// Fill a vector by copying from another vector.
pub trait Fill: IndexableVector + Sized {
    /// Copies the elements of `other`; where the two vectors cannot be
    /// combined, the vector stays as it is and the operation `fill` fails.
    fn fill(&mut self, other: &Self) -> (result: SparseLinAlgResult<()>)
        ensures
            match result {
                Ok(_) => final(self).values() == other.values(),
                Err(e) => e.is_failure_of("fill"@) && final(self).values() == old(self).values(),
            },
    ;
}

/// Multiply the entries with a scalar.
pub trait ScalarMult: IndexableVector {
    fn scalar_mult(&mut self, scalar: Self::T)
        ensures
            final(self).values() == scaled(old(self).values(), scalar),
    ;
}

/// Compute `self -> self + scalar * other`.
pub trait MultSumInto: IndexableVector + Sized {
    /// Adds `scalar` times `other`, without any arithmetic for a scalar that
    /// compares equal to zero and without a multiplication for one that
    /// compares equal to one; where the two vectors cannot be combined, the
    /// vector stays as it is and the operation `mult_sum_into` fails.
    fn mult_sum_into(&mut self, other: &Self, scalar: Self::T) -> (result: SparseLinAlgResult<()>)
        ensures
            match result {
                Ok(_) => final(self).values() == mult_sum(old(self).values(), other.values(), scalar),
                Err(e) => {
                    &&& e.is_failure_of("mult_sum_into"@)
                    &&& final(self).values() == old(self).values()
                },
            },
    ;
}

} // verus!
