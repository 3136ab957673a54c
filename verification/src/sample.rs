//! What the engine needs from a sample type.
//!
//! [`Sample`] is the arithmetic a signal is made of: zero, one, sum,
//! difference and product, and the split of a value into a whole number of
//! places and a fraction. [`BlockProduct`] adds the convolution of two short
//! blocks, which a sample type is free to compute by a transform. Each
//! operation is a function of its operands and has a spec function of the
//! trait for its value, so that contracts can say exactly which value a
//! computation yields. A type that models its arithmetic defines those spec
//! functions; a type that does not (rounded arithmetic, say) leaves them as
//! they are, and the contracts then speak of its operations by name only.
//!
//! [`ExactSample`] and [`ExactBlockProduct`] add the algebra that the theorems
//! of this crate rest on: sums may be regrouped and reordered, zero and one
//! behave as they should, and the block product is the convolution sum.
//! Integers with wrapping arithmetic are exact.

use vstd::prelude::*;
use crate::convolution::{direct_product, linear_convolution};

verus! {

/// The constant numbered `which` of a sample type that gives no model of its
/// arithmetic.
pub closed spec fn unmodelled_constant<S>(which: int) -> S {
    (arbitrary::<spec_fn(int) -> S>())(which)
}

/// What the operation numbered `which` makes of `a` and `b`, for a sample
/// type that gives no model of its arithmetic.
pub closed spec fn unmodelled_operation<S>(which: int, a: S, b: S) -> S {
    (arbitrary::<spec_fn(int, S, S) -> S>())(which, a, b)
}

/// The whole part of `a`, for a sample type that gives no model of its
/// arithmetic.
pub closed spec fn unmodelled_whole<S>(a: S) -> usize {
    (arbitrary::<spec_fn(S) -> usize>())(a)
}

/// The block product of `a` and `b`, for a sample type that gives no model of
/// it.
pub closed spec fn unmodelled_block_product<S>(a: Seq<S>, b: Seq<S>) -> Seq<S> {
    (arbitrary::<spec_fn(Seq<S>, Seq<S>) -> Seq<S>>())(a, b)
}

/// The arithmetic of a signal's samples.
pub trait Sample: Copy + Default {
    /// The value of `zero()`.
    open spec fn zero_value() -> Self {
        unmodelled_constant(0)
    }

    /// The value of `one()`.
    open spec fn one_value() -> Self {
        unmodelled_constant(1)
    }

    /// The value of `self.plus(rhs)`.
    open spec fn sum(self, rhs: Self) -> Self {
        unmodelled_operation(0, self, rhs)
    }

    /// The value of `self.minus(rhs)`.
    open spec fn difference(self, rhs: Self) -> Self {
        unmodelled_operation(1, self, rhs)
    }

    /// The value of `self.times(rhs)`.
    open spec fn product(self, rhs: Self) -> Self {
        unmodelled_operation(2, self, rhs)
    }

    /// The whole part of `self` as a number of places: what `split`
    /// returns first.
    open spec fn whole_part(self) -> usize {
        unmodelled_whole(self)
    }

    /// What is left of `self` beside its whole part: what `split` returns
    /// second.
    open spec fn frac_part(self) -> Self {
        unmodelled_operation(3, self, self)
    }

    fn zero() -> (r: Self)
        ensures
            r == Self::zero_value(),
    ;

    fn one() -> (r: Self)
        ensures
            r == Self::one_value(),
    ;

    fn plus(self, rhs: Self) -> (r: Self)
        ensures
            r == self.sum(rhs),
    ;

    fn minus(self, rhs: Self) -> (r: Self)
        ensures
            r == self.difference(rhs),
    ;

    fn times(self, rhs: Self) -> (r: Self)
        ensures
            r == self.product(rhs),
    ;

    /// Splits a value that is not negative into a whole number of places
    /// and the fraction that is left.
    fn split(self) -> (r: (usize, Self))
        ensures
            r.0 == self.whole_part(),
            r.1 == self.frac_part(),
    ;
}

/// A sample type that can convolve two short blocks.
pub trait BlockProduct: Sample {
    /// The value of `block_product(a, b)`.
    open spec fn block_product_value(a: Seq<Self>, b: Seq<Self>) -> Seq<Self> {
        unmodelled_block_product(a, b)
    }

    /// The linear convolution of two short, non-empty blocks, as this sample
    /// type computes it (by a transform, for instance). The result has
    /// `a.len() + b.len() - 1` samples.
    fn block_product(a: &[Self], b: &[Self]) -> (r: Vec<Self>)
        requires
            a@.len() >= 1,
            b@.len() >= 1,
            a@.len() + b@.len() - 1 <= usize::MAX,
        ensures
            r@.len() == a@.len() + b@.len() - 1,
            r@ == Self::block_product_value(a@, b@),
    ;
}

/// A sample type whose arithmetic is exact.
pub trait ExactSample: Sample {
    proof fn sum_commutative(a: Self, b: Self)
        ensures
            a.sum(b) == b.sum(a),
    ;

    proof fn sum_associative(a: Self, b: Self, c: Self)
        ensures
            a.sum(b).sum(c) == a.sum(b.sum(c)),
    ;

    proof fn sum_zero(a: Self)
        ensures
            a.sum(Self::zero_value()) == a,
    ;

    proof fn difference_zero(a: Self)
        ensures
            a.difference(Self::zero_value()) == a,
    ;

    proof fn product_zero(a: Self)
        ensures
            a.product(Self::zero_value()) == Self::zero_value(),
            Self::zero_value().product(a) == Self::zero_value(),
    ;

    proof fn product_one(a: Self)
        ensures
            a.product(Self::one_value()) == a,
            Self::one_value().product(a) == a,
    ;
}

/// A sample type whose block product is exact.
pub trait ExactBlockProduct: BlockProduct + ExactSample {
    /// The block product is the convolution sum.
    proof fn block_product_exact(a: Seq<Self>, b: Seq<Self>)
        requires
            a.len() >= 1,
            b.len() >= 1,
        ensures
            Self::block_product_value(a, b) == linear_convolution(a, b),
    ;
}

/// Integer samples with wrapping arithmetic.
impl Sample for i64 {
    open spec fn zero_value() -> Self {
        0i64
    }

    open spec fn one_value() -> Self {
        1i64
    }

    open spec fn sum(self, rhs: Self) -> Self {
        self.wrapping_add(rhs)
    }

    open spec fn difference(self, rhs: Self) -> Self {
        self.wrapping_sub(rhs)
    }

    open spec fn product(self, rhs: Self) -> Self {
        self.wrapping_mul(rhs)
    }

    /// An integer is whole: negative values count as 0, values beyond
    /// `usize` as `usize::MAX`.
    open spec fn whole_part(self) -> usize {
        if self < 0 {
            0usize
        } else if self > usize::MAX {
            usize::MAX
        } else {
            self as usize
        }
    }

    open spec fn frac_part(self) -> Self {
        0i64
    }

    fn zero() -> (r: Self) {
        0i64
    }

    fn one() -> (r: Self) {
        1i64
    }

    fn plus(self, rhs: Self) -> (r: Self) {
        self.wrapping_add(rhs)
    }

    fn minus(self, rhs: Self) -> (r: Self) {
        self.wrapping_sub(rhs)
    }

    fn times(self, rhs: Self) -> (r: Self) {
        self.wrapping_mul(rhs)
    }

    fn split(self) -> (r: (usize, Self)) {
        let whole: usize = if self < 0 {
            0
        } else if self as u64 > usize::MAX as u64 {
            usize::MAX
        } else {
            self as usize
        };
        (whole, 0i64)
    }
}

/// Integer blocks are convolved by the sum that defines the convolution.
impl BlockProduct for i64 {
    open spec fn block_product_value(a: Seq<Self>, b: Seq<Self>) -> Seq<Self> {
        linear_convolution(a, b)
    }

    fn block_product(a: &[Self], b: &[Self]) -> (r: Vec<Self>) {
        direct_product(a, b)
    }
}

impl ExactSample for i64 {
    proof fn sum_commutative(a: Self, b: Self) {
    }

    proof fn sum_associative(a: Self, b: Self, c: Self) {
    }

    proof fn sum_zero(a: Self) {
    }

    proof fn difference_zero(a: Self) {
    }

    proof fn product_zero(a: Self) {
    }

    proof fn product_one(a: Self) {
    }
}

impl ExactBlockProduct for i64 {
    proof fn block_product_exact(a: Seq<Self>, b: Seq<Self>) {
    }
}

} // verus!
