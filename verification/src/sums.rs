//! Partial convolution sums over exact samples, and how they split.
//!
//! The convolution sum at a position collects one product for every pair of
//! an input sample and a kernel tap whose indices add up to the position.
//! Restricting the samples and the taps to ranges gives a partial sum. With
//! exact arithmetic a sum over a range is the sum of the partial sums over
//! its pieces, in whatever order the pieces are taken: this is what makes a
//! blockwise computation agree with the direct one.

use vstd::prelude::*;
use crate::convolution::conv_fold;
use crate::sample::{ExactSample, Sample};

verus! {

/// The part of the convolution sum at position `i` in which a sample of `x`
/// from `[x_lo, x_hi)` meets a tap of `h` from `[h_lo, h_hi)`: taps in
/// increasing order, from zero.
pub open spec fn partial_sum<S: Sample>(
    x: Seq<S>,
    x_lo: int,
    x_hi: int,
    h: Seq<S>,
    h_lo: int,
    h_hi: int,
    i: int,
) -> S
    decreases h_hi - h_lo,
{
    if h_hi <= h_lo {
        S::zero_value()
    } else {
        let j = h_hi - 1;
        let acc = partial_sum(x, x_lo, x_hi, h, h_lo, j, i);
        if x_lo <= i - j < x_hi {
            acc.sum(x[i - j].product(h[j]))
        } else {
            acc
        }
    }
}

/// Zero is neutral on the left too.
pub proof fn lemma_zero_sum<S: ExactSample>(a: S)
    ensures
        S::zero_value().sum(a) == a,
{
    S::sum_commutative(S::zero_value(), a);
    S::sum_zero(a);
}

/// A convolution sum that starts from `start` is `start` plus the sum from
/// zero.
pub proof fn lemma_fold_start<S: ExactSample>(x: Seq<S>, h: Seq<S>, i: int, taps: nat, start: S)
    ensures
        conv_fold(x, h, i, taps, start) == start.sum(conv_fold(x, h, i, taps, S::zero_value())),
    decreases taps,
{
    if taps == 0 {
        S::sum_zero(start);
    } else {
        let j = (taps - 1) as nat;
        lemma_fold_start(x, h, i, j, start);
        if 0 <= i - j < x.len() {
            S::sum_associative(
                start,
                conv_fold(x, h, i, j, S::zero_value()),
                x[i - j].product(h[j as int]),
            );
        }
    }
}

/// The convolution sum over the first `taps` taps is the partial sum of all
/// samples with those taps.
pub proof fn lemma_fold_is_partial_sum<S: ExactSample>(x: Seq<S>, h: Seq<S>, i: int, taps: nat)
    ensures
        conv_fold(x, h, i, taps, S::zero_value()) == partial_sum(
            x,
            0,
            x.len() as int,
            h,
            0,
            taps as int,
            i,
        ),
    decreases taps,
{
    if taps > 0 {
        lemma_fold_is_partial_sum(x, h, i, (taps - 1) as nat);
    }
}

/// A partial sum depends on the samples and taps of its ranges only, and
/// not on where the ranges lie: moving the samples by `dx` and the taps by
/// `dh` moves the position by `dx + dh`.
pub proof fn lemma_partial_sum_moved<S: ExactSample>(
    x: Seq<S>,
    x_lo: int,
    x_hi: int,
    h: Seq<S>,
    h_lo: int,
    h_hi: int,
    i: int,
    x2: Seq<S>,
    dx: int,
    h2: Seq<S>,
    dh: int,
)
    requires
        forall|k: int| x_lo <= k < x_hi ==> x[k] == #[trigger] x2[k + dx],
        forall|j: int| h_lo <= j < h_hi ==> h[j] == #[trigger] h2[j + dh],
    ensures
        partial_sum(x, x_lo, x_hi, h, h_lo, h_hi, i) == partial_sum(
            x2,
            x_lo + dx,
            x_hi + dx,
            h2,
            h_lo + dh,
            h_hi + dh,
            i + dx + dh,
        ),
    decreases h_hi - h_lo,
{
    if h_hi > h_lo {
        let j = h_hi - 1;
        lemma_partial_sum_moved(x, x_lo, x_hi, h, h_lo, j, i, x2, dx, h2, dh);
        if x_lo <= i - j < x_hi {
            assert(x[i - j] == x2[(i - j) + dx]);
            assert(h[j] == h2[j + dh]);
        }
    }
}

/// A partial sum over a range of taps is the sum of the partial sums over
/// its two pieces.
pub proof fn lemma_split_taps<S: ExactSample>(
    x: Seq<S>,
    x_lo: int,
    x_hi: int,
    h: Seq<S>,
    h_lo: int,
    h_mid: int,
    h_hi: int,
    i: int,
)
    requires
        h_lo <= h_mid <= h_hi,
    ensures
        partial_sum(x, x_lo, x_hi, h, h_lo, h_hi, i) == partial_sum(
            x,
            x_lo,
            x_hi,
            h,
            h_lo,
            h_mid,
            i,
        ).sum(partial_sum(x, x_lo, x_hi, h, h_mid, h_hi, i)),
    decreases h_hi - h_mid,
{
    let left = partial_sum(x, x_lo, x_hi, h, h_lo, h_mid, i);
    if h_hi == h_mid {
        S::sum_zero(left);
    } else {
        let j = h_hi - 1;
        lemma_split_taps(x, x_lo, x_hi, h, h_lo, h_mid, j, i);
        if x_lo <= i - j < x_hi {
            S::sum_associative(
                left,
                partial_sum(x, x_lo, x_hi, h, h_mid, j, i),
                x[i - j].product(h[j]),
            );
        }
    }
}

/// A partial sum over a range of samples is the sum of the partial sums
/// over its two pieces.
pub proof fn lemma_split_samples<S: ExactSample>(
    x: Seq<S>,
    x_lo: int,
    x_mid: int,
    x_hi: int,
    h: Seq<S>,
    h_lo: int,
    h_hi: int,
    i: int,
)
    requires
        x_lo <= x_mid <= x_hi,
    ensures
        partial_sum(x, x_lo, x_hi, h, h_lo, h_hi, i) == partial_sum(
            x,
            x_lo,
            x_mid,
            h,
            h_lo,
            h_hi,
            i,
        ).sum(partial_sum(x, x_mid, x_hi, h, h_lo, h_hi, i)),
    decreases h_hi - h_lo,
{
    if h_hi <= h_lo {
        S::sum_zero(S::zero_value());
    } else {
        let j = h_hi - 1;
        lemma_split_samples(x, x_lo, x_mid, x_hi, h, h_lo, j, i);
        let a = partial_sum(x, x_lo, x_mid, h, h_lo, j, i);
        let b = partial_sum(x, x_mid, x_hi, h, h_lo, j, i);
        if x_lo <= i - j < x_mid {
            let t = x[i - j].product(h[j]);
            S::sum_associative(a, b, t);
            S::sum_commutative(b, t);
            S::sum_associative(a, t, b);
        } else if x_mid <= i - j < x_hi {
            S::sum_associative(a, b, x[i - j].product(h[j]));
        }
    }
}

/// Where no sample of the range meets a tap of the range, the partial sum
/// is zero.
pub proof fn lemma_partial_sum_outside<S: ExactSample>(
    x: Seq<S>,
    x_lo: int,
    x_hi: int,
    h: Seq<S>,
    h_lo: int,
    h_hi: int,
    i: int,
)
    requires
        x_hi <= x_lo || i - h_lo < x_lo || i - (h_hi - 1) >= x_hi,
    ensures
        partial_sum(x, x_lo, x_hi, h, h_lo, h_hi, i) == S::zero_value(),
    decreases h_hi - h_lo,
{
    if h_hi > h_lo {
        lemma_partial_sum_outside(x, x_lo, x_hi, h, h_lo, h_hi - 1, i);
    }
}

} // verus!
