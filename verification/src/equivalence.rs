//! With exact samples, the block convolver computes what the direct
//! convolver computes.

use vstd::prelude::*;
use crate::convolution::{
    add_at, block_count, block_of, lemma_block_exists, lemma_overlap_add_len,
    lemma_overlap_add_row_len, linear_convolution, overlap_add, overlap_add_row, pair_product,
};
use crate::fast_convolver::{ConvolutionMode, ConvolverModel};
use crate::sample::ExactBlockProduct;
use crate::sums::{
    lemma_fold_is_partial_sum, lemma_fold_start, lemma_partial_sum_moved,
    lemma_partial_sum_outside, lemma_split_samples, lemma_split_taps, partial_sum,
};

verus! {

/// Where the first `blocks` blocks of a signal of `len` samples end.
pub open spec fn reach(len: nat, block_size: nat, blocks: nat) -> int {
    if blocks * block_size <= len {
        (blocks * block_size) as int
    } else {
        len as int
    }
}

/// Block `k` of a signal lies between the reach of `k` blocks and the reach
/// of `k + 1` blocks.
pub proof fn lemma_block_between_reaches<T>(signal: Seq<T>, block_size: nat, k: nat)
    requires
        block_size >= 1,
        k * block_size < signal.len(),
    ensures
        reach(signal.len(), block_size, k) == k * block_size,
        reach(signal.len(), block_size, k) < reach(signal.len(), block_size, k + 1)
            <= signal.len(),
        block_of(signal, block_size, k as int) == signal.subrange(
            reach(signal.len(), block_size, k),
            reach(signal.len(), block_size, k + 1),
        ),
{
    assert((k + 1) * block_size == k * block_size + block_size) by (nonlinear_arith);
}

/// All the blocks of a signal reach its end.
pub proof fn lemma_reach_of_all<T>(signal: Seq<T>, block_size: nat)
    requires
        block_size >= 1,
    ensures
        reach(signal.len(), block_size, block_count(signal.len(), block_size)) == signal.len(),
{
    lemma_block_exists(signal.len(), block_size, block_count(signal.len(), block_size));
}

/// A sample of the product of two blocks is the partial sum of the
/// samples of the one block with the taps of the other.
proof fn lemma_product_sample<S: ExactBlockProduct>(
    transformed: bool,
    x: Seq<S>,
    x_lo: int,
    x_hi: int,
    h: Seq<S>,
    h_lo: int,
    h_hi: int,
    p: int,
)
    requires
        0 <= x_lo < x_hi <= x.len(),
        0 <= h_lo < h_hi <= h.len(),
        0 <= p < (x_hi - x_lo) + (h_hi - h_lo) - 1,
    ensures
        pair_product(transformed, x.subrange(x_lo, x_hi), h.subrange(h_lo, h_hi))[p]
            == partial_sum(x, x_lo, x_hi, h, h_lo, h_hi, p + x_lo + h_lo),
        pair_product(transformed, x.subrange(x_lo, x_hi), h.subrange(h_lo, h_hi)).len() == (x_hi
            - x_lo) + (h_hi - h_lo) - 1,
{
    let xb = x.subrange(x_lo, x_hi);
    let hb = h.subrange(h_lo, h_hi);
    S::block_product_exact(xb, hb);
    assert(pair_product(transformed, xb, hb) == linear_convolution(xb, hb));
    lemma_fold_is_partial_sum(xb, hb, p, hb.len());
    lemma_partial_sum_moved(
        xb,
        0,
        xb.len() as int,
        hb,
        0,
        hb.len() as int,
        p,
        x,
        x_lo,
        h,
        h_lo,
    );
}

/// One sample of a row of the overlap-add: what was there, plus the partial
/// sum of the input block's samples with the taps of the kernel blocks that
/// the row has met.
proof fn lemma_row_sample<S: ExactBlockProduct>(
    full: Seq<S>,
    transformed: bool,
    x: Seq<S>,
    i: nat,
    h: Seq<S>,
    block_size: nat,
    kernel_blocks: nat,
    q: int,
)
    requires
        block_size >= 1,
        i * block_size < x.len(),
        kernel_blocks <= block_count(h.len(), block_size),
        0 <= q < full.len(),
    ensures
        overlap_add_row(
            full,
            transformed,
            block_of(x, block_size, i as int),
            i as int,
            h,
            block_size,
            kernel_blocks,
        ).len() == full.len(),
        overlap_add_row(
            full,
            transformed,
            block_of(x, block_size, i as int),
            i as int,
            h,
            block_size,
            kernel_blocks,
        )[q] == full[q].sum(
            partial_sum(
                x,
                reach(x.len(), block_size, i),
                reach(x.len(), block_size, i + 1),
                h,
                0,
                reach(h.len(), block_size, kernel_blocks),
                q,
            ),
        ),
    decreases kernel_blocks,
{
    let x_lo = reach(x.len(), block_size, i);
    let x_hi = reach(x.len(), block_size, i + 1);
    let x_block = block_of(x, block_size, i as int);
    lemma_block_between_reaches(x, block_size, i);
    lemma_overlap_add_row_len(full, transformed, x_block, i as int, h, block_size, kernel_blocks);
    if kernel_blocks == 0 {
        assert(reach(h.len(), block_size, 0) == 0) by (nonlinear_arith)
            requires
                reach(h.len(), block_size, 0) == 0 * block_size,
        ;
        S::sum_zero(full[q]);
    } else {
        let j = (kernel_blocks - 1) as nat;
        let h_lo = reach(h.len(), block_size, j);
        let h_hi = reach(h.len(), block_size, kernel_blocks);
        lemma_block_exists(h.len(), block_size, j);
        lemma_block_between_reaches(h, block_size, j);
        let h_block = block_of(h, block_size, j as int);
        let before = overlap_add_row(
            full,
            transformed,
            x_block,
            i as int,
            h,
            block_size,
            j,
        );
        lemma_row_sample(full, transformed, x, i, h, block_size, j, q);
        lemma_overlap_add_row_len(full, transformed, x_block, i as int, h, block_size, j);
        let product = pair_product(transformed, x_block, h_block);
        let offset = (i + j) * block_size;
        assert(offset == x_lo + h_lo) by (nonlinear_arith)
            requires
                offset == (i + j) * block_size,
                x_lo == i * block_size,
                h_lo == j * block_size,
        ;
        let added = partial_sum(x, x_lo, x_hi, h, h_lo, h_hi, q);
        let length = (x_hi - x_lo) + (h_hi - h_lo) - 1;
        if offset <= q < offset + length {
            lemma_product_sample(transformed, x, x_lo, x_hi, h, h_lo, h_hi, q - offset);
        } else {
            lemma_product_sample(transformed, x, x_lo, x_hi, h, h_lo, h_hi, 0);
            lemma_partial_sum_outside(x, x_lo, x_hi, h, h_lo, h_hi, q);
            S::sum_zero(before[q]);
        }
        assert(add_at(before, product, offset as int)[q] == before[q].sum(added));
        let met = partial_sum(x, x_lo, x_hi, h, 0, h_lo, q);
        lemma_split_taps(x, x_lo, x_hi, h, 0, h_lo, h_hi, q);
        S::sum_associative(full[q], met, added);
    }
}

/// One sample of the overlap-add: what was there, plus the partial sum of
/// the samples of the input blocks met so far with all the taps.
proof fn lemma_overlap_add_sample<S: ExactBlockProduct>(
    full: Seq<S>,
    transformed: bool,
    x: Seq<S>,
    h: Seq<S>,
    block_size: nat,
    input_blocks: nat,
    q: int,
)
    requires
        block_size >= 1,
        input_blocks <= block_count(x.len(), block_size),
        0 <= q < full.len(),
    ensures
        overlap_add(full, transformed, x, h, block_size, input_blocks).len() == full.len(),
        overlap_add(full, transformed, x, h, block_size, input_blocks)[q] == full[q].sum(
            partial_sum(
                x,
                0,
                reach(x.len(), block_size, input_blocks),
                h,
                0,
                h.len() as int,
                q,
            ),
        ),
    decreases input_blocks,
{
    lemma_overlap_add_len(full, transformed, x, h, block_size, input_blocks);
    if input_blocks == 0 {
        assert(reach(x.len(), block_size, 0) == 0) by (nonlinear_arith)
            requires
                reach(x.len(), block_size, 0) == 0 * block_size,
        ;
        lemma_partial_sum_outside(x, 0, 0, h, 0, h.len() as int, q);
        S::sum_zero(full[q]);
    } else {
        let i = (input_blocks - 1) as nat;
        lemma_block_exists(x.len(), block_size, i);
        lemma_block_between_reaches(x, block_size, i);
        let x_lo = reach(x.len(), block_size, i);
        let x_hi = reach(x.len(), block_size, input_blocks);
        let before = overlap_add(full, transformed, x, h, block_size, i);
        lemma_overlap_add_sample(full, transformed, x, h, block_size, i, q);
        lemma_overlap_add_len(full, transformed, x, h, block_size, i);
        lemma_row_sample(
            before,
            transformed,
            x,
            i,
            h,
            block_size,
            block_count(h.len(), block_size),
            q,
        );
        lemma_reach_of_all(h, block_size);
        let met = partial_sum(x, 0, x_lo, h, 0, h.len() as int, q);
        let added = partial_sum(x, x_lo, x_hi, h, 0, h.len() as int, q);
        lemma_split_samples(x, 0, x_lo, x_hi, h, 0, h.len() as int, q);
        S::sum_associative(full[q], met, added);
    }
}

/// With exact samples, overlap-add of blocks of any size, multiplied either
/// way, yields the working sequence of the direct convolver.
pub proof fn lemma_blockwise_is_direct<S: ExactBlockProduct>(
    model: ConvolverModel<S>,
    x: Seq<S>,
    block_size: nat,
    transformed: bool,
)
    requires
        model.well_formed(),
        block_size >= 1,
    ensures
        model.blockwise(x, block_size, transformed) == model.direct(x),
{
    let h = model.impulse_response;
    let seed = model.seeded(x.len());
    let blocks = block_count(x.len(), block_size);
    let blockwise = model.blockwise(x, block_size, transformed);
    lemma_overlap_add_len(seed, transformed, x, h, block_size, blocks);
    lemma_reach_of_all(x, block_size);
    assert forall|q: int| 0 <= q < seed.len() implies blockwise[q] == model.direct(x)[q] by {
        lemma_overlap_add_sample(seed, transformed, x, h, block_size, blocks, q);
        lemma_fold_is_partial_sum(x, h, q, h.len());
        lemma_fold_start(x, h, q, h.len(), seed[q]);
    }
    assert(blockwise =~= model.direct(x));
}

/// With exact samples, one transform over the whole block yields the
/// working sequence of the direct convolver.
pub proof fn lemma_whole_is_direct<S: ExactBlockProduct>(model: ConvolverModel<S>, x: Seq<S>)
    requires
        model.well_formed(),
    ensures
        model.whole(x) == model.direct(x),
{
    let h = model.impulse_response;
    let seed = model.seeded(x.len());
    if x.len() > 0 {
        S::block_product_exact(x, h);
    }
    assert forall|q: int| 0 <= q < seed.len() implies model.whole(x)[q] == model.direct(x)[q] by {
        lemma_fold_start(x, h, q, h.len(), seed[q]);
        if x.len() == 0 {
            lemma_fold_is_partial_sum(x, h, q, h.len());
            lemma_partial_sum_outside(x, 0, 0, h, 0, h.len() as int, q);
            S::sum_zero(seed[q]);
        }
    }
    assert(model.whole(x) =~= model.direct(x));
}

/// Mode equivalence: two engines with the same impulse response and the
/// same pending tail compute the same working sequence for a block, whatever
/// their modes. With exact samples the frequency domain yields what the time
/// domain yields.
pub proof fn lemma_mode_equivalence<S: ExactBlockProduct>(
    a: ConvolverModel<S>,
    b: ConvolverModel<S>,
    x: Seq<S>,
)
    requires
        a.well_formed(),
        b.well_formed(),
        a.impulse_response == b.impulse_response,
        a.pending == b.pending,
    ensures
        a.working(x) == b.working(x),
        a.working(x) == a.direct(x),
{
    lemma_working_is_direct(a, x);
    lemma_working_is_direct(b, x);
    assert(a.direct(x) =~= b.direct(x));
}

/// With exact samples, `process` computes in every mode the working
/// sequence of the direct convolver.
pub proof fn lemma_working_is_direct<S: ExactBlockProduct>(model: ConvolverModel<S>, x: Seq<S>)
    requires
        model.well_formed(),
    ensures
        model.working(x) == model.direct(x),
{
    match model.mode {
        ConvolutionMode::TimeDomain => {},
        ConvolutionMode::FrequencyDomain { block_size } => {
            lemma_blockwise_is_direct(model, x, block_size as nat, true);
        },
    }
}

} // verus!
