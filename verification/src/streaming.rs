//! What holds of a stream of blocks when the samples are exact: how the
//! stream is cut into blocks does not matter, a unit impulse reproduces the
//! impulse response, and `flush` hands out the rest of the convolution.

use vstd::prelude::*;
use crate::convolution::{conv_fold, linear_convolution};
use crate::equivalence::lemma_working_is_direct;
use crate::fast_convolver::ConvolverModel;
use crate::sample::{ExactBlockProduct, ExactSample, Sample};
use crate::sums::{
    lemma_fold_is_partial_sum, lemma_fold_start, lemma_partial_sum_moved,
    lemma_partial_sum_outside, lemma_split_samples, lemma_zero_sum, partial_sum,
};

verus! {

/// The blocks of `blocks` put together, first to last.
pub open spec fn joined<S>(blocks: Seq<Seq<S>>) -> Seq<S>
    decreases blocks.len(),
{
    if blocks.len() == 0 {
        Seq::empty()
    } else {
        joined(blocks.drop_last()) + blocks.last()
    }
}

/// A signal of `n` samples that is one at position `p` and zero elsewhere.
pub open spec fn unit_impulse<S: Sample>(n: nat, p: int) -> Seq<S> {
    Seq::new(
        n,
        |i: int|
            if i == p {
                S::one_value()
            } else {
                S::zero_value()
            },
    )
}

/// Sample `i` of the impulse response `h` delayed by `p` samples: `h[i - p]`
/// where that is a tap, zero elsewhere.
pub open spec fn delayed<S: Sample>(h: Seq<S>, p: int, i: int) -> S {
    if 0 <= i - p < h.len() {
        h[i - p]
    } else {
        S::zero_value()
    }
}

/// A sample of the direct working sequence is the seed plus the whole
/// convolution sum at its position.
proof fn lemma_direct_sample<S: ExactBlockProduct>(model: ConvolverModel<S>, x: Seq<S>, q: int)
    requires
        model.well_formed(),
        0 <= q < x.len() + model.pending.len(),
    ensures
        model.direct(x)[q] == model.seeded(x.len())[q].sum(
            partial_sum(
                x,
                0,
                x.len() as int,
                model.impulse_response,
                0,
                model.impulse_response.len() as int,
                q,
            ),
        ),
{
    let h = model.impulse_response;
    lemma_fold_start(x, h, q, h.len(), model.seeded(x.len())[q]);
    lemma_fold_is_partial_sum(x, h, q, h.len());
}

/// Two blocks one after the other are one block: the engine emits for
/// `x1` and then for `x2` what it emits for `x1 + x2`, and ends in the same
/// state.
pub proof fn lemma_split_block<S: ExactBlockProduct>(
    model: ConvolverModel<S>,
    x1: Seq<S>,
    x2: Seq<S>,
)
    requires
        model.well_formed(),
    ensures
        model.step(x1).well_formed(),
        model.output(x1) + model.step(x1).output(x2) == model.output(x1 + x2),
        model.step(x1).step(x2) == model.step(x1 + x2),
{
    let h = model.impulse_response;
    let taps = h.len() as int;
    let c = model.pending.len() as int;
    let x = x1 + x2;
    let n1 = x1.len() as int;
    let n2 = x2.len() as int;
    let n = x.len() as int;
    lemma_working_is_direct(model, x1);
    lemma_working_is_direct(model, x);
    let middle = model.step(x1);
    lemma_working_is_direct(middle, x2);
    let w = model.direct(x);
    let w1 = model.direct(x1);
    let w2 = middle.direct(x2);
    assert forall|q: int| 0 <= q < n1 implies w1[q] == w[q] by {
        lemma_direct_sample(model, x1, q);
        lemma_direct_sample(model, x, q);
        lemma_split_samples(x, 0, n1, n, h, 0, taps, q);
        lemma_partial_sum_outside(x, n1, n, h, 0, taps, q);
        lemma_partial_sum_moved(x, 0, n1, h, 0, taps, q, x1, 0, h, 0);
        S::sum_zero(partial_sum(x, 0, n1, h, 0, taps, q));
    }
    assert forall|q: int| 0 <= q < n2 + c implies w2[q] == w[n1 + q] by {
        lemma_direct_sample(middle, x2, q);
        lemma_direct_sample(model, x, n1 + q);
        lemma_split_samples(x, 0, n1, n, h, 0, taps, n1 + q);
        lemma_partial_sum_moved(x, 0, n1, h, 0, taps, n1 + q, x1, 0, h, 0);
        lemma_partial_sum_moved(x2, 0, n2, h, 0, taps, q, x, n1, h, 0);
        let first = partial_sum(x1, 0, n1, h, 0, taps, n1 + q);
        let second = partial_sum(x2, 0, n2, h, 0, taps, q);
        let seed = model.seeded(x.len())[n1 + q];
        if q < c {
            lemma_direct_sample(model, x1, n1 + q);
            assert(middle.pending[q] == w1[n1 + q]);
            S::sum_associative(seed, first, second);
        } else {
            lemma_partial_sum_outside(x1, 0, n1, h, 0, taps, n1 + q);
            lemma_zero_sum(second);
        }
    }
    assert(model.output(x1) + middle.output(x2) =~= model.output(x));
    assert(middle.step(x2).pending =~= model.step(x).pending);
}

/// Taking no samples changes nothing.
pub proof fn lemma_empty_block<S: ExactBlockProduct>(model: ConvolverModel<S>)
    requires
        model.well_formed(),
    ensures
        model.step(Seq::empty()) == model,
        model.output(Seq::empty()) == Seq::<S>::empty(),
{
    let x = Seq::<S>::empty();
    let h = model.impulse_response;
    lemma_working_is_direct(model, x);
    assert forall|q: int| 0 <= q < model.pending.len() implies model.direct(x)[q]
        == model.pending[q] by {
        lemma_direct_sample(model, x, q);
        lemma_partial_sum_outside(x, 0, 0, h, 0, h.len() as int, q);
        S::sum_zero(model.pending[q]);
    }
    assert(model.step(x).pending =~= model.pending);
    assert(model.output(x) =~= Seq::<S>::empty());
}

/// Block-size invariance: however a signal is cut into blocks, the engine
/// emits for the blocks, one call after the other, what it emits for the
/// whole signal in one call, and it ends in the same state.
pub proof fn lemma_block_size_invariance<S: ExactBlockProduct>(
    model: ConvolverModel<S>,
    blocks: Seq<Seq<S>>,
)
    requires
        model.well_formed(),
    ensures
        model.run(blocks).well_formed(),
        model.run_output(blocks) == model.output(joined(blocks)),
        model.run(blocks) == model.step(joined(blocks)),
    decreases blocks.len(),
{
    if blocks.len() == 0 {
        lemma_empty_block(model);
    } else {
        lemma_block_size_invariance(model, blocks.drop_last());
        lemma_split_block(model, joined(blocks.drop_last()), blocks.last());
        model.run(blocks.drop_last()).lemma_step_well_formed(blocks.last());
    }
}

/// The convolution sum of a unit impulse at `p` picks the tap `i - p`.
proof fn lemma_impulse_fold<S: ExactSample>(n: nat, p: int, h: Seq<S>, i: int, taps: nat)
    requires
        0 <= p < n,
        taps <= h.len(),
    ensures
        conv_fold(unit_impulse::<S>(n, p), h, i, taps, S::zero_value()) == if 0 <= i - p < taps {
            h[i - p]
        } else {
            S::zero_value()
        },
    decreases taps,
{
    if taps > 0 {
        let j = taps - 1;
        lemma_impulse_fold(n, p, h, i, j as nat);
        if 0 <= i - j < n {
            if i - j == p {
                S::product_one(h[j]);
                lemma_zero_sum(h[j]);
            } else {
                S::product_zero(h[j]);
                S::sum_zero(conv_fold(unit_impulse::<S>(n, p), h, i, j as nat, S::zero_value()));
            }
        }
    }
}

/// With nothing pending, the working sequence is the linear convolution of
/// the block with the impulse response.
pub proof fn lemma_fresh_working<S: ExactBlockProduct>(model: ConvolverModel<S>, x: Seq<S>)
    requires
        model.well_formed(),
        model.fresh(),
    ensures
        model.working(x) == linear_convolution(x, model.impulse_response),
{
    lemma_working_is_direct(model, x);
    assert(model.direct(x) =~= linear_convolution(x, model.impulse_response));
}

/// Convolution identity: a fresh engine that takes a unit impulse at
/// position `p` emits the impulse response delayed by `p`, and keeps the
/// rest of the delayed impulse response pending: `flush` hands it out.
pub proof fn lemma_convolution_identity<S: ExactBlockProduct>(
    model: ConvolverModel<S>,
    n: nat,
    p: nat,
)
    requires
        model.well_formed(),
        model.fresh(),
        p < n,
    ensures
        model.output(unit_impulse(n, p as int)).len() == n,
        forall|i: int|
            0 <= i < n ==> #[trigger] model.output(unit_impulse(n, p as int))[i] == delayed(
                model.impulse_response,
                p as int,
                i,
            ),
        model.step(unit_impulse(n, p as int)).pending.len() == model.pending.len(),
        forall|k: int|
            0 <= k < model.pending.len() ==> #[trigger] model.step(
                unit_impulse(n, p as int),
            ).pending[k] == delayed(model.impulse_response, p as int, n + k),
        model.step(unit_impulse(n, p as int)).drained(model.pending.len()) == Seq::new(
            model.pending.len(),
            |k: int| delayed(model.impulse_response, p as int, n + k),
        ),
{
    let x = unit_impulse::<S>(n, p as int);
    let h = model.impulse_response;
    lemma_fresh_working(model, x);
    assert forall|i: int| 0 <= i < n + model.pending.len() implies linear_convolution(x, h)[i]
        == delayed(h, p as int, i) by {
        lemma_impulse_fold(n, p as int, h, i, h.len());
    }
    assert(model.step(x).drained(model.pending.len()) =~= Seq::new(
        model.pending.len(),
        |k: int| delayed(h, p as int, n + k),
    ));
}

/// Tail completeness: after a fresh engine took a signal, in blocks of any
/// sizes, what it emitted is the start of the signal's convolution with the
/// impulse response, and `flush` hands out the rest: the samples that
/// follow, and zeros beyond the last of them. Nothing is pending once the
/// whole rest was handed out.
pub proof fn lemma_tail_completeness<S: ExactBlockProduct>(
    model: ConvolverModel<S>,
    blocks: Seq<Seq<S>>,
    m: nat,
)
    requires
        model.well_formed(),
        model.fresh(),
    ensures
        model.run_output(blocks) == linear_convolution(
            joined(blocks),
            model.impulse_response,
        ).subrange(0, joined(blocks).len() as int),
        model.run(blocks).drained(m).len() == m,
        forall|k: int|
            0 <= k < m ==> #[trigger] model.run(blocks).drained(m)[k] == if k
                < model.impulse_response.len() - 1 {
                linear_convolution(joined(blocks), model.impulse_response)[joined(blocks).len()
                    + k]
            } else {
                S::zero_value()
            },
        m >= model.impulse_response.len() - 1 ==> model.run(blocks).after_flush(m).fresh(),
{
    lemma_block_size_invariance(model, blocks);
    lemma_fresh_working(model, joined(blocks));
}

} // verus!
