//! The mathematics of the engine: the convolution sum, the partition of a
//! signal into blocks, and the overlap-add of block products, each written in
//! the order in which the code evaluates it.

use vstd::prelude::*;
use vstd::arithmetic::div_mod::lemma_fundamental_div_mod;
use crate::sample::{BlockProduct, Sample};

verus! {

/// The running value of a convolution sum at position `i`.
///
/// Starting from `start`, the kernel taps `0 .. taps` are visited in
/// increasing order, and tap `j` adds `x[i - j] * h[j]` where `i - j` is a
/// position of `x`. Other taps leave the value as it is.
pub open spec fn conv_fold<S: Sample>(x: Seq<S>, h: Seq<S>, i: int, taps: nat, start: S) -> S
    decreases taps,
{
    if taps == 0 {
        start
    } else {
        let j = taps - 1;
        let acc = conv_fold(x, h, i, j as nat, start);
        if 0 <= i - j < x.len() {
            acc.sum(x[i - j].product(h[j]))
        } else {
            acc
        }
    }
}

/// The linear convolution of `x` and `h`: `x.len() + h.len() - 1` samples,
/// each the convolution sum at its position, started from zero.
pub open spec fn linear_convolution<S: Sample>(x: Seq<S>, h: Seq<S>) -> Seq<S> {
    Seq::new(
        (x.len() + h.len() - 1) as nat,
        |i: int| conv_fold(x, h, i, h.len(), S::zero_value()),
    )
}

/// A vector of `len` copies of `value`.
pub fn filled<S: Copy>(len: usize, value: S) -> (v: Vec<S>)
    ensures
        v@ == Seq::new(len as nat, |i: int| value),
{
    let mut v: Vec<S> = Vec::new();
    let mut i: usize = 0;
    while i < len
        invariant
            i <= len,
            v@.len() == i,
            forall|k: int| 0 <= k < i ==> v@[k] == value,
        decreases len - i,
    {
        v.push(value);
        i += 1;
    }
    assert(v@ =~= Seq::new(len as nat, |i: int| value));
    v
}

/// Adds to every sample of `full` the convolution sum of `x` and `h` at that
/// sample's position.
pub fn accumulate_convolution<S: Sample>(full: &mut Vec<S>, x: &[S], h: &[S])
    ensures
        final(full)@.len() == old(full)@.len(),
        forall|i: int|
            0 <= i < old(full)@.len() ==> #[trigger] final(full)@[i] == conv_fold(
                x@,
                h@,
                i,
                h@.len(),
                old(full)@[i],
            ),
{
    let ghost before = full@;
    let len: usize = full.len();
    let n: usize = x.len();
    let taps: usize = h.len();
    let mut i: usize = 0;
    while i < len
        invariant
            i <= len,
            full@.len() == len,
            before.len() == len,
            n == x@.len(),
            taps == h@.len(),
            forall|k: int|
                0 <= k < i ==> #[trigger] full@[k] == conv_fold(
                    x@,
                    h@,
                    k,
                    taps as nat,
                    before[k],
                ),
            forall|k: int| i <= k < len ==> #[trigger] full@[k] == before[k],
        decreases len - i,
    {
        let mut acc: S = full[i];
        let mut j: usize = 0;
        while j < taps
            invariant
                j <= taps,
                i < len,
                n == x@.len(),
                taps == h@.len(),
                acc == conv_fold(x@, h@, i as int, j as nat, before[i as int]),
            decreases taps - j,
        {
            if i >= j && i - j < n {
                acc = acc.plus(x[i - j].times(h[j]));
            }
            j += 1;
        }
        full[i] = acc;
        i += 1;
    }
}

/// The linear convolution of two non-empty blocks, by the sum that defines it.
pub fn direct_product<S: Sample>(a: &[S], b: &[S]) -> (r: Vec<S>)
    requires
        a@.len() >= 1,
        b@.len() >= 1,
        a@.len() + b@.len() - 1 <= usize::MAX,
    ensures
        r@.len() == a@.len() + b@.len() - 1,
        r@ == linear_convolution(a@, b@),
{
    let mut full: Vec<S> = filled(a.len() - 1 + b.len(), S::zero());
    accumulate_convolution(&mut full, a, b);
    assert(full@ =~= linear_convolution(a@, b@));
    full
}

/// The number of blocks of `block_size` samples that a signal of `len`
/// samples is cut into: the last block may be shorter, none is empty.
pub open spec fn block_count(len: nat, block_size: nat) -> nat {
    if len % block_size == 0 {
        len / block_size
    } else {
        len / block_size + 1
    }
}

/// Block `k` of `signal`: the samples from `k * block_size` up to the next
/// block's start or the signal's end.
pub open spec fn block_of<T>(signal: Seq<T>, block_size: nat, k: int) -> Seq<T> {
    let start = k * block_size;
    let end = if start + block_size <= signal.len() {
        start + block_size
    } else {
        signal.len() as int
    };
    signal.subrange(start, end)
}

/// `k` counts the blocks of a signal exactly when block `k - 1` starts inside
/// the signal and block `k` would start at or after its end.
pub proof fn lemma_block_count(len: nat, block_size: nat, k: nat)
    requires
        block_size >= 1,
        k * block_size >= len,
        k >= 1 ==> (k - 1) * block_size < len,
    ensures
        k == block_count(len, block_size),
{
    lemma_fundamental_div_mod(len as int, block_size as int);
    let q = len as int / block_size as int;
    let r = len as int % block_size as int;
    let b = block_size as int;
    let kk = k as int;
    assert(len == b * q + r);
    assert(0 <= r < b);
    if r == 0 {
        assert(kk == q) by (nonlinear_arith)
            requires
                b >= 1,
                kk * b >= b * q,
                kk >= 1 ==> (kk - 1) * b < b * q,
                kk >= 0,
                q >= 0,
        ;
    } else {
        assert(kk == q + 1) by (nonlinear_arith)
            requires
                b >= 1,
                0 < r < b,
                kk * b >= b * q + r,
                kk >= 1 ==> (kk - 1) * b < b * q + r,
                kk >= 0,
                q >= 0,
        ;
    }
}

/// Block `k` exists exactly when it starts inside the signal.
pub proof fn lemma_block_exists(len: nat, block_size: nat, k: nat)
    requires
        block_size >= 1,
    ensures
        k < block_count(len, block_size) <==> k * block_size < len,
{
    lemma_fundamental_div_mod(len as int, block_size as int);
    let q = len as int / block_size as int;
    let r = len as int % block_size as int;
    let b = block_size as int;
    let kk = k as int;
    assert(q >= 0) by (nonlinear_arith)
        requires
            b >= 1,
            len == b * q + r,
            0 <= r < b,
            len >= 0,
    ;
    if kk < q {
        assert(kk * b < b * q + r) by (nonlinear_arith)
            requires
                b >= 1,
                kk < q,
                0 <= r,
        ;
    } else if kk == q {
        assert(kk * b == b * q) by (nonlinear_arith)
            requires
                kk == q,
        ;
    } else {
        assert(kk * b >= b * q + r) by (nonlinear_arith)
            requires
                b >= 1,
                kk > q,
                0 <= r < b,
        ;
    }
}

/// A block that starts inside the signal is not empty, is no longer than
/// `block_size`, and ends inside the signal.
pub proof fn lemma_block_len<T>(signal: Seq<T>, block_size: nat, k: nat)
    requires
        block_size >= 1,
        k * block_size < signal.len(),
    ensures
        1 <= block_of(signal, block_size, k as int).len() <= block_size,
        k * block_size + block_of(signal, block_size, k as int).len() <= signal.len(),
        k <= k * block_size,
{
    assert(0 <= k * block_size && k <= k * block_size) by (nonlinear_arith)
        requires
            block_size >= 1,
            k >= 0,
    ;
}

/// Splits `signal` into consecutive blocks of `block_size` samples. The last
/// block holds what is left and is not padded.
pub fn partition<T: Copy>(signal: &[T], block_size: usize) -> (blocks: Vec<Vec<T>>)
    requires
        block_size >= 1,
    ensures
        blocks@.len() == block_count(signal@.len(), block_size as nat),
        forall|k: int|
            0 <= k < blocks@.len() ==> (#[trigger] blocks@[k])@ == block_of(
                signal@,
                block_size as nat,
                k,
            ),
{
    let len: usize = signal.len();
    let mut blocks: Vec<Vec<T>> = Vec::new();
    let mut start: usize = 0;
    assert(0 * block_size == 0) by (nonlinear_arith);
    while start < len
        invariant
            block_size >= 1,
            len == signal@.len(),
            start <= len,
            start < len ==> start == blocks@.len() * block_size,
            start == len ==> blocks@.len() * block_size >= len,
            blocks@.len() >= 1 ==> (blocks@.len() - 1) * block_size < len,
            forall|k: int|
                0 <= k < blocks@.len() ==> (#[trigger] blocks@[k])@ == block_of(
                    signal@,
                    block_size as nat,
                    k,
                ),
        decreases len - start,
    {
        let size: usize = if len - start < block_size {
            len - start
        } else {
            block_size
        };
        let end: usize = start + size;
        let mut block: Vec<T> = Vec::new();
        let mut i: usize = start;
        while i < end
            invariant
                start <= i <= end,
                end <= len,
                len == signal@.len(),
                block@ == signal@.subrange(start as int, i as int),
            decreases end - i,
        {
            block.push(signal[i]);
            assert(signal@.subrange(start as int, i as int).push(signal@[i as int])
                =~= signal@.subrange(start as int, i + 1));
            i += 1;
        }
        proof {
            let k = blocks@.len() as int;
            let b = block_size as int;
            assert((k + 1) * b == k * b + b) by (nonlinear_arith);
            assert((k + 1 - 1) * b == k * b);
            assert(block@ == block_of(signal@, block_size as nat, k));
        }
        blocks.push(block);
        start = end;
    }
    proof {
        lemma_block_count(len as nat, block_size as nat, blocks@.len());
    }
    blocks
}

/// `full` with the samples of `block` added to it from position `offset` on.
pub open spec fn add_at<S: Sample>(full: Seq<S>, block: Seq<S>, offset: int) -> Seq<S> {
    Seq::new(
        full.len(),
        |p: int|
            if offset <= p < offset + block.len() {
                full[p].sum(block[p - offset])
            } else {
                full[p]
            },
    )
}

/// Adds the samples of `block` to `full` from position `offset` on.
pub fn add_block<S: Sample>(full: &mut Vec<S>, block: &[S], offset: usize)
    requires
        offset + block@.len() <= old(full)@.len(),
    ensures
        final(full)@ == add_at(old(full)@, block@, offset as int),
{
    let ghost before = full@;
    let total: usize = full.len();
    let len: usize = block.len();
    let mut s: usize = 0;
    while s < len
        invariant
            s <= len,
            len == block@.len(),
            full@.len() == before.len(),
            full@.len() == total,
            offset + len <= total,
            forall|p: int|
                0 <= p < full@.len() ==> #[trigger] full@[p] == if offset <= p < offset + s {
                    before[p].sum(block@[p - offset])
                } else {
                    before[p]
                },
        decreases len - s,
    {
        let sum: S = full[offset + s].plus(block[s]);
        full[offset + s] = sum;
        s += 1;
    }
    assert(full@ =~= add_at(before, block@, offset as int));
}

/// The product of a pair of blocks: by the sample type's block product where
/// `transformed`, by the convolution sum where not.
pub open spec fn pair_product<S: BlockProduct>(transformed: bool, a: Seq<S>, b: Seq<S>) -> Seq<S> {
    if transformed {
        S::block_product_value(a, b)
    } else {
        linear_convolution(a, b)
    }
}

/// `full` after input block `i` (the samples `x_block`) met the first
/// `kernel_blocks` blocks of `h`: the product with kernel block `j` is added
/// from position `(i + j) * block_size` on, for `j` in increasing order.
pub open spec fn overlap_add_row<S: BlockProduct>(
    full: Seq<S>,
    transformed: bool,
    x_block: Seq<S>,
    i: int,
    h: Seq<S>,
    block_size: nat,
    kernel_blocks: nat,
) -> Seq<S>
    decreases kernel_blocks,
{
    if kernel_blocks == 0 {
        full
    } else {
        let j = kernel_blocks - 1;
        add_at(
            overlap_add_row(full, transformed, x_block, i, h, block_size, j as nat),
            pair_product(transformed, x_block, block_of(h, block_size, j)),
            (i + j) * block_size,
        )
    }
}

/// `full` after the first `input_blocks` blocks of `x` met every block of
/// `h`, input blocks in increasing order.
pub open spec fn overlap_add<S: BlockProduct>(
    full: Seq<S>,
    transformed: bool,
    x: Seq<S>,
    h: Seq<S>,
    block_size: nat,
    input_blocks: nat,
) -> Seq<S>
    decreases input_blocks,
{
    if input_blocks == 0 {
        full
    } else {
        let i = input_blocks - 1;
        overlap_add_row(
            overlap_add(full, transformed, x, h, block_size, i as nat),
            transformed,
            block_of(x, block_size, i),
            i,
            h,
            block_size,
            block_count(h.len(), block_size),
        )
    }
}

/// The length of a working sequence does not change under overlap-add.
pub proof fn lemma_overlap_add_row_len<S: BlockProduct>(
    full: Seq<S>,
    transformed: bool,
    x_block: Seq<S>,
    i: int,
    h: Seq<S>,
    block_size: nat,
    kernel_blocks: nat,
)
    ensures
        overlap_add_row(full, transformed, x_block, i, h, block_size, kernel_blocks).len()
            == full.len(),
    decreases kernel_blocks,
{
    if kernel_blocks > 0 {
        lemma_overlap_add_row_len(
            full,
            transformed,
            x_block,
            i,
            h,
            block_size,
            (kernel_blocks - 1) as nat,
        );
    }
}

/// The length of a working sequence does not change under overlap-add.
pub proof fn lemma_overlap_add_len<S: BlockProduct>(
    full: Seq<S>,
    transformed: bool,
    x: Seq<S>,
    h: Seq<S>,
    block_size: nat,
    input_blocks: nat,
)
    ensures
        overlap_add(full, transformed, x, h, block_size, input_blocks).len() == full.len(),
    decreases input_blocks,
{
    if input_blocks > 0 {
        let i = (input_blocks - 1) as nat;
        lemma_overlap_add_len(full, transformed, x, h, block_size, i);
        lemma_overlap_add_row_len(
            overlap_add(full, transformed, x, h, block_size, i),
            transformed,
            block_of(x, block_size, i as int),
            i as int,
            h,
            block_size,
            block_count(h.len(), block_size),
        );
    }
}

/// Overlap-add of `x` against `h` onto `full`: both are cut into blocks of
/// `block_size` samples, every input block is multiplied with every kernel
/// block, and product `(i, j)` is added from position `(i + j) * block_size`
/// on.
pub fn overlap_add_blocks<S: BlockProduct>(
    full: &mut Vec<S>,
    transformed: bool,
    x: &[S],
    h: &[S],
    block_size: usize,
)
    requires
        block_size >= 1,
        h@.len() >= 1,
        old(full)@.len() == x@.len() + h@.len() - 1,
    ensures
        final(full)@ == overlap_add(
            old(full)@,
            transformed,
            x@,
            h@,
            block_size as nat,
            block_count(x@.len(), block_size as nat),
        ),
{
    let ghost before = full@;
    let ghost b = block_size as nat;
    let x_blocks: Vec<Vec<S>> = partition(x, block_size);
    let h_blocks: Vec<Vec<S>> = partition(h, block_size);
    let mut i: usize = 0;
    while i < x_blocks.len()
        invariant
            i <= x_blocks@.len(),
            b == block_size,
            block_size >= 1,
            h@.len() >= 1,
            full@.len() == x@.len() + h@.len() - 1,
            x_blocks@.len() == block_count(x@.len(), b),
            h_blocks@.len() == block_count(h@.len(), b),
            forall|k: int|
                0 <= k < x_blocks@.len() ==> (#[trigger] x_blocks@[k])@ == block_of(x@, b, k),
            forall|k: int|
                0 <= k < h_blocks@.len() ==> (#[trigger] h_blocks@[k])@ == block_of(h@, b, k),
            full@ == overlap_add(before, transformed, x@, h@, b, i as nat),
        decreases x_blocks@.len() - i,
    {
        let ghost row_start = full@;
        let mut j: usize = 0;
        while j < h_blocks.len()
            invariant
                i < x_blocks@.len(),
                j <= h_blocks@.len(),
                b == block_size,
                block_size >= 1,
                h@.len() >= 1,
                full@.len() == x@.len() + h@.len() - 1,
                x_blocks@.len() == block_count(x@.len(), b),
                h_blocks@.len() == block_count(h@.len(), b),
                forall|k: int|
                    0 <= k < x_blocks@.len() ==> (#[trigger] x_blocks@[k])@ == block_of(x@, b, k),
                forall|k: int|
                    0 <= k < h_blocks@.len() ==> (#[trigger] h_blocks@[k])@ == block_of(h@, b, k),
                full@ == overlap_add_row(
                    row_start,
                    transformed,
                    block_of(x@, b, i as int),
                    i as int,
                    h@,
                    b,
                    j as nat,
                ),
            decreases h_blocks@.len() - j,
        {
            let total: usize = full.len();
            proof {
                lemma_block_exists(x@.len(), b, i as nat);
                lemma_block_exists(h@.len(), b, j as nat);
                lemma_block_len(x@, b, i as nat);
                lemma_block_len(h@, b, j as nat);
                assert((i + j) * b == i * b + j * b) by (nonlinear_arith);
            }
            let x_block: &[S] = x_blocks[i].as_slice();
            let h_block: &[S] = h_blocks[j].as_slice();
            assert(x_block@ == block_of(x@, b, i as int));
            assert(h_block@ == block_of(h@, b, j as int));
            let product: Vec<S> = if transformed {
                S::block_product(x_block, h_block)
            } else {
                direct_product(x_block, h_block)
            };
            let offset: usize = (i + j) * block_size;
            add_block(full, product.as_slice(), offset);
            j += 1;
        }
        i += 1;
    }
}

} // verus!
