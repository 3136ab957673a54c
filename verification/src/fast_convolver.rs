//! The streaming convolution engine.
//!
//! A convolution of a block of `n` samples with an impulse response of `L`
//! samples has `n + L - 1` samples. The engine emits the first `n` with the
//! block and keeps the last `L - 1`, the pending tail, in a ring: the next
//! call adds it to what it computes, and `flush` hands it out at the end of
//! the stream.

use vstd::prelude::*;
use vstd::slice::slice_to_vec;
use crate::convolution::{
    accumulate_convolution, add_at, add_block, block_count, conv_fold, filled,
    lemma_overlap_add_len, overlap_add, overlap_add_blocks,
};
use crate::ring_buffer::RingBuffer;
use crate::sample::BlockProduct;

verus! {

/// How the engine convolves a block.
#[derive(Debug, Clone, Copy)]
pub enum ConvolutionMode {
    /// By the sum that defines the convolution.
    TimeDomain,
    /// By overlap-add of transformed blocks of `block_size` samples.
    FrequencyDomain { block_size: usize },
}

impl ConvolutionMode {
    /// A block size is at least 1.
    pub open spec fn well_formed(self) -> bool {
        match self {
            ConvolutionMode::TimeDomain => true,
            ConvolutionMode::FrequencyDomain { block_size } => block_size >= 1,
        }
    }
}

/// The mathematical value of an engine.
pub struct ConvolverModel<S> {
    /// The kernel, `L >= 1` samples.
    pub impulse_response: Seq<S>,
    /// The part of the convolution so far that no call has emitted yet: the
    /// `L - 1` samples that follow the last emitted one.
    pub pending: Seq<S>,
    pub mode: ConvolutionMode,
}

impl<S: BlockProduct> ConvolverModel<S> {
    pub open spec fn well_formed(self) -> bool {
        &&& self.impulse_response.len() >= 1
        &&& self.pending.len() == self.impulse_response.len() - 1
        &&& self.mode.well_formed()
    }

    /// The working sequence for a block of `n` samples before anything is
    /// added to it: the pending tail, then zeros.
    pub open spec fn seeded(self, n: nat) -> Seq<S> {
        Seq::new(
            n + self.pending.len(),
            |i: int|
                if i < self.pending.len() {
                    self.pending[i]
                } else {
                    S::zero_value()
                },
        )
    }

    /// The working sequence of the direct convolver for the block `x`: at
    /// every position the convolution sum, added to the seed.
    pub open spec fn direct(self, x: Seq<S>) -> Seq<S> {
        Seq::new(
            x.len() + self.pending.len(),
            |i: int|
                conv_fold(
                    x,
                    self.impulse_response,
                    i,
                    self.impulse_response.len(),
                    self.seeded(x.len())[i],
                ),
        )
    }

    /// The working sequence of the block convolver for the block `x`: the
    /// overlap-add, onto the seed, of the products of every block of `x`
    /// with every block of the kernel.
    pub open spec fn blockwise(self, x: Seq<S>, block_size: nat, transformed: bool) -> Seq<S> {
        overlap_add(
            self.seeded(x.len()),
            transformed,
            x,
            self.impulse_response,
            block_size,
            block_count(x.len(), block_size),
        )
    }

    /// The working sequence of one transform over the whole block `x` and
    /// the whole kernel.
    pub open spec fn whole(self, x: Seq<S>) -> Seq<S> {
        if x.len() == 0 {
            self.seeded(0)
        } else {
            add_at(self.seeded(x.len()), S::block_product_value(x, self.impulse_response), 0)
        }
    }

    /// The working sequence of `process` for the block `x`, by the mode.
    pub open spec fn working(self, x: Seq<S>) -> Seq<S> {
        match self.mode {
            ConvolutionMode::TimeDomain => self.direct(x),
            ConvolutionMode::FrequencyDomain { block_size } => self.blockwise(
                x,
                block_size as nat,
                true,
            ),
        }
    }

    /// What a call emits of the working sequence `full` for a block of `n`
    /// samples.
    pub open spec fn emitted(full: Seq<S>, n: nat) -> Seq<S> {
        full.subrange(0, n as int)
    }

    /// The engine after a call whose working sequence for a block of `n`
    /// samples was `full`: what was not emitted is pending.
    pub open spec fn carry(self, full: Seq<S>, n: nat) -> Self {
        ConvolverModel { pending: full.subrange(n as int, full.len() as int), ..self }
    }

    /// What `process` emits for the block `x`.
    pub open spec fn output(self, x: Seq<S>) -> Seq<S> {
        Self::emitted(self.working(x), x.len())
    }

    /// The engine after `process` took the block `x`.
    pub open spec fn step(self, x: Seq<S>) -> Self {
        self.carry(self.working(x), x.len())
    }

    /// The engine after `process` took the blocks of `blocks`, first to
    /// last.
    pub open spec fn run(self, blocks: Seq<Seq<S>>) -> Self
        decreases blocks.len(),
    {
        if blocks.len() == 0 {
            self
        } else {
            self.run(blocks.drop_last()).step(blocks.last())
        }
    }

    /// What `process` emitted for the blocks of `blocks`, put together.
    pub open spec fn run_output(self, blocks: Seq<Seq<S>>) -> Seq<S>
        decreases blocks.len(),
    {
        if blocks.len() == 0 {
            Seq::empty()
        } else {
            self.run_output(blocks.drop_last()) + self.run(blocks.drop_last()).output(
                blocks.last(),
            )
        }
    }

    /// A working sequence has one sample for every sample of the block and
    /// one for every pending sample, so a call leaves the engine well
    /// formed.
    pub proof fn lemma_step_well_formed(self, x: Seq<S>)
        requires
            self.well_formed(),
        ensures
            self.working(x).len() == x.len() + self.pending.len(),
            self.output(x).len() == x.len(),
            self.step(x).well_formed(),
    {
        match self.mode {
            ConvolutionMode::TimeDomain => {},
            ConvolutionMode::FrequencyDomain { block_size } => {
                lemma_overlap_add_len(
                    self.seeded(x.len()),
                    true,
                    x,
                    self.impulse_response,
                    block_size as nat,
                    block_count(x.len(), block_size as nat),
                );
            },
        }
    }

    /// Nothing is pending.
    pub open spec fn fresh(self) -> bool {
        forall|k: int| 0 <= k < self.pending.len() ==> self.pending[k] == S::zero_value()
    }

    /// What `flush` writes into a buffer of `m` samples: the pending tail,
    /// cut or padded with zeros to `m` samples.
    pub open spec fn drained(self, m: nat) -> Seq<S> {
        Seq::new(
            m,
            |i: int|
                if i < self.pending.len() {
                    self.pending[i]
                } else {
                    S::zero_value()
                },
        )
    }

    /// The engine after `flush` into a buffer of `m` samples: the pending
    /// tail moved up by `m`, zeros behind it.
    pub open spec fn after_flush(self, m: nat) -> Self {
        ConvolverModel {
            pending: Seq::new(
                self.pending.len(),
                |k: int|
                    if k + m < self.pending.len() {
                        self.pending[k + m]
                    } else {
                        S::zero_value()
                    },
            ),
            ..self
        }
    }

    /// The engine with nothing pending.
    pub open spec fn cleared(self) -> Self {
        ConvolverModel {
            pending: Seq::new(self.pending.len(), |k: int| S::zero_value()),
            ..self
        }
    }
}

/// A streaming convolver: an impulse response, a mode, and the pending tail
/// of the convolution so far.
pub struct FastConvolver<S> {
    impulse_response: Vec<S>,
    buffer: RingBuffer<S>,
    mode: ConvolutionMode,
}

impl<S> View for FastConvolver<S> {
    type V = ConvolverModel<S>;

    closed spec fn view(&self) -> ConvolverModel<S> {
        ConvolverModel {
            impulse_response: self.impulse_response@,
            pending: Seq::new(self.buffer@.capacity(), |k: int| self.buffer@.at(k as nat)),
            mode: self.mode,
        }
    }
}

/// Replaces the content of a ring whose cursors coincide by the last
/// `capacity` samples of `full`, oldest first. The cursors end where they
/// were.
fn refill<T: Copy + Default>(buffer: &mut RingBuffer<T>, full: &Vec<T>, from: usize)
    requires
        old(buffer)@.well_formed(),
        old(buffer)@.read == old(buffer)@.write,
        from + old(buffer)@.capacity() == full@.len(),
    ensures
        final(buffer)@.well_formed(),
        final(buffer)@.capacity() == old(buffer)@.capacity(),
        final(buffer)@.read == old(buffer)@.read,
        final(buffer)@.write == old(buffer)@.read,
        forall|k: int|
            0 <= k < final(buffer)@.capacity() ==> #[trigger] final(buffer)@.at(k as nat)
                == full@[from + k],
    no_unwind
{
    let capacity: usize = buffer.capacity();
    let total: usize = full.len();
    let ghost start = buffer@.read as int;
    let mut t: usize = 0;
    proof {
        if capacity > 0 {
            buffer@.lemma_wrap_turn(start);
        }
    }
    while t < capacity
        invariant
            t <= capacity,
            total == full@.len(),
            buffer@.well_formed(),
            buffer@.capacity() == capacity,
            buffer@.read == start,
            from + capacity == full@.len(),
            t < capacity ==> buffer@.write == buffer@.wrap(start + t),
            t == capacity ==> buffer@.write == start,
            forall|k: int| 0 <= k < t ==> #[trigger] buffer@.at(k as nat) == full@[from + k],
        decreases capacity - t,
    {
        let ghost before = buffer@;
        buffer.push(full[from + t]);
        proof {
            before.lemma_wrap_sum(start + t, 1);
            if t + 1 == capacity {
                before.lemma_wrap_turn(start);
            }
            assert forall|k: int| 0 <= k < t + 1 implies #[trigger] buffer@.at(k as nat)
                == full@[from + k] by {
                if k < t {
                    before.lemma_wrap_distinct(start + k, start + t);
                    assert(before.at(k as nat) == full@[from + k]);
                }
            }
        }
        t += 1;
    }
}

/// Takes the oldest sample out of a ring whose cursors coincide and puts a
/// zero behind the youngest: every other sample moves up by one.
fn drain_one<T: Copy + Default>(buffer: &mut RingBuffer<T>, zero: T) -> (value: T)
    requires
        old(buffer)@.well_formed(),
        old(buffer)@.capacity() > 0,
        old(buffer)@.read == old(buffer)@.write,
    ensures
        final(buffer)@.well_formed(),
        final(buffer)@.capacity() == old(buffer)@.capacity(),
        final(buffer)@.read == final(buffer)@.write,
        value == old(buffer)@.at(0),
        forall|k: int|
            0 <= k < final(buffer)@.capacity() - 1 ==> #[trigger] final(buffer)@.at(k as nat)
                == old(buffer)@.at((k + 1) as nat),
        final(buffer)@.at((final(buffer)@.capacity() - 1) as nat) == zero,
    no_unwind
{
    let ghost before = buffer@;
    let ghost start = buffer@.read as int;
    let ghost c = buffer@.capacity() as int;
    let value: T = buffer.pop();
    buffer.push(zero);
    proof {
        before.lemma_wrap_turn(start);
        before.lemma_wrap_sum(start + 1, c - 1);
        assert forall|k: int| 0 <= k < c - 1 implies #[trigger] buffer@.at(k as nat) == before.at(
            (k + 1) as nat,
        ) by {
            before.lemma_wrap_sum(start + 1, k);
            before.lemma_wrap_distinct(start, start + 1 + k);
        }
    }
    value
}

impl<S> FastConvolver<S> {
    /// The ring holds the pending tail, oldest sample under the read cursor,
    /// and its cursors coincide.
    #[verifier::type_invariant]
    closed spec fn aligned(&self) -> bool {
        &&& self.impulse_response@.len() >= 1
        &&& self.mode.well_formed()
        &&& self.buffer@.well_formed()
        &&& self.buffer@.capacity() == self.impulse_response@.len() - 1
        &&& self.buffer@.read == self.buffer@.write
    }
}

impl<S: BlockProduct> FastConvolver<S> {
    /// An engine for `impulse_response` in the given mode, with nothing
    /// pending.
    pub fn new(impulse_response: &[S], mode: ConvolutionMode) -> (convolver: Self)
        requires
            impulse_response@.len() >= 1,
            mode.well_formed(),
        ensures
            convolver@.well_formed(),
            convolver@ == (ConvolverModel {
                impulse_response: impulse_response@,
                pending: Seq::new((impulse_response@.len() - 1) as nat, |k: int| S::zero_value()),
                mode,
            }),
    {
        let buffer_size: usize = impulse_response.len() - 1;
        let mut buffer: RingBuffer<S> = RingBuffer::new(buffer_size);
        let zeros: Vec<S> = filled(buffer_size, S::zero());
        refill(&mut buffer, &zeros, 0);
        let convolver =
            FastConvolver { impulse_response: slice_to_vec(impulse_response), buffer, mode };
        assert(convolver@.pending =~= Seq::new(
            (impulse_response@.len() - 1) as nat,
            |k: int| S::zero_value(),
        ));
        convolver
    }

    /// Forgets the pending tail. The impulse response and the mode stay.
    pub fn reset(&mut self)
        ensures
            final(self)@.well_formed(),
            final(self)@.pending.len() == old(self)@.pending.len(),
            final(self)@ == old(self)@.cleared(),
    {
        proof {
            use_type_invariant(&*self);
        }
        let zeros: Vec<S> = filled(self.buffer.capacity(), S::zero());
        refill(&mut self.buffer, &zeros, 0);
        assert(self@.pending =~= old(self)@.cleared().pending);
    }

    /// The largest number of samples that `flush` can hand out: one less
    /// than the length of the impulse response.
    pub fn required_flush_buffer_size(&self) -> (size: usize)
        ensures
            size == self@.impulse_response.len() - 1,
            size == self@.pending.len(),
    {
        proof {
            use_type_invariant(&*self);
        }
        self.buffer.capacity()
    }

    /// The working sequence for a block of `n` samples before anything is
    /// added to it.
    fn seed(&self, n: usize) -> (full: Vec<S>)
        requires
            n + self@.pending.len() <= usize::MAX,
        ensures
            full@ == self@.seeded(n as nat),
    {
        proof {
            use_type_invariant(&*self);
        }
        let capacity: usize = self.buffer.capacity();
        let total: usize = n + capacity;
        let mut full: Vec<S> = Vec::new();
        let mut i: usize = 0;
        while i < total
            invariant
                i <= total,
                total == n + capacity,
                capacity == self.buffer@.capacity(),
                self.aligned(),
                full@.len() == i,
                forall|k: int| 0 <= k < i ==> #[trigger] full@[k] == self@.seeded(n as nat)[k],
            decreases total - i,
        {
            let sample: S = if i < capacity {
                self.buffer.get(i)
            } else {
                S::zero()
            };
            full.push(sample);
            i += 1;
        }
        assert(full@ =~= self@.seeded(n as nat));
        full
    }

    /// Emits the first samples of the working sequence `full` into `output`
    /// and keeps the rest as the pending tail.
    fn emit(&mut self, full: &Vec<S>, output: &mut [S])
        requires
            full@.len() == old(output)@.len() + old(self)@.pending.len(),
        ensures
            final(self)@.well_formed(),
            final(output)@.len() == old(output)@.len(),
            final(self)@.pending.len() == old(self)@.pending.len(),
            final(output)@ == ConvolverModel::<S>::emitted(full@, old(output)@.len()),
            final(self)@ == old(self)@.carry(full@, old(output)@.len()),
    {
        proof {
            use_type_invariant(&*self);
        }
        let n: usize = output.len();
        let mut i: usize = 0;
        while i < n
            invariant
                i <= n,
                n == output@.len(),
                n <= full@.len(),
                forall|k: int| 0 <= k < i ==> #[trigger] output@[k] == full@[k],
            decreases n - i,
        {
            output[i] = full[i];
            i += 1;
        }
        refill(&mut self.buffer, full, n);
        assert(output@ =~= full@.subrange(0, n as int));
        assert(self@.pending =~= full@.subrange(n as int, full@.len() as int));
    }

    /// Convolves the block `input` directly and emits as many samples as
    /// came in. The pending tail of earlier calls is part of what is
    /// emitted; what lies beyond the block becomes the new pending tail.
    pub fn time_domain_convolution(&mut self, input: &[S], output: &mut [S])
        requires
            input@.len() == old(output)@.len(),
            input@.len() + old(self)@.pending.len() <= usize::MAX,
        ensures
            final(self)@.well_formed(),
            final(output)@.len() == old(output)@.len(),
            final(self)@.pending.len() == old(self)@.pending.len(),
            final(output)@ == ConvolverModel::<S>::emitted(
                old(self)@.direct(input@),
                input@.len(),
            ),
            final(self)@ == old(self)@.carry(old(self)@.direct(input@), input@.len()),
    {
        proof {
            use_type_invariant(&*self);
        }
        let mut full: Vec<S> = self.seed(input.len());
        accumulate_convolution(&mut full, input, self.impulse_response.as_slice());
        assert(full@ =~= self@.direct(input@));
        self.emit(&full, output);
    }

    /// Convolves the block `input` with one transform over the whole block
    /// and the whole impulse response, and emits as many samples as came in.
    pub fn fft_based_convolution(&mut self, input: &[S], output: &mut [S])
        requires
            input@.len() == old(output)@.len(),
            input@.len() + old(self)@.pending.len() <= usize::MAX,
        ensures
            final(self)@.well_formed(),
            final(output)@.len() == old(output)@.len(),
            final(self)@.pending.len() == old(self)@.pending.len(),
            final(output)@ == ConvolverModel::<S>::emitted(
                old(self)@.whole(input@),
                input@.len(),
            ),
            final(self)@ == old(self)@.carry(old(self)@.whole(input@), input@.len()),
    {
        proof {
            use_type_invariant(&*self);
        }
        let mut full: Vec<S> = self.seed(input.len());
        if input.len() > 0 {
            let product: Vec<S> = S::block_product(input, self.impulse_response.as_slice());
            add_block(&mut full, product.as_slice(), 0);
        }
        self.emit(&full, output);
    }

    /// Overlap-add of the block `input` against the impulse response, both
    /// cut into blocks of `block_size` samples. Block pairs are multiplied
    /// by the sample type's block product where `transformed`, by the
    /// convolution sum where not. Returns the working sequence.
    fn convolve_blocks(
        &mut self,
        input: &[S],
        output: &mut [S],
        block_size: usize,
        transformed: bool,
    ) -> (full: Vec<S>)
        requires
            block_size >= 1,
            input@.len() == old(output)@.len(),
            input@.len() + old(self)@.pending.len() <= usize::MAX,
        ensures
            final(self)@.well_formed(),
            final(output)@.len() == old(output)@.len(),
            final(self)@.pending.len() == old(self)@.pending.len(),
            full@ == old(self)@.blockwise(input@, block_size as nat, transformed),
            final(output)@ == ConvolverModel::<S>::emitted(full@, input@.len()),
            final(self)@ == old(self)@.carry(full@, input@.len()),
    {
        proof {
            use_type_invariant(&*self);
        }
        let mut full: Vec<S> = self.seed(input.len());
        overlap_add_blocks(
            &mut full,
            transformed,
            input,
            self.impulse_response.as_slice(),
            block_size,
        );
        proof {
            lemma_overlap_add_len(
                self@.seeded(input@.len()),
                transformed,
                input@,
                self@.impulse_response,
                block_size as nat,
                block_count(input@.len(), block_size as nat),
            );
        }
        self.emit(&full, output);
        full
    }

    /// Convolves the block `input` by overlap-add of transformed blocks of
    /// `block_size` samples and emits as many samples as came in.
    pub fn overlap_add_freq(&mut self, input: &[S], output: &mut [S], block_size: usize)
        requires
            block_size >= 1,
            input@.len() == old(output)@.len(),
            input@.len() + old(self)@.pending.len() <= usize::MAX,
        ensures
            final(self)@.well_formed(),
            final(output)@.len() == old(output)@.len(),
            final(self)@.pending.len() == old(self)@.pending.len(),
            final(output)@ == ConvolverModel::<S>::emitted(
                old(self)@.blockwise(input@, block_size as nat, true),
                input@.len(),
            ),
            final(self)@ == old(self)@.carry(
                old(self)@.blockwise(input@, block_size as nat, true),
                input@.len(),
            ),
    {
        proof {
            use_type_invariant(&*self);
        }
        let _ = self.convolve_blocks(input, output, block_size, true);
    }

    /// Convolves the block `input` by overlap-add of blocks of `block_size`
    /// samples, each pair multiplied as the engine's mode says: directly in
    /// the time domain, by the block product in the frequency domain.
    /// Emits as many samples as came in and returns the whole working
    /// sequence, the emitted samples and the new pending tail behind them.
    pub fn overlap_add(
        &mut self,
        input: &[S],
        output: &mut [S],
        block_size: usize,
    ) -> (full: Vec<S>)
        requires
            block_size >= 1,
            input@.len() == old(output)@.len(),
            input@.len() + old(self)@.pending.len() <= usize::MAX,
        ensures
            final(self)@.well_formed(),
            final(output)@.len() == old(output)@.len(),
            final(self)@.pending.len() == old(self)@.pending.len(),
            full@ == old(self)@.blockwise(
                input@,
                block_size as nat,
                old(self)@.mode is FrequencyDomain,
            ),
            final(output)@ == ConvolverModel::<S>::emitted(full@, input@.len()),
            final(self)@ == old(self)@.carry(full@, input@.len()),
    {
        proof {
            use_type_invariant(&*self);
        }
        let transformed: bool = match self.mode {
            ConvolutionMode::TimeDomain => false,
            ConvolutionMode::FrequencyDomain { block_size: _ } => true,
        };
        self.convolve_blocks(input, output, block_size, transformed)
    }

    /// Convolves the next block of the stream and emits as many samples as
    /// came in, by the engine's mode.
    pub fn process(&mut self, input: &[S], output: &mut [S])
        requires
            input@.len() == old(output)@.len(),
            input@.len() + old(self)@.pending.len() <= usize::MAX,
        ensures
            final(self)@.well_formed(),
            final(output)@.len() == old(output)@.len(),
            final(self)@.pending.len() == old(self)@.pending.len(),
            final(output)@ == old(self)@.output(input@),
            final(self)@ == old(self)@.step(input@),
    {
        proof {
            use_type_invariant(&*self);
        }
        match self.mode {
            ConvolutionMode::TimeDomain => {
                self.time_domain_convolution(input, output)
            },
            ConvolutionMode::FrequencyDomain { block_size } => {
                self.overlap_add_freq(input, output, block_size);
            },
        }
    }

    /// Hands out the pending tail: `output` receives its first samples, and
    /// zeros where `output` is longer than the tail. What was handed out is
    /// no longer pending.
    pub fn flush(&mut self, output: &mut [S])
        ensures
            final(self)@.well_formed(),
            final(output)@.len() == old(output)@.len(),
            final(self)@.pending.len() == old(self)@.pending.len(),
            final(output)@ == old(self)@.drained(old(output)@.len()),
            final(self)@ == old(self)@.after_flush(old(output)@.len()),
    {
        proof {
            use_type_invariant(&*self);
        }
        let m: usize = output.len();
        let capacity: usize = self.buffer.capacity();
        let ghost before = self@;
        let mut i: usize = 0;
        while i < m
            invariant
                i <= m,
                m == output@.len(),
                self.aligned(),
                capacity == self.buffer@.capacity(),
                self@.impulse_response == before.impulse_response,
                self@.mode == before.mode,
                self@.pending.len() == before.pending.len(),
                before.pending.len() == capacity,
                forall|k: int|
                    0 <= k < capacity ==> #[trigger] self@.pending[k] == if k + i < capacity {
                        before.pending[k + i]
                    } else {
                        S::zero_value()
                    },
                forall|k: int| 0 <= k < i ==> #[trigger] output@[k] == before.drained(m as nat)[k],
            decreases m - i,
        {
            let ghost pending = self@.pending;
            let zero: S = S::zero();
            let sample: S = if i < capacity {
                drain_one(&mut self.buffer, zero)
            } else {
                zero
            };
            output[i] = sample;
            proof {
                assert(sample == before.drained(m as nat)[i as int]) by {
                    if i < capacity {
                        assert(sample == pending[0]);
                    }
                }
                assert forall|k: int| 0 <= k < capacity implies #[trigger] self@.pending[k] == if k
                    + i + 1 < capacity {
                    before.pending[k + i + 1]
                } else {
                    S::zero_value()
                } by {
                    if i < capacity {
                        if k < capacity - 1 {
                            assert(self.buffer@.at(k as nat) == pending[k + 1]);
                        }
                    } else {
                        assert(self@.pending[k] == pending[k]);
                    }
                }
            }
            i += 1;
        }
        assert(output@ =~= before.drained(m as nat));
        assert(self@.pending =~= before.after_flush(m as nat).pending);
    }
}

} // verus!
