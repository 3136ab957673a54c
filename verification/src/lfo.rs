//! A wavetable oscillator: one period of a wave, read round and round.

use vstd::prelude::*;
use crate::ring_buffer::RingBuffer;

verus! {

/// The mathematical value of an oscillator.
pub struct LfoModel<T> {
    /// One period of the wave.
    pub wavetable: Seq<T>,
    /// The place of the sample that comes next.
    pub phase: nat,
}

impl<T> LfoModel<T> {
    /// The sample that comes next.
    pub open spec fn current(self) -> T {
        self.wavetable[self.phase as int]
    }

    /// The oscillator one sample later: after the last sample of the
    /// wavetable comes the first.
    pub open spec fn advanced(self) -> Self {
        LfoModel {
            wavetable: self.wavetable,
            phase: if self.phase + 1 < self.wavetable.len() {
                self.phase + 1
            } else {
                0
            },
        }
    }
}

/// A low-frequency oscillator that plays a wavetable.
pub struct LFO<T> {
    wavetable: RingBuffer<T>,
}

impl<T> View for LFO<T> {
    type V = LfoModel<T>;

    closed spec fn view(&self) -> LfoModel<T> {
        LfoModel { wavetable: self.wavetable@.slots, phase: self.wavetable@.write }
    }
}

impl<T: Copy + Default> LFO<T> {
    /// An oscillator at the start of `wavetable`.
    pub fn new(wavetable: &[T]) -> (lfo: Self)
        ensures
            lfo@.wavetable == wavetable@,
            lfo@.phase == 0,
    {
        let size: usize = wavetable.len();
        let mut ring: RingBuffer<T> = RingBuffer::new(size);
        let mut i: usize = 0;
        while i < size
            invariant
                i <= size,
                size == wavetable@.len(),
                ring@.capacity() == size,
                i < size ==> ring@.write == i,
                i == size ==> ring@.write == 0,
                forall|k: int| 0 <= k < i ==> #[trigger] ring@.slots[k] == wavetable@[k],
            decreases size - i,
        {
            let ghost before = ring@;
            ring.push(wavetable[i]);
            proof {
                if i + 1 < size {
                    before.lemma_wrap_turn(i + 1);
                } else {
                    before.lemma_wrap_turn(0);
                }
            }
            i += 1;
        }
        assert(ring@.slots =~= wavetable@);
        LFO { wavetable: ring }
    }

    /// Starts again with another wavetable.
    pub fn set_wavetable(&mut self, wavetable: &[T])
        ensures
            final(self)@.wavetable == wavetable@,
            final(self)@.phase == 0,
    {
        *self = LFO::new(wavetable);
    }

    /// The number of samples in one period.
    pub fn period(&self) -> (n: usize)
        ensures
            n == self@.wavetable.len(),
    {
        self.wavetable.capacity()
    }

    /// The next sample of the wave. After the last sample of the wavetable
    /// comes the first.
    pub fn get_sample(&mut self) -> (value: T)
        requires
            old(self)@.wavetable.len() >= 1,
        ensures
            value == old(self)@.current(),
            final(self)@ == old(self)@.advanced(),
    {
        proof {
            use_type_invariant(&self.wavetable);
        }
        let ghost ring = self.wavetable@;
        let value: T = self.wavetable.peek();
        self.wavetable.pop();
        self.wavetable.push(value);
        proof {
            if ring.write + 1 < ring.capacity() {
                ring.lemma_wrap_turn(ring.write + 1 as int);
            } else {
                ring.lemma_wrap_turn(0);
            }
            assert(self@.wavetable =~= old(self)@.wavetable);
        }
        value
    }
}

} // verus!
