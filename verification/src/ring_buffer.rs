//! A fixed-capacity circular store with independent read and write cursors.

use vstd::prelude::*;
use vstd::arithmetic::div_mod::{
    lemma_add_mod_noop, lemma_fundamental_div_mod, lemma_mod_add_multiples_vanish,
    lemma_small_mod,
};
use crate::sample::{ExactSample, Sample};

verus! {

/// The mathematical value of a ring: its slots in storage order and the two
/// cursors.
pub struct RingModel<T> {
    pub slots: Seq<T>,
    /// Where `pop` reads next.
    pub read: nat,
    /// Where `push` writes next.
    pub write: nat,
}

/// One step of a `push`/`pop` history.
pub enum RingOp<T> {
    Push(T),
    Pop,
}

impl<T> RingModel<T> {
    pub open spec fn capacity(self) -> nat {
        self.slots.len()
    }

    /// Both cursors are positions of the store (or 0 where there is no store).
    pub open spec fn well_formed(self) -> bool {
        if self.capacity() == 0 {
            self.read == 0 && self.write == 0
        } else {
            self.read < self.capacity() && self.write < self.capacity()
        }
    }

    /// A position reduced into the store.
    pub open spec fn wrap(self, index: int) -> nat {
        (index % (self.capacity() as int)) as nat
    }

    /// The number of filled entries: the distance from the read cursor to the
    /// write cursor, modulo the capacity.
    pub open spec fn len(self) -> nat {
        if self.capacity() == 0 {
            0
        } else {
            self.wrap(self.write - self.read)
        }
    }

    /// The slot `offset` places after the read cursor, wrapping around.
    pub open spec fn at(self, offset: nat) -> T {
        self.slots[self.wrap((self.read + offset) as int) as int]
    }

    /// The slot under the write cursor.
    pub open spec fn under_write(self) -> T {
        self.slots[self.write as int]
    }

    /// The slot under the read cursor.
    pub open spec fn under_read(self) -> T {
        self.slots[self.read as int]
    }

    pub open spec fn put(self, value: T) -> Self {
        RingModel { slots: self.slots.update(self.write as int, value), ..self }
    }

    pub open spec fn push(self, value: T) -> Self {
        RingModel {
            slots: self.slots.update(self.write as int, value),
            read: self.read,
            write: self.wrap(self.write + 1 as int),
        }
    }

    pub open spec fn pop(self) -> Self {
        RingModel { read: self.wrap(self.read + 1 as int), ..self }
    }

    pub open spec fn with_read(self, index: nat) -> Self {
        RingModel { read: self.wrap(index as int), ..self }
    }

    pub open spec fn with_write(self, index: nat) -> Self {
        RingModel { write: self.wrap(index as int), ..self }
    }

    /// The ring after the steps of `ops`, first to last.
    pub open spec fn run(self, ops: Seq<RingOp<T>>) -> Self
        decreases ops.len(),
    {
        if ops.len() == 0 {
            self
        } else {
            let before = self.run(ops.drop_last());
            match ops.last() {
                RingOp::Push(value) => before.push(value),
                RingOp::Pop => before.pop(),
            }
        }
    }

    /// Within one turn of the ring, different offsets lead to different
    /// slots.
    pub proof fn lemma_wrap_distinct(self, a: int, b: int)
        requires
            self.capacity() > 0,
            a < b < a + self.capacity(),
        ensures
            self.wrap(a) != self.wrap(b),
    {
        let c = self.capacity() as int;
        lemma_fundamental_div_mod(a, c);
        lemma_fundamental_div_mod(b, c);
        let qa = a / c;
        let qb = b / c;
        if a % c == b % c {
            assert(b - a == c * (qb - qa)) by (nonlinear_arith)
                requires
                    a == c * qa + a % c,
                    b == c * qb + b % c,
                    a % c == b % c,
            ;
            assert(false) by (nonlinear_arith)
                requires
                    c > 0,
                    0 < c * (qb - qa) < c,
            ;
        }
    }

    /// A position of the store is not moved by `wrap`, and one turn more
    /// leads back to it.
    pub proof fn lemma_wrap_turn(self, index: int)
        requires
            self.capacity() > 0,
            0 <= index < self.capacity(),
        ensures
            self.wrap(index) == index,
            self.wrap(index + self.capacity()) == index,
    {
        let c = self.capacity() as int;
        lemma_small_mod(index as nat, c as nat);
        lemma_mod_add_multiples_vanish(index, c);
    }

    /// Reducing an intermediate position changes nothing: `wrap` of a sum
    /// may be taken of the reduced first summand.
    pub proof fn lemma_wrap_sum(self, a: int, b: int)
        requires
            self.capacity() > 0,
        ensures
            self.wrap(self.wrap(a) + b) == self.wrap(a + b),
    {
        let c = self.capacity() as int;
        lemma_add_mod_noop(a, b, c);
        lemma_add_mod_noop(a % c, b, c);
        vstd::arithmetic::div_mod::lemma_mod_twice(a, c);
    }

    /// On a well-formed ring the length is the plain distance between the
    /// cursors, with one turn added where the write cursor is behind.
    pub proof fn lemma_len_by_cases(self)
        requires
            self.well_formed(),
        ensures
            self.write >= self.read ==> self.len() == self.write - self.read,
            self.write < self.read ==> self.len() == self.write + self.capacity() - self.read,
            self.len() <= self.capacity(),
            self.capacity() > 0 ==> self.len() < self.capacity(),
    {
        if self.capacity() > 0 {
            let c = self.capacity() as int;
            let d = self.write - self.read;
            if d >= 0 {
                lemma_small_mod(d as nat, c as nat);
            } else {
                lemma_mod_add_multiples_vanish(d, c);
                lemma_small_mod((c + d) as nat, c as nat);
            }
        }
    }

    /// Ring invariant: whatever the history of `push` and `pop`, the capacity
    /// is unchanged, both cursors are positions of the store, and the length
    /// does not exceed the capacity.
    pub proof fn lemma_ring_invariant(self, ops: Seq<RingOp<T>>)
        requires
            self.well_formed(),
            self.capacity() > 0,
        ensures
            self.run(ops).well_formed(),
            self.run(ops).capacity() == self.capacity(),
            self.run(ops).read < self.capacity(),
            self.run(ops).write < self.capacity(),
            self.run(ops).len() <= self.capacity(),
        decreases ops.len(),
    {
        if ops.len() > 0 {
            self.lemma_ring_invariant(ops.drop_last());
        }
        self.run(ops).lemma_len_by_cases();
    }
}

/// `v` is a value that `T::default()` may return.
pub open spec fn is_default<T: Default>(v: T) -> bool {
    call_ensures(T::default, (), v)
}

/// Linear interpolation between two neighbouring samples: `floor_s` weighted
/// by `1 - frac`, `ceil_s` weighted by `frac`.
pub open spec fn interpolate<S: Sample>(floor_s: S, ceil_s: S, frac: S) -> S {
    floor_s.product(S::one_value().difference(frac)).sum(ceil_s.product(frac))
}

impl<S: Sample> RingModel<S> {
    /// The interpolated value at a fractional offset after the read cursor:
    /// between the slot at the whole part of `offset` and the slot after
    /// it, by the fraction of `offset`.
    pub open spec fn at_frac(self, offset: S) -> S {
        interpolate(
            self.at(offset.whole_part() as nat),
            self.at(offset.whole_part() as nat + 1),
            offset.frac_part(),
        )
    }
}

/// Fractional read identity: at an offset without a fraction, the
/// interpolated value is the slot at that offset.
pub proof fn lemma_fractional_read_identity<S: ExactSample>(ring: RingModel<S>, offset: S)
    requires
        offset.frac_part() == S::zero_value(),
    ensures
        ring.at_frac(offset) == ring.at(offset.whole_part() as nat),
{
    let floor_s = ring.at(offset.whole_part() as nat);
    let ceil_s = ring.at(offset.whole_part() as nat + 1);
    S::difference_zero(S::one_value());
    S::product_one(floor_s);
    S::product_zero(ceil_s);
    S::sum_zero(floor_s);
}

/// Fixed-capacity ring storage. The capacity is chosen at construction and
/// never changes; the cursors wrap around.
pub struct RingBuffer<T> {
    buffer: Vec<T>,
    head: usize,
    tail: usize,
}

impl<T> View for RingBuffer<T> {
    type V = RingModel<T>;

    closed spec fn view(&self) -> RingModel<T> {
        RingModel { slots: self.buffer@, read: self.tail as nat, write: self.head as nat }
    }
}

impl<T> RingBuffer<T> {
    /// Both cursors are positions of the store, at all times.
    #[verifier::type_invariant]
    pub open spec fn well_formed(&self) -> bool {
        self@.well_formed()
    }
}

impl<T: Copy + Default> RingBuffer<T> {
    /// A ring of `capacity` slots, each holding `T::default()`, with both
    /// cursors at 0.
    pub fn new(capacity: usize) -> (ring: Self)
        ensures
            ring@.well_formed(),
            ring@.capacity() == capacity,
            ring@.read == 0,
            ring@.write == 0,
            forall|i: int| 0 <= i < capacity ==> is_default(#[trigger] ring@.slots[i]),
    {
        let mut buffer: Vec<T> = Vec::new();
        let mut i: usize = 0;
        while i < capacity
            invariant
                i <= capacity,
                buffer@.len() == i,
                forall|k: int| 0 <= k < i ==> is_default(#[trigger] buffer@[k]),
            decreases capacity - i,
        {
            buffer.push(T::default());
            i += 1;
        }
        RingBuffer { buffer, head: 0, tail: 0 }
    }

    /// Puts `T::default()` into every slot and both cursors back to 0.
    pub fn reset(&mut self)
        ensures
            final(self)@.well_formed(),
            final(self)@.capacity() == old(self)@.capacity(),
            final(self)@.read == 0,
            final(self)@.write == 0,
            forall|i: int|
                0 <= i < final(self)@.capacity() ==> is_default(#[trigger] final(self)@.slots[i]),
    {
        proof {
            use_type_invariant(&*self);
        }
        let n: usize = self.buffer.len();
        let mut i: usize = 0;
        while i < n
            invariant
                i <= n,
                self.buffer@.len() == n,
                self@.well_formed(),
                forall|k: int| 0 <= k < i ==> is_default(#[trigger] self.buffer@[k]),
            decreases n - i,
        {
            self.buffer[i] = T::default();
            i += 1;
        }
        self.head = 0;
        self.tail = 0;
    }

    /// Writes `value` under the write cursor and leaves the cursor where it is.
    pub fn put(&mut self, value: T)
        requires
            old(self)@.capacity() > 0,
        ensures
            final(self)@ == old(self)@.put(value),
            final(self)@.well_formed(),
            final(self)@.capacity() == old(self)@.capacity(),
        no_unwind
    {
        proof {
            use_type_invariant(&*self);
        }
        self.buffer[self.head] = value;
    }

    /// Reads the slot under the write cursor and leaves the cursor where it is.
    pub fn peek(&self) -> (value: T)
        requires
            self@.capacity() > 0,
        ensures
            value == self@.under_write(),
        no_unwind
    {
        proof {
            use_type_invariant(&*self);
        }
        self.buffer[self.head]
    }

    /// Reads the slot `offset` places after the read cursor. Offsets beyond
    /// the capacity wrap around.
    pub fn get(&self, offset: usize) -> (value: T)
        requires
            self@.capacity() > 0,
        ensures
            value == self@.at(offset as nat),
        no_unwind
    {
        proof {
            use_type_invariant(&*self);
        }
        let capacity: usize = self.buffer.len();
        let reduced: usize = offset % capacity;
        let space: usize = capacity - self.tail;
        let index: usize = if reduced < space {
            self.tail + reduced
        } else {
            reduced - space
        };
        proof {
            let c = capacity as int;
            lemma_add_mod_noop(self.tail as int, offset as int, c);
            lemma_small_mod(self.tail as nat, capacity as nat);
            if reduced < space {
                lemma_small_mod((self.tail + reduced) as nat, capacity as nat);
            } else {
                lemma_mod_add_multiples_vanish(index as int, c);
                lemma_small_mod(index as nat, capacity as nat);
            }
        }
        self.buffer[index]
    }

    /// Writes `value` under the write cursor, then advances that cursor.
    pub fn push(&mut self, value: T)
        requires
            old(self)@.capacity() > 0,
        ensures
            final(self)@ == old(self)@.push(value),
            final(self)@.well_formed(),
            final(self)@.capacity() == old(self)@.capacity(),
        no_unwind
    {
        proof {
            use_type_invariant(&*self);
        }
        let capacity: usize = self.buffer.len();
        self.buffer[self.head] = value;
        self.head = (self.head + 1) % capacity;
    }

    /// Reads the slot under the read cursor, then advances that cursor.
    pub fn pop(&mut self) -> (value: T)
        requires
            old(self)@.capacity() > 0,
        ensures
            value == old(self)@.under_read(),
            final(self)@ == old(self)@.pop(),
            final(self)@.well_formed(),
            final(self)@.capacity() == old(self)@.capacity(),
        no_unwind
    {
        proof {
            use_type_invariant(&*self);
        }
        let capacity: usize = self.buffer.len();
        let value: T = self.buffer[self.tail];
        self.tail = (self.tail + 1) % capacity;
        value
    }

    /// The read cursor, a position of the store.
    pub fn get_read_index(&self) -> (index: usize)
        ensures
            index == self@.read,
            self@.capacity() > 0 ==> index < self@.capacity(),
        no_unwind
    {
        proof {
            use_type_invariant(&*self);
        }
        self.tail
    }

    /// Moves the read cursor to `index`, reduced modulo the capacity.
    pub fn set_read_index(&mut self, index: usize)
        requires
            old(self)@.capacity() > 0,
        ensures
            final(self)@ == old(self)@.with_read(index as nat),
            final(self)@.well_formed(),
            final(self)@.capacity() == old(self)@.capacity(),
        no_unwind
    {
        proof {
            use_type_invariant(&*self);
        }
        self.tail = index % self.buffer.len();
    }

    /// The write cursor, a position of the store.
    pub fn get_write_index(&self) -> (index: usize)
        ensures
            index == self@.write,
            self@.capacity() > 0 ==> index < self@.capacity(),
        no_unwind
    {
        proof {
            use_type_invariant(&*self);
        }
        self.head
    }

    /// Moves the write cursor to `index`, reduced modulo the capacity.
    pub fn set_write_index(&mut self, index: usize)
        requires
            old(self)@.capacity() > 0,
        ensures
            final(self)@ == old(self)@.with_write(index as nat),
            final(self)@.well_formed(),
            final(self)@.capacity() == old(self)@.capacity(),
        no_unwind
    {
        proof {
            use_type_invariant(&*self);
        }
        self.head = index % self.buffer.len();
    }

    /// The number of filled entries.
    pub fn len(&self) -> (n: usize)
        ensures
            n == self@.len(),
            n <= self@.capacity(),
            self@.write >= self@.read ==> n == self@.write - self@.read,
            self@.write < self@.read ==> n == self@.write + self@.capacity() - self@.read,
        no_unwind
    {
        proof {
            use_type_invariant(&*self);
            self@.lemma_len_by_cases();
        }
        if self.head >= self.tail {
            self.head - self.tail
        } else {
            self.head + (self.buffer.len() - self.tail)
        }
    }

    /// The number of slots.
    pub fn capacity(&self) -> (n: usize)
        ensures
            n == self@.capacity(),
            self@.well_formed(),
        no_unwind
    {
        proof {
            use_type_invariant(&*self);
        }
        self.buffer.len()
    }
}

impl<S: Sample> RingBuffer<S> {
    /// Reads at a fractional offset after the read cursor: the linear
    /// interpolation, by the fraction of `offset`, between the slot at the
    /// whole part of `offset` and the slot after it. Meant for offsets that
    /// are not negative.
    pub fn get_frac(&self, offset: S) -> (value: S)
        requires
            self@.capacity() > 0,
        ensures
            value == self@.at_frac(offset),
    {
        proof {
            use_type_invariant(&*self);
        }
        let (whole, frac) = offset.split();
        let reduced: usize = whole % self.buffer.len();
        let floor_s: S = self.get(reduced);
        let ceil_s: S = self.get(reduced + 1);
        proof {
            let c = self@.capacity() as int;
            let r = self@.read as int;
            lemma_add_mod_noop(r, whole as int, c);
            lemma_add_mod_noop(r, reduced as int, c);
            lemma_small_mod(reduced as nat, c as nat);
            lemma_add_mod_noop(r + 1, whole as int, c);
            lemma_add_mod_noop(r + 1, reduced as int, c);
        }
        floor_s.times(S::one().minus(frac)).plus(ceil_s.times(frac))
    }
}

} // verus!
