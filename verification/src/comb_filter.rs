//! A comb filter: every channel is mixed with what its delay line holds.

use vstd::prelude::*;
use vstd::arithmetic::div_mod::{lemma_add_mod_noop, lemma_small_mod};
use crate::convolution::filled;
use crate::sample::Sample;

verus! {

/// What the delay line is fed with.
#[derive(Debug, Clone, Copy)]
pub enum FilterType {
    /// Feed-forward: the line stores the input.
    FIR,
    /// Feedback: the line stores the output.
    IIR,
}

/// A parameter of the filter.
#[derive(Debug, Clone, Copy)]
pub enum FilterParam {
    Gain,
    Delay,
}

/// A parameter value that the filter refuses.
#[derive(Debug, Clone)]
pub enum Error<S> {
    InvalidValue { param: FilterParam, value: S },
}

/// The mathematical value of a comb filter.
pub struct CombModel<S> {
    pub filter_type: FilterType,
    pub sample_rate_hz: S,
    pub gain: S,
    /// The delay as it was set, in seconds.
    pub delay_secs: S,
    /// The delay in samples.
    pub delay_samples: nat,
    /// The length of every delay line: the longest delay, in samples.
    pub max_delay_samples: nat,
    /// One delay line for every channel.
    pub lines: Seq<Seq<S>>,
}

/// The number of samples in `secs` seconds at `sample_rate_hz`: the whole
/// part of their product.
pub open spec fn samples_in<S: Sample>(sample_rate_hz: S, secs: S) -> nat {
    sample_rate_hz.product(secs).whole_part() as nat
}

/// The output for the input sample `x` where the line holds `delayed`.
pub open spec fn comb_output<S: Sample>(gain: S, delayed: S, x: S) -> S {
    x.sum(delayed.product(gain))
}

/// What the line stores in place of `delayed` for the input sample `x`.
pub open spec fn comb_stored<S: Sample>(filter_type: FilterType, gain: S, delayed: S, x: S) -> S {
    match filter_type {
        FilterType::FIR => x,
        FilterType::IIR => comb_output(gain, delayed, x),
    }
}

/// The place of the line that sample `k` of a block reads and overwrites,
/// where the block starts at place `start`.
pub open spec fn comb_place(start: nat, len: nat, k: nat) -> int {
    ((start + k) as int) % (len as int)
}

/// The delay line after the first `k` samples of the block `x`.
pub open spec fn comb_line<S: Sample>(
    filter_type: FilterType,
    gain: S,
    line: Seq<S>,
    start: nat,
    x: Seq<S>,
    k: nat,
) -> Seq<S>
    decreases k,
{
    if k == 0 {
        line
    } else {
        let j = (k - 1) as nat;
        let before = comb_line(filter_type, gain, line, start, x, j);
        let place = comb_place(start, line.len(), j);
        before.update(place, comb_stored(filter_type, gain, before[place], x[j as int]))
    }
}

/// Output sample `k` for the block `x`.
pub open spec fn comb_sample<S: Sample>(
    filter_type: FilterType,
    gain: S,
    line: Seq<S>,
    start: nat,
    x: Seq<S>,
    k: nat,
) -> S {
    let before = comb_line(filter_type, gain, line, start, x, k);
    comb_output(gain, before[comb_place(start, line.len(), k)], x[k as int])
}

impl<S: Sample> CombModel<S> {
    /// Every delay line has the length of the longest delay, and the delay
    /// is not longer than that.
    pub open spec fn well_formed(self) -> bool {
        &&& self.delay_samples <= self.max_delay_samples
        &&& forall|c: int|
            0 <= c < self.lines.len() ==> (#[trigger] self.lines[c]).len()
                == self.max_delay_samples
    }

    /// The place of the delay line of `channel` at which every block
    /// starts.
    pub open spec fn start(self, channel: int) -> nat {
        (self.delay_samples % self.lines[channel].len()) as nat
    }

    /// The delay line of `channel` after the block `x`.
    pub open spec fn line_after(self, channel: int, x: Seq<S>) -> Seq<S> {
        comb_line(
            self.filter_type,
            self.gain,
            self.lines[channel],
            self.start(channel),
            x,
            x.len(),
        )
    }

    /// Output sample `k` of `channel` for the block `x`.
    pub open spec fn sample(self, channel: int, x: Seq<S>, k: int) -> S {
        comb_sample(
            self.filter_type,
            self.gain,
            self.lines[channel],
            self.start(channel),
            x,
            k as nat,
        )
    }
}

/// A comb filter for a fixed number of channels.
pub struct CombFilter<S> {
    filter_type: FilterType,
    sample_rate_hz: S,
    num_channels: usize,
    gain: S,
    delay_secs: S,
    delay_samples: usize,
    max_delay_samples: usize,
    delay_buffers: Vec<Vec<S>>,
}

impl<S> View for CombFilter<S> {
    type V = CombModel<S>;

    closed spec fn view(&self) -> CombModel<S> {
        CombModel {
            filter_type: self.filter_type,
            sample_rate_hz: self.sample_rate_hz,
            gain: self.gain,
            delay_secs: self.delay_secs,
            delay_samples: self.delay_samples as nat,
            max_delay_samples: self.max_delay_samples as nat,
            lines: Seq::new(self.delay_buffers@.len(), |c: int| self.delay_buffers@[c]@),
        }
    }
}

impl<S> CombFilter<S> {
    /// There is one delay line for every channel.
    #[verifier::type_invariant]
    closed spec fn one_line_per_channel(&self) -> bool {
        self.delay_buffers@.len() == self.num_channels
    }
}

impl<S: Sample> CombFilter<S> {
    /// A filter whose delay lines hold `max_delay_secs` seconds at
    /// `sample_rate_hz`, all zero. The delay is the longest one, the gain is
    /// zero.
    pub fn new(
        filter_type: FilterType,
        max_delay_secs: S,
        sample_rate_hz: S,
        num_channels: usize,
    ) -> (filter: Self)
        ensures
            filter@.well_formed(),
            filter@.filter_type == filter_type,
            filter@.sample_rate_hz == sample_rate_hz,
            filter@.gain == S::zero_value(),
            filter@.delay_secs == max_delay_secs,
            filter@.delay_samples == samples_in(sample_rate_hz, max_delay_secs),
            filter@.max_delay_samples == samples_in(sample_rate_hz, max_delay_secs),
            filter@.lines == Seq::new(
                num_channels as nat,
                |c: int|
                    Seq::new(samples_in(sample_rate_hz, max_delay_secs), |i: int| S::zero_value()),
            ),
    {
        let delay_samples: usize = sample_rate_hz.times(max_delay_secs).split().0;
        let mut delay_buffers: Vec<Vec<S>> = Vec::new();
        let mut c: usize = 0;
        while c < num_channels
            invariant
                c <= num_channels,
                delay_buffers@.len() == c,
                forall|k: int|
                    0 <= k < c ==> (#[trigger] delay_buffers@[k])@ == Seq::new(
                        delay_samples as nat,
                        |i: int| S::zero_value(),
                    ),
            decreases num_channels - c,
        {
            delay_buffers.push(filled(delay_samples, S::zero()));
            c += 1;
        }
        let filter = CombFilter {
            filter_type,
            sample_rate_hz,
            num_channels,
            gain: S::zero(),
            delay_secs: max_delay_secs,
            delay_samples,
            max_delay_samples: delay_samples,
            delay_buffers,
        };
        assert(filter@.lines =~= Seq::new(
            num_channels as nat,
            |c: int| Seq::new(delay_samples as nat, |i: int| S::zero_value()),
        ));
        filter
    }

    /// Puts zero into every place of every delay line.
    pub fn reset(&mut self)
        ensures
            old(self)@.well_formed() ==> final(self)@.well_formed(),
            final(self)@ == (CombModel {
                lines: Seq::new(
                    old(self)@.lines.len(),
                    |c: int| Seq::new(old(self)@.lines[c].len(), |i: int| S::zero_value()),
                ),
                ..old(self)@
            }),
    {
        proof {
            use_type_invariant(&*self);
        }
        let ghost before = self@;
        let zero: S = S::zero();
        let channels: usize = self.delay_buffers.len();
        let mut c: usize = 0;
        while c < channels
            invariant
                c <= channels,
                channels == self.delay_buffers@.len(),
                self.one_line_per_channel(),
                self@.filter_type == before.filter_type,
                self@.sample_rate_hz == before.sample_rate_hz,
                self@.gain == before.gain,
                self@.delay_secs == before.delay_secs,
                self@.delay_samples == before.delay_samples,
                self@.max_delay_samples == before.max_delay_samples,
                self@.lines.len() == before.lines.len(),
                forall|k: int|
                    0 <= k < channels ==> (#[trigger] self.delay_buffers@[k])@.len()
                        == before.lines[k].len(),
                forall|k: int, i: int|
                    0 <= k < c && 0 <= i < before.lines[k].len()
                        ==> #[trigger] self.delay_buffers@[k]@[i] == zero,
            decreases channels - c,
        {
            let len: usize = self.delay_buffers[c].len();
            let mut i: usize = 0;
            while i < len
                invariant
                    i <= len,
                    c < channels,
                    channels == self.delay_buffers@.len(),
                    len == before.lines[c as int].len(),
                    self.one_line_per_channel(),
                    self@.filter_type == before.filter_type,
                    self@.sample_rate_hz == before.sample_rate_hz,
                    self@.gain == before.gain,
                    self@.delay_secs == before.delay_secs,
                    self@.delay_samples == before.delay_samples,
                    self@.max_delay_samples == before.max_delay_samples,
                    self@.lines.len() == before.lines.len(),
                    forall|k: int|
                        0 <= k < channels ==> (#[trigger] self.delay_buffers@[k])@.len()
                            == before.lines[k].len(),
                    forall|k: int, j: int|
                        0 <= k < c && 0 <= j < before.lines[k].len()
                            ==> #[trigger] self.delay_buffers@[k]@[j] == zero,
                    forall|j: int|
                        0 <= j < i ==> #[trigger] self.delay_buffers@[c as int]@[j] == zero,
                decreases len - i,
            {
                self.delay_buffers[c][i] = zero;
                i += 1;
            }
            c += 1;
        }
        assert forall|k: int| 0 <= k < before.lines.len() implies #[trigger] self@.lines[k]
            == Seq::new(before.lines[k].len(), |i: int| S::zero_value()) by {
            assert(self.delay_buffers@[k]@ =~= Seq::new(
                before.lines[k].len(),
                |i: int| S::zero_value(),
            ));
        }
        assert(self@.lines =~= Seq::new(
            before.lines.len(),
            |c: int| Seq::new(before.lines[c].len(), |i: int| S::zero_value()),
        ));
    }

    /// Sets the gain, or the delay in seconds. A delay longer than the
    /// delay lines is refused, and the filter stays as it is.
    pub fn set_param(&mut self, param: FilterParam, value: S) -> (result: Result<(), Error<S>>)
        ensures
            old(self)@.well_formed() ==> final(self)@.well_formed(),
            match param {
                FilterParam::Gain => {
                    &&& result == Ok::<(), Error<S>>(())
                    &&& final(self)@ == (CombModel { gain: value, ..old(self)@ })
                },
                FilterParam::Delay => if samples_in(old(self)@.sample_rate_hz, value) > old(
                    self,
                )@.max_delay_samples {
                    &&& result == Err::<(), Error<S>>(
                        Error::InvalidValue { param: FilterParam::Delay, value },
                    )
                    &&& final(self)@ == old(self)@
                } else {
                    &&& result == Ok::<(), Error<S>>(())
                    &&& final(self)@ == (CombModel {
                        delay_secs: value,
                        delay_samples: samples_in(old(self)@.sample_rate_hz, value),
                        ..old(self)@
                    })
                },
            },
    {
        proof {
            use_type_invariant(&*self);
        }
        match param {
            FilterParam::Gain => {
                self.gain = value;
                Ok(())
            },
            FilterParam::Delay => {
                let delay_samples: usize = self.sample_rate_hz.times(value).split().0;
                if delay_samples > self.max_delay_samples {
                    Err(Error::InvalidValue { param: FilterParam::Delay, value })
                } else {
                    self.delay_secs = value;
                    self.delay_samples = delay_samples;
                    Ok(())
                }
            },
        }
    }

    /// The gain, or the delay in seconds, as it was set.
    pub fn get_param(&self, param: FilterParam) -> (value: S)
        ensures
            value == match param {
                FilterParam::Gain => self@.gain,
                FilterParam::Delay => self@.delay_secs,
            },
    {
        match param {
            FilterParam::Gain => self.gain,
            FilterParam::Delay => self.delay_secs,
        }
    }

    /// The number of channels.
    pub fn num_channels(&self) -> (n: usize)
        ensures
            n == self@.lines.len(),
    {
        proof {
            use_type_invariant(&*self);
        }
        self.num_channels
    }

    /// The length of the delay lines, in samples.
    pub fn max_delay_samples(&self) -> (n: usize)
        ensures
            n == self@.max_delay_samples,
    {
        self.max_delay_samples
    }

    /// Filters one block per channel. Channel `c` of `input` goes through
    /// delay line `c`, from the place that the delay names, and its output
    /// is written to the start of channel `c` of `output`. Delay lines
    /// without a block, and what `output` holds beyond a block, stay as
    /// they are.
    pub fn process(&mut self, input: &[&[S]], output: &mut Vec<Vec<S>>)
        requires
            input@.len() <= old(self)@.lines.len(),
            input@.len() <= old(output)@.len(),
            forall|c: int| 0 <= c < input@.len() ==> (#[trigger] old(self)@.lines[c]).len() >= 1,
            forall|c: int|
                0 <= c < input@.len() ==> (#[trigger] input@[c])@.len() <= old(output)@[c]@.len(),
        ensures
            old(self)@.well_formed() ==> final(self)@.well_formed(),
            final(self)@.filter_type == old(self)@.filter_type,
            final(self)@.sample_rate_hz == old(self)@.sample_rate_hz,
            final(self)@.gain == old(self)@.gain,
            final(self)@.delay_secs == old(self)@.delay_secs,
            final(self)@.delay_samples == old(self)@.delay_samples,
            final(self)@.max_delay_samples == old(self)@.max_delay_samples,
            final(self)@.lines.len() == old(self)@.lines.len(),
            final(output)@.len() == old(output)@.len(),
            forall|c: int|
                0 <= c < old(self)@.lines.len() ==> #[trigger] final(self)@.lines[c] == if c
                    < input@.len() {
                    old(self)@.line_after(c, input@[c]@)
                } else {
                    old(self)@.lines[c]
                },
            forall|c: int|
                0 <= c < old(self)@.lines.len() ==> (#[trigger] final(self)@.lines[c]).len() == old(
                    self,
                )@.lines[c].len(),
            forall|c: int|
                0 <= c < old(output)@.len() ==> (#[trigger] final(output)@[c])@.len() == old(
                    output,
                )@[c]@.len(),
            forall|c: int, k: int|
                0 <= c < old(output)@.len() && 0 <= k < old(output)@[c]@.len()
                    ==> #[trigger] final(output)@[c]@[k] == if c < input@.len() && k
                    < input@[c]@.len() {
                    old(self)@.sample(c, input@[c]@, k)
                } else {
                    old(output)@[c]@[k]
                },
    {
        proof {
            use_type_invariant(&*self);
        }
        let ghost before = self@;
        let ghost out_before = output@;
        let channels: usize = input.len();
        let mut c: usize = 0;
        while c < channels
            invariant
                c <= channels,
                channels == input@.len(),
                self.one_line_per_channel(),
                channels <= self.delay_buffers@.len(),
                channels <= output@.len(),
                output@.len() == out_before.len(),
                forall|d: int| 0 <= d < input@.len() ==> (#[trigger] before.lines[d]).len() >= 1,
                forall|d: int|
                    0 <= d < input@.len() ==> (#[trigger] input@[d])@.len() <= out_before[d]@.len(),
                self@.filter_type == before.filter_type,
                self@.sample_rate_hz == before.sample_rate_hz,
                self@.gain == before.gain,
                self@.delay_secs == before.delay_secs,
                self@.delay_samples == before.delay_samples,
                self@.max_delay_samples == before.max_delay_samples,
                self@.lines.len() == before.lines.len(),
                forall|d: int|
                    0 <= d < before.lines.len() ==> #[trigger] self@.lines[d] == if d < c {
                        before.line_after(d, input@[d]@)
                    } else {
                        before.lines[d]
                    },
                forall|d: int|
                    0 <= d < before.lines.len() ==> (#[trigger] self@.lines[d]).len()
                        == before.lines[d].len(),
                forall|d: int|
                    0 <= d < out_before.len() ==> (#[trigger] output@[d])@.len()
                        == out_before[d]@.len(),
                forall|d: int, k: int|
                    0 <= d < out_before.len() && 0 <= k < out_before[d]@.len()
                        ==> #[trigger] output@[d]@[k] == if d < c && k < input@[d]@.len() {
                        before.sample(d, input@[d]@, k)
                    } else {
                        out_before[d]@[k]
                    },
            decreases channels - c,
        {
            let x: &[S] = input[c];
            let n: usize = x.len();
            let len: usize = self.delay_buffers[c].len();
            let ghost line = before.lines[c as int];
            proof {
                assert(self@.lines[c as int] == line);
                assert(line.len() >= 1);
            }
            let start: usize = self.delay_samples % len;
            let mut read_idx: usize = start;
            let mut k: usize = 0;
            proof {
                lemma_small_mod(start as nat, len as nat);
            }
            while k < n
                invariant
                    k <= n,
                    c < channels,
                    channels == input@.len(),
                    x@ == input@[c as int]@,
                    n == x@.len(),
                    n <= out_before[c as int]@.len(),
                    self.one_line_per_channel(),
                    len >= 1,
                    channels <= self.delay_buffers@.len(),
                    channels <= output@.len(),
                    output@.len() == out_before.len(),
                    start == before.start(c as int),
                    line == before.lines[c as int],
                    line.len() == len,
                    read_idx == comb_place(start as nat, len as nat, k as nat),
                    read_idx < len,
                    self@.filter_type == before.filter_type,
                    self@.sample_rate_hz == before.sample_rate_hz,
                    self@.gain == before.gain,
                    self@.delay_secs == before.delay_secs,
                    self@.delay_samples == before.delay_samples,
                    self@.max_delay_samples == before.max_delay_samples,
                    self@.lines.len() == before.lines.len(),
                    self.delay_buffers@[c as int]@.len() == len,
                    self.delay_buffers@[c as int]@ == comb_line(
                        before.filter_type,
                        before.gain,
                        line,
                        start as nat,
                        x@,
                        k as nat,
                    ),
                    forall|d: int|
                        0 <= d < before.lines.len() && d != c ==> #[trigger] self@.lines[d] == if d
                            < c {
                            before.line_after(d, input@[d]@)
                        } else {
                            before.lines[d]
                        },
                    forall|d: int|
                        0 <= d < before.lines.len() ==> (#[trigger] self@.lines[d]).len()
                            == before.lines[d].len(),
                    forall|d: int|
                        0 <= d < out_before.len() ==> (#[trigger] output@[d])@.len()
                            == out_before[d]@.len(),
                    forall|d: int, j: int|
                        0 <= d < out_before.len() && 0 <= j < out_before[d]@.len()
                            ==> #[trigger] output@[d]@[j] == if d < c && j < input@[d]@.len() {
                            before.sample(d, input@[d]@, j)
                        } else if d == c && j < k {
                            before.sample(d, input@[d]@, j)
                        } else {
                            out_before[d]@[j]
                        },
                decreases n - k,
            {
                let input_sample: S = x[k];
                let delayed: S = self.delay_buffers[c][read_idx];
                let output_sample: S = input_sample.plus(delayed.times(self.gain));
                let stored: S = match self.filter_type {
                    FilterType::FIR => input_sample,
                    FilterType::IIR => output_sample,
                };
                let ghost lines_before = self@.lines;
                self.delay_buffers[c][read_idx] = stored;
                output[c][k] = output_sample;
                proof {
                    lemma_add_mod_noop((start + k) as int, 1, len as int);
                    lemma_small_mod(read_idx as nat, len as nat);
                    if len > 1 {
                        lemma_small_mod(1, len as nat);
                    }
                    assert forall|d: int|
                        0 <= d < before.lines.len() && d != c implies #[trigger] self@.lines[d]
                        == lines_before[d] by {}
                    assert forall|d: int| 0 <= d < before.lines.len() implies (
                    #[trigger] self@.lines[d]).len() == before.lines[d].len() by {
                        if d != c {
                            assert(self@.lines[d] == lines_before[d]);
                        }
                    }
                }
                read_idx = (read_idx + 1) % len;
                k += 1;
            }
            proof {
                assert(self@.lines[c as int] == before.line_after(c as int, input@[c as int]@));
            }
            c += 1;
        }
    }
}

} // verus!
