//! Streaming convolution of block-delivered signals, verified.
//!
//! The engine applies an impulse response to a signal that arrives block by
//! block, either by the sum that defines the convolution or by overlap-add of
//! transformed blocks, and carries the unfinished part of the convolution from
//! one call to the next.
//!
//! - [`ring_buffer`]: a fixed-capacity circular store with independent read
//!   and write cursors, with plain and interpolated reads.
//! - [`sample`]: what the engine needs from a sample type, and what makes a
//!   sample type exact.
//! - [`convolution`]: the convolution sum, the partition of a signal into
//!   blocks and the overlap-add of block products.
//! - [`fast_convolver`]: the engine.
//! - [`sums`], [`equivalence`], [`streaming`]: what holds with exact samples.
//!   The block convolver computes what the direct convolver computes; how a
//!   stream is cut into blocks does not matter; a unit impulse reproduces the
//!   impulse response; `flush` hands out the rest of the convolution.
//! - [`comb_filter`], [`lfo`]: a comb filter and a wavetable oscillator.

pub mod comb_filter;
pub mod convolution;
pub mod equivalence;
pub mod fast_convolver;
pub mod lfo;
pub mod ring_buffer;
pub mod sample;
pub mod streaming;
pub mod sums;

pub use comb_filter::{CombFilter, Error, FilterParam, FilterType};
pub use fast_convolver::{ConvolutionMode, FastConvolver};
pub use lfo::LFO;
pub use ring_buffer::RingBuffer;
pub use sample::{BlockProduct, ExactBlockProduct, ExactSample, Sample};
