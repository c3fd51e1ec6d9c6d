//! Verified core of a piano-transcription pipeline.
//!
//! The library covers the pure logic of the pipeline: musical keys and
//! notes, analysis window coefficients, spectrum bookkeeping, coalesced
//! key-press interval sets, the sliding-window pitch analysis, and the
//! note scheduler that replays detected presses as note on/off commands.
//!
//! All quantities are integers: times are milliseconds, frequencies are
//! millihertz, window coefficients and amplitudes are fixed-point values.
//! Sample decoding, the Fourier transform and the output device live in
//! the surrounding (unverified) application, which converts between its
//! floating-point buffers and the integer values this crate works on.

pub mod analysis;
pub mod key;
pub mod midi;
pub mod presses;
pub mod scheduler;
pub mod spectrum;
pub mod window;

use vstd::prelude::*;

verus! {

/// `a / b` rounded to the nearest integer, halves rounding up.
pub open spec fn round_div(a: int, b: int) -> int
    recommends
        b > 0,
{
    (a + b / 2) / b
}

} // verus!
