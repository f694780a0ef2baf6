//! Streaming audio analysis: turns fixed-size frames of PCM samples into
//! tempo, volume and silence-reset events for a downstream renderer.
//!
//! All signal values are carried in fixed-point integers: amplitudes and
//! RMS energies at a scale of 10_000 per unit, tempos in thousandths of a
//! beat per minute. This keeps every computation exact and verifiable.

pub mod math;
pub mod moving_average;
pub mod sample;
pub mod tempo;
pub mod analyzer;
pub mod idle;

use vstd::prelude::*;

verus! {

/// Fixed-point scale: this many amplitude units stand for 1.0.
pub const AMP_UNIT: i64 = 10_000;

} // verus!
