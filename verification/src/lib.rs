//! Signal-processing core of a dynamic-range compressor.
//!
//! The core converts a stream of audio samples into a stream of
//! gain-reduced samples.  It tracks signal loudness with a sliding-window
//! RMS detector, smooths gain changes through an attack/release-asymmetric
//! one-pole filter, maps the smoothed level through a soft-knee
//! threshold/ratio curve, and optionally delays the processed signal by a
//! lookahead offset read from the detector's own sample history.
//!
//! All quantities are fixed-point integers scaled by [`SCALE`]: a linear
//! amplitude of 1.0, a filter coefficient of 1.0, and a decibel value of
//! 1 dB are each represented by `SCALE` units.  Working over integers keeps
//! every arithmetic step exact, so the running sum of squares can never
//! drift below zero and the detector can never produce an undefined level:
//! the invariants that a floating-point implementation must guard with
//! run-time clamps are proved here instead.

use vstd::prelude::*;

pub mod compressor;
pub mod db;
pub mod detector;
pub mod gain_computer;
pub mod math;
pub mod params;
pub mod plugin;
pub mod smoother;

verus! {

/// Fixed-point unit: 1.0 as a fixed-point value (2 to the 20th).
pub const SCALE: i64 = 1048576;

/// Largest magnitude a detector input sample may have, as a fixed-point
/// value.  At `SCALE` = 2^20 this is an amplitude of 2^11, far above the
/// nominal [-1, 1] range; the bound exists so that a squared sample fits
/// in 63 bits.
pub const SAMPLE_LIMIT: i64 = 0x8000_0000;

/// Largest magnitude a raw input sample handed to the compressor may have
/// (an amplitude of 64).  Input-gain staging multiplies a sample by at
/// most [`GAIN_LIMIT`]/[`SCALE`], and the gained sample must stay within
/// [`SAMPLE_LIMIT`].
pub const INPUT_LIMIT: i64 = 0x400_0000;

/// Largest linear gain factor (input gain, output gain) accepted by the
/// parameter set: an amplitude factor of 32, a little over +30 dB.
pub const GAIN_LIMIT: i64 = 0x200_0000;

/// Largest window length, in samples, that a level detector accepts.
pub const MAX_WINDOW_LEN: usize = 0x100_0000;

/// Largest detector window length and lookahead, in seconds (fixed
/// point): 30 ms.
pub const MAX_BUFFER_SIZE: i64 = 31457;

} // verus!
