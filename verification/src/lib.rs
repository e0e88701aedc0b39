//! A verified signal-routing core for building software synthesizers.
//!
//! The crate models stereo audio samples in a signed 48.16 fixed-point
//! format, wires signal generators and modifiers into processing blocks,
//! and owns a directed graph of blocks that is walked once per output
//! sample in a cached evaluation order.

pub mod adsr;
pub mod bandpass;
pub mod block;
pub mod driver;
pub mod fixed;
pub mod generators;
pub mod highpass;
pub mod laws;
pub mod order;
pub mod sound;
pub mod stereodata;

use vstd::prelude::*;

verus! {

/// Samples per second assumed by every time-dependent unit.
pub const SAMPLE_RATE: u64 = 48000;

/// The sample rate as a fixed-point frequency in hertz.
pub const SAMPLE_RATE_FP: i64 = 3145728000;

/// Half the sample rate as a fixed-point frequency in hertz.
pub const HALF_RATE_FP: i64 = 1572864000;

} // verus!
