//! Signal generators: units that produce one sample per tick from
//! internal state alone.
//!
//! The graph holds generators through the [`GeneratorUnit`] tag so that
//! every processing step has an exact specification; the [`Generator`]
//! and [`FreqMod`] traits carry the same surface for user code.

use vstd::prelude::*;

verus! {

use crate::fixed::{FP_ONE, sat64, clamp_spec, clamp};
use crate::stereodata::{StereoData, silence_spec};

/// The highest representable frequency parameter: one cycle per tick.
pub const MAX_FREQ_FP: i64 = 3145728000;

/// A unit with a controllable base frequency.
pub trait FreqMod: Sized {
    /// Creates a new unit for the given fixed-point frequency in hertz.
    fn new(f: i64) -> Self;

    /// Replaces the unit's frequency.
    fn set_frequency(&mut self, f: i64);

    /// The unit's current frequency.
    fn get_frequency(&self) -> i64;
}

/// A unit that renders one sample per tick without any input.
pub trait Generator {
    /// Generates a rendered audio sample and advances the unit's state.
    fn process(&mut self) -> StereoData;
}

/// A square-wave oscillator: `amp` on the first half of each period,
/// the negated amplitude on the second half.
#[derive(Clone, Copy, PartialEq, Eq, Structural, Debug)]
pub struct Square {
    /// The frequency the period was derived from, in fixed-point hertz.
    pub freq: i64,
    /// The period in ticks.
    pub period: u64,
    /// The position inside the current period.
    pub pos: u64,
    /// The amplitude of the high half-period.
    pub amp: i64,
}

/// The period in ticks for a frequency, with the frequency clamped into
/// the representable range so that the period is always at least one.
pub open spec fn square_period_spec(f: int) -> int {
    (MAX_FREQ_FP as int) / clamp_spec(f, 1, MAX_FREQ_FP as int)
}

/// The oscillator built by [`Square::with_frequency`].
pub open spec fn square_new_spec(f: int) -> Square {
    Square {
        freq: clamp_spec(f, 1, MAX_FREQ_FP as int) as i64,
        period: square_period_spec(f) as u64,
        pos: 0,
        amp: FP_ONE,
    }
}

/// One tick of a square oscillator: the rendered sample and the advanced
/// state.  A zero period renders silence and never advances.
pub open spec fn square_step_spec(s: Square) -> (Square, StereoData) {
    if s.period == 0 {
        (s, silence_spec())
    } else {
        let half = (s.period - s.period / 2) as u64;
        let out = if s.pos < half {
            StereoData { left: s.amp, right: s.amp }
        } else {
            StereoData { left: sat64(-(s.amp as int)) as i64, right: sat64(-(s.amp as int)) as i64 }
        };
        let next = if s.pos as int >= s.period as int - 1 {
            0u64
        } else {
            (s.pos + 1) as u64
        };
        (Square { pos: next, ..s }, out)
    }
}

impl Square {
    /// Builds an oscillator with unit amplitude for the given frequency.
    pub fn with_frequency(f: i64) -> (s: Square)
        ensures
            s == square_new_spec(f as int),
    {
        let fc: i64 = clamp(f, 1, MAX_FREQ_FP);
        Square { freq: fc, period: (MAX_FREQ_FP as u64) / (fc as u64), pos: 0, amp: FP_ONE }
    }

    /// Re-derives the period for a new frequency and restarts the cycle;
    /// the amplitude is kept.
    pub fn retune(&mut self, f: i64)
        ensures
            *final(self) == (Square { amp: old(self).amp, ..square_new_spec(f as int) }),
    {
        let fc: i64 = clamp(f, 1, MAX_FREQ_FP);
        self.freq = fc;
        self.period = (MAX_FREQ_FP as u64) / (fc as u64);
        self.pos = 0;
    }

    /// Renders the sample for the current position and advances it.
    pub fn step_sample(&mut self) -> (y: StereoData)
        ensures
            *final(self) == square_step_spec(*old(self)).0,
            y == square_step_spec(*old(self)).1,
    {
        if self.period == 0 {
            return StereoData::silence();
        }
        let half: u64 = self.period - self.period / 2;
        let y: StereoData = if self.pos < half {
            StereoData::single_stereo(self.amp)
        } else {
            StereoData::single_stereo(crate::fixed::sat_neg(self.amp))
        };
        if self.pos >= self.period - 1 {
            self.pos = 0;
        } else {
            self.pos = self.pos + 1;
        }
        y
    }
}

impl FreqMod for Square {
    fn new(f: i64) -> Self {
        Square::with_frequency(f)
    }

    fn set_frequency(&mut self, f: i64) {
        self.retune(f);
    }

    fn get_frequency(&self) -> i64 {
        self.freq
    }
}

impl Generator for Square {
    fn process(&mut self) -> StereoData {
        self.step_sample()
    }
}

/// The generator slot of a processing block.
#[derive(Clone, Copy, PartialEq, Eq, Structural, Debug)]
pub enum GeneratorUnit {
    /// The no-op stand-in: renders silence.
    Empty,
    /// Renders the same sample every tick.
    Constant(StereoData),
    /// A square-wave oscillator.
    Square(Square),
}

/// One tick of a generator slot.
pub open spec fn gen_step_spec(g: GeneratorUnit) -> (GeneratorUnit, StereoData) {
    match g {
        GeneratorUnit::Empty => (g, silence_spec()),
        GeneratorUnit::Constant(c) => (g, c),
        GeneratorUnit::Square(s) => {
            let st = square_step_spec(s);
            (GeneratorUnit::Square(st.0), st.1)
        },
    }
}

impl GeneratorUnit {
    /// Renders this tick's sample and advances the unit's state.
    pub fn step(&mut self) -> (y: StereoData)
        ensures
            *final(self) == gen_step_spec(*old(self)).0,
            y == gen_step_spec(*old(self)).1,
    {
        match *self {
            GeneratorUnit::Empty => StereoData::silence(),
            GeneratorUnit::Constant(c) => c,
            GeneratorUnit::Square(mut s) => {
                let y = s.step_sample();
                *self = GeneratorUnit::Square(s);
                y
            },
        }
    }
}

} // verus!
