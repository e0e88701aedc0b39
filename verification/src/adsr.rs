//! An attack-decay-sustain-release envelope.
//!
//! The envelope is a gain that ramps linearly from zero to one over the
//! attack, down to the sustain level over the decay, holds there, and
//! ramps to zero over the release once [`ADSR::release`] is called.
//! Times are given in ticks; levels are linear fixed-point gains.

use vstd::prelude::*;

verus! {

use crate::fixed::{FP_ONE, sat64, clamp_spec, clamp, sat_add};
use crate::stereodata::{StereoData, silence_spec, st_scale_spec};

/// The phase an envelope is in.
#[derive(Clone, Copy, PartialEq, Eq, Structural, Debug)]
pub enum ADSRState {
    Attack,
    Decay,
    Sustain,
    Release,
    Stopped,
}

/// The envelope: per-tick increments for the three ramps, the sustain
/// level, the current phase, and the current gain.
#[derive(Clone, Copy, PartialEq, Eq, Structural, Debug)]
pub struct ADSR {
    /// Gain added per tick while attacking; positive.
    pub a: i64,
    /// Gain added per tick while decaying; non-positive.
    pub d: i64,
    /// The sustain level, a linear gain in `[0, FP_ONE]`.
    pub s: i64,
    /// Gain added per tick while releasing; strictly negative.
    pub r: i64,
    /// The current phase.
    pub state: ADSRState,
    /// The current gain.
    pub g: i64,
}

/// The envelope built by [`ADSR::new`]: the sustain level is clamped
/// into `[0, FP_ONE]` and each ramp increment is the level change
/// divided by the ramp's length in ticks, rounded away from zero so
/// that an attack always climbs and a release always falls — a release
/// from a zero sustain level still steps down by one unit per tick.
pub open spec fn adsr_new_spec(attack: int, decay: int, sustain: int, release: int) -> ADSR {
    let s = clamp_spec(sustain, 0, FP_ONE as int);
    let rr = (-s) / release;
    ADSR {
        a: ((FP_ONE as int + attack - 1) / attack) as i64,
        d: ((s - FP_ONE as int) / decay) as i64,
        s: s as i64,
        r: if rr == 0 {
            -1i64
        } else {
            rr as i64
        },
        state: ADSRState::Attack,
        g: 0,
    }
}

/// One tick of the envelope: the advanced state and the scaled sample.
/// A stopped envelope renders silence without scaling.
pub open spec fn adsr_step_spec(e: ADSR, x: StereoData) -> (ADSR, StereoData) {
    match e.state {
        ADSRState::Attack => {
            let g1 = sat64(e.g + e.a);
            let e1 = if g1 >= FP_ONE as int {
                ADSR { state: ADSRState::Decay, g: FP_ONE, ..e }
            } else {
                ADSR { g: g1 as i64, ..e }
            };
            (e1, st_scale_spec(x, e1.g))
        },
        ADSRState::Decay => {
            let g1 = sat64(e.g + e.d);
            let e1 = if g1 <= e.s as int {
                ADSR { state: ADSRState::Sustain, g: e.s, ..e }
            } else {
                ADSR { g: g1 as i64, ..e }
            };
            (e1, st_scale_spec(x, e1.g))
        },
        ADSRState::Sustain => (e, st_scale_spec(x, e.g)),
        ADSRState::Release => {
            let g1 = sat64(e.g + e.r);
            let e1 = if g1 <= 0 {
                ADSR { state: ADSRState::Stopped, g: 0, ..e }
            } else {
                ADSR { g: g1 as i64, ..e }
            };
            (e1, st_scale_spec(x, e1.g))
        },
        ADSRState::Stopped => (e, silence_spec()),
    }
}

impl ADSR {
    /// Constructs an envelope from ramp lengths in ticks and a sustain
    /// level given as a linear fixed-point gain (clamped into
    /// `[0, FP_ONE]`).
    pub fn new(attack: u64, decay: u64, sustain: i64, release: u64) -> (e: ADSR)
        requires
            attack >= 1,
            decay >= 1,
            release >= 1,
        ensures
            e == adsr_new_spec(attack as int, decay as int, sustain as int, release as int),
    {
        let s: i64 = clamp(sustain, 0, FP_ONE);
        let dmag: u64 = (FP_ONE - s) as u64;
        let rmag: u64 = s as u64;
        proof {
            crate::fixed::lemma_ceil_div_bounds(65536, attack as int);
            crate::fixed::lemma_ceil_div_bounds(dmag as int, decay as int);
            crate::fixed::lemma_ceil_div_bounds(rmag as int, release as int);
        }
        let a: i64 = ((65536u128 + (attack as u128) - 1) / (attack as u128)) as i64;
        let d: i64 = -((((dmag as u128) + (decay as u128) - 1) / (decay as u128)) as i64);
        let rq: i64 = (((rmag as u128) + (release as u128) - 1) / (release as u128)) as i64;
        let r: i64 = if rq == 0 {
            -1
        } else {
            -rq
        };
        ADSR { a, d, s, r, state: ADSRState::Attack, g: 0 }
    }

    /// Moves the envelope into its release phase.
    pub fn release(&mut self)
        ensures
            *final(self) == (ADSR { state: ADSRState::Release, ..*old(self) }),
    {
        self.state = ADSRState::Release;
    }

    /// Advances the envelope one tick and scales the sample by the
    /// resulting gain.
    pub fn process(&mut self, x: StereoData) -> (y: StereoData)
        ensures
            *final(self) == adsr_step_spec(*old(self), x).0,
            y == adsr_step_spec(*old(self), x).1,
    {
        match self.state {
            ADSRState::Attack => {
                let g1 = sat_add(self.g, self.a);
                if g1 >= FP_ONE {
                    self.state = ADSRState::Decay;
                    self.g = FP_ONE;
                } else {
                    self.g = g1;
                }
            },
            ADSRState::Decay => {
                let g1 = sat_add(self.g, self.d);
                if g1 <= self.s {
                    self.state = ADSRState::Sustain;
                    self.g = self.s;
                } else {
                    self.g = g1;
                }
            },
            ADSRState::Sustain => {},
            ADSRState::Release => {
                let g1 = sat_add(self.g, self.r);
                if g1 <= 0 {
                    self.state = ADSRState::Stopped;
                    self.g = 0;
                } else {
                    self.g = g1;
                }
            },
            ADSRState::Stopped => {
                return StereoData::silence();
            },
        }
        x.scaled(self.g)
    }
}

} // verus!
