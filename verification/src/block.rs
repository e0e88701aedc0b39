//! Processing blocks: the nodes of the signal-routing graph.
//!
//! A block pairs one signal generator with one signal modifier and an
//! interactor, the rule that merges their per-tick outputs into the
//! block's single output.  Between ticks a block accumulates the
//! samples primed into it by its predecessors; processing consumes the
//! accumulator and resets it to silence.

use vstd::prelude::*;

verus! {

use crate::adsr::{ADSR, adsr_step_spec};
use crate::bandpass::{BandPass, bp_step_spec};
use crate::generators::{GeneratorUnit, gen_step_spec};
use crate::stereodata::{StereoData, silence_spec, st_add_spec, st_mul_spec, st_scale_spec};

/// The modifier slot of a processing block.
#[derive(Clone, Copy, PartialEq, Eq, Structural, Debug)]
pub enum ModifierUnit {
    /// The no-op stand-in: passes its input through unchanged.
    Empty,
    /// Scales its input by a fixed gain.
    Gain(i64),
    /// An attack-decay-sustain-release envelope.
    Envelope(ADSR),
    /// A band pass filter.
    Band(BandPass),
}

/// One tick of a modifier slot.
pub open spec fn mod_step_spec(m: ModifierUnit, x: StereoData) -> (ModifierUnit, StereoData) {
    match m {
        ModifierUnit::Empty => (m, x),
        ModifierUnit::Gain(g) => (m, st_scale_spec(x, g)),
        ModifierUnit::Envelope(e) => {
            let st = adsr_step_spec(e, x);
            (ModifierUnit::Envelope(st.0), st.1)
        },
        ModifierUnit::Band(bp) => {
            let st = bp_step_spec(bp, x);
            (ModifierUnit::Band(st.0), st.1)
        },
    }
}

impl ModifierUnit {
    /// Transforms this tick's accumulated input and advances the
    /// unit's state.
    pub fn step(&mut self, x: StereoData) -> (y: StereoData)
        ensures
            *final(self) == mod_step_spec(*old(self), x).0,
            y == mod_step_spec(*old(self), x).1,
    {
        match *self {
            ModifierUnit::Empty => x,
            ModifierUnit::Gain(g) => x.scaled(g),
            ModifierUnit::Envelope(mut e) => {
                let y = e.process(x);
                *self = ModifierUnit::Envelope(e);
                y
            },
            ModifierUnit::Band(mut bp) => {
                let y = bp.process(x);
                *self = ModifierUnit::Band(bp);
                y
            },
        }
    }
}

/// The rule that merges a block's generator and modifier outputs.
#[derive(Clone, Copy, PartialEq, Eq, Structural, Debug)]
pub enum Interactor {
    /// Multiplies the two outputs channel-wise (amplitude modulation).
    Multiply,
    /// Passes the generator output through.
    GeneratorPassthrough,
    /// Passes the modifier output through.
    ModifierPassthrough,
}

/// The sample an interactor produces from the two slot outputs.
pub open spec fn inter_apply_spec(i: Interactor, gy: StereoData, my: StereoData) -> StereoData {
    match i {
        Interactor::Multiply => st_mul_spec(gy, my),
        Interactor::GeneratorPassthrough => gy,
        Interactor::ModifierPassthrough => my,
    }
}

impl Interactor {
    /// Merges the two slot outputs.
    pub fn apply(self, gy: StereoData, my: StereoData) -> (r: StereoData)
        ensures
            r == inter_apply_spec(self, gy, my),
    {
        match self {
            Interactor::Multiply => gy.times(my),
            Interactor::GeneratorPassthrough => gy,
            Interactor::ModifierPassthrough => my,
        }
    }
}

/// A node of the graph: one generator, one modifier, the interactor
/// that merges their outputs, and the input accumulator.
#[derive(Clone, Copy, PartialEq, Eq, Structural, Debug)]
pub struct Block {
    /// The generator slot.
    pub g: GeneratorUnit,
    /// The modifier slot.
    pub m: ModifierUnit,
    /// The combination rule.
    pub i: Interactor,
    /// Samples primed by predecessors since the last tick.
    pub input: StereoData,
}

/// One tick of a block: both slots run exactly once, the accumulator is
/// consumed and reset to silence, and the interactor merges the two
/// outputs.
pub open spec fn block_step_spec(b: Block) -> (Block, StereoData) {
    let gs = gen_step_spec(b.g);
    let ms = mod_step_spec(b.m, b.input);
    (
        Block { g: gs.0, m: ms.0, i: b.i, input: silence_spec() },
        inter_apply_spec(b.i, gs.1, ms.1),
    )
}

impl Block {
    /// Builds a block from a generator, a modifier, and an interactor.
    pub fn new(g: GeneratorUnit, m: ModifierUnit, i: Interactor) -> (b: Block)
        ensures
            b == (Block { g, m, i, input: silence_spec() }),
    {
        Block { g, m, i, input: StereoData::silence() }
    }

    /// Builds a generator-only block: the modifier is the empty
    /// stand-in and the generator output passes through.
    pub fn from_generator(g: GeneratorUnit) -> (b: Block)
        ensures
            b == (Block {
                g,
                m: ModifierUnit::Empty,
                i: Interactor::GeneratorPassthrough,
                input: silence_spec(),
            }),
    {
        Block {
            g,
            m: ModifierUnit::Empty,
            i: Interactor::GeneratorPassthrough,
            input: StereoData::silence(),
        }
    }

    /// Builds a modifier-only block: the generator is the empty
    /// stand-in and the modifier output passes through.
    pub fn from_modifier(m: ModifierUnit) -> (b: Block)
        ensures
            b == (Block {
                g: GeneratorUnit::Empty,
                m,
                i: Interactor::ModifierPassthrough,
                input: silence_spec(),
            }),
    {
        Block {
            g: GeneratorUnit::Empty,
            m,
            i: Interactor::ModifierPassthrough,
            input: StereoData::silence(),
        }
    }

    /// The default interactor multiplies the two outputs together.
    pub fn default_interactor() -> (i: Interactor)
        ensures
            i == Interactor::Multiply,
    {
        Interactor::Multiply
    }

    /// An interactor that passes the generator sample through.
    pub fn generator_passthrough() -> (i: Interactor)
        ensures
            i == Interactor::GeneratorPassthrough,
    {
        Interactor::GeneratorPassthrough
    }

    /// An interactor that passes the modifier sample through.
    pub fn modifier_passthrough() -> (i: Interactor)
        ensures
            i == Interactor::ModifierPassthrough,
    {
        Interactor::ModifierPassthrough
    }

    /// The block's generator.
    pub fn get_g(&self) -> (r: GeneratorUnit)
        ensures
            r == self.g,
    {
        self.g
    }

    /// The block's modifier.
    pub fn get_m(&self) -> (r: ModifierUnit)
        ensures
            r == self.m,
    {
        self.m
    }

    /// Replaces the block's generator.
    pub fn set_g(&mut self, g: GeneratorUnit)
        ensures
            *final(self) == (Block { g, ..*old(self) }),
    {
        self.g = g;
    }

    /// Replaces the block's modifier.
    pub fn set_m(&mut self, m: ModifierUnit)
        ensures
            *final(self) == (Block { m, ..*old(self) }),
    {
        self.m = m;
    }

    /// Adds a sample into the accumulator; contributions from several
    /// predecessors within one tick sum.
    pub fn prime_input(&mut self, x: StereoData)
        ensures
            *final(self) == (Block { input: st_add_spec(old(self).input, x), ..*old(self) }),
    {
        self.input = self.input.plus(x);
    }

    /// Runs one tick of the block and returns the merged output.
    pub fn process(&mut self) -> (y: StereoData)
        ensures
            *final(self) == block_step_spec(*old(self)).0,
            y == block_step_spec(*old(self)).1,
    {
        let gy = self.g.step();
        let my = self.m.step(self.input);
        self.input = StereoData::silence();
        self.i.apply(gy, my)
    }
}

} // verus!
