//! A high pass filter with resonance, derived from a third-order
//! Butterworth low pass prototype.
//!
//! The filter runs on a single channel.  The cutoff frequency is
//! capped at half the sample rate and the resonance clamped into
//! `[0, FP_ONE]`; inside the coefficient derivation the angular cutoff
//! is additionally clamped to be non-negative, so every coefficient
//! update is well defined.  The cosine in the resonance angle is the
//! clamped rational approximation from [`crate::fixed`].

use vstd::prelude::*;

verus! {

use crate::fixed::{
    FP_ONE, PI_FP, TWO_PI_FP, THREE_FP, SIX_FP, FOUR_FP, sat64, clamp_spec, fp_mul_spec,
    fp_div_spec, cos_fp_spec, sat_add, sat_sub, sat_neg, clamp, fp_mul, fp_div, cos_fp,
    lemma_fp_mul_nonneg,
};
use crate::HALF_RATE_FP;

/// The filter: coefficients, three ticks of history on each side, and
/// the two user parameters.
#[derive(PartialEq, Eq, Structural, Debug)]
pub struct HighPass {
    /// Derived coefficients.
    pub a0: i64,
    pub a1: i64,
    pub a2: i64,
    pub a3: i64,
    pub b1: i64,
    pub b2: i64,
    pub b3: i64,
    /// Input history.
    pub x1: i64,
    pub x2: i64,
    pub x3: i64,
    /// Output history.
    pub y1: i64,
    pub y2: i64,
    pub y3: i64,
    /// The cutoff frequency in fixed-point hertz; capped at half the
    /// sample rate, never raised from below.
    pub fc: i64,
    /// The resonance; within `[0, FP_ONE]`.
    pub r: i64,
}

/// The parameter invariant every constructor establishes and every
/// setter keeps.
pub open spec fn hp_wf(h: HighPass) -> bool {
    h.fc <= HALF_RATE_FP && 0 <= h.r <= FP_ONE
}

/// The resonance-controlled feedback weight `1 - 2 cos(pi (4 - r) / 6)`,
/// clamped to be non-negative.
pub open spec fn hp_k_spec(r: int) -> int {
    let theta = fp_div_spec(fp_mul_spec(PI_FP as int, sat64(FOUR_FP - r)), SIX_FP as int);
    let co = cos_fp_spec(theta);
    clamp_spec(sat64(FP_ONE - sat64(co + co)), 0, i64::MAX as int)
}

/// The normalized angular cutoff `2 pi fc / rate`, clamped to be
/// non-negative so that the coefficient derivation is well defined for
/// a negative stored cutoff too.
pub open spec fn hp_t_spec(fc: int) -> int {
    clamp_spec(
        fp_div_spec(fp_mul_spec(TWO_PI_FP as int, fc), crate::SAMPLE_RATE_FP as int),
        0,
        i64::MAX as int,
    )
}

/// The normalization term `t^3 + k t^2 + k t + 1`.
pub open spec fn hp_g_spec(fc: int, r: int) -> int {
    let k = hp_k_spec(r);
    let t = hp_t_spec(fc);
    let t2 = fp_mul_spec(t, t);
    let t3 = fp_mul_spec(t2, t);
    sat64(sat64(sat64(t3 + fp_mul_spec(k, t2)) + fp_mul_spec(k, t)) + FP_ONE)
}

/// The seven coefficients derived from the parameters, in the order
/// `a0, a1, a2, a3, b1, b2, b3`.
pub open spec fn hp_coeffs_spec(fc: int, r: int) -> Seq<int> {
    let k = hp_k_spec(r);
    let t = hp_t_spec(fc);
    let t2 = fp_mul_spec(t, t);
    let g = hp_g_spec(fc, r);
    let kt = fp_mul_spec(k, t);
    let kt2 = fp_mul_spec(k, t2);
    seq![
        fp_div_spec(FP_ONE as int, g),
        sat64(-fp_div_spec(THREE_FP as int, g)),
        fp_div_spec(THREE_FP as int, g),
        sat64(-fp_div_spec(FP_ONE as int, g)),
        fp_div_spec(sat64(sat64(kt2 + sat64(kt + kt)) + THREE_FP), g),
        fp_div_spec(sat64(sat64(-kt) - THREE_FP), g),
        fp_div_spec(FP_ONE as int, g),
    ]
}

/// One tick of the filter: the difference equation
/// `y = a0 x + a1 x1 + a2 x2 + a3 x3 + b1 y1 + b2 y2 + b3 y3`, then the
/// history shift.
pub open spec fn hp_step_spec(h: HighPass, x: int) -> (HighPass, int) {
    let y = sat64(
        sat64(
            sat64(
                sat64(
                    sat64(
                        sat64(
                            fp_mul_spec(h.a0 as int, x) + fp_mul_spec(h.a1 as int, h.x1 as int),
                        ) + fp_mul_spec(h.a2 as int, h.x2 as int),
                    ) + fp_mul_spec(h.a3 as int, h.x3 as int),
                ) + fp_mul_spec(h.b1 as int, h.y1 as int),
            ) + fp_mul_spec(h.b2 as int, h.y2 as int),
        ) + fp_mul_spec(h.b3 as int, h.y3 as int),
    );
    (
        HighPass {
            x3: h.x2,
            x2: h.x1,
            x1: x as i64,
            y3: h.y2,
            y2: h.y1,
            y1: y as i64,
            ..h
        },
        y,
    )
}

impl HighPass {
    /// Rederives the coefficients from the current parameters; the
    /// normalization term is at least one, so every division is by a
    /// positive value.
    fn reset(&mut self)
        requires
            hp_wf(*old(self)),
        ensures
            *final(self) == (HighPass {
                a0: hp_coeffs_spec(old(self).fc as int, old(self).r as int)[0] as i64,
                a1: hp_coeffs_spec(old(self).fc as int, old(self).r as int)[1] as i64,
                a2: hp_coeffs_spec(old(self).fc as int, old(self).r as int)[2] as i64,
                a3: hp_coeffs_spec(old(self).fc as int, old(self).r as int)[3] as i64,
                b1: hp_coeffs_spec(old(self).fc as int, old(self).r as int)[4] as i64,
                b2: hp_coeffs_spec(old(self).fc as int, old(self).r as int)[5] as i64,
                b3: hp_coeffs_spec(old(self).fc as int, old(self).r as int)[6] as i64,
                ..*old(self)
            }),
    {
        let theta: i64 = fp_div(fp_mul(PI_FP, sat_sub(FOUR_FP, self.r)), SIX_FP);
        let co: i64 = cos_fp(theta);
        let k: i64 = clamp(sat_sub(FP_ONE, sat_add(co, co)), 0, i64::MAX);
        let t: i64 = clamp(fp_div(fp_mul(TWO_PI_FP, self.fc), crate::SAMPLE_RATE_FP), 0, i64::MAX);
        proof {
            lemma_fp_mul_nonneg(t as int, t as int);
        }
        let t2: i64 = fp_mul(t, t);
        proof {
            lemma_fp_mul_nonneg(t2 as int, t as int);
            lemma_fp_mul_nonneg(k as int, t2 as int);
            lemma_fp_mul_nonneg(k as int, t as int);
        }
        let t3: i64 = fp_mul(t2, t);
        let kt: i64 = fp_mul(k, t);
        let kt2: i64 = fp_mul(k, t2);
        let g: i64 = sat_add(sat_add(sat_add(t3, kt2), kt), FP_ONE);
        self.a0 = fp_div(FP_ONE, g);
        self.a1 = sat_neg(fp_div(THREE_FP, g));
        self.a2 = fp_div(THREE_FP, g);
        self.a3 = sat_neg(fp_div(FP_ONE, g));
        self.b1 = fp_div(sat_add(sat_add(kt2, sat_add(kt, kt)), THREE_FP), g);
        self.b2 = fp_div(sat_sub(sat_neg(kt), THREE_FP), g);
        self.b3 = fp_div(FP_ONE, g);
    }

    /// Builds a filter from a cutoff frequency (capped at half the
    /// sample rate) and a resonance (clamped into `[0, FP_ONE]`).
    pub fn new(fc: i64, r: i64) -> (h: HighPass)
        ensures
            h.fc as int == clamp_spec(fc as int, i64::MIN as int, HALF_RATE_FP as int),
            h.r as int == clamp_spec(r as int, 0, FP_ONE as int),
            Seq::<int>::empty().push(h.a0 as int).push(h.a1 as int).push(h.a2 as int).push(
                h.a3 as int,
            ).push(h.b1 as int).push(h.b2 as int).push(h.b3 as int) == hp_coeffs_spec(
                h.fc as int,
                h.r as int,
            ),
            h.x1 == 0 && h.x2 == 0 && h.x3 == 0 && h.y1 == 0 && h.y2 == 0 && h.y3 == 0,
            hp_wf(h),
    {
        let mut h = HighPass {
            a0: 0,
            a1: 0,
            a2: 0,
            a3: 0,
            b1: 0,
            b2: 0,
            b3: 0,
            x1: 0,
            x2: 0,
            x3: 0,
            y1: 0,
            y2: 0,
            y3: 0,
            fc: clamp(fc, i64::MIN, HALF_RATE_FP),
            r: clamp(r, 0, FP_ONE),
        };
        h.reset();
        assert(Seq::<int>::empty().push(h.a0 as int).push(h.a1 as int).push(h.a2 as int).push(
            h.a3 as int,
        ).push(h.b1 as int).push(h.b2 as int).push(h.b3 as int) =~= hp_coeffs_spec(
            h.fc as int,
            h.r as int,
        ));
        h
    }

    /// The current cutoff frequency.
    pub fn get_central_frequency(&self) -> (r: i64)
        ensures
            r == self.fc,
    {
        self.fc
    }

    /// Replaces the cutoff frequency (capped at half the sample rate)
    /// and rederives the coefficients.
    pub fn set_central_frequency(&mut self, fc: i64)
        requires
            hp_wf(*old(self)),
        ensures
            *final(self) == (HighPass {
                fc: clamp_spec(fc as int, i64::MIN as int, HALF_RATE_FP as int) as i64,
                a0: hp_coeffs_spec(final(self).fc as int, old(self).r as int)[0] as i64,
                a1: hp_coeffs_spec(final(self).fc as int, old(self).r as int)[1] as i64,
                a2: hp_coeffs_spec(final(self).fc as int, old(self).r as int)[2] as i64,
                a3: hp_coeffs_spec(final(self).fc as int, old(self).r as int)[3] as i64,
                b1: hp_coeffs_spec(final(self).fc as int, old(self).r as int)[4] as i64,
                b2: hp_coeffs_spec(final(self).fc as int, old(self).r as int)[5] as i64,
                b3: hp_coeffs_spec(final(self).fc as int, old(self).r as int)[6] as i64,
                ..*old(self)
            }),
            hp_wf(*final(self)),
    {
        self.fc = clamp(fc, i64::MIN, HALF_RATE_FP);
        self.reset();
    }

    /// The current resonance.
    pub fn get_resonance(&self) -> (r: i64)
        ensures
            r == self.r,
    {
        self.r
    }

    /// Replaces the resonance (clamped into `[0, FP_ONE]`) and
    /// rederives the coefficients.
    pub fn set_resonance(&mut self, r: i64)
        requires
            hp_wf(*old(self)),
        ensures
            *final(self) == (HighPass {
                r: clamp_spec(r as int, 0, FP_ONE as int) as i64,
                a0: hp_coeffs_spec(old(self).fc as int, final(self).r as int)[0] as i64,
                a1: hp_coeffs_spec(old(self).fc as int, final(self).r as int)[1] as i64,
                a2: hp_coeffs_spec(old(self).fc as int, final(self).r as int)[2] as i64,
                a3: hp_coeffs_spec(old(self).fc as int, final(self).r as int)[3] as i64,
                b1: hp_coeffs_spec(old(self).fc as int, final(self).r as int)[4] as i64,
                b2: hp_coeffs_spec(old(self).fc as int, final(self).r as int)[5] as i64,
                b3: hp_coeffs_spec(old(self).fc as int, final(self).r as int)[6] as i64,
                ..*old(self)
            }),
            hp_wf(*final(self)),
    {
        self.r = clamp(r, 0, FP_ONE);
        self.reset();
    }

    /// Runs one channel sample through the filter.
    pub fn process(&mut self, x: i64) -> (y: i64)
        ensures
            *final(self) == hp_step_spec(*old(self), x as int).0,
            y as int == hp_step_spec(*old(self), x as int).1,
    {
        let y: i64 = sat_add(
            sat_add(
                sat_add(
                    sat_add(
                        sat_add(
                            sat_add(fp_mul(self.a0, x), fp_mul(self.a1, self.x1)),
                            fp_mul(self.a2, self.x2),
                        ),
                        fp_mul(self.a3, self.x3),
                    ),
                    fp_mul(self.b1, self.y1),
                ),
                fp_mul(self.b2, self.y2),
            ),
            fp_mul(self.b3, self.y3),
        );
        self.x3 = self.x2;
        self.x2 = self.x1;
        self.x1 = x;
        self.y3 = self.y2;
        self.y2 = self.y1;
        self.y1 = y;
        y
    }
}

impl Clone for HighPass {
    /// A clone keeps the coefficients and parameters but starts from
    /// silent history.
    fn clone(&self) -> (h: Self)
        ensures
            h == (HighPass { x1: 0, x2: 0, x3: 0, y1: 0, y2: 0, y3: 0, ..*self }),
    {
        HighPass {
            a0: self.a0,
            a1: self.a1,
            a2: self.a2,
            a3: self.a3,
            b1: self.b1,
            b2: self.b2,
            b3: self.b3,
            x1: 0,
            x2: 0,
            x3: 0,
            y1: 0,
            y2: 0,
            y3: 0,
            fc: self.fc,
            r: self.r,
        }
    }
}

} // verus!
