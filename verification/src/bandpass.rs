//! A band pass filter: a biquad whose corner frequencies are derived
//! from a central frequency and a quality factor.
//!
//! The coefficient formulas follow the classic analog prototype through
//! the tangent pre-warp; the tangent itself is the clamped rational
//! approximation from [`crate::fixed`].  The quality factor is clamped
//! to be positive, so that every coefficient update is well defined.

use vstd::prelude::*;

verus! {

use crate::fixed::{
    FP_ONE, PI_FP, FOUR_FP, sat64, sat_abs_spec, clamp_spec, fp_mul_spec, fp_div_spec,
    fp_sqrt_spec, tan_fp_spec, sat_add, sat_sub, sat_neg, sat_abs, clamp, fp_mul, fp_div,
    fp_sqrt, tan_fp, lemma_fp_square_nonneg, lemma_fp_mul_nonpos,
};
use crate::stereodata::{StereoData, silence_spec};
use crate::SAMPLE_RATE_FP;

/// The filter: its two user parameters, the derived coefficients, and
/// two ticks of input and output history per channel.
#[derive(Clone, Copy, PartialEq, Eq, Structural, Debug)]
pub struct BandPass {
    /// The central frequency, in fixed-point hertz, stored as given.
    pub central_f: i64,
    /// The quality factor, in fixed point; always positive.
    pub quality: i64,
    /// Derived coefficients.
    pub a0: i64,
    pub b1: i64,
    pub b2: i64,
    /// Input and output history.
    pub x1: StereoData,
    pub x2: StereoData,
    pub y1: StereoData,
    pub y2: StereoData,
}

/// The parameter invariant every constructor establishes and every
/// setter keeps: the quality factor is a divisor and must be positive.
pub open spec fn bp_wf(bp: BandPass) -> bool {
    bp.quality >= 1
}

/// The discriminant of `a x^2 + b x + c` as [`quadratic`] computes it.
pub open spec fn quad_disc_spec(a: int, b: int, c: int) -> int {
    sat64(fp_mul_spec(b, b) - fp_mul_spec(fp_mul_spec(FOUR_FP as int, a), c))
}

/// Both roots of `a x^2 + b x + c` as [`quadratic`] computes them.
pub open spec fn quad_spec(a: int, b: int, c: int) -> (int, int) {
    let sq = fp_sqrt_spec(quad_disc_spec(a, b, c));
    let nb = sat64(-b);
    let den = sat64(a + a);
    (fp_div_spec(sat64(nb + sq), den), fp_div_spec(sat64(nb - sq), den))
}

/// The two roots of the quadratic `a x^2 + b x + c`, larger first.
pub fn quadratic(a: i64, b: i64, c: i64) -> (r: (i64, i64))
    requires
        a >= 1,
        quad_disc_spec(a as int, b as int, c as int) >= 0,
    ensures
        r.0 as int == quad_spec(a as int, b as int, c as int).0,
        r.1 as int == quad_spec(a as int, b as int, c as int).1,
{
    let disc: i64 = sat_sub(fp_mul(b, b), fp_mul(fp_mul(FOUR_FP, a), c));
    let sq: i64 = fp_sqrt(disc);
    let nb: i64 = sat_neg(b);
    let den: i64 = sat_add(a, a);
    (fp_div(sat_add(nb, sq), den), fp_div(sat_sub(nb, sq), den))
}

/// The linear coefficient `-central / quality` of the corner equation.
pub open spec fn bp_b_spec(cf: int, q: int) -> int {
    sat64(-fp_div_spec(cf, q))
}

/// The constant coefficient `-central^2` of the corner equation.
pub open spec fn bp_c_spec(cf: int) -> int {
    sat64(-fp_mul_spec(cf, cf))
}

/// The lower corner frequency: the positive root of the corner
/// equation, or the other root if none is positive.
pub open spec fn bp_fl_spec(cf: int, q: int) -> int {
    let roots = quad_spec(FP_ONE as int, bp_b_spec(cf, q), bp_c_spec(cf));
    if roots.0 > 0 {
        roots.0
    } else {
        roots.1
    }
}

/// The feedback coefficient of one corner's first-order stage, from the
/// pre-warped angle of that corner frequency.
pub open spec fn bp_theta_spec(f: int) -> int {
    tan_fp_spec(fp_div_spec(fp_mul_spec(PI_FP as int, f), SAMPLE_RATE_FP as int))
}

/// The three biquad coefficients derived from the parameters.
pub open spec fn bp_coeffs_spec(cf: int, q: int) -> (int, int, int) {
    let b = bp_b_spec(cf, q);
    let fl = bp_fl_spec(cf, q);
    let fh = sat64(fl + b);
    let th_l = bp_theta_spec(fl);
    let th_h = bp_theta_spec(fh);
    let al = fp_div_spec(FP_ONE as int, sat64(FP_ONE + th_l));
    let ah = fp_div_spec(FP_ONE as int, sat64(FP_ONE + th_h));
    let bl = fp_div_spec(sat64(FP_ONE - th_l), sat64(FP_ONE + th_l));
    let bh = fp_div_spec(sat64(FP_ONE - th_h), sat64(FP_ONE + th_h));
    (fp_mul_spec(sat64(FP_ONE - al), ah), sat64(bl + bh), fp_mul_spec(bl, bh))
}

/// One tick of the filter: the difference equation
/// `y = a0 (x - x2) + b1 y1 - b2 y2` per channel, then the history
/// shift.
pub open spec fn bp_step_spec(bp: BandPass, x: StereoData) -> (BandPass, StereoData) {
    let yl = sat64(
        sat64(
            fp_mul_spec(bp.a0 as int, sat64(x.left - bp.x2.left)) + fp_mul_spec(
                bp.b1 as int,
                bp.y1.left as int,
            ),
        ) - fp_mul_spec(bp.b2 as int, bp.y2.left as int),
    );
    let yr = sat64(
        sat64(
            fp_mul_spec(bp.a0 as int, sat64(x.right - bp.x2.right)) + fp_mul_spec(
                bp.b1 as int,
                bp.y1.right as int,
            ),
        ) - fp_mul_spec(bp.b2 as int, bp.y2.right as int),
    );
    let y = StereoData { left: yl as i64, right: yr as i64 };
    (BandPass { x1: x, x2: bp.x1, y1: y, y2: bp.y1, ..bp }, y)
}

impl BandPass {
    /// Rederives the coefficients from the current parameters.
    fn reset(&mut self)
        requires
            bp_wf(*old(self)),
        ensures
            *final(self) == (BandPass {
                a0: bp_coeffs_spec(old(self).central_f as int, old(self).quality as int).0 as i64,
                b1: bp_coeffs_spec(old(self).central_f as int, old(self).quality as int).1 as i64,
                b2: bp_coeffs_spec(old(self).central_f as int, old(self).quality as int).2 as i64,
                ..*old(self)
            }),
    {
        let b: i64 = sat_neg(fp_div(self.central_f, self.quality));
        proof {
            lemma_fp_square_nonneg(self.central_f as int);
        }
        let c: i64 = sat_neg(fp_mul(self.central_f, self.central_f));
        proof {
            lemma_fp_square_nonneg(b as int);
            lemma_fp_mul_nonpos(262144, c as int);
        }
        let roots: (i64, i64) = quadratic(FP_ONE, b, c);
        let fl: i64 = if roots.0 > 0 {
            roots.0
        } else {
            roots.1
        };
        let fh: i64 = sat_add(fl, b);
        let th_l: i64 = tan_fp(fp_div(fp_mul(PI_FP, fl), SAMPLE_RATE_FP));
        let th_h: i64 = tan_fp(fp_div(fp_mul(PI_FP, fh), SAMPLE_RATE_FP));
        let al: i64 = fp_div(FP_ONE, sat_add(FP_ONE, th_l));
        let ah: i64 = fp_div(FP_ONE, sat_add(FP_ONE, th_h));
        let bl: i64 = fp_div(sat_sub(FP_ONE, th_l), sat_add(FP_ONE, th_l));
        let bh: i64 = fp_div(sat_sub(FP_ONE, th_h), sat_add(FP_ONE, th_h));
        self.a0 = fp_mul(sat_sub(FP_ONE, al), ah);
        self.b1 = sat_add(bl, bh);
        self.b2 = fp_mul(bl, bh);
    }

    /// Builds a filter from a central frequency, stored as given, and
    /// a quality factor, clamped to be positive.
    pub fn new(f: i64, q: i64) -> (bp: BandPass)
        ensures
            bp.central_f == f,
            bp.quality as int == clamp_spec(q as int, 1, i64::MAX as int),
            bp.a0 as int == bp_coeffs_spec(bp.central_f as int, bp.quality as int).0,
            bp.b1 as int == bp_coeffs_spec(bp.central_f as int, bp.quality as int).1,
            bp.b2 as int == bp_coeffs_spec(bp.central_f as int, bp.quality as int).2,
            bp.x1 == silence_spec() && bp.x2 == silence_spec(),
            bp.y1 == silence_spec() && bp.y2 == silence_spec(),
            bp_wf(bp),
    {
        let mut bp = BandPass {
            central_f: f,
            quality: clamp(q, 1, i64::MAX),
            a0: 0,
            b1: 0,
            b2: 0,
            x1: StereoData::silence(),
            x2: StereoData::silence(),
            y1: StereoData::silence(),
            y2: StereoData::silence(),
        };
        bp.reset();
        bp
    }

    /// Builds a filter whose corner frequencies are the given pair: the
    /// central frequency is the geometric mean of their magnitudes and
    /// the quality is that mean over their distance.
    pub fn from_corners(f: (i64, i64)) -> (bp: BandPass)
        ensures
            bp.central_f as int == fp_sqrt_spec(sat_abs_spec(fp_mul_spec(f.0 as int, f.1 as int))),
            bp.quality as int == clamp_spec(
                fp_div_spec(
                    bp.central_f as int,
                    clamp_spec(sat_abs_spec(sat64(f.1 - f.0)), 1, i64::MAX as int),
                ),
                1,
                i64::MAX as int,
            ),
            bp.a0 as int == bp_coeffs_spec(bp.central_f as int, bp.quality as int).0,
            bp.b1 as int == bp_coeffs_spec(bp.central_f as int, bp.quality as int).1,
            bp.b2 as int == bp_coeffs_spec(bp.central_f as int, bp.quality as int).2,
            bp.x1 == silence_spec() && bp.x2 == silence_spec(),
            bp.y1 == silence_spec() && bp.y2 == silence_spec(),
            bp_wf(bp),
    {
        let central: i64 = fp_sqrt(sat_abs(fp_mul(f.0, f.1)));
        let dist: i64 = clamp(sat_abs(sat_sub(f.1, f.0)), 1, i64::MAX);
        let mut bp = BandPass {
            central_f: central,
            quality: clamp(fp_div(central, dist), 1, i64::MAX),
            a0: 0,
            b1: 0,
            b2: 0,
            x1: StereoData::silence(),
            x2: StereoData::silence(),
            y1: StereoData::silence(),
            y2: StereoData::silence(),
        };
        bp.reset();
        bp
    }

    /// The current central frequency.
    pub fn get_central_frequency(&self) -> (r: i64)
        ensures
            r == self.central_f,
    {
        self.central_f
    }

    /// Replaces the central frequency, stored as given, and rederives
    /// the coefficients.
    pub fn set_central_frequency(&mut self, f: i64)
        requires
            bp_wf(*old(self)),
        ensures
            *final(self) == (BandPass {
                central_f: f,
                a0: bp_coeffs_spec(f as int, old(self).quality as int).0 as i64,
                b1: bp_coeffs_spec(f as int, old(self).quality as int).1 as i64,
                b2: bp_coeffs_spec(f as int, old(self).quality as int).2 as i64,
                ..*old(self)
            }),
            bp_wf(*final(self)),
    {
        self.central_f = f;
        self.reset();
    }

    /// The current quality factor.
    pub fn get_quality(&self) -> (r: i64)
        ensures
            r == self.quality,
    {
        self.quality
    }

    /// Replaces the quality factor (clamped to be positive) and
    /// rederives the coefficients.
    pub fn set_quality(&mut self, q: i64)
        requires
            bp_wf(*old(self)),
        ensures
            *final(self) == (BandPass {
                quality: clamp_spec(q as int, 1, i64::MAX as int) as i64,
                a0: bp_coeffs_spec(
                    old(self).central_f as int,
                    clamp_spec(q as int, 1, i64::MAX as int),
                ).0 as i64,
                b1: bp_coeffs_spec(
                    old(self).central_f as int,
                    clamp_spec(q as int, 1, i64::MAX as int),
                ).1 as i64,
                b2: bp_coeffs_spec(
                    old(self).central_f as int,
                    clamp_spec(q as int, 1, i64::MAX as int),
                ).2 as i64,
                ..*old(self)
            }),
            bp_wf(*final(self)),
    {
        self.quality = clamp(q, 1, i64::MAX);
        self.reset();
    }

    /// The corner frequencies `(higher, lower)` solved back out of the
    /// current parameters.
    pub fn get_corner_frequencies(&self) -> (r: (i64, i64))
        requires
            bp_wf(*self),
        ensures
            r.1 as int == bp_fl_spec(self.central_f as int, self.quality as int),
            r.0 as int == sat64(
                bp_fl_spec(self.central_f as int, self.quality as int) + bp_b_spec(
                    self.central_f as int,
                    self.quality as int,
                ),
            ),
    {
        let b: i64 = sat_neg(fp_div(self.central_f, self.quality));
        proof {
            lemma_fp_square_nonneg(self.central_f as int);
        }
        let c: i64 = sat_neg(fp_mul(self.central_f, self.central_f));
        proof {
            lemma_fp_square_nonneg(b as int);
            lemma_fp_mul_nonpos(262144, c as int);
        }
        let roots: (i64, i64) = quadratic(FP_ONE, b, c);
        let fl: i64 = if roots.0 > 0 {
            roots.0
        } else {
            roots.1
        };
        let fh: i64 = sat_add(fl, b);
        (fh, fl)
    }

    /// Replaces both corner frequencies and rederives the parameters
    /// and coefficients.
    pub fn set_corner_frequencies(&mut self, f: (i64, i64))
        ensures
            final(self).central_f as int == fp_sqrt_spec(
                clamp_spec(fp_mul_spec(f.0 as int, f.1 as int), 0, i64::MAX as int),
            ),
            final(self).quality as int == clamp_spec(
                fp_div_spec(
                    final(self).central_f as int,
                    clamp_spec(sat_abs_spec(sat64(f.0 - f.1)), 1, i64::MAX as int),
                ),
                1,
                i64::MAX as int,
            ),
            final(self).a0 as int == bp_coeffs_spec(
                final(self).central_f as int,
                final(self).quality as int,
            ).0,
            final(self).b1 as int == bp_coeffs_spec(
                final(self).central_f as int,
                final(self).quality as int,
            ).1,
            final(self).b2 as int == bp_coeffs_spec(
                final(self).central_f as int,
                final(self).quality as int,
            ).2,
            final(self).x1 == old(self).x1 && final(self).x2 == old(self).x2,
            final(self).y1 == old(self).y1 && final(self).y2 == old(self).y2,
            bp_wf(*final(self)),
    {
        let central: i64 = fp_sqrt(clamp(fp_mul(f.0, f.1), 0, i64::MAX));
        let dist: i64 = clamp(sat_abs(sat_sub(f.0, f.1)), 1, i64::MAX);
        self.central_f = central;
        self.quality = clamp(fp_div(central, dist), 1, i64::MAX);
        self.reset();
    }

    /// Runs one sample through the filter.
    pub fn process(&mut self, x: StereoData) -> (y: StereoData)
        ensures
            *final(self) == bp_step_spec(*old(self), x).0,
            y == bp_step_spec(*old(self), x).1,
    {
        let yl: i64 = sat_sub(
            sat_add(fp_mul(self.a0, sat_sub(x.left, self.x2.left)), fp_mul(self.b1, self.y1.left)),
            fp_mul(self.b2, self.y2.left),
        );
        let yr: i64 = sat_sub(
            sat_add(
                fp_mul(self.a0, sat_sub(x.right, self.x2.right)),
                fp_mul(self.b1, self.y1.right),
            ),
            fp_mul(self.b2, self.y2.right),
        );
        let y = StereoData { left: yl, right: yr };
        self.y2 = self.y1;
        self.y1 = y;
        self.x2 = self.x1;
        self.x1 = x;
        y
    }
}

} // verus!
