//! Stereophonic audio samples.
//!
//! A sample holds one fixed-point value per channel and is closed under
//! negation, addition, channel-wise product, and scalar product; all
//! arithmetic is channel-independent and saturating.

use vstd::prelude::*;

verus! {

use crate::fixed::{FP_ONE, sat64, fp_mul_spec, sat_add, sat_sub, sat_neg, fp_mul};

/// The square root of one half, in fixed point.
pub const SQRT_HALF_FP: i64 = 46341;

/// The square root of two, in fixed point.
pub const SQRT_TWO_FP: i64 = 92682;

/// A stereophonic audio sample in the 48.16 fixed-point format.
#[derive(Clone, Copy, PartialEq, Eq, Structural, Debug)]
pub struct StereoData {
    /// Left channel value.
    pub left: i64,
    /// Right channel value.
    pub right: i64,
}

/// The silent sample: zero on both channels.
pub open spec fn silence_spec() -> StereoData {
    StereoData { left: 0, right: 0 }
}

/// Channel-wise saturating sum of two samples.
pub open spec fn st_add_spec(a: StereoData, b: StereoData) -> StereoData {
    StereoData {
        left: sat64(a.left + b.left) as i64,
        right: sat64(a.right + b.right) as i64,
    }
}

/// Channel-wise saturating difference of two samples.
pub open spec fn st_sub_spec(a: StereoData, b: StereoData) -> StereoData {
    StereoData {
        left: sat64(a.left - b.left) as i64,
        right: sat64(a.right - b.right) as i64,
    }
}

/// Channel-wise saturating negation of a sample.
pub open spec fn st_neg_spec(a: StereoData) -> StereoData {
    StereoData {
        left: sat64(-(a.left as int)) as i64,
        right: sat64(-(a.right as int)) as i64,
    }
}

/// Channel-wise fixed-point product of two samples.
pub open spec fn st_mul_spec(a: StereoData, b: StereoData) -> StereoData {
    StereoData {
        left: fp_mul_spec(a.left as int, b.left as int) as i64,
        right: fp_mul_spec(a.right as int, b.right as int) as i64,
    }
}

/// Both channels scaled by one fixed-point factor.
pub open spec fn st_scale_spec(a: StereoData, g: i64) -> StereoData {
    StereoData {
        left: fp_mul_spec(a.left as int, g as int) as i64,
        right: fp_mul_spec(a.right as int, g as int) as i64,
    }
}

impl Default for StereoData {
    /// The default sample is silence.
    fn default() -> (r: Self)
        ensures
            r == silence_spec(),
    {
        StereoData { left: 0, right: 0 }
    }
}

impl StereoData {
    /// Builds a sample from individual left and right channel values.
    pub fn from_stereo(l: i64, r: i64) -> (s: StereoData)
        ensures
            s == (StereoData { left: l, right: r }),
    {
        StereoData { left: l, right: r }
    }

    /// Copies one value onto both channels.
    pub fn single_stereo(x: i64) -> (s: StereoData)
        ensures
            s == (StereoData { left: x, right: x }),
    {
        StereoData { left: x, right: x }
    }

    /// Builds a sample from a monophonic value, halving its power on each
    /// channel (a factor of the square root of one half).
    pub fn from_mono(x: i64) -> (s: StereoData)
        ensures
            s == st_scale_spec(StereoData { left: x, right: x }, SQRT_HALF_FP),
    {
        StereoData { left: fp_mul(x, SQRT_HALF_FP), right: fp_mul(x, SQRT_HALF_FP) }
    }

    /// Folds the sample to a monophonic value: the channel sum, restored
    /// to full power (a factor of the square root of two).
    pub fn as_mono(self) -> (r: i64)
        ensures
            r as int == fp_mul_spec(sat64(self.left + self.right), SQRT_TWO_FP as int),
    {
        fp_mul(sat_add(self.left, self.right), SQRT_TWO_FP)
    }

    /// The silent sample.
    pub fn silence() -> (s: StereoData)
        ensures
            s == silence_spec(),
    {
        StereoData { left: 0, right: 0 }
    }

    /// Channel-wise saturating sum.
    pub fn plus(self, rhs: StereoData) -> (r: StereoData)
        ensures
            r == st_add_spec(self, rhs),
    {
        StereoData { left: sat_add(self.left, rhs.left), right: sat_add(self.right, rhs.right) }
    }

    /// Channel-wise saturating difference.
    pub fn minus(self, rhs: StereoData) -> (r: StereoData)
        ensures
            r == st_sub_spec(self, rhs),
    {
        StereoData { left: sat_sub(self.left, rhs.left), right: sat_sub(self.right, rhs.right) }
    }

    /// Channel-wise saturating negation.
    pub fn negated(self) -> (r: StereoData)
        ensures
            r == st_neg_spec(self),
    {
        StereoData { left: sat_neg(self.left), right: sat_neg(self.right) }
    }

    /// Channel-wise fixed-point product.
    pub fn times(self, rhs: StereoData) -> (r: StereoData)
        ensures
            r == st_mul_spec(self, rhs),
    {
        StereoData { left: fp_mul(self.left, rhs.left), right: fp_mul(self.right, rhs.right) }
    }

    /// Both channels scaled by one fixed-point factor.
    pub fn scaled(self, g: i64) -> (r: StereoData)
        ensures
            r == st_scale_spec(self, g),
    {
        StereoData { left: fp_mul(self.left, g), right: fp_mul(self.right, g) }
    }
}

} // verus!
