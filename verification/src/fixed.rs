//! Saturating signed fixed-point arithmetic with 16 fractional bits.
//!
//! Audio samples and unit parameters are stored as `i64` values scaled by
//! [`FP_ONE`].  Every operation saturates at the `i64` range instead of
//! wrapping or panicking, so a processing graph can never abort on extreme
//! input values.

use vstd::prelude::*;

verus! {

use vstd::arithmetic::div_mod::{lemma_fundamental_div_mod, lemma_fundamental_div_mod_converse};
use vstd::arithmetic::mul::lemma_mul_upper_bound;

/// One, in the fixed-point format: values carry 16 fractional bits.
pub const FP_ONE: i64 = 65536;

/// Clamps a mathematical integer into the `i64` range.
pub open spec fn sat64(x: int) -> int {
    if x > i64::MAX as int {
        i64::MAX as int
    } else if x < i64::MIN as int {
        i64::MIN as int
    } else {
        x
    }
}

/// The saturating fixed-point product: `a * b` rescaled by `FP_ONE`,
/// rounded toward minus infinity, clamped into the `i64` range.
pub open spec fn fp_mul_spec(a: int, b: int) -> int {
    sat64((a * b) / (FP_ONE as int))
}

/// The saturating fixed-point quotient for a positive divisor: `a / b`
/// rescaled by `FP_ONE`, rounded toward minus infinity, clamped into the
/// `i64` range.
pub open spec fn fp_div_spec(a: int, b: int) -> int {
    sat64((a * (FP_ONE as int)) / b)
}

/// Saturating addition.
pub fn sat_add(a: i64, b: i64) -> (r: i64)
    ensures
        r as int == sat64(a + b),
{
    if b >= 0 {
        if a > i64::MAX - b {
            i64::MAX
        } else {
            a + b
        }
    } else {
        if a < i64::MIN - b {
            i64::MIN
        } else {
            a + b
        }
    }
}

/// Saturating subtraction.
pub fn sat_sub(a: i64, b: i64) -> (r: i64)
    ensures
        r as int == sat64(a - b),
{
    if b >= 0 {
        if a < i64::MIN + b {
            i64::MIN
        } else {
            a - b
        }
    } else {
        if a > i64::MAX + b {
            i64::MAX
        } else {
            a - b
        }
    }
}

/// Saturating negation.
pub fn sat_neg(a: i64) -> (r: i64)
    ensures
        r as int == sat64(-(a as int)),
{
    if a == i64::MIN {
        i64::MAX
    } else {
        -a
    }
}

/// The magnitude of an `i64`, as a `u64`.
fn abs_mag(a: i64) -> (m: u64)
    ensures
        m as int == if a >= 0 { a as int } else { -(a as int) },
{
    if a >= 0 {
        a as u64
    } else {
        (-(a as i128)) as u64
    }
}

/// Euclidean division of a negated non-negative value by a positive
/// divisor, expressed through a division of non-negative values.
pub proof fn lemma_div_neg(p: int, d: int)
    requires
        p >= 0,
        d > 0,
    ensures
        (-p) / d == -((p + d - 1) / d),
{
    let k = p / d;
    let s = p % d;
    lemma_fundamental_div_mod(p, d);
    if s == 0 {
        assert((-p) == (-k) * d + 0) by (nonlinear_arith)
            requires p == d * k + s && s == 0;
        lemma_fundamental_div_mod_converse(-p, d, -k, 0);
        assert(p + d - 1 == k * d + (d - 1)) by (nonlinear_arith)
            requires p == d * k + s && s == 0;
        lemma_fundamental_div_mod_converse(p + d - 1, d, k, d - 1);
    } else {
        assert((-p) == (-(k + 1)) * d + (d - s)) by (nonlinear_arith)
            requires p == d * k + s;
        lemma_fundamental_div_mod_converse(-p, d, -(k + 1), d - s);
        assert(p + d - 1 == (k + 1) * d + (s - 1)) by (nonlinear_arith)
            requires p == d * k + s;
        lemma_fundamental_div_mod_converse(p + d - 1, d, k + 1, s - 1);
    }
}

/// The rounded-up quotient of non-negative `m` by positive `d` is
/// bounded by `m`, and negating the dividend negates it.
pub proof fn lemma_ceil_div_bounds(m: int, d: int)
    requires
        m >= 0,
        d >= 1,
    ensures
        0 <= (m + d - 1) / d <= m,
        (-m) / d == -((m + d - 1) / d),
        m >= 1 ==> (m + d - 1) / d >= 1,
{
    if m >= 1 {
        vstd::arithmetic::div_mod::lemma_div_by_self(d);
        vstd::arithmetic::div_mod::lemma_div_is_ordered(d, m + d - 1, d);
    }
    lemma_div_neg(m, d);
    vstd::arithmetic::div_mod::lemma_div_pos_is_pos(m + d - 1, d);
    assert(m + d - 1 <= m * d + (d - 1)) by (nonlinear_arith)
        requires m >= 0 && d >= 1;
    vstd::arithmetic::div_mod::lemma_div_is_ordered(m + d - 1, m * d + d - 1, d);
    lemma_fundamental_div_mod_converse(m * d + d - 1, d, m, d - 1);
}

/// Saturating fixed-point multiplication.
pub fn fp_mul(a: i64, b: i64) -> (r: i64)
    ensures
        r as int == fp_mul_spec(a as int, b as int),
{
    let neg: bool = (a < 0) != (b < 0);
    let ma: u64 = abs_mag(a);
    let mb: u64 = abs_mag(b);
    proof {
        lemma_mul_upper_bound(ma as int, 0x8000000000000000, mb as int, 0x8000000000000000);
    }
    let p: u128 = (ma as u128) * (mb as u128);
    proof {
        assert(a as int * b as int == if neg { -(p as int) } else { p as int })
            by (nonlinear_arith)
            requires
                p == ma as int * mb as int,
                ma as int == if a >= 0 { a as int } else { -(a as int) },
                mb as int == if b >= 0 { b as int } else { -(b as int) },
                neg == ((a < 0) != (b < 0));
    }
    if neg {
        let q: u128 = (p + 65535) / 65536;
        proof {
            lemma_div_neg(p as int, 65536);
        }
        if q >= 9223372036854775808u128 {
            i64::MIN
        } else {
            -(q as i64)
        }
    } else {
        let q: u128 = p / 65536;
        if q > i64::MAX as u128 {
            i64::MAX
        } else {
            q as i64
        }
    }
}

/// Saturating fixed-point division by a positive divisor.
pub fn fp_div(a: i64, b: i64) -> (r: i64)
    requires
        b > 0,
    ensures
        r as int == fp_div_spec(a as int, b as int),
{
    let ma: u64 = abs_mag(a);
    let num: u128 = (ma as u128) * 65536;
    let d: u128 = b as u128;
    if a >= 0 {
        let q: u128 = num / d;
        if q > i64::MAX as u128 {
            i64::MAX
        } else {
            q as i64
        }
    } else {
        let q: u128 = (num + (d - 1)) / d;
        proof {
            lemma_div_neg(num as int, b as int);
        }
        if q >= 9223372036854775808u128 {
            i64::MIN
        } else {
            -(q as i64)
        }
    }
}

/// Pi, pi squared, and five pi squared in the fixed-point format.
pub const PI_FP: i64 = 205887;

pub const HALF_PI_FP: i64 = 102943;

pub const PI_SQ_FP: i64 = 646814;

pub const FIVE_PI_SQ_FP: i64 = 3234073;

/// Two pi in the fixed-point format.
pub const TWO_PI_FP: i64 = 411774;

/// Three and six in the fixed-point format.
pub const THREE_FP: i64 = 196608;

pub const SIX_FP: i64 = 393216;

/// Four and sixteen in the fixed-point format.
pub const FOUR_FP: i64 = 262144;

pub const SIXTEEN_FP: i64 = 1048576;

/// The largest value the tangent approximation reports before it treats
/// the angle as a right angle.
pub const TAN_MAX_FP: i64 = 4294967296;

/// The floor of the square root of a natural number.
pub open spec fn sqrt_floor(x: nat) -> nat
    decreases x,
{
    if x == 0 {
        0
    } else {
        let r = sqrt_floor((x - 1) as nat);
        if (r + 1) * (r + 1) <= x {
            r + 1
        } else {
            r
        }
    }
}

pub proof fn lemma_sqrt_floor_bounds(x: nat)
    ensures
        sqrt_floor(x) * sqrt_floor(x) <= x,
        x < (sqrt_floor(x) + 1) * (sqrt_floor(x) + 1),
    decreases x,
{
    if x == 0 {
        assert(sqrt_floor(x) == 0);
        assert((sqrt_floor(x) + 1) * (sqrt_floor(x) + 1) == 1) by (nonlinear_arith)
            requires sqrt_floor(x) == 0;
    } else {
        lemma_sqrt_floor_bounds((x - 1) as nat);
        let r = sqrt_floor((x - 1) as nat);
        assert(r * r <= x - 1);
        assert(x - 1 < (r + 1) * (r + 1));
        if (r + 1) * (r + 1) <= x {
            assert(sqrt_floor(x) == r + 1);
            assert(x == (r + 1) * (r + 1));
            assert((r + 1) * (r + 1) < (r + 2) * (r + 2)) by (nonlinear_arith);
            assert(((r + 1) + 1) * ((r + 1) + 1) == (r + 2) * (r + 2)) by (nonlinear_arith);
            assert(x < (sqrt_floor(x) + 1) * (sqrt_floor(x) + 1));
        } else {
            assert(sqrt_floor(x) == r);
            assert(x < (r + 1) * (r + 1));
            assert(x < (sqrt_floor(x) + 1) * (sqrt_floor(x) + 1));
        }
    }
}

proof fn lemma_sqrt_unique(x: nat, r: nat)
    requires
        r * r <= x,
        x < (r + 1) * (r + 1),
    ensures
        r == sqrt_floor(x),
{
    lemma_sqrt_floor_bounds(x);
    let s = sqrt_floor(x);
    if r < s {
        assert((r + 1) * (r + 1) <= s * s) by (nonlinear_arith)
            requires r + 1 <= s;
    } else if s < r {
        assert((s + 1) * (s + 1) <= r * r) by (nonlinear_arith)
            requires s + 1 <= r;
    }
}

/// Binary search for the floor of the square root.
pub fn isqrt(x: u128) -> (r: u64)
    ensures
        r as nat == sqrt_floor(x as nat),
{
    let mut lo: u64 = 0;
    let mut hi: u64 = u64::MAX;
    proof {
        assert((hi as int + 1) * (hi as int + 1) > x as int) by (nonlinear_arith)
            requires hi as int + 1 == 0x10000000000000000 && x as int <= u128::MAX as int;
    }
    while lo < hi
        invariant
            lo <= hi,
            (lo as int) * (lo as int) <= x as int,
            (hi as int + 1) * (hi as int + 1) > x as int,
        decreases hi - lo,
    {
        let mid: u64 = lo + (hi - lo) / 2 + 1;
        proof {
            lemma_mul_upper_bound(mid as int, u64::MAX as int, mid as int, u64::MAX as int);
        }
        let m2: u128 = (mid as u128) * (mid as u128);
        if m2 <= x {
            lo = mid;
        } else {
            hi = mid - 1;
        }
    }
    proof {
        lemma_sqrt_unique(x as nat, lo as nat);
    }
    lo
}

/// The square root of a non-negative fixed-point value, in fixed point.
pub open spec fn fp_sqrt_spec(v: int) -> int {
    sqrt_floor((v * (FP_ONE as int)) as nat) as int
}

pub fn fp_sqrt(v: i64) -> (r: i64)
    requires
        v >= 0,
    ensures
        r as int == fp_sqrt_spec(v as int),
        r >= 0,
{
    let x: u128 = (v as u128) * 65536;
    let root: u64 = isqrt(x);
    proof {
        lemma_sqrt_floor_bounds(x as nat);
        let xi = x as int;
        let ri = root as int;
        assert(xi < (0x8000000000000000int) * (0x10000int));
        assert(ri <= 0x100000000000) by (nonlinear_arith)
            requires ri * ri <= xi && xi < (0x8000000000000000int) * (0x10000int) && ri >= 0;
    }
    root as i64
}

/// The saturating absolute value.
pub open spec fn sat_abs_spec(a: int) -> int {
    if a < 0 {
        sat64(-a)
    } else {
        a
    }
}

pub fn sat_abs(a: i64) -> (r: i64)
    ensures
        r as int == sat_abs_spec(a as int),
{
    if a < 0 {
        sat_neg(a)
    } else {
        a
    }
}

/// Clamps a value into a closed interval.
pub open spec fn clamp_spec(x: int, lo: int, hi: int) -> int {
    if x < lo {
        lo
    } else if x > hi {
        hi
    } else {
        x
    }
}

pub fn clamp(x: i64, lo: i64, hi: i64) -> (r: i64)
    requires
        lo <= hi,
    ensures
        r as int == clamp_spec(x as int, lo as int, hi as int),
{
    if x < lo {
        lo
    } else if x > hi {
        hi
    } else {
        x
    }
}

pub proof fn lemma_fp_mul_nonneg(a: int, b: int)
    requires
        a >= 0,
        b >= 0,
    ensures
        fp_mul_spec(a, b) >= 0,
{
    assert(a * b >= 0) by (nonlinear_arith)
        requires a >= 0 && b >= 0;
    vstd::arithmetic::div_mod::lemma_div_pos_is_pos(a * b, 65536);
}

pub proof fn lemma_fp_mul_nonpos(a: int, b: int)
    requires
        a >= 0,
        b <= 0,
    ensures
        fp_mul_spec(a, b) <= 0,
{
    assert(a * b <= 0) by (nonlinear_arith)
        requires a >= 0 && b <= 0;
    vstd::arithmetic::div_mod::lemma_div_of0(65536);
    vstd::arithmetic::div_mod::lemma_div_is_ordered(a * b, 0, 65536);
}

pub proof fn lemma_fp_square_nonneg(a: int)
    ensures
        fp_mul_spec(a, a) >= 0,
{
    assert(a * a >= 0) by (nonlinear_arith);
    vstd::arithmetic::div_mod::lemma_div_pos_is_pos(a * a, 65536);
}

/// A rational approximation of the cosine on `[0, pi/2]`, clamped into
/// `[0, FP_ONE]`: `(pi^2 - 4 x^2) / (pi^2 + x^2)`.
pub open spec fn cos_half_spec(x: int) -> int {
    let x2 = fp_mul_spec(x, x);
    let num = sat64(PI_SQ_FP - fp_mul_spec(x2, FOUR_FP as int));
    let den = sat64(PI_SQ_FP + x2);
    clamp_spec(fp_div_spec(num, den), 0, FP_ONE as int)
}

/// The cosine approximation on `[0, pi]`; arguments outside the interval
/// are clamped to it.
pub open spec fn cos_fp_spec(x: int) -> int {
    let c = clamp_spec(x, 0, PI_FP as int);
    if c <= HALF_PI_FP as int {
        cos_half_spec(c)
    } else {
        sat64(-cos_half_spec((PI_FP - c) as int))
    }
}

fn cos_half(x: i64) -> (r: i64)
    requires
        0 <= x <= HALF_PI_FP,
    ensures
        r as int == cos_half_spec(x as int),
        0 <= r <= FP_ONE,
{
    let x2: i64 = fp_mul(x, x);
    proof {
        lemma_fp_square_nonneg(x as int);
        lemma_fp_mul_nonneg(x2 as int, FOUR_FP as int);
    }
    let num: i64 = sat_sub(PI_SQ_FP, fp_mul(x2, FOUR_FP));
    let den: i64 = sat_add(PI_SQ_FP, x2);
    clamp(fp_div(num, den), 0, FP_ONE)
}

/// The cosine of a fixed-point angle, clamped as [`cos_fp_spec`] states.
pub fn cos_fp(x: i64) -> (r: i64)
    ensures
        r as int == cos_fp_spec(x as int),
        -FP_ONE <= r <= FP_ONE,
{
    let c: i64 = clamp(x, 0, PI_FP);
    if c <= HALF_PI_FP {
        cos_half(c)
    } else {
        sat_neg(cos_half(PI_FP - c))
    }
}

/// A rational approximation of the sine on `[0, pi/2]`, clamped into
/// `[0, FP_ONE]`: `16 x (pi - x) / (5 pi^2 - 4 x (pi - x))`.
pub open spec fn sin_half_spec(x: int) -> int {
    let t = fp_mul_spec(x, sat64(PI_FP - x));
    let num = fp_mul_spec(t, SIXTEEN_FP as int);
    let den = clamp_spec(sat64(FIVE_PI_SQ_FP - fp_mul_spec(t, FOUR_FP as int)), 1, i64::MAX as int);
    clamp_spec(fp_div_spec(num, den), 0, FP_ONE as int)
}

fn sin_half(x: i64) -> (r: i64)
    requires
        0 <= x <= HALF_PI_FP,
    ensures
        r as int == sin_half_spec(x as int),
        0 <= r <= FP_ONE,
{
    let t: i64 = fp_mul(x, sat_sub(PI_FP, x));
    let num: i64 = fp_mul(t, SIXTEEN_FP);
    let den: i64 = clamp(sat_sub(FIVE_PI_SQ_FP, fp_mul(t, FOUR_FP)), 1, i64::MAX);
    clamp(fp_div(num, den), 0, FP_ONE)
}

/// The tangent approximation on `[0, pi/2]`, clamped into
/// `[0, TAN_MAX_FP]`; arguments outside the interval are clamped to it.
pub open spec fn tan_fp_spec(x: int) -> int {
    let c = clamp_spec(x, 0, HALF_PI_FP as int);
    let s = sin_half_spec(c);
    let co = cos_half_spec(c);
    if co <= 0 {
        TAN_MAX_FP as int
    } else {
        clamp_spec(fp_div_spec(s, co), 0, TAN_MAX_FP as int)
    }
}

/// The tangent of a fixed-point angle, as [`tan_fp_spec`] states.
pub fn tan_fp(x: i64) -> (r: i64)
    ensures
        r as int == tan_fp_spec(x as int),
        0 <= r <= TAN_MAX_FP,
{
    let c: i64 = clamp(x, 0, HALF_PI_FP);
    let s: i64 = sin_half(c);
    let co: i64 = cos_half(c);
    if co <= 0 {
        TAN_MAX_FP
    } else {
        clamp(fp_div(s, co), 0, TAN_MAX_FP)
    }
}

} // verus!
