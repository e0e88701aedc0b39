use synthgraph::adsr::{ADSR, ADSRState};
use synthgraph::bandpass::BandPass;
use synthgraph::fixed::{FP_ONE, fp_div, fp_mul, fp_sqrt, isqrt, sat_add, sat_neg, sat_sub};
use synthgraph::generators::{FreqMod, Generator, GeneratorUnit, Square};
use synthgraph::highpass::HighPass;
use synthgraph::stereodata::StereoData;

#[test]
fn fixed_point_products_are_exact() {
    assert_eq!(fp_mul(FP_ONE, FP_ONE), FP_ONE);
    assert_eq!(fp_mul(3 * FP_ONE, 2 * FP_ONE), 6 * FP_ONE);
    assert_eq!(fp_mul(-FP_ONE, FP_ONE), -FP_ONE);
    assert_eq!(fp_mul(-FP_ONE, -2 * FP_ONE), 2 * FP_ONE);
    assert_eq!(fp_mul(FP_ONE / 2, FP_ONE / 2), FP_ONE / 4);
}

#[test]
fn fixed_point_saturation_clamps() {
    assert_eq!(sat_add(i64::MAX, 1), i64::MAX);
    assert_eq!(sat_add(i64::MIN, -1), i64::MIN);
    assert_eq!(sat_sub(i64::MIN, 1), i64::MIN);
    assert_eq!(sat_neg(i64::MIN), i64::MAX);
    assert_eq!(fp_mul(i64::MAX, i64::MAX), i64::MAX);
    assert_eq!(fp_mul(i64::MAX, i64::MIN), i64::MIN);
}

#[test]
fn fixed_point_division_and_roots() {
    assert_eq!(fp_div(FP_ONE, 2 * FP_ONE), FP_ONE / 2);
    assert_eq!(fp_div(-FP_ONE, 2 * FP_ONE), -FP_ONE / 2);
    assert_eq!(fp_div(6 * FP_ONE, 3 * FP_ONE), 2 * FP_ONE);
    assert_eq!(isqrt(16), 4);
    assert_eq!(isqrt(17), 4);
    assert_eq!(isqrt(0), 0);
    assert_eq!(fp_sqrt(4 * FP_ONE), 2 * FP_ONE);
    assert_eq!(fp_sqrt(0), 0);
}

#[test]
fn stereo_algebra_is_channel_wise() {
    let a = StereoData::from_stereo(FP_ONE, -FP_ONE);
    let b = StereoData::from_stereo(FP_ONE, FP_ONE);
    assert_eq!(a.plus(b), StereoData::from_stereo(2 * FP_ONE, 0));
    assert_eq!(a.minus(b), StereoData::from_stereo(0, -2 * FP_ONE));
    assert_eq!(a.negated(), StereoData::from_stereo(-FP_ONE, FP_ONE));
    assert_eq!(a.times(b), StereoData::from_stereo(FP_ONE, -FP_ONE));
    assert_eq!(a.scaled(2 * FP_ONE), StereoData::from_stereo(2 * FP_ONE, -2 * FP_ONE));
}

#[test]
fn mono_conversions_scale_power() {
    let half_power = StereoData::from_mono(FP_ONE);
    assert_eq!(half_power, StereoData::from_stereo(46341, 46341));
    assert_eq!(StereoData::single_stereo(FP_ONE).as_mono(), 185364);
    assert_eq!(StereoData::silence(), StereoData::from_stereo(0, 0));
}

#[test]
fn adsr_ramps_through_its_phases() {
    let mut env = ADSR::new(4, 4, FP_ONE / 2, 4);
    assert_eq!(env.a, FP_ONE / 4);
    assert_eq!(env.d, -(FP_ONE / 8));
    assert_eq!(env.s, FP_ONE / 2);
    assert_eq!(env.r, -(FP_ONE / 8));
    let x = StereoData::single_stereo(FP_ONE);
    // attack: gain climbs by a quarter per tick and caps at one
    assert_eq!(env.process(x), StereoData::single_stereo(FP_ONE / 4));
    assert_eq!(env.process(x), StereoData::single_stereo(FP_ONE / 2));
    assert_eq!(env.process(x), StereoData::single_stereo(3 * (FP_ONE / 4)));
    assert_eq!(env.process(x), StereoData::single_stereo(FP_ONE));
    assert!(matches!(env.state, ADSRState::Decay));
    // decay: down by an eighth per tick to the sustain level
    assert_eq!(env.process(x), StereoData::single_stereo(7 * (FP_ONE / 8)));
    assert_eq!(env.process(x), StereoData::single_stereo(3 * (FP_ONE / 4)));
    assert_eq!(env.process(x), StereoData::single_stereo(5 * (FP_ONE / 8)));
    assert_eq!(env.process(x), StereoData::single_stereo(FP_ONE / 2));
    assert!(matches!(env.state, ADSRState::Sustain));
    // sustain holds
    assert_eq!(env.process(x), StereoData::single_stereo(FP_ONE / 2));
    assert_eq!(env.process(x), StereoData::single_stereo(FP_ONE / 2));
    // release ramps to silence and stops
    env.release();
    assert_eq!(env.process(x), StereoData::single_stereo(3 * (FP_ONE / 8)));
    assert_eq!(env.process(x), StereoData::single_stereo(FP_ONE / 4));
    assert_eq!(env.process(x), StereoData::single_stereo(FP_ONE / 8));
    assert_eq!(env.process(x), StereoData::silence());
    assert!(matches!(env.state, ADSRState::Stopped));
    assert_eq!(env.process(x), StereoData::silence());
}

#[test]
fn adsr_sustain_level_is_clamped() {
    let env = ADSR::new(1, 1, 5 * FP_ONE, 1);
    assert_eq!(env.s, FP_ONE);
    let env2 = ADSR::new(1, 1, -FP_ONE, 1);
    assert_eq!(env2.s, 0);
}

#[test]
fn adsr_long_attack_still_climbs() {
    // an attack longer than one gain unit per tick still moves: the
    // increment rounds up, never down to zero
    let env = ADSR::new(1000000, 1, FP_ONE, 1);
    assert_eq!(env.a, 1);
    let exact = ADSR::new(65536, 1, FP_ONE, 1);
    assert_eq!(exact.a, 1);
    let fast = ADSR::new(3, 1, FP_ONE, 1);
    assert_eq!(fast.a, 21846);
}

#[test]
fn adsr_release_from_zero_sustain_still_falls() {
    // with a sustain level of zero the release still steps downwards,
    // so a release begun during the attack reaches silence
    let mut env = ADSR::new(4, 1, 0, 8);
    assert_eq!(env.r, -1);
    let x = StereoData::single_stereo(FP_ONE);
    env.process(x);
    assert_eq!(env.g, FP_ONE / 4);
    env.release();
    for _ in 0..(FP_ONE / 4) {
        env.process(x);
    }
    assert!(matches!(env.state, ADSRState::Stopped));
    assert_eq!(env.process(x), StereoData::silence());
}

#[test]
fn square_oscillator_is_periodic() {
    // one cycle per eight ticks
    let mut osc = Square::with_frequency(3145728000 / 8);
    assert_eq!(osc.period, 8);
    assert_eq!(osc.get_frequency(), 3145728000 / 8);
    let mut seen = Vec::new();
    for _ in 0..16 {
        seen.push(osc.process().left);
    }
    let hi = FP_ONE;
    let lo = -FP_ONE;
    assert_eq!(seen, vec![hi, hi, hi, hi, lo, lo, lo, lo, hi, hi, hi, hi, lo, lo, lo, lo]);
}

#[test]
fn square_retune_restarts_the_cycle() {
    let mut osc = Square::with_frequency(3145728000 / 4);
    osc.process();
    osc.set_frequency(3145728000 / 2);
    assert_eq!(osc.period, 2);
    assert_eq!(osc.pos, 0);
}

#[test]
fn generator_units_render_their_samples() {
    let mut empty = GeneratorUnit::Empty;
    assert_eq!(empty.step(), StereoData::silence());
    let c = StereoData::from_stereo(7, -7);
    let mut constant = GeneratorUnit::Constant(c);
    assert_eq!(constant.step(), c);
    assert_eq!(constant.step(), c);
}

#[test]
fn band_pass_parameters_round_trip() {
    let mut bp = BandPass::new(440 * FP_ONE, 2 * FP_ONE);
    assert_eq!(bp.get_central_frequency(), 440 * FP_ONE);
    assert_eq!(bp.get_quality(), 2 * FP_ONE);
    bp.set_central_frequency(880 * FP_ONE);
    assert_eq!(bp.get_central_frequency(), 880 * FP_ONE);
    bp.set_quality(FP_ONE);
    assert_eq!(bp.get_quality(), FP_ONE);
    // the frequency is stored as given; a non-positive quality is
    // clamped, since it divides the corner equation
    let odd = BandPass::new(-FP_ONE, 0);
    assert_eq!(odd.get_central_frequency(), -FP_ONE);
    assert_eq!(odd.get_quality(), 1);
}

#[test]
fn band_pass_from_corners_takes_the_geometric_mean() {
    let bp = BandPass::from_corners((FP_ONE, 4 * FP_ONE));
    assert_eq!(bp.get_central_frequency(), 2 * FP_ONE);
    assert_eq!(bp.get_quality(), 43690);
}

#[test]
fn band_pass_is_quiet_on_silence() {
    let mut bp = BandPass::new(440 * FP_ONE, 2 * FP_ONE);
    for _ in 0..8 {
        assert_eq!(bp.process(StereoData::silence()), StereoData::silence());
    }
}

#[test]
fn high_pass_clamps_its_parameters() {
    let hp = HighPass::new(i64::MAX, 3 * FP_ONE);
    assert_eq!(hp.get_central_frequency(), 1572864000);
    assert_eq!(hp.get_resonance(), FP_ONE);
    // the cutoff is only capped from above: a negative value is stored
    // as given, and the coefficient derivation treats it as zero
    let hp2 = HighPass::new(-5 * FP_ONE, -5);
    assert_eq!(hp2.get_central_frequency(), -5 * FP_ONE);
    assert_eq!(hp2.get_resonance(), 0);
    let zero = HighPass::new(0, 0);
    assert_eq!(hp2.a0, zero.a0);
    assert_eq!(hp2.b1, zero.b1);
}

#[test]
fn band_pass_coefficients_at_zero_frequency() {
    // with both corner roots at zero the pre-warped angles vanish:
    // a0 = (1 - 1) * 1 = 0, b1 = 1 + 1, b2 = 1 * 1
    let bp = BandPass::new(0, FP_ONE);
    assert_eq!(bp.a0, 0);
    assert_eq!(bp.b1, 2 * FP_ONE);
    assert_eq!(bp.b2, FP_ONE);
}

#[test]
fn high_pass_coefficients_at_zero_cutoff() {
    // with t = 0 the normalization term is one, so the coefficients
    // are the raw prototype values
    let hp = HighPass::new(0, 0);
    assert_eq!(hp.a0, FP_ONE);
    assert_eq!(hp.a1, -3 * FP_ONE);
    assert_eq!(hp.a2, 3 * FP_ONE);
    assert_eq!(hp.a3, -FP_ONE);
    assert_eq!(hp.b1, 3 * FP_ONE);
    assert_eq!(hp.b2, -3 * FP_ONE);
    assert_eq!(hp.b3, FP_ONE);
}

#[test]
fn high_pass_is_quiet_on_silence() {
    let mut hp = HighPass::new(1000 * FP_ONE, FP_ONE / 2);
    for _ in 0..8 {
        assert_eq!(hp.process(0), 0);
    }
}

#[test]
fn high_pass_clone_keeps_coefficients_but_clears_history() {
    let mut hp = HighPass::new(1000 * FP_ONE, FP_ONE / 2);
    hp.process(FP_ONE);
    hp.process(-FP_ONE);
    assert_ne!(hp.x1, 0);
    let copy = hp.clone();
    assert_eq!(copy.a0, hp.a0);
    assert_eq!(copy.b1, hp.b1);
    assert_eq!(copy.fc, hp.fc);
    assert_eq!(copy.r, hp.r);
    assert_eq!(copy.x1, 0);
    assert_eq!(copy.y1, 0);
    assert_eq!(copy.y3, 0);
}
