use synthgraph::block::{Block, Interactor, ModifierUnit};
use synthgraph::driver::Driver;
use synthgraph::fixed::FP_ONE;
use synthgraph::generators::{GeneratorUnit, Square};
use synthgraph::sound::ComplexSound;
use synthgraph::stereodata::StereoData;

fn constant_source(value: i64) -> Block {
    Block::from_generator(GeneratorUnit::Constant(StereoData::single_stereo(value)))
}

#[test]
fn blocks_accumulate_and_reset_their_input() {
    let mut b = Block::from_modifier(ModifierUnit::Empty);
    b.prime_input(StereoData::single_stereo(FP_ONE));
    b.prime_input(StereoData::single_stereo(FP_ONE));
    // the accumulated fan-in is consumed in one tick
    assert_eq!(b.process(), StereoData::single_stereo(2 * FP_ONE));
    // and the accumulator is silent again afterwards
    assert_eq!(b.process(), StereoData::silence());
}

#[test]
fn block_interactors_merge_both_slots() {
    let g = GeneratorUnit::Constant(StereoData::single_stereo(2 * FP_ONE));
    let mut product = Block::new(g, ModifierUnit::Empty, Block::default_interactor());
    product.prime_input(StereoData::single_stereo(3 * FP_ONE));
    assert_eq!(product.process(), StereoData::single_stereo(6 * FP_ONE));
    let mut from_gen = Block::new(g, ModifierUnit::Empty, Block::generator_passthrough());
    from_gen.prime_input(StereoData::single_stereo(3 * FP_ONE));
    assert_eq!(from_gen.process(), StereoData::single_stereo(2 * FP_ONE));
    let mut from_mod = Block::new(g, ModifierUnit::Empty, Block::modifier_passthrough());
    from_mod.prime_input(StereoData::single_stereo(3 * FP_ONE));
    assert_eq!(from_mod.process(), StereoData::single_stereo(3 * FP_ONE));
    assert!(matches!(Block::default_interactor(), Interactor::Multiply));
}

#[test]
fn fan_in_contributions_sum() {
    let mut s = ComplexSound::new(FP_ONE, FP_ONE);
    let a = s.add_block(constant_source(FP_ONE));
    let b = s.add_block(constant_source(FP_ONE));
    let c = s.add_block(Block::from_modifier(ModifierUnit::Empty));
    let og = s.get_output_gain();
    s.add_connection(a, c);
    s.add_connection(b, c);
    s.add_connection(c, og);
    let out = s.process(StereoData::silence());
    // both unit sources land in one accumulator: the sum, not a single
    // contributor
    assert_eq!(out, StereoData::single_stereo(2 * FP_ONE));
}

#[test]
fn square_source_passes_through_unmodified() {
    let mut s = ComplexSound::new(FP_ONE, FP_ONE);
    let src = s.add_block(Block::from_generator(GeneratorUnit::Square(
        Square::with_frequency(3145728000 / 8),
    )));
    let ig = s.get_input_gain();
    let og = s.get_output_gain();
    s.add_connection(ig, src);
    s.add_connection(src, og);
    let mut seen = Vec::new();
    for _ in 0..16 {
        seen.push(s.process(StereoData::silence()).left);
    }
    // one full cycle of the oscillator's own output, twice
    let hi = FP_ONE;
    let lo = -FP_ONE;
    assert_eq!(seen, vec![hi, hi, hi, hi, lo, lo, lo, lo, hi, hi, hi, hi, lo, lo, lo, lo]);
}

#[test]
fn evaluation_order_keeps_sentinels_at_the_ends() {
    let mut s = ComplexSound::new(FP_ONE, FP_ONE);
    let a = s.add_block(constant_source(FP_ONE));
    let b = s.add_block(constant_source(FP_ONE));
    let c = s.add_block(Block::from_modifier(ModifierUnit::Empty));
    s.add_connection(a, c);
    s.add_connection(b, c);
    s.add_connection(c, 1);
    let order = s.get_process_order().clone();
    assert_eq!(order.first(), Some(&0));
    assert_eq!(order.last(), Some(&1));
    // each reachable node exactly once
    assert_eq!(order, vec![0, 2, 3, 4, 1]);
}

#[test]
fn recomputation_is_deterministic() {
    // the evaluation order is a function of the topology alone
    let mut first = ComplexSound::new(FP_ONE, FP_ONE);
    let mut second = ComplexSound::new(FP_ONE, FP_ONE);
    for s in [&mut first, &mut second] {
        let a = s.add_block(constant_source(FP_ONE));
        let b = s.add_block(constant_source(2 * FP_ONE));
        let c = s.add_block(Block::from_modifier(ModifierUnit::Empty));
        s.add_connection(a, c);
        s.add_connection(b, c);
        s.add_connection(c, 1);
        s.add_connection(0, a);
    }
    assert_eq!(first.get_process_order(), second.get_process_order());
}

#[test]
fn connecting_twice_changes_nothing() {
    let mut s = ComplexSound::new(FP_ONE, FP_ONE);
    let a = s.add_block(constant_source(FP_ONE));
    s.add_connection(a, 1);
    let once = s.get_process_order().clone();
    s.add_connection(a, 1);
    assert_eq!(*s.get_process_order(), once);
    let out_twice = s.process(StereoData::silence());
    assert_eq!(out_twice, StereoData::single_stereo(FP_ONE));
}

#[test]
fn disconnecting_removes_the_route() {
    let mut s = ComplexSound::new(FP_ONE, FP_ONE);
    let a = s.add_block(constant_source(FP_ONE));
    s.add_connection(a, 1);
    assert_eq!(s.process(StereoData::silence()), StereoData::single_stereo(FP_ONE));
    s.remove_connection(a, 1);
    // the source is still a root and still runs, but nothing reaches
    // the output any more
    assert_eq!(*s.get_process_order(), vec![0, a, 1]);
    assert_eq!(s.process(StereoData::silence()), StereoData::silence());
    // removing an absent edge is a silent no-op
    s.remove_connection(a, 1);
    assert_eq!(*s.get_process_order(), vec![0, a, 1]);
}

#[test]
fn self_loop_node_is_never_scheduled() {
    let mut s = ComplexSound::new(FP_ONE, FP_ONE);
    let d = s.add_block(constant_source(7 * FP_ONE));
    s.add_connection(d, d);
    // no path from a zero-in-degree node reaches it: it is dead, not an
    // error
    assert_eq!(*s.get_process_order(), vec![0, 1]);
    assert!(!s.get_process_order().contains(&d));
    assert_eq!(s.process(StereoData::single_stereo(FP_ONE)), StereoData::silence());
}

#[test]
fn queued_duplicates_can_shadow_a_deep_branch() {
    // The duplicate-removal pass only inspects the already-scanned
    // prefix, so on a diamond with two roots a queued copy of a node
    // can be dropped before its successors were appended: the branch
    // behind it is silently left out of the order.  This mirrors the
    // deliberate non-strictness of the recomputation pass.
    let mut s = ComplexSound::new(FP_ONE, FP_ONE);
    let r1 = s.add_block(constant_source(FP_ONE));
    let r2 = s.add_block(constant_source(FP_ONE));
    let x = s.add_block(Block::from_modifier(ModifierUnit::Empty));
    let z = s.add_block(Block::from_modifier(ModifierUnit::Empty));
    let w = s.add_block(Block::from_modifier(ModifierUnit::Empty));
    let q = s.add_block(Block::from_modifier(ModifierUnit::Empty));
    s.add_connection(r1, x);
    s.add_connection(r2, x);
    s.add_connection(x, z);
    s.add_connection(x, w);
    s.add_connection(z, q);
    assert_eq!(*s.get_process_order(), vec![0, r1, r2, x, z, w, 1]);
    assert!(!s.get_process_order().contains(&q));
}

#[test]
fn pause_freezes_state_and_returns_silence() {
    let mut paused = ComplexSound::new(FP_ONE, FP_ONE);
    let mut twin = ComplexSound::new(FP_ONE, FP_ONE);
    for s in [&mut paused, &mut twin] {
        let src = s.add_block(Block::from_generator(GeneratorUnit::Square(
            Square::with_frequency(3145728000 / 4),
        )));
        s.add_connection(src, 1);
    }
    paused.toggle_pause();
    assert!(paused.is_paused());
    for _ in 0..3 {
        assert_eq!(paused.process(StereoData::silence()), StereoData::silence());
    }
    paused.toggle_pause();
    // nothing advanced while paused: both sounds now play the same
    // samples from the start of the cycle
    for _ in 0..8 {
        assert_eq!(paused.process(StereoData::silence()), twin.process(StereoData::silence()));
    }
}

#[test]
fn mute_silences_but_state_advances() {
    let mut muted = ComplexSound::new(FP_ONE, FP_ONE);
    let mut twin = ComplexSound::new(FP_ONE, FP_ONE);
    for s in [&mut muted, &mut twin] {
        let src = s.add_block(Block::from_generator(GeneratorUnit::Square(
            Square::with_frequency(3145728000 / 4),
        )));
        s.add_connection(src, 1);
    }
    muted.toggle_mute();
    assert!(muted.is_muted());
    for _ in 0..3 {
        assert_eq!(muted.process(StereoData::silence()), StereoData::silence());
        twin.process(StereoData::silence());
    }
    muted.toggle_mute();
    // the internal state kept advancing: un-muting resumes exactly where
    // the un-muted twin is
    for _ in 0..8 {
        assert_eq!(muted.process(StereoData::silence()), twin.process(StereoData::silence()));
    }
}

#[test]
fn second_registration_wins() {
    let mut d1 = Driver::new(1);
    let mut d2 = Driver::new(2);
    let mut s = ComplexSound::new(FP_ONE, FP_ONE);
    s.register(&mut d1, None);
    assert_eq!(s.driver_tag, Some(1));
    assert_eq!(s.id, Some(0));
    assert_eq!(d1.active, vec![0]);
    // registering with a second driver first releases the first
    // driver's id: exactly one registration remains
    s.register(&mut d2, Some(&mut d1));
    assert_eq!(s.driver_tag, Some(2));
    assert_eq!(s.id, Some(0));
    assert!(d1.active.is_empty());
    assert_eq!(d2.active, vec![0]);
}

#[test]
fn reregistering_with_the_same_driver_swaps_the_id() {
    let mut d = Driver::new(9);
    let mut s = ComplexSound::new(FP_ONE, FP_ONE);
    s.register(&mut d, None);
    assert_eq!(s.id, Some(0));
    s.register(&mut d, None);
    // the old id is freed, exactly one registration remains
    assert_eq!(s.id, Some(1));
    assert_eq!(d.active, vec![1]);
}

#[test]
fn unregister_is_safe_when_not_registered() {
    let mut d = Driver::new(3);
    let mut s = ComplexSound::new(FP_ONE, FP_ONE);
    s.unregister(&mut d);
    assert_eq!(s.driver_tag, None);
    assert_eq!(s.id, None);
    assert!(d.active.is_empty());
}

#[test]
fn drivers_report_unknown_ids() {
    let mut d = Driver::new(4);
    assert_eq!(d.remove_sound(99), Err(()));
    let id = d.add_sound();
    assert_eq!(d.remove_sound(id), Ok(()));
    assert_eq!(d.remove_sound(id), Err(()));
}

#[test]
fn fresh_sound_is_silent_until_wired() {
    // before the first edge mutation the evaluation order is empty
    let mut s = ComplexSound::new(FP_ONE, FP_ONE);
    assert!(s.get_process_order().is_empty());
    assert_eq!(s.process(StereoData::single_stereo(FP_ONE)), StereoData::silence());
}

#[test]
fn driver_ids_are_never_reused() {
    let mut d = Driver::new(5);
    let a = d.add_sound();
    let b = d.add_sound();
    assert_ne!(a, b);
    assert_eq!(d.remove_sound(a), Ok(()));
    let c = d.add_sound();
    assert_ne!(c, a);
    assert_ne!(c, b);
}

#[test]
fn gains_scale_input_and_output() {
    // input gain of one half, output gain of one quarter
    let mut s = ComplexSound::new(FP_ONE / 2, FP_ONE / 4);
    let pass = s.add_block(Block::from_modifier(ModifierUnit::Empty));
    s.add_connection(0, pass);
    s.add_connection(pass, 1);
    let out = s.process(StereoData::single_stereo(8 * FP_ONE));
    assert_eq!(out, StereoData::single_stereo(FP_ONE));
}
