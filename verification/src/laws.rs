//! The crate-level laws of the routing graph, stated over the
//! specification predicates that the public contracts use.

use vstd::prelude::*;

verus! {

use crate::order::{indeg_le_one, order_sound, order_complete, order_spec, reachable};
use crate::sound::{
    ComplexSound, wf, order_current, connect_post, disconnect_post, sound_like, tick_blocks,
    tick_out,
};
use crate::stereodata::StereoData;

/// After a connection is inserted, the evaluation order is sound for
/// the new topology — each scheduled node is a sentinel or reachable
/// from a root, the input-gain sentinel stands first, the output-gain
/// sentinel last, and no node is scheduled twice — and, where no node
/// has two predecessors, it schedules every reachable node.
pub proof fn lemma_connect_keeps_order_current(
    s0: ComplexSound,
    s1: ComplexSound,
    from: usize,
    to: usize,
)
    requires
        wf(s0),
        order_current(s0),
        connect_post(s0, s1, from, to),
    ensures
        order_current(s1),
        order_sound(s1.process_order@, s1.edges@, s1.blocks@.len() as nat, 0usize, 1usize),
        indeg_le_one(s1.edges@) ==> order_complete(
            s1.process_order@,
            s1.edges@,
            s1.blocks@.len() as nat,
        ),
{
    if s0.edges@.contains((from, to)) {
        assert(sound_like(s1, s0));
        assert(s0.edges@.len() > 0);
    }
}

/// The disconnect counterpart of
/// [`lemma_connect_keeps_order_current`]: the order is recomputed
/// whether or not the edge was present.
pub proof fn lemma_disconnect_keeps_order_current(
    s0: ComplexSound,
    s1: ComplexSound,
    from: usize,
    to: usize,
)
    requires
        wf(s0),
        disconnect_post(s0, s1, from, to),
    ensures
        order_current(s1),
        order_sound(s1.process_order@, s1.edges@, s1.blocks@.len() as nat, 0usize, 1usize),
        indeg_le_one(s1.edges@) ==> order_complete(
            s1.process_order@,
            s1.edges@,
            s1.blocks@.len() as nat,
        ),
{
}

/// Connecting the same pair twice yields the very state — and so the
/// very evaluation order — that connecting it once yields.
pub proof fn lemma_connect_idempotent(
    s0: ComplexSound,
    s1: ComplexSound,
    s2: ComplexSound,
    from: usize,
    to: usize,
)
    requires
        connect_post(s0, s1, from, to),
        connect_post(s1, s2, from, to),
    ensures
        sound_like(s2, s1),
        s2.process_order@ == s1.process_order@,
{
    if !s0.edges@.contains((from, to)) {
        assert(s1.edges@[s1.edges@.len() - 1] == (from, to));
        assert(s1.edges@.contains((from, to)));
    }
}

/// The recomputation is deterministic: the evaluation order is a
/// function of the topology alone, so two sounds over the same nodes
/// and edges whose orders were recomputed carry the same order.
pub proof fn lemma_order_deterministic(s1: ComplexSound, s2: ComplexSound)
    requires
        s1.edges@ == s2.edges@,
        s1.blocks@.len() == s2.blocks@.len(),
        s1.process_order@ == order_spec(s1.edges@, s1.blocks@.len() as nat, 0usize, 1usize),
        s2.process_order@ == order_spec(s2.edges@, s2.blocks@.len() as nat, 0usize, 1usize),
    ensures
        s1.process_order@ == s2.process_order@,
{
}

/// Disconnecting an absent edge recomputes the order from an unchanged
/// topology, so a current order is reproduced bit for bit: the call is
/// a complete no-op on everything observable.
pub proof fn lemma_noop_disconnect_keeps_order(
    s0: ComplexSound,
    s1: ComplexSound,
    from: usize,
    to: usize,
)
    requires
        disconnect_post(s0, s1, from, to),
        !s0.edges@.contains((from, to)),
        s0.process_order@ == order_spec(s0.edges@, s0.blocks@.len() as nat, 0usize, 1usize),
    ensures
        s1.process_order@ == s0.process_order@,
        s1.edges@ == s0.edges@,
{
}

/// The mute flag gates only the returned sample: two sounds that
/// differ in nothing but their mute flags advance to the same blocks
/// and produce the same candidate output on every tick.
pub proof fn lemma_mute_does_not_freeze(s1: ComplexSound, s2: ComplexSound, x: StereoData)
    requires
        s1.blocks@ == s2.blocks@,
        s1.edges@ == s2.edges@,
        s1.process_order@ == s2.process_order@,
        s1.input_gain == s2.input_gain,
    ensures
        tick_blocks(s1, x) == tick_blocks(s2, x),
        tick_out(s1, x) == tick_out(s2, x),
{
}

/// A node that no zero-in-degree node can reach — for instance one
/// whose only edge is a self-loop — is never scheduled.
pub proof fn lemma_unreachable_never_scheduled(s: ComplexSound, v: usize)
    requires
        wf(s),
        s.process_order@.len() > 0,
        !reachable(s.edges@, s.blocks@.len() as nat, v),
        v != 0usize,
        v != 1usize,
    ensures
        !s.process_order@.contains(v),
{
    if s.process_order@.contains(v) {
        let j = choose|j: int|
            0 <= j < s.process_order@.len() && s.process_order@[j] == v;
        assert(order_sound(s.process_order@, s.edges@, s.blocks@.len() as nat, 0usize, 1usize));
    }
}

} // verus!
