//! The sound facade: a graph of processing blocks walked once per
//! sample, with mute and pause flags and driver registration.
//!
//! The graph owns its blocks in an arena addressed by stable indices;
//! node zero is the input-gain sentinel and node one the output-gain
//! sentinel.  Every edge mutation recomputes the cached evaluation
//! order before the graph is used again; adding an edge that is already
//! present is a complete no-op, so connecting twice has no additional
//! effect.

use vstd::prelude::*;

verus! {

use crate::block::{Block, ModifierUnit, block_step_spec};
use crate::order::{
    edges_ok, indeg_le_one, order_sound, order_complete, order_spec, reachable, compute_order,
};
use crate::stereodata::{StereoData, silence_spec, st_add_spec};

/// A sound: the block arena, the directed edges, the cached evaluation
/// order, the two sentinel indices, the registration record, and the
/// two playback flags.
pub struct ComplexSound {
    /// The block arena; indices are stable node identities.
    pub blocks: Vec<Block>,
    /// The directed edges, without parallel duplicates.
    pub edges: Vec<(usize, usize)>,
    /// The cached evaluation order; empty until the first edge
    /// mutation.
    pub process_order: Vec<usize>,
    /// The input-gain sentinel, always node zero.
    pub input_gain: usize,
    /// The output-gain sentinel, always node one.
    pub output_gain: usize,
    /// The tag of the driver this sound is registered with, if any.
    pub driver_tag: Option<u64>,
    /// The id the driver assigned, if registered.
    pub id: Option<usize>,
    /// While muted the graph still runs but the output is silence.
    pub is_muted: bool,
    /// While paused nothing runs and the output is silence.
    pub is_paused: bool,
}

/// The structural invariant: sentinels pinned, edges inside the arena
/// and without duplicates, registration fields tied, and the cached
/// order either still untouched or sound for the current topology.
pub open spec fn wf(s: ComplexSound) -> bool {
    &&& s.input_gain == 0usize
    &&& s.output_gain == 1usize
    &&& s.blocks@.len() >= 2
    &&& edges_ok(s.edges@, s.blocks@.len() as nat)
    &&& s.edges@.no_duplicates()
    &&& (s.process_order@.len() == 0 || order_sound(
        s.process_order@,
        s.edges@,
        s.blocks@.len() as nat,
        0usize,
        1usize,
    ))
    &&& s.driver_tag is Some <==> s.id is Some
}

/// Field-wise equality of two sounds.
pub open spec fn sound_like(a: ComplexSound, b: ComplexSound) -> bool {
    &&& a.blocks@ == b.blocks@
    &&& a.edges@ == b.edges@
    &&& a.process_order@ == b.process_order@
    &&& a.input_gain == b.input_gain
    &&& a.output_gain == b.output_gain
    &&& a.driver_tag == b.driver_tag
    &&& a.id == b.id
    &&& a.is_muted == b.is_muted
    &&& a.is_paused == b.is_paused
}

/// Equality of two sounds up to the topology fields.
pub open spec fn same_but_topology(a: ComplexSound, b: ComplexSound) -> bool {
    &&& a.blocks@ == b.blocks@
    &&& a.input_gain == b.input_gain
    &&& a.output_gain == b.output_gain
    &&& a.driver_tag == b.driver_tag
    &&& a.id == b.id
    &&& a.is_muted == b.is_muted
    &&& a.is_paused == b.is_paused
}

/// The cached order matches the current topology: still in its initial
/// empty state, or sound — and, where no node has two predecessors,
/// complete.
pub open spec fn order_current(s: ComplexSound) -> bool {
    ||| (s.process_order@.len() == 0 && s.edges@.len() == 0)
    ||| (order_sound(s.process_order@, s.edges@, s.blocks@.len() as nat, 0usize, 1usize)
        && (indeg_le_one(s.edges@) ==> order_complete(
        s.process_order@,
        s.edges@,
        s.blocks@.len() as nat,
    )))
}

/// What connecting `from -> to` does: nothing at all if the edge is
/// already present, else the edge is appended and the order freshly
/// recomputed.
pub open spec fn connect_post(s0: ComplexSound, s1: ComplexSound, from: usize, to: usize) -> bool {
    if s0.edges@.contains((from, to)) {
        sound_like(s1, s0)
    } else {
        &&& same_but_topology(s1, s0)
        &&& s1.edges@ == s0.edges@.push((from, to))
        &&& s1.process_order@ == order_spec(s1.edges@, s1.blocks@.len() as nat, 0usize, 1usize)
        &&& order_sound(s1.process_order@, s1.edges@, s1.blocks@.len() as nat, 0usize, 1usize)
        &&& (indeg_le_one(s1.edges@) ==> order_complete(
            s1.process_order@,
            s1.edges@,
            s1.blocks@.len() as nat,
        ))
    }
}

/// What disconnecting `from -> to` does: the edge is removed if
/// present, and the order is freshly recomputed either way.
pub open spec fn disconnect_post(
    s0: ComplexSound,
    s1: ComplexSound,
    from: usize,
    to: usize,
) -> bool {
    &&& same_but_topology(s1, s0)
    &&& if s0.edges@.contains((from, to)) {
        exists|k: int|
            0 <= k < s0.edges@.len() && s0.edges@[k] == (from, to) && s1.edges@ == s0.edges@.remove(
                k,
            )
    } else {
        s1.edges@ == s0.edges@
    }
    &&& s1.process_order@ == order_spec(s1.edges@, s1.blocks@.len() as nat, 0usize, 1usize)
    &&& order_sound(s1.process_order@, s1.edges@, s1.blocks@.len() as nat, 0usize, 1usize)
    &&& (indeg_le_one(s1.edges@) ==> order_complete(
        s1.process_order@,
        s1.edges@,
        s1.blocks@.len() as nat,
    ))
}

/// One predecessor's contribution added into a block's accumulator.
pub open spec fn prime_spec(blocks: Seq<Block>, t: int, x: StereoData) -> Seq<Block> {
    blocks.update(t, Block { input: st_add_spec(blocks[t].input, x), ..blocks[t] })
}

/// The output of a processed block fanned out to every direct
/// successor, in edge order, starting at edge `k`.
pub open spec fn fanout_spec(
    blocks: Seq<Block>,
    edges: Seq<(usize, usize)>,
    k: int,
    src: usize,
    y: StereoData,
) -> Seq<Block>
    decreases edges.len() - k,
{
    if k < 0 || k >= edges.len() {
        blocks
    } else {
        let b1 = if edges[k].0 == src {
            prime_spec(blocks, edges[k].1 as int, y)
        } else {
            blocks
        };
        fanout_spec(b1, edges, k + 1, src, y)
    }
}

/// The walk of the evaluation order from position `k`: each listed
/// block runs once, its output is fanned out to its successors, and
/// the last produced output is the candidate result.
pub open spec fn run_spec(
    blocks: Seq<Block>,
    edges: Seq<(usize, usize)>,
    order: Seq<usize>,
    k: int,
    out: StereoData,
) -> (Seq<Block>, StereoData)
    decreases order.len() - k,
{
    if k < 0 || k >= order.len() {
        (blocks, out)
    } else {
        let id = order[k] as int;
        let st = block_step_spec(blocks[id]);
        let b2 = fanout_spec(blocks.update(id, st.0), edges, 0, order[k], st.1);
        run_spec(b2, edges, order, k + 1, st.1)
    }
}

/// The blocks after one unpaused tick: the input primed into the
/// input-gain sentinel, then the full walk of the evaluation order.
pub open spec fn tick_blocks(s: ComplexSound, x: StereoData) -> Seq<Block> {
    run_spec(
        prime_spec(s.blocks@, s.input_gain as int, x),
        s.edges@,
        s.process_order@,
        0,
        silence_spec(),
    ).0
}

/// The candidate output of one unpaused tick, before mute gating.
pub open spec fn tick_out(s: ComplexSound, x: StereoData) -> StereoData {
    run_spec(
        prime_spec(s.blocks@, s.input_gain as int, x),
        s.edges@,
        s.process_order@,
        0,
        silence_spec(),
    ).1
}

/// Finds the position of a directed edge, if present.
fn find_edge(edges: &Vec<(usize, usize)>, from: usize, to: usize) -> (r: Option<usize>)
    ensures
        match r {
            Some(k) => k < edges@.len() && edges@[k as int] == (from, to),
            None => !edges@.contains((from, to)),
        },
{
    let mut e: usize = 0;
    while e < edges.len()
        invariant
            e <= edges@.len(),
            forall|k: int| 0 <= k < e ==> (#[trigger] edges@[k]) != (from, to),
        decreases edges@.len() - e,
    {
        let ed: (usize, usize) = edges[e];
        if ed.0 == from && ed.1 == to {
            return Some(e);
        }
        e = e + 1;
    }
    proof {
        assert forall|k: int| 0 <= k < edges@.len() implies (#[trigger] edges@[k]) != (from, to) by {
        }
    }
    None
}

impl ComplexSound {
    /// Builds a sound whose two sentinel nodes scale by the given
    /// fixed-point gains.  The evaluation order starts out empty: the
    /// first edge mutation fills it.
    pub fn new(input_gain: i64, output_gain: i64) -> (s: ComplexSound)
        ensures
            wf(s),
            s.blocks@.len() == 2,
            s.blocks@[0] == (Block {
                g: crate::generators::GeneratorUnit::Empty,
                m: ModifierUnit::Gain(input_gain),
                i: crate::block::Interactor::ModifierPassthrough,
                input: silence_spec(),
            }),
            s.blocks@[1] == (Block {
                g: crate::generators::GeneratorUnit::Empty,
                m: ModifierUnit::Gain(output_gain),
                i: crate::block::Interactor::ModifierPassthrough,
                input: silence_spec(),
            }),
            s.edges@ == Seq::<(usize, usize)>::empty(),
            s.process_order@ == Seq::<usize>::empty(),
            s.input_gain == 0 && s.output_gain == 1,
            s.driver_tag is None && s.id is None,
            !s.is_muted && !s.is_paused,
            order_current(s),
    {
        let mut blocks: Vec<Block> = Vec::new();
        blocks.push(Block::from_modifier(ModifierUnit::Gain(input_gain)));
        blocks.push(Block::from_modifier(ModifierUnit::Gain(output_gain)));
        ComplexSound {
            blocks,
            edges: Vec::new(),
            process_order: Vec::new(),
            input_gain: 0,
            output_gain: 1,
            driver_tag: None,
            id: None,
            is_muted: false,
            is_paused: false,
        }
    }

    /// The identity of the input-gain sentinel.
    pub fn get_input_gain(&self) -> (r: usize)
        ensures
            r == self.input_gain,
    {
        self.input_gain
    }

    /// The identity of the output-gain sentinel.
    pub fn get_output_gain(&self) -> (r: usize)
        ensures
            r == self.output_gain,
    {
        self.output_gain
    }

    /// The cached evaluation order.
    pub fn get_process_order(&self) -> (r: &Vec<usize>)
        ensures
            r@ == self.process_order@,
    {
        &self.process_order
    }

    /// Adds a block to the arena and returns its stable identity.  The
    /// new node joins the evaluation order at the next edge mutation.
    pub fn add_block(&mut self, block: Block) -> (id: usize)
        requires
            wf(*old(self)),
        ensures
            wf(*final(self)),
            id == old(self).blocks@.len(),
            final(self).blocks@ == old(self).blocks@.push(block),
            final(self).edges@ == old(self).edges@,
            final(self).process_order@ == old(self).process_order@,
            final(self).input_gain == old(self).input_gain,
            final(self).output_gain == old(self).output_gain,
            final(self).driver_tag == old(self).driver_tag,
            final(self).id == old(self).id,
            final(self).is_muted == old(self).is_muted,
            final(self).is_paused == old(self).is_paused,
    {
        let id: usize = self.blocks.len();
        self.blocks.push(block);
        proof {
            let n0 = old(self).blocks@.len() as nat;
            let n1 = self.blocks@.len() as nat;
            let ord = self.process_order@;
            if ord.len() > 0 {
                assert(order_sound(ord, self.edges@, n0, 0usize, 1usize));
                assert forall|j: int| 0 <= j < ord.len() implies ((#[trigger] ord[j]) as nat)
                    < n1 by {
                    assert((ord[j] as nat) < n0);
                }
                assert forall|j: int| 0 <= j < ord.len() implies (#[trigger] ord[j]) == 0usize
                    || ord[j] == 1usize || (reachable(self.edges@, n1, ord[j]) && ord[j] != 0usize
                    && ord[j] != 1usize) by {
                    if ord[j] != 0usize && ord[j] != 1usize {
                        assert(reachable(self.edges@, n0, ord[j]));
                        crate::order::lemma_reachable_monotone(self.edges@, n0, n1, ord[j]);
                    }
                }
                assert(order_sound(ord, self.edges@, n1, 0usize, 1usize));
            }
        }
        id
    }

    /// Recomputes the cached evaluation order for the current topology.
    fn recompute_order(&mut self)
        requires
            old(self).input_gain == 0usize,
            old(self).output_gain == 1usize,
            old(self).blocks@.len() >= 2,
            edges_ok(old(self).edges@, old(self).blocks@.len() as nat),
            old(self).edges@.no_duplicates(),
            old(self).driver_tag is Some <==> old(self).id is Some,
        ensures
            final(self).blocks@ == old(self).blocks@,
            final(self).edges@ == old(self).edges@,
            final(self).input_gain == old(self).input_gain,
            final(self).output_gain == old(self).output_gain,
            final(self).driver_tag == old(self).driver_tag,
            final(self).id == old(self).id,
            final(self).is_muted == old(self).is_muted,
            final(self).is_paused == old(self).is_paused,
            final(self).process_order@ == order_spec(
                final(self).edges@,
                final(self).blocks@.len() as nat,
                0usize,
                1usize,
            ),
            order_sound(
                final(self).process_order@,
                final(self).edges@,
                final(self).blocks@.len() as nat,
                0usize,
                1usize,
            ),
            indeg_le_one(final(self).edges@) ==> order_complete(
                final(self).process_order@,
                final(self).edges@,
                final(self).blocks@.len() as nat,
            ),
            wf(*final(self)),
    {
        let n: usize = self.blocks.len();
        let ord: Vec<usize> = compute_order(&self.edges, n, self.input_gain, self.output_gain);
        self.process_order = ord;
    }

    /// Inserts the directed edge `from -> to` and recomputes the
    /// evaluation order.  Inserting an edge that is already present has
    /// no effect at all.
    pub fn add_connection(&mut self, from: usize, to: usize)
        requires
            wf(*old(self)),
            from < old(self).blocks@.len(),
            to < old(self).blocks@.len(),
        ensures
            wf(*final(self)),
            connect_post(*old(self), *final(self), from, to),
    {
        let found: Option<usize> = find_edge(&self.edges, from, to);
        if found.is_none() {
            self.edges.push((from, to));
            proof {
                assert forall|j: int, l: int|
                    0 <= j < l < self.edges@.len() implies (#[trigger] self.edges@[j]) != (
                #[trigger] self.edges@[l]) by {
                    if l == self.edges@.len() - 1 {
                        assert(old(self).edges@[j] == self.edges@[j]);
                        if self.edges@[j] == (from, to) {
                            assert(old(self).edges@.contains((from, to)));
                        }
                    }
                }
            }
            self.recompute_order();
        }
    }

    /// Removes the directed edge `from -> to` if it is present (a
    /// silent no-op otherwise) and recomputes the evaluation order.
    pub fn remove_connection(&mut self, from: usize, to: usize)
        requires
            wf(*old(self)),
        ensures
            wf(*final(self)),
            disconnect_post(*old(self), *final(self), from, to),
    {
        let found: Option<usize> = find_edge(&self.edges, from, to);
        match found {
            Some(k) => {
                self.edges.remove(k);
                proof {
                    assert(old(self).edges@.contains((from, to)));
                    assert forall|j: int, l: int|
                        0 <= j < l < self.edges@.len() implies (#[trigger] self.edges@[j]) != (
                    #[trigger] self.edges@[l]) by {
                        let e0 = old(self).edges@;
                        let jj: int = if j < k { j } else { j + 1 };
                        let ll: int = if l < k { l } else { l + 1 };
                        assert(self.edges@[j] == e0[jj] && self.edges@[l] == e0[ll]);
                    }
                }
            },
            None => {},
        }
        self.recompute_order();
    }

    /// Runs one tick.  While paused nothing runs and the result is
    /// silence.  Otherwise the input primes the input-gain sentinel,
    /// every block in the evaluation order runs exactly once with its
    /// output fanned out to its direct successors, and the last output
    /// is returned — forced to silence while muted, though the blocks
    /// advance all the same.
    #[verifier::loop_isolation(false)]
    pub fn process(&mut self, input: StereoData) -> (out: StereoData)
        requires
            wf(*old(self)),
        ensures
            wf(*final(self)),
            old(self).is_paused ==> sound_like(*final(self), *old(self)) && out == silence_spec(),
            !old(self).is_paused ==> final(self).blocks@ == tick_blocks(*old(self), input),
            !old(self).is_paused ==> out == if old(self).is_muted {
                silence_spec()
            } else {
                tick_out(*old(self), input)
            },
            final(self).edges@ == old(self).edges@,
            final(self).process_order@ == old(self).process_order@,
            final(self).input_gain == old(self).input_gain,
            final(self).output_gain == old(self).output_gain,
            final(self).driver_tag == old(self).driver_tag,
            final(self).id == old(self).id,
            final(self).is_muted == old(self).is_muted,
            final(self).is_paused == old(self).is_paused,
    {
        if self.is_paused {
            return StereoData::silence();
        }
        let mut out: StereoData = StereoData::silence();
        let ig: usize = self.input_gain;
        let mut b0: Block = self.blocks[ig];
        b0.prime_input(input);
        self.blocks[ig] = b0;
        let ghost primed: Seq<Block> = self.blocks@;
        let ghost edges0: Seq<(usize, usize)> = self.edges@;
        let ghost order0: Seq<usize> = self.process_order@;
        let ghost n0: int = self.blocks@.len() as int;
        proof {
            assert(primed =~= prime_spec(old(self).blocks@, 0, input));
        }
        let mut i: usize = 0;
        while i < self.process_order.len()
            invariant
                i <= order0.len(),
                self.blocks@.len() == n0,
                self.edges@ == edges0,
                self.process_order@ == order0,
                self.input_gain == 0usize,
                self.output_gain == old(self).output_gain,
                self.driver_tag == old(self).driver_tag,
                self.id == old(self).id,
                self.is_muted == old(self).is_muted,
                self.is_paused == old(self).is_paused,
                run_spec(self.blocks@, edges0, order0, i as int, out) == run_spec(
                    primed,
                    edges0,
                    order0,
                    0,
                    silence_spec(),
                ),
            decreases order0.len() - i,
        {
            let idx: usize = self.process_order[i];
            proof {
                assert((order0[i as int] as nat) < n0 as nat);
            }
            let ghost at_top: Seq<Block> = self.blocks@;
            let ghost out_top: StereoData = out;
            let mut b: Block = self.blocks[idx];
            let y: StereoData = b.process();
            self.blocks[idx] = b;
            out = y;
            let ghost stepped: Seq<Block> = self.blocks@;
            proof {
                assert(stepped =~= at_top.update(
                    idx as int,
                    block_step_spec(at_top[idx as int]).0,
                ));
                assert(y == block_step_spec(at_top[idx as int]).1);
            }
            let mut e: usize = 0;
            while e < self.edges.len()
                invariant
                    e <= edges0.len(),
                    self.blocks@.len() == n0,
                    self.edges@ == edges0,
                    self.process_order@ == order0,
                    self.input_gain == 0usize,
                    self.output_gain == old(self).output_gain,
                    self.driver_tag == old(self).driver_tag,
                    self.id == old(self).id,
                    self.is_muted == old(self).is_muted,
                    self.is_paused == old(self).is_paused,
                    fanout_spec(self.blocks@, edges0, e as int, idx, y) == fanout_spec(
                        stepped,
                        edges0,
                        0,
                        idx,
                        y,
                    ),
                decreases edges0.len() - e,
            {
                let ed: (usize, usize) = self.edges[e];
                let ghost before_prime: Seq<Block> = self.blocks@;
                if ed.0 == idx {
                    proof {
                        assert((edges0[e as int].1 as nat) < n0 as nat);
                    }
                    let mut t: Block = self.blocks[ed.1];
                    t.prime_input(y);
                    self.blocks[ed.1] = t;
                    proof {
                        assert(self.blocks@ =~= prime_spec(before_prime, ed.1 as int, y));
                        assert(fanout_spec(before_prime, edges0, e as int, idx, y) == fanout_spec(
                            self.blocks@,
                            edges0,
                            e + 1,
                            idx,
                            y,
                        ));
                    }
                } else {
                    proof {
                        assert(fanout_spec(before_prime, edges0, e as int, idx, y) == fanout_spec(
                            self.blocks@,
                            edges0,
                            e + 1,
                            idx,
                            y,
                        ));
                    }
                }
                e = e + 1;
            }
            proof {
                assert(fanout_spec(self.blocks@, edges0, edges0.len() as int, idx, y)
                    == self.blocks@);
                assert(self.blocks@ == fanout_spec(stepped, edges0, 0, idx, y));
                assert(run_spec(at_top, edges0, order0, i as int, out_top) == run_spec(
                    self.blocks@,
                    edges0,
                    order0,
                    i + 1,
                    y,
                ));
            }
            i = i + 1;
        }
        proof {
            assert(run_spec(self.blocks@, edges0, order0, order0.len() as int, out) == (
            self.blocks@,
            out,
            ));
        }
        if self.is_muted {
            StereoData::silence()
        } else {
            out
        }
    }

    /// Flips the pause flag.
    pub fn toggle_pause(&mut self)
        ensures
            *final(self) == (ComplexSound { is_paused: !old(self).is_paused, ..*old(self) }),
    {
        self.is_paused = !self.is_paused;
    }

    /// Whether the sound is paused.
    pub fn is_paused(&self) -> (r: bool)
        ensures
            r == self.is_paused,
    {
        self.is_paused
    }

    /// Flips the mute flag.
    pub fn toggle_mute(&mut self)
        ensures
            *final(self) == (ComplexSound { is_muted: !old(self).is_muted, ..*old(self) }),
    {
        self.is_muted = !self.is_muted;
    }

    /// Whether the sound is muted.
    pub fn is_muted(&self) -> (r: bool)
        ensures
            r == self.is_muted,
    {
        self.is_muted
    }

    /// Registers the sound with a driver: any prior registration is
    /// released first — from `prior` where the sound is registered
    /// with a different driver, else from `driver` itself — then
    /// `driver` admits the sound and the returned id and driver tag
    /// are stored.  Exactly one registration is active afterwards.
    pub fn register(&mut self, driver: &mut crate::driver::Driver, prior: Option<
        &mut crate::driver::Driver,
    >)
        requires
            wf(*old(self)),
            crate::driver::driver_wf(*old(driver)),
            old(driver).next_id < usize::MAX,
            old(self).driver_tag is Some && old(self).driver_tag != Some(old(driver).tag)
                ==> prior is Some,
            old(self).driver_tag is Some && old(self).driver_tag != Some(old(driver).tag) ==> (
            prior matches Some(p) ==> (Some(p.tag) == old(self).driver_tag
                && crate::driver::driver_wf(*p))),
            old(self).driver_tag == Some(old(driver).tag) ==> (old(self).id matches Some(oid)
                ==> oid < old(driver).next_id),
        ensures
            wf(*final(self)),
            crate::driver::driver_wf(*final(driver)),
            final(self).driver_tag == Some(old(driver).tag),
            final(self).id == Some(old(driver).next_id),
            final(self).blocks@ == old(self).blocks@,
            final(self).edges@ == old(self).edges@,
            final(self).process_order@ == old(self).process_order@,
            final(self).input_gain == old(self).input_gain,
            final(self).output_gain == old(self).output_gain,
            final(self).is_muted == old(self).is_muted,
            final(self).is_paused == old(self).is_paused,
            final(driver).tag == old(driver).tag,
            final(driver).next_id == old(driver).next_id + 1,
            final(driver).active@.contains(old(driver).next_id),
            // never registered before: the admitting driver only gains
            // the fresh id, and a supplied prior collection is untouched
            old(self).driver_tag is None ==> final(driver).active@ == old(driver).active@.push(
                old(driver).next_id,
            ),
            old(self).driver_tag is None ==> (prior matches Some(p) ==> *final(p) == *p),
            // re-registering with the same driver: its old id is freed
            old(self).driver_tag == Some(old(driver).tag) ==> (old(self).id matches Some(oid)
                ==> !final(driver).active@.contains(oid) && forall|x: usize|
                x != oid && x != old(driver).next_id ==> (final(driver).active@.contains(x)
                    <==> old(driver).active@.contains(x))),
            old(self).driver_tag == Some(old(driver).tag) ==> (prior matches Some(p) ==> *final(p)
                == *p),
            // switching drivers: the old driver frees the old id, the
            // new driver only gains the fresh id
            old(self).driver_tag is Some && old(self).driver_tag != Some(old(driver).tag)
                ==> final(driver).active@ == old(driver).active@.push(old(driver).next_id),
            old(self).driver_tag is Some && old(self).driver_tag != Some(old(driver).tag) ==> (
            prior matches Some(p) ==> final(p).tag == p.tag && final(p).next_id == p.next_id
                && crate::driver::driver_wf(*final(p)) && (old(self).id matches Some(oid)
                ==> !final(p).active@.contains(oid) && forall|x: usize|
                x != oid ==> (final(p).active@.contains(x) <==> p.active@.contains(x)))),
    {
        match self.driver_tag {
            None => {},
            Some(t) => {
                if t == driver.tag {
                    self.unregister(driver);
                } else {
                    match prior {
                        Some(p) => {
                            self.unregister(p);
                        },
                        None => {
                            proof {
                                assert(false);
                            }
                        },
                    }
                }
            },
        }
        let ghost dmid: crate::driver::Driver = *driver;
        let id: usize = driver.add_sound();
        self.driver_tag = Some(driver.tag);
        self.id = Some(id);
        proof {
            assert(driver.active@ == dmid.active@.push(id));
            assert(driver.active@[driver.active@.len() - 1] == id);
            assert(driver.active@.contains(id));
            assert forall|x: usize| x != id && dmid.active@ == old(driver).active@ implies (
            driver.active@.contains(x) <==> old(driver).active@.contains(x)) by {
                if driver.active@.contains(x) {
                    let l = choose|l: int| 0 <= l < driver.active@.len() && driver.active@[l] == x;
                    assert(l < driver.active@.len() - 1);
                    assert(dmid.active@[l] == x);
                    assert(dmid.active@.contains(x));
                }
                if old(driver).active@.contains(x) {
                    let l = choose|l: int| 0 <= l < dmid.active@.len() && dmid.active@[l] == x;
                    assert(driver.active@[l] == x);
                }
            }
            if old(self).driver_tag == Some(old(driver).tag) {
                assert forall|x: usize| x != id implies (driver.active@.contains(x)
                    <==> dmid.active@.contains(x)) by {
                    if driver.active@.contains(x) {
                        let l = choose|l: int|
                            0 <= l < driver.active@.len() && driver.active@[l] == x;
                        assert(l < driver.active@.len() - 1);
                        assert(dmid.active@[l] == x);
                    }
                    if dmid.active@.contains(x) {
                        let l = choose|l: int| 0 <= l < dmid.active@.len() && dmid.active@[l] == x;
                        assert(driver.active@[l] == x);
                    }
                }
            }
        }
    }

    /// Releases any current registration: the driver is asked to
    /// release the stored id, and both local fields are cleared even
    /// if the driver reports the id as unknown.  Safe to call when not
    /// registered, in which case the driver is untouched.
    pub fn unregister(&mut self, driver: &mut crate::driver::Driver)
        requires
            wf(*old(self)),
            crate::driver::driver_wf(*old(driver)),
            old(self).driver_tag matches Some(t) ==> t == old(driver).tag,
        ensures
            wf(*final(self)),
            crate::driver::driver_wf(*final(driver)),
            final(self).driver_tag is None,
            final(self).id is None,
            final(self).blocks@ == old(self).blocks@,
            final(self).edges@ == old(self).edges@,
            final(self).process_order@ == old(self).process_order@,
            final(self).input_gain == old(self).input_gain,
            final(self).output_gain == old(self).output_gain,
            final(self).is_muted == old(self).is_muted,
            final(self).is_paused == old(self).is_paused,
            final(driver).tag == old(driver).tag,
            final(driver).next_id == old(driver).next_id,
            old(self).id is None ==> *final(driver) == *old(driver),
            old(self).id matches Some(oid) ==> !final(driver).active@.contains(oid) && forall|
                x: usize,
            |
                x != oid ==> (final(driver).active@.contains(x) <==> old(
                    driver,
                ).active@.contains(x)),
    {
        match self.id {
            Some(oid) => {
                let _ = driver.remove_sound(oid);
                self.driver_tag = None;
                self.id = None;
            },
            None => {},
        }
    }
}

} // verus!
