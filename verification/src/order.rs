//! Computation of the evaluation order.
//!
//! The order is grown as a queue seeded with every zero-in-degree node:
//! each queued node's direct successors are appended in turn, and after
//! each step every later duplicate of an already-scanned entry is
//! removed, so first occurrences win.  The two sentinel nodes are then
//! forced to the front and the back.  The pass is deliberately not a
//! full topological sort: a node with no path from a zero-in-degree
//! node is never scheduled, and on graphs where several edges enter one
//! node a queued duplicate can be dropped before its successors were
//! scanned.

use vstd::prelude::*;

verus! {

/// Every edge endpoint names one of the `n` nodes.
pub open spec fn edges_ok(edges: Seq<(usize, usize)>, n: nat) -> bool {
    forall|k: int|
        0 <= k < edges.len() ==> (#[trigger] edges[k]).0 < n && edges[k].1 < n
}

/// There is an edge from `a` to `b`.
pub open spec fn has_edge(edges: Seq<(usize, usize)>, a: usize, b: usize) -> bool {
    exists|k: int| 0 <= k < edges.len() && #[trigger] edges[k] == (a, b)
}

/// `v` is a root: a node with no incoming edge (a self-loop counts as
/// incoming).
pub open spec fn is_root(edges: Seq<(usize, usize)>, n: nat, v: usize) -> bool {
    (v as nat) < n && forall|k: int| 0 <= k < edges.len() ==> (#[trigger] edges[k]).1 != v
}

/// `v` can be reached from some root over at most `fuel` edges.
pub open spec fn reach_k(edges: Seq<(usize, usize)>, n: nat, v: usize, fuel: nat) -> bool
    decreases fuel,
{
    is_root(edges, n, v) || (fuel > 0 && exists|u: usize|
        #[trigger] has_edge(edges, u, v) && reach_k(edges, n, u, (fuel - 1) as nat))
}

/// `v` can be reached from some root.
pub open spec fn reachable(edges: Seq<(usize, usize)>, n: nat, v: usize) -> bool {
    exists|fuel: nat| reach_k(edges, n, v, fuel)
}

/// Every node has at most one predecessor; on such graphs the order is
/// complete (see [`compute_order`]).
pub open spec fn indeg_le_one(edges: Seq<(usize, usize)>) -> bool {
    forall|k1: int, k2: int|
        0 <= k1 < edges.len() && 0 <= k2 < edges.len() && (#[trigger] edges[k1]).1 == (
        #[trigger] edges[k2]).1 ==> edges[k1].0 == edges[k2].0
}

pub proof fn lemma_root_reachable(edges: Seq<(usize, usize)>, n: nat, v: usize)
    requires
        is_root(edges, n, v),
    ensures
        reachable(edges, n, v),
{
    assert(reach_k(edges, n, v, 0));
}

pub proof fn lemma_reach_step(edges: Seq<(usize, usize)>, n: nat, u: usize, v: usize)
    requires
        reachable(edges, n, u),
        has_edge(edges, u, v),
    ensures
        reachable(edges, n, v),
{
    let fuel = choose|fuel: nat| reach_k(edges, n, u, fuel);
    assert(reach_k(edges, n, v, fuel + 1));
}

/// A reachable node is a node.
pub proof fn lemma_reachable_bound(edges: Seq<(usize, usize)>, n: nat, v: usize)
    requires
        reachable(edges, n, v),
        edges_ok(edges, n),
    ensures
        (v as nat) < n,
{
    let fuel = choose|fuel: nat| reach_k(edges, n, v, fuel);
    if !is_root(edges, n, v) {
        let u = choose|u: usize|
            #[trigger] has_edge(edges, u, v) && reach_k(edges, n, u, (fuel - 1) as nat);
        let k = choose|k: int| 0 <= k < edges.len() && #[trigger] edges[k] == (u, v);
        assert(edges[k].1 < n);
    }
}

/// Reachability only grows when nodes are added.
pub proof fn lemma_reachable_monotone(edges: Seq<(usize, usize)>, n0: nat, n1: nat, v: usize)
    requires
        n0 <= n1,
        reachable(edges, n0, v),
    ensures
        reachable(edges, n1, v),
{
    let fuel = choose|fuel: nat| reach_k(edges, n0, v, fuel);
    lemma_reach_k_monotone(edges, n0, n1, v, fuel);
}

proof fn lemma_reach_k_monotone(edges: Seq<(usize, usize)>, n0: nat, n1: nat, v: usize, fuel: nat)
    requires
        n0 <= n1,
        reach_k(edges, n0, v, fuel),
    ensures
        reach_k(edges, n1, v, fuel),
    decreases fuel,
{
    if is_root(edges, n0, v) {
        assert(is_root(edges, n1, v));
    } else {
        let u = choose|u: usize|
            #[trigger] has_edge(edges, u, v) && reach_k(edges, n0, u, (fuel - 1) as nat);
        lemma_reach_k_monotone(edges, n0, n1, u, (fuel - 1) as nat);
    }
}

/// Any set of nodes that holds every root and is closed under edges
/// holds every reachable node.
proof fn lemma_reach_in_closed(
    edges: Seq<(usize, usize)>,
    n: nat,
    s: Seq<usize>,
    v: usize,
    fuel: nat,
)
    requires
        forall|x: usize| is_root(edges, n, x) ==> s.contains(x),
        forall|a: usize, b: usize|
            s.contains(a) && #[trigger] has_edge(edges, a, b) ==> s.contains(b),
        reach_k(edges, n, v, fuel),
    ensures
        s.contains(v),
    decreases fuel,
{
    if !is_root(edges, n, v) {
        let u = choose|u: usize|
            #[trigger] has_edge(edges, u, v) && reach_k(edges, n, u, (fuel - 1) as nat);
        lemma_reach_in_closed(edges, n, s, u, (fuel - 1) as nat);
    }
}

/// `s` with every occurrence of `x` removed, in order.
pub open spec fn keep_non(s: Seq<usize>, x: usize) -> Seq<usize>
    decreases s.len(),
{
    if s.len() == 0 {
        Seq::empty()
    } else if s[0] == x {
        keep_non(s.drop_first(), x)
    } else {
        seq![s[0]] + keep_non(s.drop_first(), x)
    }
}

/// What [`keep_non`] keeps: exactly the entries other than `x`, each an
/// entry of `s`.
proof fn lemma_keep_non_membership(s: Seq<usize>, x: usize)
    ensures
        forall|i: int|
            0 <= i < keep_non(s, x).len() ==> s.contains(#[trigger] keep_non(s, x)[i])
                && keep_non(s, x)[i] != x,
        forall|y: usize| s.contains(y) && y != x ==> keep_non(s, x).contains(y),
        keep_non(s, x).len() <= s.len(),
    decreases s.len(),
{
    if s.len() == 0 {
    } else {
        let rest = s.drop_first();
        lemma_keep_non_membership(rest, x);
        assert forall|y: usize| rest.contains(y) implies s.contains(y) by {
            let j = choose|j: int| 0 <= j < rest.len() && rest[j] == y;
            assert(s[j + 1] == y);
        }
        assert forall|y: usize| s.contains(y) && y != x implies keep_non(s, x).contains(y) by {
            let j = choose|j: int| 0 <= j < s.len() && s[j] == y;
            if j == 0 {
                assert(keep_non(s, x)[0] == y);
            } else {
                assert(rest[j - 1] == y);
                assert(rest.contains(y));
                assert(keep_non(rest, x).contains(y));
                let l = choose|l: int| 0 <= l < keep_non(rest, x).len() && keep_non(rest, x)[l] == y;
                if s[0] == x {
                } else {
                    assert(keep_non(s, x)[l + 1] == y);
                }
            }
        }
    }
}

/// [`keep_non`] distributes over concatenation.
proof fn lemma_keep_non_concat(a: Seq<usize>, b: Seq<usize>, x: usize)
    ensures
        keep_non(a + b, x) == keep_non(a, x) + keep_non(b, x),
    decreases a.len(),
{
    if a.len() == 0 {
        assert(a + b =~= b);
        assert(keep_non(a, x) + keep_non(b, x) =~= keep_non(b, x));
    } else {
        assert((a + b).drop_first() =~= a.drop_first() + b);
        assert((a + b)[0] == a[0]);
        lemma_keep_non_concat(a.drop_first(), b, x);
        if a[0] == x {
        } else {
            assert(seq![a[0]] + (keep_non(a.drop_first(), x) + keep_non(b, x)) =~= (seq![a[0]]
                + keep_non(a.drop_first(), x)) + keep_non(b, x));
        }
    }
}

/// [`keep_non`] of a sequence without `x` is that sequence.
proof fn lemma_keep_non_absent(s: Seq<usize>, x: usize)
    requires
        !s.contains(x),
    ensures
        keep_non(s, x) == s,
    decreases s.len(),
{
    if s.len() == 0 {
        assert(keep_non(s, x) =~= s);
    } else {
        assert(s[0] != x);
        assert(!s.drop_first().contains(x)) by {
            if s.drop_first().contains(x) {
                let j = choose|j: int| 0 <= j < s.drop_first().len() && s.drop_first()[j] == x;
                assert(s[j + 1] == x);
            }
        }
        lemma_keep_non_absent(s.drop_first(), x);
        assert(seq![s[0]] + s.drop_first() =~= s);
    }
}

/// One entry of a singleton.
proof fn lemma_keep_non_singleton(y: usize, x: usize)
    ensures
        keep_non(seq![y], x) == if y == x {
            Seq::<usize>::empty()
        } else {
            seq![y]
        },
{
    let s = seq![y];
    assert(s.drop_first() =~= Seq::<usize>::empty());
    assert(keep_non(Seq::<usize>::empty(), x) =~= Seq::<usize>::empty());
    if y != x {
        assert(keep_non(s, x) == seq![y] + keep_non(s.drop_first(), x));
        assert(seq![y] + keep_non(Seq::<usize>::empty(), x) =~= seq![y]);
    }
}

/// [`keep_non`] keeps a duplicate-free sequence duplicate-free.
proof fn lemma_keep_non_no_dups(s: Seq<usize>, x: usize)
    requires
        s.no_duplicates(),
    ensures
        keep_non(s, x).no_duplicates(),
    decreases s.len(),
{
    if s.len() == 0 {
    } else {
        let rest = s.drop_first();
        assert(rest.no_duplicates());
        lemma_keep_non_no_dups(rest, x);
        lemma_keep_non_membership(rest, x);
        if s[0] == x {
        } else {
            let kept = seq![s[0]] + keep_non(rest, x);
            assert forall|j: int, l: int| 0 <= j < l < kept.len() implies kept[j] != kept[l] by {
                if j == 0 {
                    assert(rest.contains(kept[l]));
                    let m = choose|m: int| 0 <= m < rest.len() && rest[m] == kept[l];
                    assert(s[m + 1] == kept[l]);
                } else {
                    assert(keep_non(rest, x)[j - 1] != keep_non(rest, x)[l - 1]);
                }
            }
        }
    }
}

/// A duplicate-free sequence of values below `n` has at most `n`
/// entries.
proof fn lemma_distinct_bounded(s: Seq<usize>, n: nat)
    requires
        s.no_duplicates(),
        forall|j: int| 0 <= j < s.len() ==> ((#[trigger] s[j]) as nat) < n,
    ensures
        s.len() <= n,
{
    let f = |x: usize| x as int;
    let si = s.map_values(f);
    s.lemma_no_duplicates_injective(f);
    si.unique_seq_to_set();
    assert forall|x: int| si.to_set().contains(x) implies vstd::set_lib::set_int_range(
        0,
        n as int,
    ).contains(x) by {
        assert(si.contains(x));
        let j = choose|j: int| 0 <= j < si.len() && si[j] == x;
        assert(s[j] as int == x);
    }
    vstd::set_lib::lemma_int_range(0, n as int);
    vstd::set_lib::lemma_len_subset(si.to_set(), vstd::set_lib::set_int_range(0, n as int));
}

/// Removes every later duplicate of the entry at `w`, exactly as the
/// order recomputation interleaves it with its scan.
fn remove_dups(v: &mut Vec<usize>, w: usize)
    requires
        w < old(v)@.len(),
    ensures
        final(v)@ == old(v)@.take(w + 1) + keep_non(old(v)@.skip(w + 1), old(v)@[w as int]),
{
    let x: usize = v[w];
    let _bound: usize = v.len();
    let ghost orig: Seq<usize> = v@;
    let mut i: usize = w + 1;
    let ghost mut k: int = w as int + 1;
    proof {
        assert(orig.subrange(w + 1, k) =~= Seq::<usize>::empty());
        assert(v@ =~= orig.take(w + 1) + keep_non(orig.subrange(w + 1, k), x) + orig.skip(k));
    }
    while i < v.len()
        invariant
            w < i,
            i as int <= v@.len(),
            w as int + 1 <= k <= orig.len(),
            x == orig[w as int],
            v@ == orig.take(w + 1) + keep_non(orig.subrange(w + 1, k), x) + orig.skip(k),
            i as int == w + 1 + keep_non(orig.subrange(w + 1, k), x).len(),
        decreases orig.len() - k,
    {
        proof {
            lemma_keep_non_membership(orig.subrange(w + 1, k), x);
            assert(orig.subrange(w + 1, k + 1) =~= orig.subrange(w + 1, k) + seq![orig[k]]);
            lemma_keep_non_concat(orig.subrange(w + 1, k), seq![orig[k]], x);
            lemma_keep_non_singleton(orig[k], x);
            assert(v@[i as int] == orig[k]);
        }
        if v[i] == x {
            v.remove(i);
            proof {
                assert(v@ =~= orig.take(w + 1) + keep_non(orig.subrange(w + 1, k + 1), x)
                    + orig.skip(k + 1));
                k = k + 1;
            }
        } else {
            i = i + 1;
            proof {
                assert(v@ =~= orig.take(w + 1) + keep_non(orig.subrange(w + 1, k + 1), x)
                    + orig.skip(k + 1));
                k = k + 1;
            }
        }
    }
    proof {
        assert(k == orig.len());
        assert(orig.subrange(w + 1, k) =~= orig.skip(w + 1));
        assert(orig.skip(k) =~= Seq::<usize>::empty());
        assert(v@ =~= orig.take(w + 1) + keep_non(orig.skip(w + 1), x));
    }
}

/// The targets of the first `k` edges that leave `cur`, in edge order.
pub open spec fn targets_of(edges: Seq<(usize, usize)>, cur: usize, k: int) -> Seq<usize>
    decreases k,
{
    if k <= 0 {
        Seq::empty()
    } else {
        targets_of(edges, cur, k - 1) + if edges[k - 1].0 == cur {
            seq![edges[k - 1].1]
        } else {
            Seq::empty()
        }
    }
}

/// Without parallel edges the targets of one node are pairwise
/// distinct, and each comes from an edge that leaves it.
proof fn lemma_targets_no_dups(edges: Seq<(usize, usize)>, cur: usize, k: int)
    requires
        edges.no_duplicates(),
        k <= edges.len(),
    ensures
        targets_of(edges, cur, k).no_duplicates(),
        forall|l: int|
            0 <= l < targets_of(edges, cur, k).len() ==> has_edge(
                edges,
                cur,
                #[trigger] targets_of(edges, cur, k)[l],
            ),
    decreases k,
{
    if k <= 0 {
    } else {
        lemma_targets_no_dups(edges, cur, k - 1);
        let prev = targets_of(edges, cur, k - 1);
        if edges[k - 1].0 == cur {
            let y = edges[k - 1].1;
            assert(has_edge(edges, cur, y));
            let t = prev + seq![y];
            assert(!prev.contains(y)) by {
                if prev.contains(y) {
                    let l = choose|l: int| 0 <= l < prev.len() && prev[l] == y;
                    assert(has_edge(edges, cur, y));
                    // hunt the earlier edge index for this target
                    lemma_targets_from_edges(edges, cur, k - 1, l);
                }
            }
            assert forall|a: int, b: int| 0 <= a < b < t.len() implies t[a] != t[b] by {
                if b < prev.len() {
                } else {
                    assert(t[b] == y);
                    assert(prev.contains(t[a])) by {
                        assert(prev[a] == t[a]);
                    }
                }
            }
            assert(t.no_duplicates());
        } else {
            assert(prev + Seq::<usize>::empty() =~= prev);
        }
    }
}

/// Each target of the first `k` matching edges comes from a distinct
/// edge index below `k`; two equal targets would need one pair twice.
proof fn lemma_targets_from_edges(edges: Seq<(usize, usize)>, cur: usize, k: int, l: int)
    requires
        edges.no_duplicates(),
        k <= edges.len(),
        0 <= l < targets_of(edges, cur, k).len(),
    ensures
        exists|e: int|
            0 <= e < k && #[trigger] edges[e] == (cur, targets_of(edges, cur, k)[l]) && !targets_of(
                edges,
                cur,
                e,
            ).contains(targets_of(edges, cur, k)[l]),
    decreases k,
{
    let t = targets_of(edges, cur, k);
    let prev = targets_of(edges, cur, k - 1);
    if l < prev.len() {
        lemma_targets_from_edges(edges, cur, k - 1, l);
        let e = choose|e: int|
            0 <= e < k - 1 && #[trigger] edges[e] == (cur, prev[l]) && !targets_of(
                edges,
                cur,
                e,
            ).contains(prev[l]);
        assert(t[l] == prev[l]);
        assert(edges[e] == (cur, t[l]));
    } else {
        assert(edges[k - 1].0 == cur);
        assert(t[l] == edges[k - 1].1);
        lemma_targets_no_dups(edges, cur, k - 1);
        if targets_of(edges, cur, k - 1).contains(t[l]) {
            let m = choose|m: int| 0 <= m < prev.len() && prev[m] == t[l];
            lemma_targets_from_edges(edges, cur, k - 1, m);
            let e = choose|e: int|
                0 <= e < k - 1 && #[trigger] edges[e] == (cur, prev[m]) && !targets_of(
                    edges,
                    cur,
                    e,
                ).contains(prev[m]);
            assert(edges[e] == edges[k - 1]);
            assert(false);
        }
        assert(edges[k - 1] == (cur, t[l]));
    }
}

/// The roots among the nodes below `k`, in ascending node order.
pub open spec fn roots_prefix(edges: Seq<(usize, usize)>, n: nat, k: int) -> Seq<usize>
    decreases k,
{
    if k <= 0 {
        Seq::empty()
    } else {
        roots_prefix(edges, n, k - 1) + if is_root(edges, n, (k - 1) as usize) {
            seq![(k - 1) as usize]
        } else {
            Seq::empty()
        }
    }
}

/// One duplicate-removal pass: every later copy of the entry at `w` is
/// dropped.
pub open spec fn dedup_pass(s: Seq<usize>, w: int) -> Seq<usize> {
    if 0 <= w < s.len() {
        s.take(w + 1) + keep_non(s.skip(w + 1), s[w])
    } else {
        s
    }
}

/// The first `j` duplicate-removal passes, in order.
pub open spec fn dedup_upto(s: Seq<usize>, j: int) -> Seq<usize>
    decreases j,
{
    if j <= 0 {
        s
    } else {
        dedup_pass(dedup_upto(s, j - 1), j - 1)
    }
}

/// One scan step at position `i`: the entry's successors are appended
/// in edge order, then each already-scanned position runs one
/// duplicate-removal pass.
pub open spec fn scan_step(edges: Seq<(usize, usize)>, ord: Seq<usize>, i: int) -> Seq<usize> {
    dedup_upto(ord + targets_of(edges, ord[i], edges.len() as int), i)
}

/// The whole scan from position `i`.  The fuel only serves the
/// definition: the scanned prefix never repeats an entry, so `n + 1`
/// steps are always enough.
pub open spec fn scan_loop(edges: Seq<(usize, usize)>, ord: Seq<usize>, i: int, fuel: nat) -> Seq<
    usize,
>
    decreases fuel,
{
    if fuel == 0 || i >= ord.len() {
        ord
    } else {
        scan_loop(edges, scan_step(edges, ord, i), i + 1, (fuel - 1) as nat)
    }
}

/// The evaluation order as a function of the topology alone: seed the
/// roots in ascending order, scan, strip the sentinels, and force them
/// to the front and the back.  [`compute_order`] returns exactly this,
/// which is the determinism the recomputation promises.
pub open spec fn order_spec(edges: Seq<(usize, usize)>, n: nat, ig: usize, og: usize) -> Seq<
    usize,
> {
    let scanned = scan_loop(edges, roots_prefix(edges, n, n as int), 0, (n + 1) as nat);
    seq![ig] + keep_non(keep_non(scanned, ig), og) + seq![og]
}

/// What every recomputation guarantees: the input-gain sentinel first,
/// the output-gain sentinel last, no node twice, and every other entry
/// a non-sentinel node reachable from a root.  Every root is present.
pub open spec fn order_sound(
    ord: Seq<usize>,
    edges: Seq<(usize, usize)>,
    n: nat,
    ig: usize,
    og: usize,
) -> bool {
    &&& ord.len() >= 2
    &&& ord[0] == ig
    &&& ord[ord.len() - 1] == og
    &&& ord.no_duplicates()
    &&& forall|j: int|
        0 <= j < ord.len() ==> ((#[trigger] ord[j]) as nat) < n
    &&& forall|j: int|
        0 <= j < ord.len() ==> ord[j] == ig || ord[j] == og || (reachable(edges, n, #[trigger] ord[j]) && ord[j] != ig && ord[j] != og)
}

/// Completeness: every node reachable from a root is scheduled.  On
/// graphs where a node has several predecessors the scan can drop a
/// queued duplicate before its successors were appended, so this is
/// guaranteed only with at most one predecessor per node.
pub open spec fn order_complete(ord: Seq<usize>, edges: Seq<(usize, usize)>, n: nat) -> bool {
    forall|v: usize| reachable(edges, n, v) ==> ord.contains(v)
}

/// Whether any edge ends at `v`.
fn node_has_incoming(edges: &Vec<(usize, usize)>, v: usize) -> (r: bool)
    ensures
        r == !(forall|k: int| 0 <= k < edges@.len() ==> (#[trigger] edges@[k]).1 != v),
{
    let mut e: usize = 0;
    while e < edges.len()
        invariant
            e <= edges@.len(),
            forall|k: int| 0 <= k < e ==> (#[trigger] edges@[k]).1 != v,
        decreases edges@.len() - e,
    {
        if edges[e].1 == v {
            return true;
        }
        e = e + 1;
    }
    false
}

/// Recomputes the evaluation order for the given topology.
#[verifier::loop_isolation(false)]
#[verifier::rlimit(60)]
pub fn compute_order(edges: &Vec<(usize, usize)>, n: usize, ig: usize, og: usize) -> (r: Vec<
    usize,
>)
    requires
        edges_ok(edges@, n as nat),
        edges@.no_duplicates(),
        ig < n,
        og < n,
        ig != og,
    ensures
        order_sound(r@, edges@, n as nat, ig, og),
        indeg_le_one(edges@) ==> order_complete(r@, edges@, n as nat),
        r@ == order_spec(edges@, n as nat, ig, og),
{
    let ghost nn = n as nat;
    // Seed the queue with every root, in ascending node order.
    let mut ord: Vec<usize> = Vec::new();
    let mut v: usize = 0;
    proof {
        assert(ord@ =~= roots_prefix(edges@, nn, 0));
    }
    while v < n
        invariant
            v <= n,
            ord@ == roots_prefix(edges@, nn, v as int),
            forall|j: int| 0 <= j < ord@.len() ==> is_root(edges@, nn, #[trigger] ord@[j]),
            forall|x: usize| is_root(edges@, nn, x) && (x as int) < v ==> ord@.contains(x),
            forall|j: int| 0 <= j < ord@.len() ==> (#[trigger] ord@[j]) < v,
            ord@.no_duplicates(),
        decreases n - v,
    {
        let ghost before = ord@;
        if !node_has_incoming(edges, v) {
            ord.push(v);
            proof {
                assert(is_root(edges@, nn, v));
                assert(ord@ =~= before + seq![v]);
                assert(ord@ =~= roots_prefix(edges@, nn, v as int + 1));
            }
        } else {
            proof {
                assert(!is_root(edges@, nn, v));
                assert(ord@ =~= before + Seq::<usize>::empty());
                assert(ord@ =~= roots_prefix(edges@, nn, v as int + 1));
            }
        }
        proof {
            assert forall|x: usize| is_root(edges@, nn, x) && (x as int) < v + 1 implies
                ord@.contains(x) by {
                if (x as int) < v {
                    assert(before.contains(x));
                    let j = choose|j: int| 0 <= j < before.len() && before[j] == x;
                    assert(ord@[j] == x);
                } else {
                    assert(x == v);
                    assert(ord@[ord@.len() - 1] == v);
                }
            }
        }
        v = v + 1;
    }
    let ghost seeds: Seq<usize> = ord@;
    proof {
        assert forall|j: int| 0 <= j < ord@.len() implies reachable(edges@, nn, #[trigger] ord@[j])
            && ord@[j] < n by {
            lemma_root_reachable(edges@, nn, ord@[j]);
        }
    }
    // Walk the queue: append each scanned entry's successors, then
    // drop every later duplicate of an already-scanned entry.
    let mut i: usize = 0;
    while i < ord.len()
        invariant
            i <= ord@.len() + 1,
            i <= n + 1,
            scan_loop(edges@, ord@, i as int, (n + 1 - i) as nat) == scan_loop(
                edges@,
                seeds,
                0,
                (n + 1) as nat,
            ),
            forall|j: int| 0 <= j < ord@.len() ==> reachable(edges@, nn, #[trigger] ord@[j]),
            forall|j: int| 0 <= j < ord@.len() ==> (#[trigger] ord@[j]) < n,
            forall|x: usize| is_root(edges@, nn, x) ==> ord@.contains(x),
            forall|j: int, l: int|
                0 <= j < i - 1 && 0 <= l < ord@.len() && l != j ==> (#[trigger] ord@[l]) != (
                #[trigger] ord@[j]),
            indeg_le_one(edges@) ==> ord@.no_duplicates(),
            indeg_le_one(edges@) ==> forall|l: int|
                0 <= l < ord@.len() ==> is_root(edges@, nn, #[trigger] ord@[l]) || exists|j: int|
                    0 <= j < i && j < ord@.len() && has_edge(edges@, ord@[j], ord@[l]),
            indeg_le_one(edges@) ==> forall|j: int, e: int|
                0 <= j < i && 0 <= e < edges@.len() && (#[trigger] edges@[e]).0 == (
                #[trigger] ord@[j]) ==> ord@.contains(edges@[e].1),
        decreases n + 1 - i,
    {
        let cur: usize = ord[i];
        let ghost pre: Seq<usize> = ord@;
        proof {
            // the scanned prefix repeats no entry, so it cannot be
            // longer than the node count and the scan fuel never runs
            // out before the queue does
            assert(pre.take(i as int).no_duplicates()) by {
                assert forall|jj: int, l: int|
                    0 <= jj < l < pre.take(i as int).len() implies pre.take(i as int)[jj]
                    != pre.take(i as int)[l] by {
                    assert(pre[jj] != pre[l]);
                }
            }
            assert forall|l: int| 0 <= l < pre.take(i as int).len() implies ((
            #[trigger] pre.take(i as int)[l]) as nat) < nn by {
                assert(pre[l] < n);
            }
            lemma_distinct_bounded(pre.take(i as int), nn);
        }
        // Append every direct successor of the scanned entry.
        let mut e: usize = 0;
        proof {
            assert(pre + targets_of(edges@, cur, 0) =~= pre);
        }
        while e < edges.len()
            invariant
                e <= edges@.len(),
                ord@ == pre + targets_of(edges@, cur, e as int),
                forall|ee: int|
                    0 <= ee < e && (#[trigger] edges@[ee]).0 == cur ==> ord@.contains(
                        edges@[ee].1,
                    ),
            decreases edges@.len() - e,
        {
            let ghost snap = ord@;
            let ed: (usize, usize) = edges[e];
            if ed.0 == cur {
                ord.push(ed.1);
                proof {
                    assert(ord@[ord@.len() - 1] == ed.1);
                    assert(ord@ =~= pre + targets_of(edges@, cur, e + 1));
                }
            } else {
                proof {
                    assert(targets_of(edges@, cur, e + 1) =~= targets_of(edges@, cur, e as int));
                }
            }
            proof {
                assert forall|ee: int|
                    0 <= ee < e + 1 && (#[trigger] edges@[ee]).0 == cur implies ord@.contains(
                    edges@[ee].1,
                ) by {
                    if ee < e {
                        assert(snap.contains(edges@[ee].1));
                        let j = choose|j: int| 0 <= j < snap.len() && snap[j] == edges@[ee].1;
                        assert(ord@[j] == edges@[ee].1);
                    } else {
                        assert(ord@[ord@.len() - 1] == edges@[ee].1);
                    }
                }
            }
            e = e + 1;
        }
        let ghost mid: Seq<usize> = ord@;
        proof {
            lemma_targets_no_dups(edges@, cur, edges@.len() as int);
            assert(pre[i as int] == cur);
            assert(reachable(edges@, nn, cur));
            assert(mid.take(pre.len() as int) =~= pre);
            assert forall|l: int| 0 <= l < mid.len() implies reachable(edges@, nn, #[trigger] mid[l])
                && mid[l] < n by {
                if l < pre.len() {
                    assert(mid[l] == pre[l]);
                } else {
                    assert(has_edge(edges@, cur, mid[l])) by {
                        assert(mid[l] == targets_of(edges@, cur, edges@.len() as int)[l
                            - pre.len()]);
                    }
                    lemma_reach_step(edges@, nn, cur, mid[l]);
                    lemma_reachable_bound(edges@, nn, mid[l]);
                }
            }
            assert forall|x: usize| is_root(edges@, nn, x) implies mid.contains(x) by {
                assert(pre.contains(x));
                let j = choose|j: int| 0 <= j < pre.len() && pre[j] == x;
                assert(mid[j] == x);
            }
            // With at most one predecessor per node no duplicate is ever
            // queued: a successor's only predecessor is the entry being
            // scanned, which is scanned only once.
            if indeg_le_one(edges@) {
                let tg = targets_of(edges@, cur, edges@.len() as int);
                assert forall|l: int, m: int| 0 <= l < m < mid.len() implies mid[l] != mid[m] by {
                    if m < pre.len() {
                    } else {
                        assert(mid[m] == tg[m - pre.len()]);
                        assert(has_edge(edges@, cur, mid[m]));
                        if l < pre.len() {
                            if mid[l] == mid[m] {
                                let y = mid[m];
                                assert(pre[l] == y);
                                assert(!is_root(edges@, nn, y)) by {
                                    let k = choose|k: int|
                                        0 <= k < edges@.len() && #[trigger] edges@[k] == (cur, y);
                                    assert(edges@[k].1 == y);
                                }
                                let j = choose|j: int|
                                    0 <= j < i && j < pre.len() && has_edge(edges@, pre[j], y);
                                let k1 = choose|k: int|
                                    0 <= k < edges@.len() && #[trigger] edges@[k] == (pre[j], y);
                                let k2 = choose|k: int|
                                    0 <= k < edges@.len() && #[trigger] edges@[k] == (cur, y);
                                assert(edges@[k1].1 == y && edges@[k2].1 == y);
                                assert(pre[j] == cur);
                                assert(pre[i as int] == cur);
                                assert(false);
                            }
                        } else {
                            assert(mid[l] == tg[l - pre.len()]);
                            assert(tg[l - pre.len()] != tg[m - pre.len()]);
                        }
                    }
                }
                assert(mid.no_duplicates());
            }
        }
        // Remove every later duplicate of each already-scanned entry.
        let mut j: usize = 0;
        while j < i
            invariant
                j <= i,
                i <= ord@.len(),
                ord@ == dedup_upto(mid, j as int),
                ord@.take(i as int) == mid.take(i as int),
                forall|x: usize| ord@.contains(x) <==> mid.contains(x),
                forall|l: int| 0 <= l < ord@.len() ==> reachable(edges@, nn, #[trigger] ord@[l])
                    && ord@[l] < n,
                forall|jj: int, l: int|
                    0 <= jj < j && 0 <= l < ord@.len() && l != jj ==> (#[trigger] ord@[l]) != (
                    #[trigger] ord@[jj]),
                indeg_le_one(edges@) ==> ord@ == mid,
            decreases i - j,
        {
            let ghost before = ord@;
            remove_dups(&mut ord, j);
            proof {
                let x = before[j as int];
                assert(ord@ == dedup_pass(before, j as int));
                assert(ord@ == dedup_upto(mid, j as int + 1));
                lemma_keep_non_membership(before.skip(j + 1), x);
                lemma_keep_non_concat(before.take(j + 1), before.skip(j + 1), x);
                // prefix up to i is untouched: every removed entry sits at
                // or after position i, because the scanned prefix held no
                // duplicate of the entry at `j`.
                assert(before =~= before.take(j + 1) + before.skip(j + 1));
                assert forall|l: int| j + 1 <= l < i implies before[l] != x by {
                    if j < i - 1 {
                        assert(before.take(i as int)[l] == mid.take(i as int)[l]);
                    }
                }
                // the suffix before position i survives the filter intact
                assert(before.skip(j + 1).take(i - 1 - j) =~= before.subrange(j + 1, i as int));
                assert(!before.subrange(j + 1, i as int).contains(x)) by {
                    if before.subrange(j + 1, i as int).contains(x) {
                        let l = choose|l: int|
                            0 <= l < i - 1 - j && #[trigger] before.subrange(j + 1, i as int)[l]
                                == x;
                        assert(before[j + 1 + l] == x);
                    }
                }
                lemma_keep_non_absent(before.subrange(j + 1, i as int), x);
                assert(before.skip(j + 1) =~= before.subrange(j + 1, i as int) + before.skip(
                    i as int,
                ));
                lemma_keep_non_concat(
                    before.subrange(j + 1, i as int),
                    before.skip(i as int),
                    x,
                );
                assert(ord@ =~= before.take(i as int) + keep_non(before.skip(i as int), x));
                assert(ord@.take(i as int) =~= before.take(i as int));
                lemma_keep_non_membership(before.skip(i as int), x);
                // membership is preserved: dropped entries equal the kept
                // entry at position j.
                assert forall|y: usize| before.contains(y) implies ord@.contains(y) by {
                    let l = choose|l: int| 0 <= l < before.len() && before[l] == y;
                    if l < i {
                        assert(ord@[l] == y);
                    } else if y == x {
                        assert(ord@[j as int] == y);
                    } else {
                        assert(before.skip(i as int)[l - i] == y);
                        assert(before.skip(i as int).contains(y));
                        assert(keep_non(before.skip(i as int), x).contains(y));
                        let m = choose|m: int|
                            0 <= m < keep_non(before.skip(i as int), x).len() && keep_non(
                                before.skip(i as int),
                                x,
                            )[m] == y;
                        assert(ord@[i + m] == y);
                    }
                }
                assert forall|y: usize| ord@.contains(y) implies before.contains(y) by {
                    let l = choose|l: int| 0 <= l < ord@.len() && ord@[l] == y;
                    if l < i {
                        assert(before[l] == y);
                    } else {
                        assert(keep_non(before.skip(i as int), x)[l - i] == y);
                        assert(before.skip(i as int).contains(y));
                        let m = choose|m: int|
                            0 <= m < before.skip(i as int).len() && before.skip(i as int)[m] == y;
                        assert(before[i + m] == y);
                    }
                }
                // the scanned entries up to and including j are now unique
                assert forall|jj: int, l: int|
                    0 <= jj < j + 1 && 0 <= l < ord@.len() && l != jj implies (#[trigger] ord@[l])
                    != (#[trigger] ord@[jj]) by {
                    if jj < j {
                        assert(ord@[jj] == before[jj]);
                        if l < i {
                            assert(ord@[l] == before[l]);
                        } else {
                            let y = ord@[l];
                            assert(keep_non(before.skip(i as int), x)[l - i] == y);
                            assert(before.skip(i as int).contains(y));
                            let m = choose|m: int|
                                0 <= m < before.skip(i as int).len() && before.skip(i as int)[m]
                                    == y;
                            assert(before[i + m] == y);
                            assert(i + m != jj);
                        }
                    } else {
                        assert(jj == j);
                        assert(ord@[jj] == x);
                        if l < i {
                            if l < j {
                                assert(ord@[l] == before[l]);
                                assert(before[l] != before[j as int]);
                            } else {
                                assert(ord@[l] == before[l]);
                            }
                        } else {
                            let y = ord@[l];
                            assert(keep_non(before.skip(i as int), x)[l - i] == y);
                        }
                    }
                }
                if indeg_le_one(edges@) {
                    assert(before == mid);
                    assert(!before.skip(j + 1).contains(x)) by {
                        if before.skip(j + 1).contains(x) {
                            let l = choose|l: int|
                                0 <= l < before.skip(j + 1).len() && #[trigger] before.skip(
                                    j + 1,
                                )[l] == x;
                            assert(before[j + 1 + l] == x);
                            assert(before[j as int] == x);
                        }
                    }
                    lemma_keep_non_absent(before.skip(j + 1), x);
                    assert(ord@ =~= before);
                }
            }
            j = j + 1;
        }
        proof {
            // the state now matches one functional scan step, which
            // moves the whole-scan equation forward one position
            assert(ord@ == dedup_upto(mid, i as int));
            assert(mid == pre + targets_of(edges@, cur, edges@.len() as int));
            assert(cur == pre[i as int]);
            assert(ord@ == scan_step(edges@, pre, i as int));
            assert(scan_loop(edges@, pre, i as int, (n + 1 - i) as nat) == scan_loop(
                edges@,
                ord@,
                i as int + 1,
                (n - i) as nat,
            ));
            // the scanned prefix is duplicate-free, so it cannot be longer
            // than the node count
            assert(ord@.take(i as int).no_duplicates()) by {
                assert forall|jj: int, l: int|
                    0 <= jj < l < ord@.take(i as int).len() implies ord@.take(i as int)[jj]
                    != ord@.take(i as int)[l] by {
                    assert(ord@[jj] != ord@[l]);
                }
            }
            assert forall|l: int| 0 <= l < ord@.take(i as int).len() implies ((
            #[trigger] ord@.take(i as int)[l]) as nat) < nn by {
                assert(ord@[l] < n);
            }
            lemma_distinct_bounded(ord@.take(i as int), nn);
            // every root is still queued
            assert forall|x: usize| is_root(edges@, nn, x) implies ord@.contains(x) by {
                assert(mid.contains(x));
            }
            // each queued entry is still justified by a scanned one
            if indeg_le_one(edges@) {
                assert forall|l: int| 0 <= l < ord@.len() implies is_root(
                    edges@,
                    nn,
                    #[trigger] ord@[l],
                ) || exists|jw: int|
                    0 <= jw < i + 1 && jw < ord@.len() && has_edge(edges@, ord@[jw], ord@[l]) by {
                    assert(ord@ == mid);
                    if l < pre.len() {
                        assert(mid.take(pre.len() as int)[l] == pre[l]);
                        assert(mid[l] == pre[l]);
                        if !is_root(edges@, nn, pre[l]) {
                            let jw = choose|jw: int|
                                0 <= jw < i && jw < pre.len() && has_edge(
                                    edges@,
                                    pre[jw],
                                    pre[l],
                                );
                            assert(mid.take(pre.len() as int)[jw] == pre[jw]);
                            assert(has_edge(edges@, ord@[jw], ord@[l]));
                        }
                    } else {
                        assert(mid[l] == targets_of(edges@, cur, edges@.len() as int)[l
                            - pre.len()]);
                        assert(has_edge(edges@, cur, mid[l]));
                        assert(mid.take(pre.len() as int)[i as int] == pre[i as int]);
                        assert(ord@[i as int] == cur);
                    }
                }
            }
            // scanned successors stay present for the scan-closure claim
            if indeg_le_one(edges@) {
                assert forall|jx: int, ex: int|
                    0 <= jx < i + 1 && 0 <= ex < edges@.len() && (#[trigger] edges@[ex]).0 == (
                    #[trigger] ord@[jx]) implies ord@.contains(edges@[ex].1) by {
                    assert(ord@ == mid);
                    if jx < i {
                        assert(ord@.take(i as int)[jx] == mid.take(i as int)[jx]);
                        assert(pre.len() >= i);
                        assert(pre.take(i as int) == mid.take(i as int)) by {
                            assert(mid.take(pre.len() as int) == pre);
                            assert forall|q: int| 0 <= q < i implies pre.take(i as int)[q]
                                == mid.take(i as int)[q] by {
                                assert(mid.take(pre.len() as int)[q] == pre[q]);
                            }
                            assert(pre.take(i as int) =~= mid.take(i as int));
                        }
                        assert(pre[jx] == ord@[jx]);
                        assert(pre.contains(edges@[ex].1) ==> mid.contains(edges@[ex].1));
                        if jx < i {
                            // either this entry was scanned in an earlier pass
                            // or it is the entry scanned now
                            if pre[jx] == cur {
                                assert(mid.contains(edges@[ex].1));
                            } else {
                                assert(pre.contains(edges@[ex].1)) by {
                                    assert(ord@[jx] == pre[jx]);
                                }
                                let q = choose|q: int|
                                    0 <= q < pre.len() && pre[q] == edges@[ex].1;
                                assert(mid[q] == edges@[ex].1);
                            }
                        }
                    } else {
                        assert(jx == i);
                        assert(ord@[jx] == mid[jx]);
                        assert(mid[i as int] == pre[i as int]) by {
                            assert(mid.take(pre.len() as int)[i as int] == pre[i as int]);
                        }
                        assert(ord@[jx] == cur);
                        assert(mid.contains(edges@[ex].1));
                    }
                }
            }
        }
        i = i + 1;
    }
    let ghost scanned: Seq<usize> = ord@;
    proof {
        assert(scanned == scan_loop(edges@, seeds, 0, (n + 1) as nat)) by {
            assert(scan_loop(edges@, scanned, i as int, (n + 1 - i) as nat) == scanned);
        }
        assert(scanned.no_duplicates()) by {
            assert forall|j: int, l: int| 0 <= j < l < scanned.len() implies scanned[j]
                != scanned[l] by {
                assert(j < i - 1);
            }
        }
        if indeg_le_one(edges@) {
            assert forall|vx: usize| reachable(edges@, nn, vx) implies scanned.contains(vx) by {
                let fuel = choose|fuel: nat| reach_k(edges@, nn, vx, fuel);
                assert forall|a: usize, b: usize|
                    scanned.contains(a) && #[trigger] has_edge(edges@, a, b) implies
                    scanned.contains(b) by {
                    let jp = choose|jp: int| 0 <= jp < scanned.len() && scanned[jp] == a;
                    let ke = choose|k: int|
                        0 <= k < edges@.len() && #[trigger] edges@[k] == (a, b);
                    assert(edges@[ke].0 == scanned[jp]);
                }
                lemma_reach_in_closed(edges@, nn, scanned, vx, fuel);
            }
        }
    }
    // Force the sentinels to the front and the back.
    let mut middle: Vec<usize> = Vec::new();
    let mut p: usize = 0;
    proof {
        assert(scanned.take(0) =~= Seq::<usize>::empty());
        assert(keep_non(keep_non(scanned.take(0), ig), og) =~= Seq::<usize>::empty());
    }
    while p < ord.len()
        invariant
            p <= ord@.len(),
            ord@ == scanned,
            middle@ == keep_non(keep_non(scanned.take(p as int), ig), og),
        decreases ord@.len() - p,
    {
        let y: usize = ord[p];
        proof {
            assert(scanned.take(p + 1) =~= scanned.take(p as int) + seq![y]);
            lemma_keep_non_concat(scanned.take(p as int), seq![y], ig);
            lemma_keep_non_singleton(y, ig);
            if y != ig {
                lemma_keep_non_concat(keep_non(scanned.take(p as int), ig), seq![y], og);
                lemma_keep_non_singleton(y, og);
            } else {
                assert(keep_non(scanned.take(p as int), ig) + Seq::<usize>::empty()
                    =~= keep_non(scanned.take(p as int), ig));
            }
            if y != ig && (y == og) {
                assert(keep_non(keep_non(scanned.take(p as int), ig), og) + Seq::<usize>::empty()
                    =~= keep_non(keep_non(scanned.take(p as int), ig), og));
            }
        }
        if y != ig && y != og {
            middle.push(y);
        }
        p = p + 1;
    }
    proof {
        assert(scanned.take(scanned.len() as int) =~= scanned);
    }
    let mut result: Vec<usize> = Vec::new();
    result.push(ig);
    let mut q: usize = 0;
    while q < middle.len()
        invariant
            q <= middle@.len(),
            result@ == seq![ig] + middle@.take(q as int),
        decreases middle@.len() - q,
    {
        let y: usize = middle[q];
        result.push(y);
        proof {
            assert(result@ =~= seq![ig] + middle@.take(q + 1));
        }
        q = q + 1;
    }
    proof {
        assert(middle@.take(middle@.len() as int) =~= middle@);
    }
    result.push(og);
    proof {
        let fin = result@;
        let m = middle@;
        assert(fin =~= seq![ig] + m + seq![og]);
        lemma_keep_non_membership(scanned, ig);
        lemma_keep_non_membership(keep_non(scanned, ig), og);
        lemma_keep_non_no_dups(scanned, ig);
        lemma_keep_non_no_dups(keep_non(scanned, ig), og);
        assert(fin[0] == ig);
        assert(fin[fin.len() - 1] == og);
        // every middle entry is a non-sentinel entry of the scan
        assert forall|l: int| 0 <= l < m.len() implies scanned.contains(#[trigger] m[l]) && m[l]
            != ig && m[l] != og by {
            assert(keep_non(scanned, ig).contains(m[l]));
            let w = choose|w: int|
                0 <= w < keep_non(scanned, ig).len() && keep_non(scanned, ig)[w] == m[l];
        }
        assert(fin.no_duplicates()) by {
            assert forall|j: int, l: int| 0 <= j < l < fin.len() implies fin[j] != fin[l] by {
                if j == 0 {
                    if l < fin.len() - 1 {
                        assert(fin[l] == m[l - 1]);
                    }
                } else if l == fin.len() - 1 {
                    assert(fin[j] == m[j - 1]);
                } else {
                    assert(fin[j] == m[j - 1]);
                    assert(fin[l] == m[l - 1]);
                }
            }
        }
        assert forall|jf: int| 0 <= jf < fin.len() implies ((#[trigger] fin[jf]) as nat) < nn && (
        fin[jf] == ig || fin[jf] == og || (reachable(edges@, nn, fin[jf]) && fin[jf] != ig
            && fin[jf] != og)) by {
            if 0 < jf < fin.len() - 1 {
                assert(fin[jf] == m[jf - 1]);
                let w = choose|w: int| 0 <= w < scanned.len() && scanned[w] == m[jf - 1];
            }
        }
        // every root is kept: the sentinels stand at the ends and any
        // other root survives both filters
        assert forall|x: usize| is_root(edges@, nn, x) implies fin.contains(x) by {
            if x == ig {
                assert(fin[0] == x);
            } else if x == og {
                assert(fin[fin.len() - 1] == x);
            } else {
                assert(scanned.contains(x));
                assert(keep_non(scanned, ig).contains(x));
                assert(keep_non(keep_non(scanned, ig), og).contains(x));
                let w = choose|w: int| 0 <= w < m.len() && m[w] == x;
                assert(fin[w + 1] == x);
            }
        }
        if indeg_le_one(edges@) {
            assert forall|vx: usize| reachable(edges@, nn, vx) implies fin.contains(vx) by {
                if vx == ig {
                    assert(fin[0] == vx);
                } else if vx == og {
                    assert(fin[fin.len() - 1] == vx);
                } else {
                    assert(scanned.contains(vx));
                    assert(keep_non(scanned, ig).contains(vx));
                    assert(keep_non(keep_non(scanned, ig), og).contains(vx));
                    let w = choose|w: int| 0 <= w < m.len() && m[w] == vx;
                    assert(fin[w + 1] == vx);
                }
            }
        }
        // the result is exactly the functional recomputation
        assert(seeds == roots_prefix(edges@, nn, nn as int));
        assert(m == keep_non(keep_non(scanned, ig), og));
        assert(fin =~= seq![ig] + keep_non(keep_non(scanned, ig), og) + seq![og]);
        assert(fin == order_spec(edges@, nn, ig, og));
    }
    result
}

} // verus!
