//! Overlay-level laws: what the routing decisions guarantee on a ring whose
//! finger tables are consistent.
//!
//! A node's own contracts say what `lookup` and the handlers do with one
//! finger table. The laws here tie one node's table to the identifiers of
//! the whole ring: a relayed request for a slot in the node's immediate arc
//! is forwarded to the slot's owner with the relay flag cleared; a request
//! with the flag cleared is answered from the receiver's own state; and
//! every relayed hop either comes strictly closer to the target or reaches
//! its owner. For a slot beyond the immediate arc the relay-clearing test
//! can still fire early on small rings — the forwarded peer then answers
//! although it is not the owner — so no terminal claim is made there.

use vstd::prelude::*;

use vstd::arithmetic::power2::{lemma2_to64, lemma_pow2_pos, lemma_pow2_strictly_increases, pow2};

use crate::chord::ChordView;
use crate::node_info::NodeInfoView;
use crate::ring::{
    finger_target, lemma_dist_antisym, lemma_dist_chain, lemma_dist_compose, lemma_dist_inj,
    lemma_log2_below_width, lemma_log2_bounds, lemma_ring_dist_in_range, lemma_target_dist, log2,
    ring_dist, ring_size,
};
use crate::service::{route_spec, RouteView};

verus! {

/// Node identifier `s` owns key slot `x` among `nodes`: `s` is a node and
/// no node lies closer forward of `x`. The owner of `x` is the ring
/// successor of `x`; it stores the keys that hash to `x`.
pub open spec fn owns(nodes: Set<nat>, m: nat, x: nat, s: nat) -> bool {
    &&& nodes.contains(s)
    &&& forall|n: nat| #[trigger] nodes.contains(n) ==> ring_dist(m, x, s) <= ring_dist(m, x, n)
}

/// The overlay hypotheses the one-hop law rests on, tying one node's
/// routing state `c` to the identifier set `nodes` of the whole ring:
/// every identifier is on the ring and this node's is one of them; every
/// populated finger holds the ring node that owns the slot the finger aims
/// at; and no two fingers name distinct peers under one identifier.
pub open spec fn consistent_overlay<C>(c: ChordView<C>, nodes: Set<nat>) -> bool {
    &&& forall|n: nat| #[trigger] nodes.contains(n) ==> n < ring_size(c.m())
    &&& nodes.contains(c.me.key_slot)
    &&& forall|j: int|
        0 <= j < c.fingers.len() ==> match #[trigger] c.fingers[j] {
            Some(n) => nodes.contains(n.key_slot) && n.key_slot != c.me.key_slot && owns(
                nodes,
                c.m(),
                finger_target(c.m(), c.me.key_slot, j as nat),
                n.key_slot,
            ),
            None => true,
        }
    &&& forall|j1: int, j2: int|
        {
            &&& 0 <= j1 < c.fingers.len()
            &&& 0 <= j2 < c.fingers.len()
            &&& #[trigger] c.fingers[j1] is Some
            &&& #[trigger] c.fingers[j2] is Some
            &&& c.fingers[j1]->0.key_slot == c.fingers[j2]->0.key_slot
        } ==> c.fingers[j1] == c.fingers[j2]
}

/// Whatever lies in a node's immediate arc — forward of the node, no
/// farther than its successor — is owned by the successor.
proof fn lemma_arc_owned<C>(c: ChordView<C>, nodes: Set<nat>, x: nat)
    requires
        c.wf(),
        c.slot0_populated(),
        consistent_overlay(c, nodes),
        x < ring_size(c.m()),
        0 < ring_dist(c.m(), c.me.key_slot, x),
        ring_dist(c.m(), c.me.key_slot, x) <= ring_dist(
            c.m(),
            c.me.key_slot,
            c.fingers[0]->0.key_slot,
        ),
    ensures
        owns(nodes, c.m(), x, c.fingers[0]->0.key_slot),
{
    let m = c.m();
    let me = c.me.key_slot;
    let s = c.fingers[0]->0.key_slot;
    let t0 = finger_target(m, me, 0);
    let d = ring_dist(m, me, x);
    let ds = ring_dist(m, me, s);
    assert(c.fingers[0] matches Some(n) && n.key_slot < ring_size(m));
    assert(owns(nodes, m, t0, s));
    lemma2_to64();
    lemma_target_dist(m, me, 0);
    lemma_ring_dist_in_range(m, me, s);
    lemma_ring_dist_in_range(m, me, x);
    lemma_dist_chain(m, me, t0, s);
    lemma_dist_chain(m, me, x, s);
    assert forall|n: nat| #[trigger] nodes.contains(n) implies ring_dist(m, x, s) <= ring_dist(
        m,
        x,
        n,
    ) by {
        if n == me {
            lemma_dist_antisym(m, me, x);
        } else {
            lemma_ring_dist_in_range(m, me, n);
            lemma_dist_chain(m, me, t0, n);
            assert(ring_dist(m, t0, s) <= ring_dist(m, t0, n));
            lemma_dist_chain(m, me, x, n);
        }
    }
}

/// One-hop terminal routing. On a node whose finger table is consistent
/// with the overlay, a relayed request for a slot in the node's immediate
/// arc — forward of the node, no farther than its successor — is forwarded
/// to the slot's owner with the relay flag cleared. With
/// `lemma_relay_false_is_local` on the receiver and the local `GET`/`SET`
/// contracts, such a request returns exactly what the owner's own store
/// holds.
pub proof fn lemma_one_hop_terminal<C>(c: ChordView<C>, nodes: Set<nat>, slot: nat)
    requires
        c.wf(),
        c.slot0_populated(),
        consistent_overlay(c, nodes),
        slot < ring_size(c.m()),
        0 < ring_dist(c.m(), c.me.key_slot, slot),
        ring_dist(c.m(), c.me.key_slot, slot) <= ring_dist(
            c.m(),
            c.me.key_slot,
            c.fingers[0]->0.key_slot,
        ),
    ensures
        owns(nodes, c.m(), slot, c.fingers[0]->0.key_slot),
        route_spec(c, slot, true) == (RouteView::Forward { next: c.fingers[0]->0, relay: false }),
{
    let m = c.m();
    let me = c.me.key_slot;
    let succ = c.fingers[0]->0;
    let d = ring_dist(m, me, slot);
    lemma_arc_owned(c, nodes, slot);
    lemma_ring_dist_in_range(m, me, slot);
    lemma_ring_dist_in_range(m, me, succ.key_slot);
    lemma_log2_below_width(m, d);
    lemma_log2_bounds(d);
    let st = c.start_index(d) as int;
    assert(st == log2(d));
    assert forall|j: int|
        0 <= j <= st && #[trigger] c.fingers[j] is Some implies c.fingers[j] == Some(succ) by {
        let tj = finger_target(m, me, j as nat);
        lemma_target_dist(m, me, j as nat);
        lemma_pow2_pos(j as nat);
        if (j as nat) < log2(d) {
            lemma_pow2_strictly_increases(j as nat, log2(d));
        }
        lemma_arc_owned(c, nodes, tj);
        let nj = c.fingers[j]->0;
        assert(owns(nodes, m, tj, nj.key_slot));
        assert(owns(nodes, m, tj, succ.key_slot));
        assert(nodes.contains(nj.key_slot));
        assert(nodes.contains(succ.key_slot));
        assert(ring_dist(m, tj, nj.key_slot) == ring_dist(m, tj, succ.key_slot));
        lemma_ring_dist_in_range(m, me, tj);
        assert(nj.key_slot < ring_size(m));
        lemma_dist_inj(m, tj, nj.key_slot, succ.key_slot);
        assert(c.fingers[j] == c.fingers[0]);
    }
    lemma_first_populated_constant(c, st, succ);
    assert(c.fingers[0] == Some(succ));
}

/// Each relayed hop makes progress. On a node whose finger table is
/// consistent with the overlay, a forwarded request is handed to a peer
/// that is either strictly closer to the target slot than this node, or
/// already the slot's owner: relayed routing cannot circle the ring.
pub proof fn lemma_forward_step<C>(c: ChordView<C>, nodes: Set<nat>, slot: nat)
    requires
        c.wf(),
        c.slot0_populated(),
        consistent_overlay(c, nodes),
        slot < ring_size(c.m()),
        slot != c.me.key_slot,
    ensures
        route_spec(c, slot, true) matches RouteView::Forward { next, relay } ==> {
            ||| ring_dist(c.m(), next.key_slot, slot) < ring_dist(c.m(), c.me.key_slot, slot)
            ||| owns(nodes, c.m(), slot, next.key_slot)
        },
{
    let m = c.m();
    let me = c.me.key_slot;
    let d = ring_dist(m, me, slot);
    lemma_ring_dist_in_range(m, me, slot);
    lemma_log2_below_width(m, d);
    lemma_log2_bounds(d);
    let st = c.start_index(d) as int;
    assert(st == log2(d));
    crate::chord::lemma_first_populated_some(c, st);
    crate::chord::lemma_first_populated_entry(c, st);
    let next = c.lookup_spec(slot)->0;
    let j = choose|j: int| 0 <= j <= st && c.fingers[j] == Some(next);
    let tj = finger_target(m, me, j as nat);
    lemma_target_dist(m, me, j as nat);
    lemma_pow2_pos(j as nat);
    if (j as nat) < log2(d) {
        lemma_pow2_strictly_increases(j as nat, log2(d));
    }
    assert(pow2(j as nat) <= d);
    assert(owns(nodes, m, tj, next.key_slot));
    assert(nodes.contains(next.key_slot));
    assert(next.key_slot < ring_size(m));
    assert(next.key_slot != me);
    lemma_ring_dist_in_range(m, me, tj);
    assert(tj != me);
    lemma_dist_antisym(m, me, tj);
    assert(nodes.contains(me));
    assert(ring_dist(m, tj, next.key_slot) <= ring_dist(m, tj, me));
    if ring_dist(m, tj, next.key_slot) == ring_dist(m, tj, me) {
        lemma_dist_inj(m, tj, next.key_slot, me);
    }
    lemma_dist_compose(m, me, tj, next.key_slot);
    let dn = ring_dist(m, me, next.key_slot);
    if dn <= d {
        lemma_dist_chain(m, me, next.key_slot, slot);
        assert(ring_dist(m, next.key_slot, slot) < d);
    } else {
        lemma_dist_chain(m, me, tj, slot);
        assert(ring_dist(m, tj, slot) < ring_dist(m, tj, next.key_slot));
        assert forall|n: nat| #[trigger] nodes.contains(n) implies ring_dist(
            m,
            slot,
            next.key_slot,
        ) <= ring_dist(m, slot, n) by {
            assert(n < ring_size(m));
            assert(ring_dist(m, tj, next.key_slot) <= ring_dist(m, tj, n));
            lemma_dist_chain(m, tj, slot, n);
            lemma_dist_chain(m, tj, slot, next.key_slot);
        }
    }
}

proof fn lemma_first_populated_constant<C>(c: ChordView<C>, i: int, v: NodeInfoView)
    requires
        0 <= i < c.fingers.len(),
        c.slot0_populated(),
        forall|j: int| 0 <= j <= i && #[trigger] c.fingers[j] is Some ==> c.fingers[j] == Some(v),
    ensures
        c.first_populated(i) == Some(v),
    decreases i,
{
    if c.fingers[i] is None {
        lemma_first_populated_constant(c, i - 1, v);
    }
}

/// A request arriving with the relay flag cleared is answered from the
/// receiver's own state, whatever that node's routing state holds.
pub proof fn lemma_relay_false_is_local<C>(c: ChordView<C>, slot: nat)
    ensures
        route_spec(c, slot, false) == RouteView::Local,
{
}

/// A `SET` of a key followed by a `GET` of the same key against one store
/// returns exactly the value set, byte for byte: last write wins. The maps
/// here are the stores' views, as the `Storage` contracts state them.
pub proof fn lemma_set_then_get(table: Map<Seq<char>, Seq<u8>>, key: Seq<char>, value: Seq<u8>)
    ensures
        table.insert(key, value).contains_key(key),
        table.insert(key, value)[key] == value,
{
}

} // verus!
