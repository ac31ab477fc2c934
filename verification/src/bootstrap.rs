//! The decisions of the one-shot bootstrap routine.
//!
//! Bootstrap first installs the seed successor in slot 0, then fills slots
//! `1..m-1` in order: for each slot it computes the target
//! `(key_slot + 2^i) mod 2^m`, asks the local router for a candidate, and
//! either reuses the candidate as it stands or plans a relayed lookup
//! through the candidate's cached connection. The network steps — dialling,
//! `WHOIS`, the relayed `LOOKUP` — are the caller's; the decisions and the
//! installs are here.

use vstd::prelude::*;

use crate::chord::{lemma_lookup_in_table, lemma_lookup_some, Chord, ChordView};
use crate::node_info::{NodeInfo, NodeInfoView};
use crate::ring::{finger_target, finger_target_u64, ring_size};
use vstd::pervasive::unreached;

verus! {

/// The ring-containment test that decides whether the candidate the local
/// router proposed for `target` can fill the slot as it stands, sparing a
/// network round-trip. `prev` is the preceding stride position,
/// `target / 2`. The test is a heuristic: a false negative costs one
/// relayed lookup, never correctness, since the queried path is always
/// sound.
pub open spec fn reuse_spec(prev: nat, target: nat, suc_key: nat) -> bool {
    ||| prev < suc_key && target <= suc_key
    ||| prev > suc_key && (target <= suc_key || target > prev)
}

/// The ring-containment test on machine integers.
pub fn reuse_check(prev: u64, target: u64, suc_key: u64) -> (r: bool)
    ensures
        r == reuse_spec(prev as nat, target as nat, suc_key as nat),
{
    (prev < suc_key && target <= suc_key) || (prev > suc_key && (target <= suc_key || target
        > prev))
}

/// How to fill one finger slot.
pub enum FingerPlan {
    /// The candidate already fits: install it and reuse its connection.
    Reuse { node: NodeInfo },
    /// Relay a lookup for `target` through the candidate's cached
    /// connection, then dial whoever answers and install both.
    Query { target: u64 },
}

/// The mathematical content of a `FingerPlan`.
pub enum FingerPlanView {
    Reuse { node: NodeInfoView },
    Query { target: nat },
}

impl View for FingerPlan {
    type V = FingerPlanView;

    open spec fn view(&self) -> FingerPlanView {
        match *self {
            FingerPlan::Reuse { node } => FingerPlanView::Reuse { node: node@ },
            FingerPlan::Query { target } => FingerPlanView::Query { target: target as nat },
        }
    }
}

/// The plan for slot `i`: reuse the candidate the local router answers for
/// the slot's target iff the candidate passes the ring-containment test.
pub open spec fn plan_spec<C>(c: ChordView<C>, i: nat) -> FingerPlanView {
    let target = finger_target(c.m(), c.me.key_slot, i);
    let cand = c.lookup_spec(target)->0;
    if reuse_spec(target / 2, target, cand.key_slot) {
        FingerPlanView::Reuse { node: cand }
    } else {
        FingerPlanView::Query { target }
    }
}

/// Decide how to fill finger slot `i`. On a `Reuse` plan the node is one of
/// the table's entries, so `try_install_reused` accepts it while the slot
/// is empty; on a `Query` plan the target is on the ring and the local
/// router can route toward it.
pub fn plan_finger<C>(chord: &Chord<C>, i: u64) -> (p: FingerPlan)
    requires
        chord@.wf(),
        chord@.slot0_populated(),
        1 <= i < chord@.m(),
    ensures
        p@ == plan_spec(chord@, i as nat),
        p@ matches FingerPlanView::Reuse { node } ==> exists|j: int|
            0 <= j < chord@.fingers.len() && chord@.fingers[j] == Some(node),
        p@ matches FingerPlanView::Query { target } ==> target < ring_size(chord@.m())
            && target != chord@.me.key_slot,
    {
        let m = chord.m();
        let target = finger_target_u64(m, chord.info().key_slot, i);
        proof {
            lemma_lookup_some(chord@, target as nat);
            lemma_lookup_in_table(chord@, target as nat);
        }
        match chord.lookup(target) {
            Some(cand) => {
                if reuse_check(target / 2, target, cand.key_slot) {
                    FingerPlan::Reuse { node: cand }
                } else {
                    FingerPlan::Query { target }
                }
            },
            None => unreached(),
        }
    }

} // verus!
