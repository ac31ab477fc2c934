//! The decision core of the four RPC handlers: `WHOIS`, `LOOKUP`, `GET`,
//! `SET`.
//!
//! A request carries a relay flag: `true` means "route me using your finger
//! table", `false` means "answer authoritatively from your own state". Each
//! handler either serves from local state or forwards to the next hop; the
//! relay flag is cleared on a forward exactly when the next hop is the
//! immediate successor. The transport is the caller's: these functions only
//! decide, on plain values, and the caller performs any forward.

use vstd::prelude::*;

use crate::chord::{Chord, ChordView};
use crate::node_info::{NodeInfo, NodeInfoView};
use crate::ring::ring_size;
use crate::storage::Storage;
use vstd::pervasive::unreached;

verus! {

/// What a handler decides to do with a request aimed at ring slot `slot`.
pub enum RouteDecision {
    /// Answer from this node's own state.
    Local,
    /// Forward to `next`, sending `relay` along.
    Forward { next: NodeInfo, relay: bool },
    /// Slot 0 is not populated yet, so nothing can be routed: bootstrap has
    /// not completed, and the request fails as an RPC error.
    Unroutable,
}

/// The mathematical content of a `RouteDecision`.
pub enum RouteView {
    Local,
    Forward { next: NodeInfoView, relay: bool },
    Unroutable,
}

impl View for RouteDecision {
    type V = RouteView;

    open spec fn view(&self) -> RouteView {
        match *self {
            RouteDecision::Local => RouteView::Local,
            RouteDecision::Forward { next, relay } => RouteView::Forward {
                next: next@,
                relay,
            },
            RouteDecision::Unroutable => RouteView::Unroutable,
        }
    }
}

/// The routing decision for a request aimed at `slot` arriving with `relay`:
/// answer locally when the caller has already routed, when routing is
/// impossible, or when this node is the target itself; otherwise forward to
/// the best-known next hop, clearing the relay flag exactly when that hop is
/// the immediate successor.
pub open spec fn route_spec<C>(c: ChordView<C>, slot: nat, relay: bool) -> RouteView {
    if !relay {
        RouteView::Local
    } else if !c.slot0_populated() {
        RouteView::Unroutable
    } else if slot == c.me.key_slot {
        RouteView::Local
    } else {
        let next = c.lookup_spec(slot)->0;
        RouteView::Forward { next, relay: Some(next) != c.fingers[0] }
    }
}

/// Decide how to handle a request aimed at `slot`, arriving with `relay`.
pub fn route<C>(chord: &Chord<C>, slot: u64, relay: bool) -> (r: RouteDecision)
    requires
        chord@.wf(),
        slot < ring_size(chord@.m()),
    ensures
        r@ == route_spec(chord@, slot as nat, relay),
{
    if !relay {
        return RouteDecision::Local;
    }
    let successor = match chord.successor_node() {
        Some(s) => s.dup(),
        None => {
            return RouteDecision::Unroutable;
        },
    };
    if slot == chord.info().key_slot {
        return RouteDecision::Local;
    }
    match chord.lookup(slot) {
        Some(next) => {
            let forwarded_relay = next != successor;
            RouteDecision::Forward { next, relay: forwarded_relay }
        },
        None => unreached(),
    }
}

/// The `WHOIS` reply, and the `LOOKUP` reply when answering locally: this
/// node's own identity, with no side effect.
pub fn whois_reply(info: &NodeInfo) -> (r: NodeInfo)
    ensures
        r@ == info@,
{
    info.dup()
}

/// A `GET` answered from local state: the stored value, or the literal
/// `"Key not found"` in the error variant. A missing key is a success-path
/// outcome, not an RPC error.
pub enum GetReply {
    Value(Vec<u8>),
    Error(String),
}

/// Answer a `GET` from the local store.
pub fn get_local(store: &Storage, key: &String) -> (r: GetReply)
    ensures
        store@.contains_key(key@) ==> (r matches GetReply::Value(v) && v@ == store@[key@]),
        !store@.contains_key(key@) ==> (r matches GetReply::Error(e) && e@ == "Key not found"@),
{
    match store.get(key) {
        Some(value) => GetReply::Value(copy_bytes(value)),
        None => GetReply::Error("Key not found".to_owned()),
    }
}

/// Apply a `SET` to the local store: unconditional insert or overwrite,
/// always reported successful.
pub fn set_local(store: &mut Storage, key: String, value: Vec<u8>) -> (success: bool)
    ensures
        final(store)@ == old(store)@.insert(key@, value@),
        success,
{
    store.set(key, value);
    true
}

/// A fresh vector with the same bytes.
fn copy_bytes(v: &Vec<u8>) -> (r: Vec<u8>)
    ensures
        r@ == v@,
{
    let mut r: Vec<u8> = Vec::new();
    let n = v.len();
    let mut i: usize = 0;
    while i < n
        invariant
            n == v@.len(),
            i <= n,
            r@ == v@.subrange(0, i as int),
        decreases n - i,
    {
        r.push(v[i]);
        proof {
            assert(r@ =~= v@.subrange(0, i + 1));
        }
        i = i + 1;
    }
    proof {
        assert(r@ =~= v@);
    }
    r
}

} // verus!
