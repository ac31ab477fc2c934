//! The immutable identity of a node: its slot on the ring and its address.

use vstd::prelude::*;

verus! {

/// A node's identity, assigned at start-up and never changed.
#[derive(Debug)]
pub struct NodeInfo {
    /// The node's identifier on the ring, in `[0, 2^m)`.
    pub key_slot: u64,
    /// The node's network address, as `host:port`.
    pub addr: String,
}

/// The mathematical content of a `NodeInfo`.
pub struct NodeInfoView {
    pub key_slot: nat,
    pub addr: Seq<char>,
}

impl View for NodeInfo {
    type V = NodeInfoView;

    open spec fn view(&self) -> NodeInfoView {
        NodeInfoView { key_slot: self.key_slot as nat, addr: self.addr@ }
    }
}

impl NodeInfo {
    /// A copy of this identity.
    pub fn dup(&self) -> (r: Self)
        ensures
            r@ == self@,
    {
        NodeInfo { key_slot: self.key_slot, addr: self.addr.clone() }
    }
}

impl PartialEq for NodeInfo {
    /// Two identities are equal iff both fields match.
    fn eq(&self, other: &Self) -> (r: bool) {
        self.key_slot == other.key_slot && self.addr == other.addr
    }
}

impl vstd::std_specs::cmp::PartialEqSpecImpl for NodeInfo {
    open spec fn obeys_eq_spec() -> bool {
        true
    }

    open spec fn eq_spec(&self, other: &Self) -> bool {
        self@ == other@
    }
}

} // verus!
