//! The routing state of one node: the finger table and the connection cache.
//!
//! Slot `i` of the finger table aims at the node responsible for
//! `(key_slot + 2^i) mod 2^m`. Slot 0 is the immediate successor and the only
//! slot lookup correctness depends on; higher slots accelerate routing. Every
//! populated slot is backed by a cached client connection, keyed by the
//! peer's address; the cache never holds a connection to a peer that no slot
//! names, and a node never stores itself as a finger.

use vstd::prelude::*;

use crate::dict::Dict;
use crate::node_info::{NodeInfo, NodeInfoView};
use crate::ring::{
    lemma_log2_below_width, lemma_ring_dist_in_range, log2, log2_u64, ring_dist, ring_dist_u64,
    ring_size, ring_size_u64,
};

verus! {

/// The spec-level content of a `NodeInfo` option.
pub open spec fn opt_view(o: Option<NodeInfo>) -> Option<NodeInfoView> {
    match o {
        Some(n) => Some(n@),
        None => None,
    }
}

/// The mathematical content of a router: the node's own identity, the finger
/// table, and which handle the cache holds for which address.
pub struct ChordView<C> {
    pub me: NodeInfoView,
    pub fingers: Seq<Option<NodeInfoView>>,
    pub conns: Map<Seq<char>, C>,
}

impl<C> ChordView<C> {
    /// Bit width of the ring; the table has one slot per bit.
    pub open spec fn m(&self) -> nat {
        self.fingers.len()
    }

    /// Everything routing relies on: a table width within machine range,
    /// identifiers on the ring, and every populated finger distinct from the
    /// node itself and backed by a cached connection. The cache in turn only
    /// holds connections to peers that some slot names.
    pub open spec fn wf(&self) -> bool {
        &&& 1 <= self.m() <= 63
        &&& self.me.key_slot < ring_size(self.m())
        &&& forall|i: int|
            0 <= i < self.fingers.len() ==> match #[trigger] self.fingers[i] {
                Some(n) => {
                    &&& n.key_slot < ring_size(self.m())
                    &&& n != self.me
                    &&& self.conns.contains_key(n.addr)
                },
                None => true,
            }
        &&& forall|a: Seq<char>|
            #[trigger] self.conns.contains_key(a) ==> exists|i: int|
                0 <= i < self.fingers.len() && (#[trigger] self.fingers[i] matches Some(n) && n.addr == a)
    }

    /// Whether the immediate successor is known.
    pub open spec fn slot0_populated(&self) -> bool {
        self.fingers[0] is Some
    }

    /// The first populated slot at or below `i`.
    pub open spec fn first_populated(&self, i: int) -> Option<NodeInfoView>
        decreases i + 1,
    {
        if i < 0 {
            None
        } else if self.fingers[i] is Some {
            self.fingers[i]
        } else {
            self.first_populated(i - 1)
        }
    }

    /// The slot the downward walk starts at for forward distance `d`:
    /// the largest finger stride that does not overshoot, capped at the
    /// table's top slot.
    pub open spec fn start_index(&self, d: nat) -> nat {
        if log2(d) < self.m() - 1 {
            log2(d)
        } else {
            (self.m() - 1) as nat
        }
    }

    /// The node `lookup` answers for target `k`: self when `k` is the node's
    /// own slot, otherwise the first populated slot at or below the start
    /// index for the forward distance to `k`.
    pub open spec fn lookup_spec(&self, k: nat) -> Option<NodeInfoView> {
        if k == self.me.key_slot {
            Some(self.me)
        } else {
            self.first_populated(
                self.start_index(ring_dist(self.m(), self.me.key_slot, k)) as int,
            )
        }
    }
}

/// The routing state of one node. `C` is the caller's client-handle type;
/// the library stores and hands out handles but never looks inside one.
pub struct Chord<C> {
    info: NodeInfo,
    fingers: Vec<Option<NodeInfo>>,
    conns: Dict<C>,
}

impl<C> View for Chord<C> {
    type V = ChordView<C>;

    closed spec fn view(&self) -> ChordView<C> {
        ChordView {
            me: self.info@,
            fingers: self.fingers@.map_values(|f: Option<NodeInfo>| opt_view(f)),
            conns: self.conns@,
        }
    }
}

impl<C> Chord<C> {
    /// A fresh router for `node` on a ring of bit width `m`: `m` empty
    /// finger slots and no connections.
    pub fn new(node: NodeInfo, m: u64) -> (r: Self)
        requires
            1 <= m <= 63,
            node.key_slot < ring_size(m as nat),
        ensures
            r@.wf(),
            r@.me == node@,
            r@.m() == m,
            forall|i: int| 0 <= i < m ==> r@.fingers[i] is None,
            r@.conns == Map::<Seq<char>, C>::empty(),
    {
        let mut fingers: Vec<Option<NodeInfo>> = Vec::new();
        let mut i: u64 = 0;
        while i < m
            invariant
                i <= m,
                fingers@.len() == i,
                forall|j: int| 0 <= j < i ==> fingers@[j] is None,
            decreases m - i,
        {
            fingers.push(None);
            i = i + 1;
        }
        let r = Chord { info: node, fingers, conns: Dict::new() };
        proof {
            assert(forall|j: int| 0 <= j < m ==> r@.fingers[j] is None);
        }
        r
    }

    /// The best-known next hop for target `k`: self when `k` is the node's
    /// own slot, otherwise the farthest known peer whose stride does not
    /// overshoot `k`. With slot 0 populated this always answers.
    pub fn lookup(&self, key: u64) -> (r: Option<NodeInfo>)
        requires
            self@.wf(),
            self@.slot0_populated(),
            key < ring_size(self@.m()),
        ensures
            opt_view(r) == self@.lookup_spec(key as nat),
            r is Some,
    {
        proof {
            lemma_lookup_some(self@, key as nat);
        }
        if key == self.info.key_slot {
            return Some(self.info.dup());
        }
        let m = self.fingers.len() as u64;
        let d = ring_dist_u64(m, self.info.key_slot, key);
        proof {
            lemma_ring_dist_in_range(self@.m(), self@.me.key_slot, key as nat);
            lemma_log2_below_width(self@.m(), d as nat);
        }
        let li = log2_u64(d);
        let start: u64 = if li < m - 1 {
            li
        } else {
            m - 1
        };
        let mut index: usize = start as usize;
        loop
            invariant
                self@.wf(),
                self@.slot0_populated(),
                0 <= index < self@.m(),
                self@.first_populated(start as int) == self@.first_populated(index as int),
                self@.lookup_spec(key as nat) == self@.first_populated(start as int),
            decreases index,
        {
            match &self.fingers[index] {
                Some(node) => {
                    return Some(node.dup());
                },
                None => {
                    assert(index != 0);
                },
            }
            index = index - 1;
        }
    }

    /// The cached connection to the node `lookup` answers for `k`.
    pub fn lookup_conn(&self, key: u64) -> (r: Option<&C>)
        requires
            self@.wf(),
            self@.slot0_populated(),
            key < ring_size(self@.m()),
        ensures
            self@.lookup_spec(key as nat) matches Some(n) ==> match r {
                Some(c) => self@.conns.contains_key(n.addr) && *c == self@.conns[n.addr],
                None => !self@.conns.contains_key(n.addr),
            },
    {
        match self.lookup(key) {
            Some(node) => self.conns.get(&node.addr),
            None => None,
        }
    }

    /// This node's identity.
    pub fn info(&self) -> (r: &NodeInfo)
        ensures
            r@ == self@.me,
    {
        &self.info
    }

    /// The bit width of the ring this router was built for.
    pub fn m(&self) -> (r: u64)
        requires
            self@.wf(),
        ensures
            r == self@.m(),
    {
        self.fingers.len() as u64
    }

    /// The content of finger slot `i`.
    pub fn finger_at(&self, i: usize) -> (r: Option<&NodeInfo>)
        requires
            i < self@.m(),
        ensures
            match r {
                Some(n) => self@.fingers[i as int] == Some(n@),
                None => self@.fingers[i as int] is None,
            },
    {
        self.fingers[i].as_ref()
    }

    /// Slot 0, the immediate successor, if populated.
    pub fn successor_node(&self) -> (r: Option<&NodeInfo>)
        requires
            self@.m() >= 1,
        ensures
            match r {
                Some(n) => self@.fingers[0] == Some(n@),
                None => self@.fingers[0] is None,
            },
    {
        self.fingers[0].as_ref()
    }

    /// Write slot `i` and cache the connection to the new peer under its
    /// address. Slots are only ever filled, never overwritten, so the cache
    /// keeps naming only peers that some slot holds.
    pub fn set_finger(&mut self, i: usize, node: NodeInfo, client: C)
        requires
            old(self)@.wf(),
            i < old(self)@.m(),
            old(self)@.fingers[i as int] is None,
            node.key_slot < ring_size(old(self)@.m()),
            node@ != old(self)@.me,
        ensures
            final(self)@.wf(),
            final(self)@.me == old(self)@.me,
            final(self)@.fingers == old(self)@.fingers.update(i as int, Some(node@)),
            final(self)@.conns == old(self)@.conns.insert(node@.addr, client),
    {
        let ghost pre = self@;
        let addr = node.addr.clone();
        self.fingers[i] = Some(node);
        self.conns.insert(addr, client);
        proof {
            assert(final(self)@.fingers =~= pre.fingers.update(i as int, Some(node@)));
            lemma_wf_after_set(pre, final(self)@, i as int, node@, client);
        }
    }

    /// Fill slot `i` with a peer that is already in the table, reusing its
    /// cached connection instead of opening a new one.
    pub fn install_reused(&mut self, i: usize, node: NodeInfo)
        requires
            old(self)@.wf(),
            i < old(self)@.m(),
            old(self)@.fingers[i as int] is None,
            exists|j: int|
                0 <= j < old(self)@.fingers.len() && old(self)@.fingers[j] == Some(node@),
        ensures
            final(self)@.wf(),
            final(self)@.me == old(self)@.me,
            final(self)@.fingers == old(self)@.fingers.update(i as int, Some(node@)),
            final(self)@.conns == old(self)@.conns,
    {
        let ghost pre = self@;
        self.fingers[i] = Some(node);
        proof {
            assert(final(self)@.fingers =~= pre.fingers.update(i as int, Some(node@)));
            lemma_wf_after_reuse(pre, final(self)@, i as int, node@);
        }
    }

    /// Install `node` in slot `i` with a fresh connection, first testing
    /// everything an unverified caller cannot promise: the index names an
    /// empty slot, the peer's identifier is on the ring, and the peer is
    /// not this node itself. Reports whether it installed.
    pub fn try_set_finger(&mut self, i: u64, node: NodeInfo, client: C) -> (ok: bool)
        requires
            old(self)@.wf(),
        ensures
            final(self)@.wf(),
            final(self)@.me == old(self)@.me,
            ok <==> {
                &&& i < old(self)@.m()
                &&& old(self)@.fingers[i as int] is None
                &&& node@.key_slot < ring_size(old(self)@.m())
                &&& node@ != old(self)@.me
            },
            ok ==> final(self)@.fingers == old(self)@.fingers.update(i as int, Some(node@))
                && final(self)@.conns == old(self)@.conns.insert(node@.addr, client),
            !ok ==> final(self)@ == old(self)@,
    {
        let m = self.fingers.len() as u64;
        if i >= m {
            return false;
        }
        if self.fingers[i as usize].is_some() {
            return false;
        }
        let size = ring_size_u64(m);
        if node.key_slot >= size {
            return false;
        }
        if node == *self.info() {
            return false;
        }
        self.set_finger(i as usize, node, client);
        true
    }

    /// Fill slot `i` with a peer that is already somewhere in the table,
    /// reusing its cached connection, after testing that the slot is empty
    /// and that some slot indeed holds the peer. Reports whether it
    /// installed.
    pub fn try_install_reused(&mut self, i: u64, node: NodeInfo) -> (ok: bool)
        requires
            old(self)@.wf(),
        ensures
            final(self)@.wf(),
            final(self)@.me == old(self)@.me,
            final(self)@.conns == old(self)@.conns,
            ok <==> {
                &&& i < old(self)@.m()
                &&& old(self)@.fingers[i as int] is None
                &&& exists|j: int|
                    0 <= j < old(self)@.fingers.len() && old(self)@.fingers[j] == Some(node@)
            },
            ok ==> final(self)@.fingers == old(self)@.fingers.update(i as int, Some(node@)),
            !ok ==> final(self)@ == old(self)@,
    {
        let m = self.fingers.len();
        if i >= m as u64 {
            return false;
        }
        if self.fingers[i as usize].is_some() {
            return false;
        }
        let mut j: usize = 0;
        let mut found = false;
        while j < m
            invariant
                j <= m,
                m == self@.fingers.len(),
                found <==> exists|jj: int| 0 <= jj < j && self@.fingers[jj] == Some(node@),
            decreases m - j,
        {
            match &self.fingers[j] {
                Some(n) => {
                    if *n == node {
                        proof {
                            assert(self@.fingers[j as int] == Some(node@));
                        }
                        found = true;
                    }
                },
                None => {},
            }
            j = j + 1;
        }
        if !found {
            return false;
        }
        self.install_reused(i as usize, node);
        true
    }
}

/// A table whose slot 0 is populated always has a populated slot at or
/// below any index in range.
pub proof fn lemma_first_populated_some<C>(c: ChordView<C>, i: int)
    requires
        0 <= i < c.fingers.len(),
        c.slot0_populated(),
    ensures
        c.first_populated(i) is Some,
    decreases i,
{
    if i > 0 && c.fingers[i] is None {
        lemma_first_populated_some(c, i - 1);
    }
}

/// What the downward walk finds is one of the table's entries.
pub proof fn lemma_first_populated_entry<C>(c: ChordView<C>, i: int)
    requires
        0 <= i < c.fingers.len(),
    ensures
        c.first_populated(i) matches Some(n) ==> exists|j: int|
            0 <= j <= i && c.fingers[j] == Some(n),
    decreases i,
{
    if c.fingers[i] is Some {
        assert(c.fingers[i] == Some(c.fingers[i]->0));
    } else if i > 0 {
        lemma_first_populated_entry(c, i - 1);
        if c.first_populated(i) is Some {
            let n = c.first_populated(i)->0;
            let j = choose|j: int| 0 <= j <= i - 1 && c.fingers[j] == Some(n);
            assert(0 <= j <= i && c.fingers[j] == Some(n));
        }
    }
}

/// On a well-formed router with a populated slot 0, every lookup answers.
pub proof fn lemma_lookup_some<C>(c: ChordView<C>, k: nat)
    requires
        c.wf(),
        c.slot0_populated(),
        k < ring_size(c.m()),
    ensures
        c.lookup_spec(k) is Some,
{
    if k != c.me.key_slot {
        let d = ring_dist(c.m(), c.me.key_slot, k);
        lemma_ring_dist_in_range(c.m(), c.me.key_slot, k);
        lemma_log2_below_width(c.m(), d);
        lemma_first_populated_some(c, c.start_index(d) as int);
    }
}

/// What lookup answers is the node itself or one of the table's entries.
pub proof fn lemma_lookup_in_table<C>(c: ChordView<C>, k: nat)
    requires
        c.wf(),
        c.slot0_populated(),
        k < ring_size(c.m()),
    ensures
        c.lookup_spec(k) matches Some(n) ==> n == c.me || exists|j: int|
            0 <= j < c.fingers.len() && c.fingers[j] == Some(n),
        k != c.me.key_slot ==> (c.lookup_spec(k) matches Some(n) ==> exists|j: int|
            0 <= j < c.fingers.len() && c.fingers[j] == Some(n)),
{
    if k != c.me.key_slot {
        let d = ring_dist(c.m(), c.me.key_slot, k);
        lemma_ring_dist_in_range(c.m(), c.me.key_slot, k);
        lemma_log2_below_width(c.m(), d);
        let s = c.start_index(d) as int;
        lemma_first_populated_entry(c, s);
        if c.lookup_spec(k) is Some {
            let n = c.lookup_spec(k)->0;
            let j = choose|j: int| 0 <= j <= s && c.fingers[j] == Some(n);
            assert(0 <= j < c.fingers.len() && c.fingers[j] == Some(n));
        }
    }
}

/// Every populated finger slot is backed by a cached connection, keyed by
/// the peer's address.
pub proof fn lemma_populated_finger_has_conn<C>(c: ChordView<C>, i: int)
    requires
        c.wf(),
        0 <= i < c.fingers.len(),
        c.fingers[i] is Some,
    ensures
        c.conns.contains_key(c.fingers[i]->0.addr),
{
}

/// Looking up the node's own slot answers the node itself, whatever the
/// finger table holds: no slot is consulted on the way.
pub proof fn lemma_lookup_self<C>(c: ChordView<C>, other: ChordView<C>)
    requires
        other.me == c.me,
    ensures
        c.lookup_spec(c.me.key_slot) == Some(c.me),
        other.lookup_spec(c.me.key_slot) == c.lookup_spec(c.me.key_slot),
{
}

/// A target at forward distance 1 is resolved by slot 0 alone.
pub proof fn lemma_lookup_adjacent<C>(c: ChordView<C>, k: nat)
    requires
        c.wf(),
        c.slot0_populated(),
        k < ring_size(c.m()),
        ring_dist(c.m(), c.me.key_slot, k) == 1,
    ensures
        c.lookup_spec(k) == c.fingers[0],
{
    lemma_ring_dist_in_range(c.m(), c.me.key_slot, k);
}

proof fn lemma_wf_after_set<C>(pre: ChordView<C>, post: ChordView<C>, i: int, n: NodeInfoView, client: C)
    requires
        pre.wf(),
        0 <= i < pre.m(),
        pre.fingers[i] is None,
        n.key_slot < ring_size(pre.m()),
        n != pre.me,
        post.me == pre.me,
        post.fingers == pre.fingers.update(i, Some(n)),
        post.conns == pre.conns.insert(n.addr, client),
    ensures
        post.wf(),
{
    assert forall|a: Seq<char>| #[trigger] post.conns.contains_key(a) implies exists|j: int|
        0 <= j < post.fingers.len() && (#[trigger] post.fingers[j] matches Some(p) && p.addr == a) by {
        if a == n.addr {
            assert(post.fingers[i] matches Some(p) && p.addr == a);
        } else {
            let j = choose|j: int|
                0 <= j < pre.fingers.len() && (#[trigger] pre.fingers[j] matches Some(p) && p.addr == a);
            assert(j != i);
            assert(post.fingers[j] matches Some(p) && p.addr == a);
        }
    }
}

proof fn lemma_wf_after_reuse<C>(pre: ChordView<C>, post: ChordView<C>, i: int, n: NodeInfoView)
    requires
        pre.wf(),
        0 <= i < pre.m(),
        pre.fingers[i] is None,
        exists|j: int| 0 <= j < pre.fingers.len() && pre.fingers[j] == Some(n),
        post.me == pre.me,
        post.fingers == pre.fingers.update(i, Some(n)),
        post.conns == pre.conns,
    ensures
        post.wf(),
{
    let j0 = choose|j: int| 0 <= j < pre.fingers.len() && pre.fingers[j] == Some(n);
    assert(pre.fingers[j0] matches Some(p) && p.key_slot < ring_size(pre.m()) && p != pre.me
        && pre.conns.contains_key(p.addr));
    assert forall|a: Seq<char>| #[trigger] post.conns.contains_key(a) implies exists|j: int|
        0 <= j < post.fingers.len() && (#[trigger] post.fingers[j] matches Some(p) && p.addr == a) by {
        let j = choose|j: int|
            0 <= j < pre.fingers.len() && (#[trigger] pre.fingers[j] matches Some(p) && p.addr == a);
        if j == i {
            assert(false);
        }
        assert(post.fingers[j] matches Some(p) && p.addr == a);
    }
}

} // verus!
