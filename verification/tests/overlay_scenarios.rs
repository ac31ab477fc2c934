//! End-to-end scenarios on a simulated two-node ring (`m = 3`, node A at
//! slot 0, node B at slot 4, each the other's successor). The verified
//! decision functions drive every hop; the test harness stands in for the
//! network, delivering each forwarded request to the addressed node.

use mzdb::bootstrap::{plan_finger, FingerPlan};
use mzdb::chord::Chord;
use mzdb::hashing::hash;
use mzdb::node_info::NodeInfo;
use mzdb::service::{get_local, route, set_local, whois_reply, GetReply, RouteDecision};
use mzdb::storage::Storage;

const M: u64 = 3;

fn node(key_slot: u64, addr: &str) -> NodeInfo {
    NodeInfo { key_slot, addr: addr.to_string() }
}

struct SimNode {
    chord: Chord<u8>,
    store: Storage,
}

/// Deliver a relayed LOOKUP the way the handlers do: consult the router,
/// forward until a node answers from its own state.
fn sim_lookup(nodes: &[SimNode], at: usize, key_slot: u64, relay: bool) -> NodeInfo {
    match route(&nodes[at].chord, key_slot, relay) {
        RouteDecision::Local => whois_reply(nodes[at].chord.info()),
        RouteDecision::Forward { next, relay } => {
            let to = addr_index(nodes, &next);
            sim_lookup(nodes, to, key_slot, relay)
        }
        RouteDecision::Unroutable => panic!("routing before bootstrap completed"),
    }
}

fn sim_get(nodes: &[SimNode], at: usize, key: &String, relay: bool) -> GetReply {
    let slot = hash(key, M);
    match route(&nodes[at].chord, slot, relay) {
        RouteDecision::Local => get_local(&nodes[at].store, key),
        RouteDecision::Forward { next, relay } => {
            let to = addr_index(nodes, &next);
            sim_get(nodes, to, key, relay)
        }
        RouteDecision::Unroutable => panic!("routing before bootstrap completed"),
    }
}

fn sim_set(nodes: &mut [SimNode], at: usize, key: &String, value: &[u8], relay: bool) -> bool {
    let slot = hash(key, M);
    match route(&nodes[at].chord, slot, relay) {
        RouteDecision::Local => set_local(&mut nodes[at].store, key.clone(), value.to_vec()),
        RouteDecision::Forward { next, relay } => {
            let to = addr_index(nodes, &next);
            sim_set(nodes, to, key, value, relay)
        }
        RouteDecision::Unroutable => panic!("routing before bootstrap completed"),
    }
}

fn addr_index(nodes: &[SimNode], target: &NodeInfo) -> usize {
    for (i, n) in nodes.iter().enumerate() {
        if n.chord.info().addr == target.addr {
            return i;
        }
    }
    panic!("forwarded to an unknown peer");
}

/// Run the bootstrap decisions of node `at` against the others, the way
/// the one-shot routine does: slot 0 is assumed seeded; slots 1..m-1 are
/// planned locally and either reused or filled through a relayed lookup.
fn sim_bootstrap_fingers(nodes: &mut Vec<SimNode>, at: usize) {
    for i in 1..M {
        let plan = plan_finger(&nodes[at].chord, i);
        match plan {
            FingerPlan::Reuse { node } => {
                assert!(nodes[at].chord.try_install_reused(i, node));
            }
            FingerPlan::Query { target } => {
                // The relayed lookup travels through the candidate's cached
                // connection; here the candidate answers directly.
                let cand = nodes[at]
                    .chord
                    .lookup(target)
                    .expect("a populated router always answers");
                let via = addr_index(nodes, &cand);
                let answer = sim_lookup(nodes, via, target, true);
                // A fresh connection to the answering peer; handles are
                // small integers in this harness.
                let handle = 10 + i as u8;
                assert!(nodes[at].chord.try_set_finger(i, answer, handle));
            }
        }
    }
}

/// The two-node ring of the end-to-end scenarios, fully bootstrapped.
fn two_node_ring() -> Vec<SimNode> {
    let a = node(0, "127.0.0.1:6000");
    let b = node(4, "127.0.0.1:6001");
    let mut nodes = vec![
        SimNode { chord: Chord::new(a.dup(), M), store: Storage::new() },
        SimNode { chord: Chord::new(b.dup(), M), store: Storage::new() },
    ];
    // Each node dials its configured successor and installs its identity in
    // slot 0, as the bootstrap routine's first step does.
    assert!(nodes[0].chord.try_set_finger(0, b.dup(), 1));
    assert!(nodes[1].chord.try_set_finger(0, a.dup(), 2));
    sim_bootstrap_fingers(&mut nodes, 0);
    sim_bootstrap_fingers(&mut nodes, 1);
    nodes
}

/// A key whose hash lands on the wanted slot; the search is deterministic.
fn key_with_slot(slot: u64) -> String {
    for i in 0..10_000u32 {
        let k = format!("key-{}", i);
        if hash(&k, M) == slot {
            return k;
        }
    }
    panic!("no key found for slot {}", slot);
}

#[test]
fn whois_returns_own_identity() {
    let nodes = two_node_ring();
    let r = whois_reply(nodes[0].chord.info());
    assert_eq!(r.key_slot, 0);
    assert_eq!(r.addr, "127.0.0.1:6000");
}

#[test]
fn relayed_lookup_of_successor_slot_takes_one_hop() {
    let nodes = two_node_ring();
    // A.LOOKUP(4, relay=true): one hop via slot 0, answered by B.
    match route(&nodes[0].chord, 4, true) {
        RouteDecision::Forward { next, relay } => {
            assert_eq!(next.key_slot, 4);
            assert_eq!(next.addr, "127.0.0.1:6001");
            // The next hop is the immediate successor: the relay flag is
            // cleared and B answers authoritatively.
            assert!(!relay);
        }
        _ => panic!("a relayed lookup of another slot must forward"),
    }
    let answer = sim_lookup(&nodes, 0, 4, true);
    assert_eq!(answer.key_slot, 4);
    assert_eq!(answer.addr, "127.0.0.1:6001");
}

#[test]
fn relayed_lookup_of_own_slot_short_circuits() {
    let nodes = two_node_ring();
    // A.LOOKUP(0, relay=true): answered by A itself, before any forward.
    match route(&nodes[0].chord, 0, true) {
        RouteDecision::Local => {}
        _ => panic!("a node must answer its own slot without forwarding"),
    }
    let answer = sim_lookup(&nodes, 0, 0, true);
    assert_eq!(answer.key_slot, 0);
    assert_eq!(answer.addr, "127.0.0.1:6000");
}

#[test]
fn bootstrap_populates_both_tables() {
    let nodes = two_node_ring();
    for n in &nodes {
        assert!(n.chord.successor_node().is_some());
    }
    // On this two-node ring every finger of A names B and every finger of B
    // names A.
    for i in 0..M as usize {
        assert_eq!(nodes[0].chord.finger_at(i).expect("populated").key_slot, 4);
        assert_eq!(nodes[1].chord.finger_at(i).expect("populated").key_slot, 0);
    }
}

#[test]
fn relayed_set_then_local_get_at_owner() {
    // With a key hashing to slot 5, the owner is B: a SET relayed through A
    // lands there, and B answers a local GET with the value, byte for byte.
    let mut nodes = two_node_ring();
    let key = key_with_slot(5);
    assert!(sim_set(&mut nodes, 0, &key, b"red", true));
    match get_local(&nodes[1].store, &key) {
        GetReply::Value(v) => assert_eq!(v, b"red".to_vec()),
        GetReply::Error(_) => panic!("the owner must hold the relayed SET"),
    }
}

#[test]
fn relayed_set_then_relayed_get_returns_value() {
    let mut nodes = two_node_ring();
    for key in ["apple", "banana", "a key"] {
        let key = key.to_string();
        assert!(sim_set(&mut nodes, 0, &key, b"payload", true));
        match sim_get(&nodes, 0, &key, true) {
            GetReply::Value(v) => assert_eq!(v, b"payload".to_vec()),
            GetReply::Error(_) => panic!("a SET key must be found via the same node"),
        }
    }
}

#[test]
fn relayed_get_of_missing_key_reports_not_found() {
    let nodes = two_node_ring();
    match sim_get(&nodes, 0, &"banana".to_string(), true) {
        GetReply::Value(_) => panic!("an absent key must not produce a value"),
        GetReply::Error(e) => assert_eq!(e, "Key not found"),
    }
}

#[test]
fn routing_before_bootstrap_is_unroutable() {
    let empty: Chord<u8> = Chord::new(node(0, "127.0.0.1:6000"), M);
    match route(&empty, 5, true) {
        RouteDecision::Unroutable => {}
        _ => panic!("an empty router must refuse to relay"),
    }
    // With the relay flag cleared the node still answers from its own
    // state, bootstrapped or not.
    match route(&empty, 5, false) {
        RouteDecision::Local => {}
        _ => panic!("relay=false must be answered locally"),
    }
}

#[test]
fn relayed_get_in_immediate_arc_matches_owner_local_get() {
    // For every slot in A's immediate arc (forward of A, at most its
    // successor), a GET relayed through A returns what a local GET at the
    // owner B returns.
    let mut nodes = two_node_ring();
    for slot in 1..=4u64 {
        let key = key_with_slot(slot);
        assert!(sim_set(&mut nodes, 0, &key, b"v", true));
        let relayed = sim_get(&nodes, 0, &key, true);
        let local = get_local(&nodes[1].store, &key);
        match (relayed, local) {
            (GetReply::Value(x), GetReply::Value(y)) => assert_eq!(x, y),
            _ => panic!("both reads must find the value at the owner"),
        }
    }
}

#[test]
fn degenerate_two_node_ring_of_width_one() {
    // m = 1: the ring has two slots and the table one finger each.
    let a = node(0, "127.0.0.1:7000");
    let b = node(1, "127.0.0.1:7001");
    let mut x: Chord<u8> = Chord::new(a.dup(), 1);
    let mut y: Chord<u8> = Chord::new(b.dup(), 1);
    assert!(x.try_set_finger(0, b.dup(), 1));
    assert!(y.try_set_finger(0, a.dup(), 2));
    match route(&x, 1, true) {
        RouteDecision::Forward { next, relay } => {
            assert_eq!(next.key_slot, 1);
            assert!(!relay);
        }
        _ => panic!("the other slot must be forwarded to the successor"),
    }
    match route(&y, 1, true) {
        RouteDecision::Local => {}
        _ => panic!("a node answers its own slot itself"),
    }
}
