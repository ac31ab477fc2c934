use mzdb::bootstrap::reuse_check;
use mzdb::chord::Chord;
use mzdb::hashing::hash;
use mzdb::node_info::NodeInfo;
use mzdb::ring::{finger_target_u64, log2_u64, ring_dist_u64, ring_size_u64};
use mzdb::service::{get_local, set_local, GetReply};
use mzdb::storage::Storage;

fn node(key_slot: u64, addr: &str) -> NodeInfo {
    NodeInfo { key_slot, addr: addr.to_string() }
}

#[test]
fn ring_size_values() {
    assert_eq!(ring_size_u64(0), 1);
    assert_eq!(ring_size_u64(1), 2);
    assert_eq!(ring_size_u64(3), 8);
    assert_eq!(ring_size_u64(8), 256);
    assert_eq!(ring_size_u64(63), 0x8000_0000_0000_0000);
}

#[test]
fn ring_dist_values() {
    assert_eq!(ring_dist_u64(3, 0, 6), 6);
    assert_eq!(ring_dist_u64(3, 6, 1), 3);
    assert_eq!(ring_dist_u64(3, 4, 4), 0);
    assert_eq!(ring_dist_u64(3, 7, 0), 1);
    assert_eq!(ring_dist_u64(1, 1, 0), 1);
}

#[test]
fn log2_values() {
    assert_eq!(log2_u64(1), 0);
    assert_eq!(log2_u64(2), 1);
    assert_eq!(log2_u64(6), 2);
    assert_eq!(log2_u64(7), 2);
    assert_eq!(log2_u64(8), 3);
    assert_eq!(log2_u64(u64::MAX), 63);
}

#[test]
fn finger_target_values() {
    assert_eq!(finger_target_u64(3, 0, 0), 1);
    assert_eq!(finger_target_u64(3, 0, 2), 4);
    assert_eq!(finger_target_u64(3, 6, 2), 2);
    assert_eq!(finger_target_u64(3, 4, 1), 6);
    assert_eq!(finger_target_u64(1, 1, 0), 0);
}

#[test]
fn hash_reduced_modulo_ring_size() {
    for m in [1u64, 3, 8, 16, 63] {
        let size = ring_size_u64(m);
        for key in ["", "apple", "banana", "a longer key with spaces", "42"] {
            let slot = hash(&key.to_string(), m);
            assert!(slot < size);
        }
    }
}

#[test]
fn hash_is_deterministic() {
    let k = "apple".to_string();
    assert_eq!(hash(&k, 8), hash(&k, 8));
}

#[test]
fn reuse_check_formula() {
    // prev < suc and target <= suc: candidate already spans the target.
    assert!(reuse_check(1, 2, 4));
    assert!(reuse_check(2, 4, 4));
    // prev > suc and target > prev: the arc wraps past zero.
    assert!(reuse_check(3, 6, 0));
    // prev > suc and target <= suc: target sits just past the wrap.
    assert!(reuse_check(5, 0, 2));
    // neither disjunct: a fresh lookup is needed.
    assert!(!reuse_check(0, 0, 0));
    assert!(!reuse_check(2, 5, 4));
}

#[test]
fn storage_set_then_get_returns_value() {
    let mut store = Storage::new();
    let ok = set_local(&mut store, "apple".to_string(), b"red".to_vec());
    assert!(ok);
    match get_local(&store, &"apple".to_string()) {
        GetReply::Value(v) => assert_eq!(v, b"red".to_vec()),
        GetReply::Error(_) => panic!("stored key must be found"),
    }
}

#[test]
fn storage_overwrite_is_last_write_wins() {
    let mut store = Storage::new();
    set_local(&mut store, "apple".to_string(), b"red".to_vec());
    set_local(&mut store, "apple".to_string(), b"green".to_vec());
    match get_local(&store, &"apple".to_string()) {
        GetReply::Value(v) => assert_eq!(v, b"green".to_vec()),
        GetReply::Error(_) => panic!("stored key must be found"),
    }
}

#[test]
fn storage_missing_key_reports_not_found() {
    let store = Storage::new();
    match get_local(&store, &"banana".to_string()) {
        GetReply::Value(_) => panic!("missing key must not produce a value"),
        GetReply::Error(e) => assert_eq!(e, "Key not found"),
    }
}

#[test]
fn storage_keys_are_independent() {
    let mut store = Storage::new();
    set_local(&mut store, "a".to_string(), vec![1]);
    set_local(&mut store, "b".to_string(), vec![2]);
    match get_local(&store, &"a".to_string()) {
        GetReply::Value(v) => assert_eq!(v, vec![1]),
        GetReply::Error(_) => panic!("stored key must be found"),
    }
    match get_local(&store, &"b".to_string()) {
        GetReply::Value(v) => assert_eq!(v, vec![2]),
        GetReply::Error(_) => panic!("stored key must be found"),
    }
}

#[test]
fn try_set_finger_accepts_a_fresh_peer() {
    let mut chord: Chord<u8> = Chord::new(node(0, "127.0.0.1:6000"), 3);
    assert!(chord.try_set_finger(0, node(4, "127.0.0.1:6001"), 0));
    let successor = chord.successor_node().expect("slot 0 must be populated");
    assert_eq!(successor.key_slot, 4);
    assert_eq!(successor.addr, "127.0.0.1:6001");
}

#[test]
fn try_set_finger_rejects_self() {
    let mut chord: Chord<u8> = Chord::new(node(0, "127.0.0.1:6000"), 3);
    assert!(!chord.try_set_finger(0, node(0, "127.0.0.1:6000"), 0));
    assert!(chord.successor_node().is_none());
}

#[test]
fn try_set_finger_rejects_out_of_range_slot() {
    let mut chord: Chord<u8> = Chord::new(node(0, "127.0.0.1:6000"), 3);
    assert!(!chord.try_set_finger(0, node(8, "127.0.0.1:6001"), 0));
    assert!(!chord.try_set_finger(3, node(4, "127.0.0.1:6001"), 0));
}

#[test]
fn try_set_finger_rejects_an_occupied_slot() {
    let mut chord: Chord<u8> = Chord::new(node(0, "127.0.0.1:6000"), 3);
    assert!(chord.try_set_finger(0, node(4, "127.0.0.1:6001"), 0));
    assert!(!chord.try_set_finger(0, node(2, "127.0.0.1:6002"), 1));
}

#[test]
fn try_install_reused_needs_a_known_peer() {
    let mut chord: Chord<u8> = Chord::new(node(0, "127.0.0.1:6000"), 3);
    assert!(chord.try_set_finger(0, node(4, "127.0.0.1:6001"), 0));
    // A peer nothing in the table holds is rejected.
    assert!(!chord.try_install_reused(1, node(2, "127.0.0.1:6002")));
    // The known successor can fill a higher slot without a new connection.
    assert!(chord.try_install_reused(1, node(4, "127.0.0.1:6001")));
    let f1 = chord.finger_at(1).expect("slot 1 must be populated");
    assert_eq!(f1.key_slot, 4);
}

#[test]
fn lookup_of_own_slot_returns_self() {
    let mut chord: Chord<u8> = Chord::new(node(0, "127.0.0.1:6000"), 3);
    assert!(chord.try_set_finger(0, node(4, "127.0.0.1:6001"), 0));
    let r = chord.lookup(0).expect("lookup must answer");
    assert_eq!(r.key_slot, 0);
    assert_eq!(r.addr, "127.0.0.1:6000");
}

#[test]
fn lookup_at_distance_one_uses_slot_zero() {
    // Slot 1 holds a different peer; a target at forward distance 1 must
    // still be answered by slot 0.
    let mut chord: Chord<u8> = Chord::new(node(0, "127.0.0.1:6000"), 2);
    assert!(chord.try_set_finger(0, node(1, "127.0.0.1:6001"), 0));
    assert!(chord.try_set_finger(1, node(2, "127.0.0.1:6002"), 1));
    let r = chord.lookup(1).expect("lookup must answer");
    assert_eq!(r.key_slot, 1);
}

#[test]
fn lookup_walks_down_to_slot_zero() {
    // Only slot 0 is populated; a far target starts at the top slot and
    // walks down to it.
    let mut chord: Chord<u8> = Chord::new(node(0, "127.0.0.1:6000"), 3);
    assert!(chord.try_set_finger(0, node(4, "127.0.0.1:6001"), 0));
    let r = chord.lookup(7).expect("lookup must answer");
    assert_eq!(r.key_slot, 4);
}

#[test]
fn lookup_conn_hands_back_the_cached_handle() {
    let mut chord: Chord<u8> = Chord::new(node(0, "127.0.0.1:6000"), 3);
    assert!(chord.try_set_finger(0, node(4, "127.0.0.1:6001"), 42));
    let handle = chord.lookup_conn(6).expect("the successor has a connection");
    assert_eq!(*handle, 42);
}

#[test]
fn degenerate_ring_of_two_slots() {
    // m = 1: a ring of two slots is supported.
    let mut a: Chord<u8> = Chord::new(node(0, "127.0.0.1:6000"), 1);
    assert!(a.try_set_finger(0, node(1, "127.0.0.1:6001"), 0));
    assert_eq!(a.lookup(0).expect("lookup must answer").key_slot, 0);
    assert_eq!(a.lookup(1).expect("lookup must answer").key_slot, 1);
}
