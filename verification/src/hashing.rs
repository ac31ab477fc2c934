//! Hashing keys into the identifier space.
//!
//! A key is hashed with the standard library's default hasher over its UTF-8
//! bytes, then reduced modulo the ring size, so every key lands on a slot in
//! `[0, 2^m)` whatever the hash value was.

use std::collections::hash_map::DefaultHasher;
use std::hash::Hasher;

use vstd::prelude::*;
use vstd::std_specs::hash::DefaultHasherAdditionalSpecFns;

use crate::ring::{ring_size, ring_size_u64};

verus! {

/// The 64-bit hash of a key: what the standard hasher yields after a single
/// write of the key's UTF-8 encoding.
pub open spec fn hash64(s: Seq<char>) -> u64 {
    DefaultHasher::spec_finish(seq![vstd::utf8::encode_utf8(s)])
}

/// The ring slot a key hashes to: its 64-bit hash reduced modulo `2^m`.
pub open spec fn hash_slot(s: Seq<char>, m: nat) -> nat {
    (hash64(s) as nat) % ring_size(m)
}

/// Hash `key` into the identifier space of a ring of bit width `m`.
pub fn hash(key: &String, m: u64) -> (slot: u64)
    requires
        1 <= m <= 63,
    ensures
        slot == hash_slot(key@, m as nat),
        slot < ring_size(m as nat),
{
    let mut hasher = DefaultHasher::new();
    hasher.write(key.as_str().as_bytes());
    let h = hasher.finish();
    proof {
        assert(hasher@ =~= seq![vstd::utf8::encode_utf8(key@)]);
    }
    let size = ring_size_u64(m);
    h % size
}

} // verus!
