//! The node-local value table: string keys to opaque byte values.
//!
//! No ordering, no expiry, no size bound. `set` inserts or overwrites
//! unconditionally; a missing key is an application-level outcome, not a
//! fault.

use vstd::prelude::*;

use crate::dict::Dict;

verus! {

/// A node's local store.
pub struct Storage {
    table: Dict<Vec<u8>>,
}

impl View for Storage {
    type V = Map<Seq<char>, Seq<u8>>;

    closed spec fn view(&self) -> Map<Seq<char>, Seq<u8>> {
        self.table@.map_values(|v: Vec<u8>| v@)
    }
}

impl Storage {
    /// An empty store.
    pub fn new() -> (r: Self)
        ensures
            r@ == Map::<Seq<char>, Seq<u8>>::empty(),
    {
        let r = Storage { table: Dict::new() };
        proof {
            assert(r@ =~= Map::<Seq<char>, Seq<u8>>::empty());
        }
        r
    }

    /// The value stored under `key`, if any.
    pub fn get(&self, key: &String) -> (r: Option<&Vec<u8>>)
        ensures
            match r {
                Some(v) => self@.contains_key(key@) && v@ == self@[key@],
                None => !self@.contains_key(key@),
            },
    {
        self.table.get(key)
    }

    /// Store `value` under `key`, overwriting any earlier value.
    pub fn set(&mut self, key: String, value: Vec<u8>)
        ensures
            final(self)@ == old(self)@.insert(key@, value@),
    {
        let ghost v = value@;
        self.table.insert(key, value);
        proof {
            assert(final(self)@ =~= old(self)@.insert(key@, v));
        }
    }
}

impl Default for Storage {
    /// The default store is empty.
    fn default() -> (r: Self)
        ensures
            r@ == Map::<Seq<char>, Seq<u8>>::empty(),
    {
        Storage::new()
    }
}

} // verus!
