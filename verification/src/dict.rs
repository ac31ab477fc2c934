//! A small mapping from string keys to values, with a `Map` view.
//!
//! It backs both mappings this library keeps per node: the connection cache
//! (address to client handle) and the local store (key to byte value).
//! Entries are held in a vector; a later entry for a key shadows an earlier
//! one, and `insert` replaces in place, so keys stay unique in practice.

use vstd::prelude::*;

verus! {

/// The mapping that a sequence of key/value entries represents, where a
/// later entry for the same key wins.
pub open spec fn entries_map<V>(s: Seq<(String, V)>) -> Map<Seq<char>, V>
    decreases s.len(),
{
    if s.len() == 0 {
        Map::empty()
    } else {
        entries_map(s.drop_last()).insert(s.last().0@, s.last().1)
    }
}

/// A mapping from string keys to values.
pub struct Dict<V> {
    entries: Vec<(String, V)>,
}

impl<V> View for Dict<V> {
    type V = Map<Seq<char>, V>;

    closed spec fn view(&self) -> Map<Seq<char>, V> {
        entries_map(self.entries@)
    }
}

proof fn lemma_entries_map_contains<V>(s: Seq<(String, V)>, k: Seq<char>)
    ensures
        entries_map(s).contains_key(k) <==> exists|i: int| 0 <= i < s.len() && s[i].0@ == k,
    decreases s.len(),
{
    if s.len() > 0 {
        lemma_entries_map_contains(s.drop_last(), k);
        if s.last().0@ == k {
            assert(s[s.len() - 1].0@ == k);
        } else {
            if entries_map(s).contains_key(k) {
                let i = choose|i: int| 0 <= i < s.drop_last().len() && s.drop_last()[i].0@ == k;
                assert(s[i].0@ == k);
            }
            if exists|i: int| 0 <= i < s.len() && s[i].0@ == k {
                let i = choose|i: int| 0 <= i < s.len() && s[i].0@ == k;
                assert(s.drop_last()[i].0@ == k);
            }
        }
    }
}

proof fn lemma_entries_map_value<V>(s: Seq<(String, V)>, i: int)
    requires
        0 <= i < s.len(),
        forall|j: int| i < j < s.len() ==> s[j].0@ != s[i].0@,
    ensures
        entries_map(s).contains_key(s[i].0@),
        entries_map(s)[s[i].0@] == s[i].1,
    decreases s.len(),
{
    if i < s.len() - 1 {
        assert(s.drop_last()[i] == s[i]);
        assert(forall|j: int| i < j < s.drop_last().len() ==> s.drop_last()[j].0@ != s[i].0@);
        lemma_entries_map_value(s.drop_last(), i);
    }
}

impl<V> Dict<V> {
    /// An empty mapping.
    pub fn new() -> (r: Self)
        ensures
            r@ == Map::<Seq<char>, V>::empty(),
    {
        Dict { entries: Vec::new() }
    }

    /// Whether `key` has an entry.
    pub fn contains(&self, key: &String) -> (r: bool)
        ensures
            r == self@.contains_key(key@),
    {
        proof {
            lemma_entries_map_contains(self.entries@, key@);
        }
        let n = self.entries.len();
        let mut idx: usize = 0;
        while idx < n
            invariant
                n == self.entries@.len(),
                idx <= n,
                forall|j: int| 0 <= j < idx ==> self.entries@[j].0@ != key@,
            decreases n - idx,
        {
            if self.entries[idx].0 == *key {
                proof {
                    lemma_entries_map_contains(self.entries@, key@);
                    assert(self.entries@[idx as int].0@ == key@);
                }
                return true;
            }
            idx = idx + 1;
        }
        false
    }

    /// The value stored under `key`, if any.
    pub fn get(&self, key: &String) -> (r: Option<&V>)
        ensures
            match r {
                Some(v) => self@.contains_key(key@) && *v == self@[key@],
                None => !self@.contains_key(key@),
            },
    {
        proof {
            lemma_entries_map_contains(self.entries@, key@);
        }
        let n = self.entries.len();
        let mut idx: usize = n;
        while idx > 0
            invariant
                n == self.entries@.len(),
                idx <= n,
                forall|j: int| idx <= j < n ==> self.entries@[j].0@ != key@,
            decreases idx,
        {
            idx = idx - 1;
            if self.entries[idx].0 == *key {
                proof {
                    lemma_entries_map_value(self.entries@, idx as int);
                }
                return Some(&self.entries[idx].1);
            }
        }
        None
    }

    /// Store `value` under `key`, replacing any earlier value.
    pub fn insert(&mut self, key: String, value: V)
        ensures
            final(self)@ == old(self)@.insert(key@, value),
    {
        let n = self.entries.len();
        let mut idx: usize = n;
        while idx > 0
            invariant
                n == self.entries@.len(),
                idx <= n,
                self.entries@ == old(self).entries@,
                forall|j: int| idx <= j < n ==> self.entries@[j].0@ != key@,
            decreases idx,
        {
            idx = idx - 1;
            if self.entries[idx].0 == key {
                proof {
                    lemma_entries_map_update(self.entries@, idx as int, key@, value);
                }
                self.entries[idx] = (key, value);
                return;
            }
        }
        self.entries.push((key, value));
        proof {
            assert(self.entries@.drop_last() == old(self).entries@);
        }
    }
}

proof fn lemma_entries_map_update<V>(s: Seq<(String, V)>, i: int, k: Seq<char>, v: V)
    requires
        0 <= i < s.len(),
        s[i].0@ == k,
        forall|j: int| i < j < s.len() ==> s[j].0@ != k,
    ensures
        forall|key2: String|
            key2@ == k ==> entries_map(s.update(i, (key2, v))) == entries_map(s).insert(k, v),
    decreases s.len(),
{
    assert forall|key2: String| key2@ == k implies entries_map(s.update(i, (key2, v)))
        == entries_map(s).insert(k, v) by {
        let s2 = s.update(i, (key2, v));
        if i == s.len() - 1 {
            assert(s2.drop_last() == s.drop_last());
            assert(entries_map(s2) == entries_map(s.drop_last()).insert(k, v));
            assert(entries_map(s.drop_last()).insert(k, v) =~= entries_map(s).insert(k, v));
        } else {
            lemma_entries_map_update(s.drop_last(), i, k, v);
            assert(s2.drop_last() == s.drop_last().update(i, (key2, v)));
            assert(s2.last() == s.last());
            assert(entries_map(s2) == entries_map(s.drop_last()).insert(k, v).insert(
                s.last().0@,
                s.last().1,
            ));
            assert(s.last().0@ != k);
            assert(entries_map(s.drop_last()).insert(k, v).insert(s.last().0@, s.last().1)
                =~= entries_map(s.drop_last()).insert(s.last().0@, s.last().1).insert(k, v));
        }
    }
}

} // verus!
