//! String-keyed records kept in insertion order.
use vstd::prelude::*;
use crate::text::{chars_eq, str_chars};

verus! {

/// Keys of a sequence of entries.
pub open spec fn entry_keys<V>(entries: Seq<(String, V)>) -> Seq<Seq<char>> {
    entries.map_values(|e: (String, V)| e.0@)
}

/// No key occurs twice.
pub open spec fn keys_distinct(keys: Seq<Seq<char>>) -> bool {
    forall|i: int, j: int| 0 <= i < keys.len() && 0 <= j < keys.len() && i != j ==> keys[i] != keys[j]
}

/// A map from string keys to values that keeps entries in the order in
/// which their keys were first inserted. No key occurs twice.
#[derive(Debug, PartialEq)]
pub struct StringMap<V> {
    entries: Vec<(String, V)>,
}

impl<V> StringMap<V> {
    #[verifier::type_invariant]
    spec fn keys_unique(self) -> bool {
        keys_distinct(entry_keys(self.entries@))
    }

    /// The entries, in insertion order.
    pub closed spec fn spec_entries(self) -> Seq<(String, V)> {
        self.entries@
    }

    /// The keys, in insertion order.
    pub open spec fn spec_keys(self) -> Seq<Seq<char>> {
        entry_keys(self.spec_entries())
    }

    /// Whether `key` is one of the keys.
    pub open spec fn spec_contains(self, key: Seq<char>) -> bool {
        self.spec_keys().contains(key)
    }

    /// The entries as a map from key to value.
    pub open spec fn spec_map(self) -> Map<Seq<char>, V> {
        entries_map(self.spec_entries())
    }

    /// An empty map.
    pub fn new() -> (r: Self)
        ensures
            r.spec_entries() == Seq::<(String, V)>::empty(),
    {
        StringMap { entries: Vec::new() }
    }

    /// A map holding `entries`, whose keys are distinct, in their order.
    pub fn from_entries(entries: Vec<(String, V)>) -> (r: Self)
        requires
            keys_distinct(entry_keys(entries@)),
        ensures
            r.spec_entries() == entries@,
    {
        StringMap { entries }
    }

    /// Number of entries.
    pub fn len(&self) -> (r: usize)
        ensures
            r == self.spec_entries().len(),
            keys_distinct(self.spec_keys()),
    {
        proof { use_type_invariant(self); }
        self.entries.len()
    }

    /// Whether the map has no entries.
    pub fn is_empty(&self) -> (r: bool)
        ensures
            r == (self.spec_entries().len() == 0),
    {
        self.entries.len() == 0
    }

    /// The `i`-th entry in insertion order.
    pub fn entry_at(&self, i: usize) -> (r: (&String, &V))
        requires
            i < self.spec_entries().len(),
        ensures
            *r.0 == self.spec_entries()[i as int].0,
            *r.1 == self.spec_entries()[i as int].1,
    {
        let e = &self.entries[i];
        (&e.0, &e.1)
    }

    /// Position of `key` among the entries, if present.
    pub fn position(&self, key: &str) -> (r: Option<usize>)
        ensures
            r matches Some(i) ==> i < self.spec_entries().len() && self.spec_keys()[i as int] == key@,
            r is None ==> !self.spec_contains(key@),
    {
        let k = str_chars(key);
        let mut i: usize = 0;
        while i < self.entries.len()
            invariant
                0 <= i <= self.entries@.len(),
                k@ == key@,
                forall|j: int| 0 <= j < i ==> self.entries@[j].0@ != key@,
            decreases self.entries@.len() - i,
        {
            let ek = str_chars(self.entries[i].0.as_str());
            if chars_eq(ek.as_slice(), k.as_slice()) {
                return Some(i);
            }
            i = i + 1;
        }
        proof {
            if self.spec_contains(key@) {
                let j = choose|j: int| 0 <= j < self.spec_keys().len() && self.spec_keys()[j] == key@;
                assert(self.entries@[j].0@ == key@);
            }
        }
        None
    }

    /// Whether `key` is one of the keys.
    pub fn contains_key(&self, key: &str) -> (r: bool)
        ensures
            r == self.spec_contains(key@),
            r == self.spec_map().dom().contains(key@),
    {
        proof { lemma_entries_map(self.spec_entries()); }
        proof {
            assert(entries_map(self.spec_entries()).dom().contains(key@) <==> entry_keys(self.spec_entries()).contains(key@));
        }
        match self.position(key) {
            Some(i) => {
                proof {
                    assert(entry_keys(self.spec_entries())[i as int] == key@);
                    assert(entry_keys(self.spec_entries()).contains(key@));
                }
                true
            },
            None => false,
        }
    }

    /// The value stored under `key`, if any.
    pub fn get(&self, key: &str) -> (r: Option<&V>)
        ensures
            r matches Some(v) ==> exists|i: int|
                0 <= i < self.spec_entries().len() && self.spec_keys()[i] == key@
                    && self.spec_entries()[i].1 == *v,
            r is None ==> !self.spec_contains(key@),
            r matches Some(v) ==> self.spec_map().dom().contains(key@) && self.spec_map()[key@] == *v,
            r is None ==> !self.spec_map().dom().contains(key@),
    {
        proof {
            use_type_invariant(self);
            lemma_entries_map(self.spec_entries());
        }
        match self.position(key) {
            Some(i) => {
                proof {
                    assert(self.spec_entries()[i as int].0@ == key@);
                    assert(entry_keys(self.spec_entries())[i as int] == key@);
                    assert(entry_keys(self.spec_entries()).contains(key@));
                }
                Some(&self.entries[i].1)
            },
            None => {
                proof {
                    assert(entries_map(self.spec_entries()).dom().contains(key@) <==> entry_keys(self.spec_entries()).contains(key@));
                }
                None
            },
        }
    }

    /// Insert `value` under `key`. An existing entry with the same key keeps
    /// its position and has its value replaced; otherwise the entry is added
    /// at the end.
    pub fn insert(&mut self, key: String, value: V)
        ensures
            final(self).spec_entries() == entries_insert(old(self).spec_entries(), key, value),
            final(self).spec_map() == old(self).spec_map().insert(key@, value),
    {
        proof { use_type_invariant(&*self); }
        let ghost k = key@;
        let ghost v = value;
        let pos = self.position(key.as_str());
        match pos {
            Some(i) => {
                let mut entries = Vec::new();
                std::mem::swap(&mut entries, &mut self.entries);
                let ghost before = entries@;
                proof {
                    assert(entry_keys(before)[i as int] == key@);
                    assert(entry_keys(before).contains(key@));
                    let j = choose|j: int| 0 <= j < before.len() && before[j].0@ == key@;
                    assert(entry_keys(before)[j] == key@);
                    assert(j == i);
                }
                let ghost kv = (key, value);
                entries.set(i, (key, value));
                proof {
                    lemma_entries_map_update(before, i as int, kv);
                }
                proof {
                    assert forall|a: int, b: int|
                        0 <= a < entries@.len() && 0 <= b < entries@.len() && a != b
                        implies entry_keys(entries@)[a] != entry_keys(entries@)[b] by {
                        assert(entry_keys(before)[a] != entry_keys(before)[b]);
                    }
                }
                self.entries = entries;
            }
            None => {
                let mut entries = Vec::new();
                std::mem::swap(&mut entries, &mut self.entries);
                let ghost before = entries@;
                let ghost kv = (key, value);
                entries.push((key, value));
                proof {
                    assert(entries@.drop_last() =~= before);
                    assert(entries_map(entries@) == entries_map(before).insert(k, v));
                    assert forall|a: int, b: int|
                        0 <= a < entries@.len() && 0 <= b < entries@.len() && a != b
                        implies entry_keys(entries@)[a] != entry_keys(entries@)[b] by {
                        if a < before.len() && b < before.len() {
                            assert(entry_keys(before)[a] != entry_keys(before)[b]);
                        } else if a < before.len() {
                            assert(entry_keys(before)[a] == entry_keys(before)[a]);
                            assert(entry_keys(before).contains(entry_keys(before)[a]));
                        } else {
                            assert(entry_keys(before).contains(entry_keys(before)[b]));
                        }
                    }
                }
                self.entries = entries;
            }
        }
    }
}

/// Result of inserting `(key, value)` into entries with distinct keys.
pub open spec fn entries_insert<V>(entries: Seq<(String, V)>, key: String, value: V) -> Seq<(String, V)> {
    if entry_keys(entries).contains(key@) {
        let i = choose|i: int| 0 <= i < entries.len() && entries[i].0@ == key@;
        entries.update(i, (key, value))
    } else {
        entries.push((key, value))
    }
}

/// The entries as a map from key to value; a later entry for a key
/// replaces an earlier one.
pub open spec fn entries_map<V>(entries: Seq<(String, V)>) -> Map<Seq<char>, V>
    decreases entries.len(),
{
    if entries.len() == 0 {
        Map::empty()
    } else {
        entries_map(entries.drop_last()).insert(entries.last().0@, entries.last().1)
    }
}

/// The map's keys are the entries' keys, and with distinct keys each key
/// maps to the value of its entry.
pub proof fn lemma_entries_map<V>(entries: Seq<(String, V)>)
    ensures
        forall|k: Seq<char>| entries_map(entries).dom().contains(k) <==> #[trigger] entry_keys(entries).contains(k),
        keys_distinct(entry_keys(entries)) ==> forall|i: int| 0 <= i < entries.len()
            ==> entries_map(entries)[#[trigger] entries[i].0@] == entries[i].1,
    decreases entries.len(),
{
    if entries.len() > 0 {
        let init = entries.drop_last();
        lemma_entries_map(init);
        assert forall|k: Seq<char>| entries_map(entries).dom().contains(k) <==> #[trigger] entry_keys(entries).contains(k) by {
            if entry_keys(entries).contains(k) {
                let j = choose|j: int| 0 <= j < entry_keys(entries).len() && entry_keys(entries)[j] == k;
                if j < init.len() {
                    assert(entry_keys(init)[j] == k);
                }
            }
            if entry_keys(init).contains(k) {
                let j = choose|j: int| 0 <= j < entry_keys(init).len() && entry_keys(init)[j] == k;
                assert(entry_keys(entries)[j] == k);
            }
            if k == entries.last().0@ {
                assert(entry_keys(entries)[entries.len() - 1] == k);
            }
        }
        if keys_distinct(entry_keys(entries)) {
            assert(keys_distinct(entry_keys(init))) by {
                assert forall|a: int, b: int| 0 <= a < init.len() && 0 <= b < init.len() && a != b
                    implies entry_keys(init)[a] != entry_keys(init)[b] by {
                    assert(entry_keys(entries)[a] != entry_keys(entries)[b]);
                }
            }
            assert forall|i: int| 0 <= i < entries.len() implies entries_map(entries)[#[trigger] entries[i].0@] == entries[i].1 by {
                if i < entries.len() - 1 {
                    assert(entry_keys(entries)[i] != entry_keys(entries)[entries.len() - 1]);
                    assert(init[i] == entries[i]);
                }
            }
        }
    }
}

proof fn lemma_entries_map_update<V>(entries: Seq<(String, V)>, i: int, kv: (String, V))
    requires
        0 <= i < entries.len(),
        entries[i].0@ == kv.0@,
        keys_distinct(entry_keys(entries)),
    ensures
        entries_map(entries.update(i, kv)) == entries_map(entries).insert(kv.0@, kv.1),
    decreases entries.len(),
{
    let init = entries.drop_last();
    let up = entries.update(i, kv);
    if i == entries.len() - 1 {
        assert(up.drop_last() =~= init);
        assert(entries_map(up) =~= entries_map(entries).insert(kv.0@, kv.1));
    } else {
        assert(up.drop_last() =~= init.update(i, kv));
        assert(keys_distinct(entry_keys(init))) by {
            assert forall|a: int, b: int| 0 <= a < init.len() && 0 <= b < init.len() && a != b
                implies entry_keys(init)[a] != entry_keys(init)[b] by {
                assert(entry_keys(entries)[a] != entry_keys(entries)[b]);
            }
        }
        lemma_entries_map_update(init, i, kv);
        assert(entry_keys(entries)[i] != entry_keys(entries)[entries.len() - 1]);
        assert(up.last() == entries.last());
        assert(entries_map(up) =~= entries_map(entries).insert(kv.0@, kv.1));
    }
}

} // verus!
