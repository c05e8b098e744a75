//! Tables: finite maps from keys to values, which stand for the entries of a contract's storage.

use vstd::prelude::*;

use crate::address::Address;

verus! {

/// A type whose values can be told apart.
pub trait Key: Copy {
    /// Whether two keys are the same.
    fn same(&self, other: &Self) -> (same: bool)
        ensures
            same == (*self == *other),
    ;
}

impl Key for u64 {
    fn same(&self, other: &Self) -> (same: bool) {
        *self == *other
    }
}

impl Key for Address {
    fn same(&self, other: &Self) -> (same: bool) {
        *self == *other
    }
}

/// A finite map. No key occurs twice among the entries.
pub struct Table<K, V> {
    entries: Vec<(K, V)>,
}

/// Whether `key` has an entry.
spec fn occurs<K, V>(entries: Seq<(K, V)>, key: K) -> bool {
    exists|i: int| 0 <= i < entries.len() && (#[trigger] entries[i]).0 == key
}

/// Where the entry of `key` stands.
spec fn place<K, V>(entries: Seq<(K, V)>, key: K) -> int {
    choose|i: int| 0 <= i < entries.len() && (#[trigger] entries[i]).0 == key
}

/// The map that the entries make up.
spec fn as_map<K, V>(entries: Seq<(K, V)>) -> Map<K, V> {
    Map::new(|key: K| occurs(entries, key), |key: K| entries[place(entries, key)].1)
}

/// No key occurs twice.
spec fn keys_distinct<K, V>(entries: Seq<(K, V)>) -> bool {
    forall|i: int, j: int|
        0 <= i < j < entries.len() ==> (#[trigger] entries[i]).0 != (#[trigger] entries[j]).0
}

impl<K, V> View for Table<K, V> {
    type V = Map<K, V>;

    closed spec fn view(&self) -> Map<K, V> {
        as_map(self.entries@)
    }
}

impl<K, V> Table<K, V> {
    #[verifier::type_invariant]
    spec fn well_formed(self) -> bool {
        keys_distinct(self.entries@)
    }

    /// A table without entries.
    pub fn new() -> (table: Self)
        ensures
            table@ == Map::<K, V>::empty(),
    {
        let table = Table { entries: Vec::new() };
        assert(table@ =~= Map::<K, V>::empty());
        table
    }
}

impl<K: Key, V> Table<K, V> {
    /// Where the entry of `key` stands, or the number of entries if there is none.
    fn find(&self, key: K) -> (i: usize)
        ensures
            i <= self.entries@.len(),
            i < self.entries@.len() ==> self.entries@[i as int].0 == key,
            i == self.entries@.len() ==> !occurs(self.entries@, key),
    {
        let mut i: usize = 0;
        while i < self.entries.len()
            invariant
                i <= self.entries@.len(),
                forall|j: int| 0 <= j < i ==> (#[trigger] self.entries@[j]).0 != key,
            decreases self.entries@.len() - i,
        {
            if self.entries[i].0.same(&key) {
                return i;
            }
            i = i + 1;
        }
        i
    }

    /// The value of `key`, if it has one.
    pub fn get(&self, key: K) -> (value: Option<&V>)
        ensures
            match value {
                Some(v) => self@.contains_key(key) && *v == self@[key],
                None => !self@.contains_key(key),
            },
    {
        let i: usize = self.find(key);
        if i < self.entries.len() {
            proof {
                use_type_invariant(self);
                lemma_entry(self.entries@, i as int);
            }
            Some(&self.entries[i].1)
        } else {
            None
        }
    }

    /// Gives `key` the value `value`.
    pub fn set(&mut self, key: K, value: V)
        ensures
            final(self)@ == old(self)@.insert(key, value),
    {
        proof {
            use_type_invariant(&*self);
        }
        let i: usize = self.find(key);
        let mut entries: Vec<(K, V)> = Vec::new();
        std::mem::swap(&mut entries, &mut self.entries);
        let ghost before = entries@;
        if i < entries.len() {
            entries.set(i, (key, value));
            proof {
                lemma_replace(before, i as int, value);
            }
        } else {
            entries.push((key, value));
            proof {
                lemma_append(before, key, value);
            }
        }
        self.entries = entries;
    }

    /// Takes away the entry of `key`, if it has one.
    pub fn remove(&mut self, key: K)
        ensures
            final(self)@ == old(self)@.remove(key),
    {
        proof {
            use_type_invariant(&*self);
        }
        let i: usize = self.find(key);
        if i < self.entries.len() {
            let mut entries: Vec<(K, V)> = Vec::new();
            std::mem::swap(&mut entries, &mut self.entries);
            let ghost before = entries@;
            entries.remove(i);
            proof {
                lemma_take_away(before, i as int);
            }
            self.entries = entries;
        } else {
            assert(self@.remove(key) =~= self@);
        }
    }
}

/// The map gives the key of each entry its value.
proof fn lemma_entry<K, V>(entries: Seq<(K, V)>, i: int)
    requires
        keys_distinct(entries),
        0 <= i < entries.len(),
    ensures
        as_map(entries).contains_key(entries[i].0),
        as_map(entries)[entries[i].0] == entries[i].1,
{
    let key = entries[i].0;
    assert(occurs(entries, key));
    let j = place(entries, key);
    assert(entries[j].0 == key);
}

/// To replace the value of an entry is to insert it.
proof fn lemma_replace<K, V>(entries: Seq<(K, V)>, i: int, value: V)
    requires
        keys_distinct(entries),
        0 <= i < entries.len(),
    ensures
        keys_distinct(entries.update(i, (entries[i].0, value))),
        as_map(entries.update(i, (entries[i].0, value))) == as_map(entries).insert(
            entries[i].0,
            value,
        ),
{
    let key = entries[i].0;
    let after = entries.update(i, (key, value));
    assert forall|k: K| occurs(after, k) == (occurs(entries, k) || k == key) by {
        if occurs(entries, k) {
            let j = place(entries, k);
            assert(after[j].0 == k);
        }
        if occurs(after, k) {
            let j = place(after, k);
            assert(entries[j].0 == k);
        }
        assert(after[i].0 == key);
    }
    lemma_entry(after, i);
    assert forall|k: K| occurs(entries, k) && k != key implies as_map(after)[k] == as_map(
        entries,
    )[k] by {
        let j = place(entries, k);
        assert(after[j] == entries[j]);
        lemma_entry(after, j);
        lemma_entry(entries, j);
    }
    assert(as_map(after) =~= as_map(entries).insert(key, value));
}

/// To append an entry with a new key is to insert it.
proof fn lemma_append<K, V>(entries: Seq<(K, V)>, key: K, value: V)
    requires
        keys_distinct(entries),
        !occurs(entries, key),
    ensures
        keys_distinct(entries.push((key, value))),
        as_map(entries.push((key, value))) == as_map(entries).insert(key, value),
{
    let after = entries.push((key, value));
    assert(forall|i: int| 0 <= i < entries.len() ==> after[i] == (#[trigger] entries[i]));
    assert forall|k: K| occurs(after, k) == (occurs(entries, k) || k == key) by {
        if occurs(entries, k) {
            let j = place(entries, k);
            assert(after[j].0 == k);
        }
        if occurs(after, k) && k != key {
            let j = place(after, k);
            assert(entries[j].0 == k);
        }
        assert(after[entries.len() as int].0 == key);
    }
    lemma_entry(after, entries.len() as int);
    assert forall|k: K| occurs(entries, k) implies as_map(after)[k] == as_map(entries)[k] by {
        let j = place(entries, k);
        assert(after[j] == entries[j]);
        lemma_entry(after, j);
        lemma_entry(entries, j);
    }
    assert(as_map(after) =~= as_map(entries).insert(key, value));
}

/// To take an entry out is to remove its key.
proof fn lemma_take_away<K, V>(entries: Seq<(K, V)>, i: int)
    requires
        keys_distinct(entries),
        0 <= i < entries.len(),
    ensures
        keys_distinct(entries.remove(i)),
        as_map(entries.remove(i)) == as_map(entries).remove(entries[i].0),
{
    let key = entries[i].0;
    let after = entries.remove(i);
    assert(forall|j: int| 0 <= j < i ==> after[j] == entries[j]);
    assert(forall|j: int| i <= j < after.len() ==> (#[trigger] after[j]) == entries[j + 1]);
    assert forall|k: K| occurs(after, k) == (occurs(entries, k) && k != key) by {
        if occurs(entries, k) && k != key {
            let j = place(entries, k);
            if j < i {
                assert(after[j].0 == k);
            } else {
                assert(after[j - 1].0 == k);
            }
        }
        if occurs(after, k) {
            let j = place(after, k);
            if j < i {
                assert(entries[j].0 == k);
            } else {
                assert(entries[j + 1].0 == k);
            }
        }
    }
    assert forall|k: K| occurs(after, k) implies as_map(after)[k] == as_map(entries)[k] by {
        let j = place(after, k);
        lemma_entry(after, j);
        lemma_entry(
            entries,
            if j < i {
                j
            } else {
                j + 1
            },
        );
    }
    assert(as_map(after) =~= as_map(entries).remove(key));
}

} // verus!
