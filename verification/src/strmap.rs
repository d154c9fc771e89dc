//! An insertion-ordered map keyed by strings.
//!
//! The map is modelled by two sequences of equal length: the keys, as
//! sequences of characters without repetition, and the values stored under
//! them. Lookups compare keys by their characters.

use crate::text::str_eq;
use vstd::prelude::*;

verus! {

/// A map from strings to values of the type `V` that keeps the order in
/// which its keys came.
pub struct StrMap<V> {
    keys: Vec<String>,
    values: Vec<V>,
}

impl<V> StrMap<V> {
    /// The keys, in insertion order.
    pub closed spec fn keys(&self) -> Seq<Seq<char>> {
        Seq::new(self.keys@.len(), |i: int| self.keys@[i]@)
    }

    /// The values, each at the index of its key.
    pub closed spec fn values(&self) -> Seq<V> {
        self.values@
    }

    /// Every key has one value and no key occurs twice.
    pub open spec fn wf(&self) -> bool {
        &&& self.keys().len() == self.values().len()
        &&& self.keys().no_duplicates()
    }

    /// Whether `key` is present.
    pub open spec fn has(&self, key: Seq<char>) -> bool {
        self.keys().contains(key)
    }

    /// The index of `key`, meaningful when it is present.
    pub open spec fn slot(&self, key: Seq<char>) -> int {
        self.keys().index_of(key)
    }

    /// The value stored under `key`, meaningful when it is present.
    pub open spec fn at(&self, key: Seq<char>) -> V {
        self.values()[self.slot(key)]
    }

    /// The map from each key to its value.
    pub open spec fn view(&self) -> Map<Seq<char>, V> {
        Map::new(|k: Seq<char>| self.has(k), |k: Seq<char>| self.at(k))
    }

    /// A present key sits at exactly one index.
    pub proof fn lemma_slot(&self, key: Seq<char>, i: int)
        requires
            self.wf(),
            0 <= i < self.keys().len(),
            self.keys()[i] == key,
        ensures
            self.has(key),
            self.slot(key) == i,
    {
        assert(self.keys().contains(key));
    }

    /// An empty map.
    pub fn new() -> (m: Self)
        ensures
            m.wf(),
            m.keys() == Seq::<Seq<char>>::empty(),
            m.values() == Seq::<V>::empty(),
    {
        let m = StrMap { keys: Vec::new(), values: Vec::new() };
        assert(m.keys() =~= Seq::<Seq<char>>::empty());
        m
    }

    /// The number of keys.
    pub fn len(&self) -> (n: usize)
        requires
            self.wf(),
        ensures
            n == self.keys().len(),
    {
        self.keys.len()
    }

    /// Whether the map has no keys.
    pub fn is_empty(&self) -> (b: bool)
        requires
            self.wf(),
        ensures
            b == (self.keys().len() == 0),
    {
        self.keys.len() == 0
    }

    /// The index at which `key` is stored, if it is present.
    pub fn position(&self, key: &str) -> (r: Option<usize>)
        requires
            self.wf(),
        ensures
            match r {
                Some(i) => i < self.keys().len() && self.keys()[i as int] == key@,
                None => !self.has(key@),
            },
    {
        let mut i: usize = 0;
        while i < self.keys.len()
            invariant
                i <= self.keys@.len(),
                forall|j: int| 0 <= j < i ==> self.keys()[j] != key@,
                self.keys().len() == self.keys@.len(),
            decreases self.keys@.len() - i,
        {
            if str_eq(self.keys[i].as_str(), key) {
                return Some(i);
            }
            i += 1;
        }
        None
    }

    /// Whether `key` is present.
    pub fn contains_key(&self, key: &str) -> (b: bool)
        requires
            self.wf(),
        ensures
            b == self.has(key@),
    {
        self.position(key).is_some()
    }

    /// The value stored under `key`, if the key is present.
    pub fn get(&self, key: &str) -> (r: Option<&V>)
        requires
            self.wf(),
        ensures
            match r {
                Some(v) => self.has(key@) && *v == self.at(key@),
                None => !self.has(key@),
            },
    {
        match self.position(key) {
            Some(i) => {
                proof {
                    self.lemma_slot(key@, i as int);
                }
                Some(&self.values[i])
            },
            None => None,
        }
    }

    /// The key at index `i`.
    pub fn key_at(&self, i: usize) -> (k: &String)
        requires
            self.wf(),
            i < self.keys().len(),
        ensures
            k@ == self.keys()[i as int],
    {
        &self.keys[i]
    }

    /// The value at index `i`.
    pub fn value_at(&self, i: usize) -> (v: &V)
        requires
            self.wf(),
            i < self.keys().len(),
        ensures
            *v == self.values()[i as int],
    {
        &self.values[i]
    }

    /// The keys, in order.
    pub fn key_list(&self) -> (list: Vec<String>)
        requires
            self.wf(),
        ensures
            list.deep_view() == self.keys(),
    {
        let list = crate::text::clone_strings(&self.keys);
        assert(list.deep_view() =~= self.keys());
        list
    }

    /// Stores `value` under `key`. A key that was present keeps its place
    /// and hands back its former value; a new key goes to the end.
    pub fn insert(&mut self, key: String, value: V) -> (former: Option<V>)
        requires
            old(self).wf(),
        ensures
            final(self).wf(),
            final(self).keys() == put_key(old(self).keys(), key@),
            final(self).values() == put_value(old(self).keys(), old(self).values(), key@, value),
            match former {
                Some(v) => {
                    &&& old(self).has(key@)
                    &&& v == old(self).at(key@)
                    &&& final(self).keys() == old(self).keys()
                    &&& final(self).values() == old(self).values().update(
                        old(self).slot(key@),
                        value,
                    )
                },
                None => {
                    &&& !old(self).has(key@)
                    &&& final(self).keys() == old(self).keys().push(key@)
                    &&& final(self).values() == old(self).values().push(value)
                },
            },
    {
        match self.position(key.as_str()) {
            Some(i) => {
                proof {
                    self.lemma_slot(key@, i as int);
                }
                self.values.push(value);
                let former = self.values.swap_remove(i);
                assert(self.keys() =~= old(self).keys());
                assert(self.values() =~= old(self).values().update(i as int, value));
                Some(former)
            },
            None => {
                self.keys.push(key);
                self.values.push(value);
                assert(self.keys() =~= old(self).keys().push(key@));
                assert(self.keys().no_duplicates()) by {
                    assert forall|a: int, b: int|
                        0 <= a < self.keys().len() && 0 <= b < self.keys().len() && a != b implies self.keys()[a]
                        != self.keys()[b] by {
                        if a < old(self).keys().len() && b < old(self).keys().len() {
                            assert(old(self).keys()[a] != old(self).keys()[b]);
                        } else if a < old(self).keys().len() {
                            assert(old(self).keys().contains(old(self).keys()[a]));
                        } else {
                            assert(old(self).keys().contains(old(self).keys()[b]));
                        }
                    }
                }
                None
            },
        }
    }

    /// Takes the entry at index `i` out; the entries after it move up.
    pub fn remove_at(&mut self, i: usize) -> (entry: (String, V))
        requires
            old(self).wf(),
            i < old(self).keys().len(),
        ensures
            final(self).wf(),
            entry.0@ == old(self).keys()[i as int],
            entry.1 == old(self).values()[i as int],
            final(self).keys() == old(self).keys().remove(i as int),
            final(self).values() == old(self).values().remove(i as int),
            !final(self).has(entry.0@),
    {
        let k = self.keys.remove(i);
        let v = self.values.remove(i);
        assert(self.keys() =~= old(self).keys().remove(i as int));
        assert(self.keys().no_duplicates() && !self.has(k@)) by {
            let before = old(self).keys();
            let after = self.keys();
            assert forall|a: int| 0 <= a < after.len() implies after[a] == before[if a < i {
                a
            } else {
                a + 1
            }] by {}
            assert forall|a: int, b: int| 0 <= a < after.len() && 0 <= b < after.len() && a != b implies after[a]
                != after[b] by {
                let a2 = if a < i { a } else { a + 1 };
                let b2 = if b < i { b } else { b + 1 };
                assert(before[a2] != before[b2]);
            }
            if after.contains(k@) {
                let a = choose|a: int| 0 <= a < after.len() && after[a] == k@;
                let a2 = if a < i { a } else { a + 1 };
                assert(before[a2] != before[i as int]);
            }
        }
        (k, v)
    }

    /// Puts an entry with a key that is not present at index `i`; the
    /// entries from `i` on move down.
    pub fn insert_at(&mut self, i: usize, key: String, value: V)
        requires
            old(self).wf(),
            i <= old(self).keys().len(),
            !old(self).has(key@),
        ensures
            final(self).wf(),
            final(self).keys() == old(self).keys().insert(i as int, key@),
            final(self).values() == old(self).values().insert(i as int, value),
    {
        self.keys.insert(i, key);
        self.values.insert(i, value);
        assert(self.keys() =~= old(self).keys().insert(i as int, key@));
        assert(self.keys().no_duplicates()) by {
            let before = old(self).keys();
            let after = self.keys();
            assert forall|a: int, b: int| 0 <= a < after.len() && 0 <= b < after.len() && a != b implies after[a]
                != after[b] by {
                let a2 = if a < i { a } else { a - 1 };
                let b2 = if b < i { b } else { b - 1 };
                if a == i {
                    assert(before.contains(before[b2]));
                } else if b == i {
                    assert(before.contains(before[a2]));
                } else {
                    assert(before[a2] != before[b2]);
                }
            }
        }
    }

    /// Takes `key` and its value out, if the key is present.
    pub fn remove(&mut self, key: &str) -> (former: Option<V>)
        requires
            old(self).wf(),
        ensures
            final(self).wf(),
            !final(self).has(key@),
            match former {
                Some(v) => {
                    &&& old(self).has(key@)
                    &&& v == old(self).at(key@)
                    &&& final(self).keys() == old(self).keys().remove(old(self).slot(key@))
                    &&& final(self).values() == old(self).values().remove(old(self).slot(key@))
                },
                None => {
                    &&& !old(self).has(key@)
                    &&& final(self).keys() == old(self).keys()
                    &&& final(self).values() == old(self).values()
                },
            },
    {
        match self.position(key) {
            Some(i) => {
                proof {
                    self.lemma_slot(key@, i as int);
                }
                let entry = self.remove_at(i);
                Some(entry.1)
            },
            None => None,
        }
    }
}

/// The keys of a map after `key` was stored in it.
pub open spec fn put_key(keys: Seq<Seq<char>>, key: Seq<char>) -> Seq<Seq<char>> {
    if keys.contains(key) {
        keys
    } else {
        keys.push(key)
    }
}

/// The values of a map after `value` was stored in it under `key`.
pub open spec fn put_value<V>(keys: Seq<Seq<char>>, values: Seq<V>, key: Seq<char>, value: V) -> Seq<V> {
    if keys.contains(key) {
        values.update(keys.index_of(key), value)
    } else {
        values.push(value)
    }
}

/// Storing a value under a key makes the key present with that value,
/// and leaves every other key as it was: present or not, and with the
/// value it had.
pub proof fn lemma_put_others<V>(pre: &StrMap<V>, post: &StrMap<V>, key: Seq<char>, value: V)
    requires
        pre.wf(),
        post.keys() == put_key(pre.keys(), key),
        post.values() == put_value(pre.keys(), pre.values(), key, value),
    ensures
        post.wf(),
        post.has(key),
        post.at(key) == value,
        forall|other: Seq<char>| other != key ==> post.has(other) == pre.has(other),
        forall|other: Seq<char>|
            #![trigger post.at(other)]
            other != key && pre.has(other) ==> post.at(other) == pre.at(other),
{
    let keys = pre.keys();
    if keys.contains(key) {
        let at = keys.index_of(key);
        assert forall|other: Seq<char>| other != key && pre.has(other) implies post.at(other) == pre.at(
            other,
        ) by {
            assert(keys.index_of(other) != at);
        }
    } else {
        let grown = keys.push(key);
        assert(grown[keys.len() as int] == key);
        assert forall|a: int, b: int| 0 <= a < grown.len() && 0 <= b < grown.len() && a != b implies grown[a]
            != grown[b] by {
            if a < keys.len() && b < keys.len() {
                assert(keys[a] != keys[b]);
            } else if a < keys.len() {
                assert(keys.contains(keys[a]));
            } else {
                assert(keys.contains(keys[b]));
            }
        }
        post.lemma_slot(key, keys.len() as int);
        assert forall|other: Seq<char>| other != key implies post.has(other) == pre.has(other) by {
            if grown.contains(other) {
                let i = grown.index_of(other);
                assert(keys[i] == other);
            }
            if keys.contains(other) {
                let i = keys.index_of(other);
                assert(grown[i] == other);
            }
        }
        assert forall|other: Seq<char>| other != key && pre.has(other) implies post.at(other) == pre.at(
            other,
        ) by {
            let i = keys.index_of(other);
            assert(grown[i] == other);
            post.lemma_slot(other, i);
        }
    }
}

/// The keys of the map made by storing the first `n` of `entries`, one
/// after the other.
pub open spec fn stored_keys<V>(entries: Seq<(Seq<char>, V)>, n: int) -> Seq<Seq<char>>
    decreases n,
{
    if n <= 0 {
        Seq::empty()
    } else {
        put_key(stored_keys(entries, n - 1), entries[n - 1].0)
    }
}

/// The values of the map made by storing the first `n` of `entries`, one
/// after the other.
pub open spec fn stored_values<V>(entries: Seq<(Seq<char>, V)>, n: int) -> Seq<V>
    decreases n,
{
    if n <= 0 {
        Seq::empty()
    } else {
        put_value(stored_keys(entries, n - 1), stored_values(entries, n - 1), entries[n - 1].0, entries[n - 1].1)
    }
}

/// Keys that were stored are all different.
pub proof fn lemma_stored_keys_distinct<V>(entries: Seq<(Seq<char>, V)>, n: int)
    requires
        0 <= n <= entries.len(),
    ensures
        stored_keys(entries, n).no_duplicates(),
    decreases n,
{
    if n > 0 {
        lemma_stored_keys_distinct(entries, n - 1);
        let keys = stored_keys(entries, n - 1);
        let key = entries[n - 1].0;
        if !keys.contains(key) {
            assert forall|a: int, b: int|
                0 <= a < keys.push(key).len() && 0 <= b < keys.push(key).len() && a != b implies keys.push(
                key,
            )[a] != keys.push(key)[b] by {
                if a < keys.len() && b < keys.len() {
                    assert(keys[a] != keys[b]);
                } else if a < keys.len() {
                    assert(keys.contains(keys[a]));
                } else {
                    assert(keys.contains(keys[b]));
                }
            }
        }
    }
}

/// The entries with their keys as sequences of characters.
pub open spec fn keyed<V>(entries: Seq<(String, V)>) -> Seq<(Seq<char>, V)> {
    Seq::new(entries.len(), |i: int| (entries[i].0@, entries[i].1))
}

/// Storing entries and then looking at each value through `f` gives what
/// storing the entries looked at through `f` gives.
pub proof fn lemma_stored_through<V, W>(entries: Seq<(Seq<char>, V)>, f: spec_fn(V) -> W, n: int)
    requires
        0 <= n <= entries.len(),
    ensures
        stored_keys(entries.map_values(|e: (Seq<char>, V)| (e.0, f(e.1))), n) == stored_keys(entries, n),
        stored_values(entries.map_values(|e: (Seq<char>, V)| (e.0, f(e.1))), n) == stored_values(
            entries,
            n,
        ).map_values(f),
        stored_keys(entries, n).len() == stored_values(entries, n).len(),
    decreases n,
{
    let seen = entries.map_values(|e: (Seq<char>, V)| (e.0, f(e.1)));
    if n > 0 {
        lemma_stored_through(entries, f, n - 1);
        let keys = stored_keys(entries, n - 1);
        let values = stored_values(entries, n - 1);
        let key = entries[n - 1].0;
        assert(seen[n - 1] == (key, f(entries[n - 1].1)));
        if keys.contains(key) {
            assert(values.update(keys.index_of(key), entries[n - 1].1).map_values(f) =~= values.map_values(
                f,
            ).update(keys.index_of(key), f(entries[n - 1].1)));
        } else {
            assert(values.push(entries[n - 1].1).map_values(f) =~= values.map_values(f).push(
                f(entries[n - 1].1),
            ));
        }
    } else {
        assert(stored_values(entries, n).map_values(f) =~= Seq::<W>::empty());
    }
}

impl<V> StrMap<V> {
    /// The map made by storing the entries one after the other: an entry
    /// whose key was stored before takes the place of the older value.
    pub fn from_entries(entries: Vec<(String, V)>) -> (map: Self)
        ensures
            map.wf(),
            map.keys() == stored_keys(keyed(entries@), entries@.len() as int),
            map.values() == stored_values(keyed(entries@), entries@.len() as int),
    {
        let ghost all = keyed(entries@);
        let mut rest = entries;
        let mut taken: Vec<(String, V)> = Vec::new();
        while rest.len() > 0
            invariant
                rest@.len() + taken@.len() == all.len(),
                forall|i: int| 0 <= i < rest@.len() ==> (rest@[i].0@, rest@[i].1) == all[i],
                forall|i: int| 0 <= i < taken@.len() ==> (taken@[i].0@, taken@[i].1) == all[all.len() - 1 - i],
            decreases rest@.len(),
        {
            let e = rest.pop().unwrap();
            taken.push(e);
        }
        let mut map: StrMap<V> = StrMap::new();
        let ghost mut k: int = 0;
        while taken.len() > 0
            invariant
                map.wf(),
                all == keyed(entries@),
                0 <= k,
                k + taken@.len() == all.len(),
                forall|i: int| 0 <= i < taken@.len() ==> (taken@[i].0@, taken@[i].1) == all[all.len() - 1 - i],
                map.keys() == stored_keys(all, k),
                map.values() == stored_values(all, k),
            decreases taken@.len(),
        {
            let (key, value) = taken.pop().unwrap();
            assert((key@, value) == all[k]);
            map.insert(key, value);
            proof {
                k = k + 1;
            }
        }
        map
    }
}

} // verus!
