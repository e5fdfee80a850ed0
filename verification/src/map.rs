//! Maps that list their entries in a fixed order.
use std::collections::BTreeMap;
use vstd::prelude::*;
use crate::outside::debug_tree;

verus! {

/// A key of an [`EntryMap`]: two keys are the same key when their views are equal.
pub trait MapKey: View + Sized {
    fn same_key(&self, other: &Self) -> (same: bool)
        ensures
            same == (self@ == other@),
    ;
}

impl MapKey for String {
    fn same_key(&self, other: &Self) -> (same: bool) {
        *self == *other
    }
}

/// A map that keeps its entries in the order in which their keys were first inserted.
///
/// Its view is the map from the keys' views to the values.
#[derive(Clone)]
pub struct EntryMap<K, V> {
    entries: Vec<(K, V)>,
}

/// The entry at `index` is the first one with this key.
pub open spec fn first_with_key<K: View, V>(
    entries: Seq<(K, V)>,
    key: K::V,
    index: int,
) -> bool {
    &&& 0 <= index < entries.len()
    &&& entries[index].0@ == key
    &&& forall|i: int| 0 <= i < index ==> (#[trigger] entries[i]).0@ != key
}

/// Some entry has this key.
pub open spec fn has_key<K: View, V>(entries: Seq<(K, V)>, key: K::V) -> bool {
    exists|i: int| #[trigger] first_with_key(entries, key, i)
}

/// Where the first entry with this key stands.
pub open spec fn key_index<K: View, V>(entries: Seq<(K, V)>, key: K::V) -> int {
    choose|i: int| #[trigger] first_with_key(entries, key, i)
}

/// The map that a list of entries stands for.
pub open spec fn map_of<K: View, V>(entries: Seq<(K, V)>) -> Map<K::V, V> {
    Map::new(
        |key: K::V| has_key(entries, key),
        |key: K::V| entries[key_index(entries, key)].1,
    )
}

/// No two entries hold the same key.
pub open spec fn distinct_keys<K: View, V>(entries: Seq<(K, V)>) -> bool {
    forall|i: int, j: int|
        0 <= i < j < entries.len() ==> (#[trigger] entries[i]).0@ != (#[trigger] entries[j]).0@
}

/// Where an entry has a key, a first entry has it.
proof fn lemma_has_key<K: View, V>(entries: Seq<(K, V)>, index: int)
    requires
        0 <= index < entries.len(),
    ensures
        has_key(entries, entries[index].0@),
    decreases index,
{
    let key = entries[index].0@;
    if exists|i: int| 0 <= i < index && (#[trigger] entries[i]).0@ == key {
        let i = choose|i: int| 0 <= i < index && (#[trigger] entries[i]).0@ == key;
        lemma_has_key(entries, i);
    } else {
        assert(first_with_key(entries, key, index));
    }
}

/// The first entry with a key holds the key's value.
proof fn lemma_first<K: View, V>(entries: Seq<(K, V)>, key: K::V, index: int)
    requires
        first_with_key(entries, key, index),
    ensures
        map_of(entries).contains_key(key),
        map_of(entries)[key] == entries[index].1,
{
    let i = key_index(entries, key);
    assert(first_with_key(entries, key, i));
    if i < index {
        assert(entries[i].0@ != key);
    }
    if index < i {
        assert(entries[index].0@ != key);
    }
}

/// Where no two entries hold the same key, the map and the list of entries hold the same.
pub proof fn lemma_entries<K: View, V>(entries: Seq<(K, V)>)
    requires
        distinct_keys(entries),
    ensures
        forall|i: int|
            0 <= i < entries.len() ==> map_of(entries).contains_key((#[trigger] entries[i]).0@)
                && map_of(entries)[entries[i].0@] == entries[i].1,
        forall|key: K::V| #[trigger]
            map_of(entries).contains_key(key) ==> exists|i: int|
                0 <= i < entries.len() && (#[trigger] entries[i]).0@ == key,
{
    assert forall|i: int| 0 <= i < entries.len() implies map_of(entries).contains_key(
        (#[trigger] entries[i]).0@,
    ) && map_of(entries)[entries[i].0@] == entries[i].1 by {
        assert(first_with_key(entries, entries[i].0@, i));
        lemma_first(entries, entries[i].0@, i);
    }
    assert forall|key: K::V| #[trigger] map_of(entries).contains_key(key) implies exists|i: int|
        0 <= i < entries.len() && (#[trigger] entries[i]).0@ == key by {
        let i = key_index(entries, key);
        assert(first_with_key(entries, key, i));
        assert(entries[i].0@ == key);
    }
}

/// A list of entries with distinct keys stands for a finite map with as many keys.
pub proof fn lemma_entry_count<K: View, V>(entries: Seq<(K, V)>)
    requires
        distinct_keys(entries),
    ensures
        map_of(entries).dom().finite(),
        map_of(entries).dom().len() == entries.len(),
    decreases entries.len(),
{
    if entries.len() == 0 {
        assert(map_of(entries).dom() =~= Set::<K::V>::empty());
    } else {
        let rest = entries.drop_last();
        let key = entries.last().0@;
        assert(distinct_keys(rest)) by {
            assert forall|i: int, j: int| 0 <= i < j < rest.len() implies (#[trigger] rest[i]).0@ != (
            #[trigger] rest[j]).0@ by {
                assert(entries[i].0@ != entries[j].0@);
            }
        }
        lemma_entry_count(rest);
        lemma_entries(rest);
        assert(!map_of(rest).dom().contains(key)) by {
            if map_of(rest).contains_key(key) {
                let i = choose|i: int| 0 <= i < rest.len() && (#[trigger] rest[i]).0@ == key;
                assert(entries[i].0@ != entries[entries.len() - 1].0@);
            }
        }
        lemma_write(rest, entries, rest.len() as int, key);
        assert(map_of(entries).dom() =~= map_of(rest).dom().insert(key));
    }
}

/// Writing one entry, at its own place or behind all others, is an insertion into the map.
proof fn lemma_write<K: View, V>(
    before: Seq<(K, V)>,
    after: Seq<(K, V)>,
    index: int,
    key: K::V,
)
    requires
        0 <= index <= before.len(),
        index == before.len() ==> !has_key(before, key),
        index < before.len() ==> first_with_key(before, key, index),
        after.len() == if index == before.len() {
            before.len() + 1
        } else {
            before.len()
        },
        forall|i: int| 0 <= i < before.len() && i != index ==> after[i] == before[i],
        after[index].0@ == key,
    ensures
        map_of(after) == map_of(before).insert(key, after[index].1),
        distinct_keys(before) ==> distinct_keys(after),
{
    let want = map_of(before).insert(key, after[index].1);
    assert forall|i: int| 0 <= i < index implies (#[trigger] after[i]).0@ != key by {
        assert(before[i] == after[i]);
        if before[i].0@ == key {
            lemma_has_key(before, i);
        }
    }
    assert(first_with_key(after, key, index));
    lemma_first(after, key, index);
    assert forall|k: K::V|
        #![trigger has_key(after, k)]
        #![trigger has_key(before, k)]
        k != key implies has_key(after, k) == has_key(before, k) && (has_key(before, k)
        ==> map_of(after)[k] == map_of(before)[k]) by {
        if has_key(after, k) {
            let i = key_index(after, k);
            assert(first_with_key(after, k, i));
            assert(first_with_key(before, k, i)) by {
                assert forall|j: int| 0 <= j < i implies (#[trigger] before[j]).0@ != k by {
                    assert(after[j].0@ != k);
                }
            }
            lemma_first(before, k, i);
            lemma_first(after, k, i);
        }
        if has_key(before, k) {
            let i = key_index(before, k);
            assert(first_with_key(before, k, i));
            assert(after[i].0@ == k);
            lemma_has_key(after, i);
        }
    }
    assert(map_of(after) =~= want);
    if distinct_keys(before) {
        assert forall|i: int, j: int| 0 <= i < j < after.len() implies (#[trigger] after[i]).0@ != (
        #[trigger] after[j]).0@ by {
            if j == before.len() {
                assert(after[i].0@ != key);
            } else {
                assert(before[i].0@ != before[j].0@);
                assert(i != index ==> before[i] == after[i]);
                assert(j != index ==> before[j] == after[j]);
            }
        }
    }
}

impl<K: View, V> EntryMap<K, V> {
    /// The entries, in the order in which their keys were first inserted.
    pub closed spec fn entries(self) -> Seq<(K, V)> {
        self.entries@
    }

    /// The keys, in the order in which they were first inserted.
    pub open spec fn keys(self) -> Seq<K> {
        self.entries().map_values(|entry: (K, V)| entry.0)
    }

    /// The keys once this one is inserted: a key that is there keeps its place, and a new one comes
    /// last.
    pub open spec fn keys_with(self, key: K) -> Seq<K> {
        if self@.contains_key(key@) {
            self.keys()
        } else {
            self.keys().push(key)
        }
    }

    /// No two entries hold the same key.
    pub open spec fn wf(self) -> bool {
        distinct_keys(self.entries())
    }
}

impl<K: View, V> View for EntryMap<K, V> {
    type V = Map<K::V, V>;

    open spec fn view(&self) -> Map<K::V, V> {
        map_of(self.entries())
    }
}

impl<K: MapKey, V> EntryMap<K, V> {
    /// A map without entries.
    pub fn new() -> (map: Self)
        ensures
            map.wf(),
            map.entries() == Seq::<(K, V)>::empty(),
            map@ == Map::<K::V, V>::empty(),
    {
        EntryMap { entries: Vec::new() }
    }

    /// The number of entries.
    pub fn len(&self) -> (len: usize)
        ensures
            len == self.entries().len(),
            self.wf() ==> len == self@.dom().len(),
    {
        proof {
            if self.wf() {
                lemma_entry_count(self.entries());
            }
        }
        self.entries.len()
    }

    /// The entry at a place in the list.
    pub fn entry_at(&self, index: usize) -> (entry: &(K, V))
        requires
            index < self.entries().len(),
        ensures
            *entry == self.entries()[index as int],
    {
        &self.entries[index]
    }

    /// Gives up the map for its list of entries.
    pub fn into_entries(self) -> (entries: Vec<(K, V)>)
        ensures
            entries@ == self.entries(),
    {
        self.entries
    }

    fn position(&self, key: &K) -> (index: usize)
        ensures
            index < self.entries@.len() ==> first_with_key(self.entries@, key@, index as int),
            index >= self.entries@.len() ==> index == self.entries@.len() && !has_key(
                self.entries@,
                key@,
            ),
    {
        let mut i: usize = 0;
        while i < self.entries.len()
            invariant
                i <= self.entries@.len(),
                forall|j: int| 0 <= j < i ==> (#[trigger] self.entries@[j]).0@ != key@,
            decreases self.entries@.len() - i,
        {
            if self.entries[i].0.same_key(key) {
                return i;
            }
            i += 1;
        }
        i
    }

    /// The value of a key, where the map has one.
    pub fn get(&self, key: &K) -> (value: Option<&V>)
        ensures
            value == (if self@.contains_key(key@) {
                Some(&self@[key@])
            } else {
                None
            }),
    {
        let i: usize = self.position(key);
        if i < self.entries.len() {
            proof {
                lemma_first(self.entries@, key@, i as int);
            }
            Some(&self.entries[i].1)
        } else {
            None
        }
    }

    /// The value of a key, after inserting `default` for it where the map has none.
    pub fn get_or_insert(&mut self, key: K, default: V) -> (value: &mut V)
        ensures
            *value == (if old(self)@.contains_key(key@) {
                old(self)@[key@]
            } else {
                default
            }),
            final(self)@ == old(self)@.insert(key@, *final(value)),
            final(self).keys() == old(self).keys_with(key),
            old(self).wf() ==> final(self).wf(),
    {
        let ghost before = self.entries@;
        let ghost k = key@;
        let i: usize = self.position(&key);
        if i == self.entries.len() {
            self.entries.push((key, default));
        } else {
            proof {
                lemma_first(before, k, i as int);
            }
        }
        let value = &mut self.entries[i].1;
        proof {
            lemma_write(before, after_borrow(self).entries@, i as int, k);
        }
        value
    }

    /// Gives a key a value, in place of the one that it had.
    pub fn insert(&mut self, key: K, value: V)
        ensures
            final(self)@ == old(self)@.insert(key@, value),
            final(self).keys() == old(self).keys_with(key),
            old(self).wf() ==> final(self).wf(),
    {
        let ghost before = self.entries@;
        let ghost k = key@;
        let i: usize = self.position(&key);
        if i == self.entries.len() {
            self.entries.push((key, value));
        } else {
            self.entries[i].1 = value;
        }
        proof {
            lemma_write(before, self.entries@, i as int, k);
        }
    }
}

/// Written as a map, in the order of the keys. No contract says what is written.
impl<V: std::fmt::Debug> std::fmt::Debug for EntryMap<String, V> {
    fn fmt(&self, f: &mut std::fmt::Formatter<'_>) -> (result: std::fmt::Result) {
        let mut sorted: BTreeMap<&String, &V> = BTreeMap::new();
        let mut i: usize = 0;
        while i < self.entries.len()
            invariant
                i <= self.entries@.len(),
            decreases self.entries@.len() - i,
        {
            sorted.insert(&self.entries[i].0, &self.entries[i].1);
            i += 1;
        }
        debug_tree(&sorted, f)
    }
}

/// A map of texts, each by its view.
pub open spec fn texts(map: Map<Seq<char>, String>) -> Map<Seq<char>, Seq<char>> {
    map.map_values(|value: String| value@)
}

impl EntryMap<String, String> {
    /// Each entry of this map is one of the other map's too.
    fn within(&self, other: &Self) -> (within: bool)
        ensures
            within == forall|key: Seq<char>| #[trigger]
                texts(self@).contains_key(key) ==> texts(other@).contains_key(key) && texts(
                    other@,
                )[key] == texts(self@)[key],
    {
        let mut i: usize = 0;
        while i < self.entries.len()
            invariant
                i <= self.entries@.len(),
                forall|j: int|
                    #![trigger self.entries@[j]]
                    0 <= j < i ==> texts(other@).contains_key(self.entries@[j].0@) && texts(other@)[
                    self.entries@[j].0@] == texts(self@)[self.entries@[j].0@],
            decreases self.entries@.len() - i,
        {
            let key = &self.entries[i].0;
            proof {
                lemma_has_key(self.entries@, i as int);
            }
            assert(texts(self@).contains_key(key@));
            match (self.get(key), other.get(key)) {
                (Some(mine), Some(others)) => {
                    if *mine != *others {
                        return false;
                    }
                },
                _ => {
                    return false;
                },
            }
            i += 1;
        }
        proof {
            assert forall|key: Seq<char>| #[trigger] texts(self@).contains_key(key) implies texts(
                other@,
            ).contains_key(key) && texts(other@)[key] == texts(self@)[key] by {
                let j = key_index(self.entries@, key);
                assert(first_with_key(self.entries@, key, j));
                assert(self.entries@[j].0@ == key);
            }
        }
        true
    }

    /// The two maps hold the same texts under the same keys, in whatever order.
    pub fn same_texts(&self, other: &Self) -> (same: bool)
        ensures
            same == (texts(self@) == texts(other@)),
    {
        let same = self.within(other) && other.within(self);
        proof {
            if same {
                assert(texts(self@) =~= texts(other@));
            }
        }
        same
    }
}

impl PartialEq for EntryMap<String, String> {
    fn eq(&self, other: &Self) -> (same: bool) {
        self.same_texts(other)
    }
}

impl Eq for EntryMap<String, String> {

}

impl vstd::std_specs::cmp::PartialEqSpecImpl for EntryMap<String, String> {
    open spec fn obeys_eq_spec() -> bool {
        true
    }

    open spec fn eq_spec(&self, other: &Self) -> bool {
        texts(self@) == texts(other@)
    }
}

} // verus!
