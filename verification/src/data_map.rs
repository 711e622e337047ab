//! The ordered table of typed values that a tile or a map owns, and its
//! written form keyed by names.

use crate::data::{
    data_named, data_of_raw, data_to_raw, lemma_data_round_trip, lemma_raw_round_trip, raw_known,
    Data, DataRaw, DataRawView, DataView, ItemStack,
};
use crate::id::{distinct_names, lemma_lookup_of_name, lookup, name_at, Id, Interner};
use crate::seqs::{
    assoc, distinct_keys, filter_map, has_key, lemma_assoc_insert_at, lemma_assoc_keys,
    lemma_assoc_push, lemma_assoc_remove, lemma_assoc_update, lemma_assoc_value,
    lemma_filter_map_inverse, lemma_filter_map_push,
};
use vstd::prelude::*;

verus! {

/// The keys of the list rise strictly.
pub open spec fn ascending<V>(s: Seq<(Id, V)>) -> bool {
    forall|i: int, j: int| 0 <= i < j < s.len() ==> s[i].0.index() < s[j].0.index()
}

/// The stacks of the inventory under `key`, and none where `key` holds no
/// inventory.
pub open spec fn stacks_under(data: Map<Id, DataView>, key: Id) -> Seq<ItemStack> {
    if data.contains_key(key) {
        match data[key] {
            DataView::Inventory(stacks) => stacks,
            _ => Seq::empty(),
        }
    } else {
        Seq::empty()
    }
}

/// A table from handles to typed values, kept in the order of its keys.
#[derive(Debug, PartialEq, Eq)]
pub struct DataMap {
    items: Vec<(Id, Data)>,
}

impl View for DataMap {
    type V = Map<Id, DataView>;

    /// The value that each key holds.
    open spec fn view(&self) -> Map<Id, DataView> {
        assoc(self.entries())
    }
}

impl DataMap {
    /// The keys with what they hold, in the order of the table.
    pub closed spec fn entries(&self) -> Seq<(Id, DataView)> {
        Seq::new(self.items@.len(), |i: int| (self.items@[i].0, self.items@[i].1@))
    }

    /// The keys rise strictly along the table.
    pub open spec fn wf(&self) -> bool {
        ascending(self.entries())
    }

    /// An empty table.
    pub fn new() -> (map: DataMap)
        ensures
            map.wf(),
            map.entries() == Seq::<(Id, DataView)>::empty(),
            map@ == Map::<Id, DataView>::empty(),
    {
        let map = DataMap { items: Vec::new() };
        assert(map.entries() =~= Seq::<(Id, DataView)>::empty());
        map
    }

    /// The number of keys.
    pub fn len(&self) -> (n: usize)
        ensures
            n == self.entries().len(),
            self.wf() ==> n == self@.len(),
    {
        proof {
            if self.wf() {
                crate::seqs::lemma_assoc_len(self.entries());
            }
        }
        self.items.len()
    }

    /// The key at position `i` of the table.
    pub fn key_at(&self, i: usize) -> (key: Id)
        requires
            i < self.entries().len(),
        ensures
            key == self.entries()[i as int].0,
    {
        self.items[i].0
    }

    /// The value at position `i` of the table.
    pub fn value_at(&self, i: usize) -> (value: &Data)
        requires
            i < self.entries().len(),
        ensures
            value@ == self.entries()[i as int].1,
    {
        &self.items[i].1
    }

    /// The first position whose key is not below `key`, and whether `key`
    /// stands there.
    fn search(&self, key: Id) -> (found: (usize, bool))
        requires
            self.wf(),
        ensures
            found.0 <= self.entries().len(),
            forall|k: int| 0 <= k < found.0 ==> self.entries()[k].0.index() < key.index(),
            forall|k: int|
                found.0 <= k < self.entries().len() ==> key.index() <= self.entries()[k].0.index(),
            found.1 <==> has_key(self.entries(), key),
            found.1 ==> found.0 < self.entries().len() && self.entries()[found.0 as int].0 == key,
    {
        let mut low: usize = 0;
        let mut high: usize = self.items.len();
        while low < high
            invariant
                self.wf(),
                low <= high <= self.entries().len(),
                forall|k: int| 0 <= k < low ==> self.entries()[k].0.index() < key.index(),
                forall|k: int|
                    high <= k < self.entries().len() ==> key.index() < self.entries()[k].0.index(),
            decreases high - low,
        {
            let mid = low + (high - low) / 2;
            let at = self.items[mid].0;
            assert(at == self.entries()[mid as int].0);
            if at.to_raw() < key.to_raw() {
                low = mid + 1;
            } else if at.to_raw() == key.to_raw() {
                proof {
                    Id::lemma_index_injective(at, key);
                }
                return (mid, true);
            } else {
                high = mid;
            }
        }
        proof {
            if has_key(self.entries(), key) {
                let k = choose|k: int|
                    0 <= k < self.entries().len() && (#[trigger] self.entries()[k]).0 == key;
                assert(self.entries()[k].0.index() == key.index());
            }
        }
        (low, false)
    }

    /// Whether `key` holds a value.
    pub fn contains_key(&self, key: Id) -> (held: bool)
        requires
            self.wf(),
        ensures
            held == self@.contains_key(key),
    {
        proof {
            lemma_assoc_keys(self.entries());
        }
        self.search(key).1
    }

    /// The value that `key` holds.
    pub fn get(&self, key: Id) -> (value: Option<&Data>)
        requires
            self.wf(),
        ensures
            match value {
                Some(data) => self@.contains_key(key) && self@[key] == data@,
                None => !self@.contains_key(key),
            },
    {
        proof {
            lemma_assoc_keys(self.entries());
        }
        let (at, found) = self.search(key);
        if found {
            proof {
                lemma_assoc_value(self.entries(), at as int);
            }
            Some(&self.items[at].1)
        } else {
            None
        }
    }

    /// The stacks of the inventory that `key` holds; none where `key` holds
    /// no inventory.
    pub fn stacks_at(&self, key: Id) -> (stacks: Vec<ItemStack>)
        requires
            self.wf(),
        ensures
            stacks@ == stacks_under(self@, key),
    {
        match self.get(key) {
            Some(Data::Inventory(inventory)) => inventory.clone().stacks,
            _ => Vec::new(),
        }
    }

    /// Gives `key` the value `value`, in place of any value it held.
    pub fn insert(&mut self, key: Id, value: Data)
        requires
            old(self).wf(),
        ensures
            final(self).wf(),
            final(self)@ == old(self)@.insert(key, value@),
    {
        let (at, found) = self.search(key);
        let ghost before = self.entries();
        if found {
            self.items.set(at, (key, value));
            proof {
                assert(self.entries() =~= before.update(at as int, (key, value@)));
                lemma_assoc_update(before, at as int, value@);
            }
        } else {
            self.items.insert(at, (key, value));
            proof {
                assert(self.entries() =~= before.insert(at as int, (key, value@)));
                lemma_assoc_insert_at(before, at as int, key, value@);
                let after = self.entries();
                assert forall|i: int, j: int| 0 <= i < j < after.len() implies after[i].0.index()
                    < after[j].0.index() by {
                    let bi = if i < at { i } else { i - 1 };
                    let bj = if j < at { j } else { j - 1 };
                    if i != at && j != at {
                        assert(after[i] == before[bi] && after[j] == before[bj]);
                    } else if i == at {
                        assert(after[j] == before[bj]);
                        if key.index() == before[bj].0.index() {
                            Id::lemma_index_injective(key, before[bj].0);
                        }
                    } else {
                        assert(after[i] == before[bi]);
                    }
                }
            }
        }
    }

    /// Takes `key` and its value out of the table.
    pub fn remove(&mut self, key: Id) -> (value: Option<Data>)
        requires
            old(self).wf(),
        ensures
            final(self).wf(),
            final(self)@ == old(self)@.remove(key),
            match value {
                Some(data) => old(self)@.contains_key(key) && old(self)@[key] == data@,
                None => !old(self)@.contains_key(key),
            },
    {
        proof {
            lemma_assoc_keys(self.entries());
        }
        let (at, found) = self.search(key);
        let ghost before = self.entries();
        if found {
            let taken = self.items.remove(at);
            proof {
                assert(self.entries() =~= before.remove(at as int));
                lemma_assoc_value(before, at as int);
                lemma_assoc_remove(before, at as int);
                let after = self.entries();
                assert forall|i: int, j: int| 0 <= i < j < after.len() implies after[i].0.index()
                    < after[j].0.index() by {
                    let bi = if i < at { i } else { i + 1 };
                    let bj = if j < at { j } else { j + 1 };
                    assert(after[i] == before[bi] && after[j] == before[bj]);
                }
            }
            Some(taken.1)
        } else {
            proof {
                assert(self@.remove(key) =~= self@);
            }
            None
        }
    }

    /// The written form of the table under the names of `interner`: the
    /// entries in order, without those whose key or value has no written form.
    pub fn to_raw(&self, interner: &Interner) -> (raw: DataMapRaw)
        ensures
            raw@ == map_to_raw(self.entries(), interner@),
    {
        let mut entries: Vec<(String, DataRaw)> = Vec::new();
        let mut i: usize = 0;
        while i < self.items.len()
            invariant
                i <= self.entries().len(),
                raw_entries(entries@) == map_to_raw(self.entries().take(i as int), interner@),
            decreases self.entries().len() - i,
        {
            let ghost before = entries@;
            let ghost entry = self.entries()[i as int];
            assert(entry == (self.items@[i as int].0, self.items@[i as int].1@));
            if let Some(name) = interner.resolve(self.items[i].0) {
                if let Some(value) = self.items[i].1.to_raw(interner) {
                    let key = name.to_owned();
                    entries.push((key, value));
                    assert(raw_entries(entries@) =~= raw_entries(before).push((name@, value@)));
                }
            }
            proof {
                lemma_filter_map_push(
                    self.entries().take(i as int),
                    entry,
                    entry_to_raw(interner@),
                );
                assert(self.entries().take(i + 1) =~= self.entries().take(i as int).push(entry));
            }
            i += 1;
        }
        assert(self.entries().take(self.entries().len() as int) =~= self.entries());
        DataMapRaw { entries }
    }
}

impl Clone for DataMap {
    fn clone(&self) -> (copy: Self)
        ensures
            copy.entries() == self.entries(),
            copy@ == self@,
            self.wf() ==> copy.wf(),
    {
        let mut items: Vec<(Id, Data)> = Vec::new();
        let mut i: usize = 0;
        while i < self.items.len()
            invariant
                i <= self.items@.len(),
                items@.len() == i,
                forall|k: int|
                    0 <= k < i ==> items@[k].0 == self.items@[k].0 && items@[k].1@
                        == self.items@[k].1@,
            decreases self.items@.len() - i,
        {
            items.push((self.items[i].0, self.items[i].1.clone()));
            i += 1;
        }
        let copy = DataMap { items };
        assert(copy.entries() =~= self.entries());
        copy
    }
}

/// The written form of a table: names with written values, in order.
#[derive(Debug, PartialEq, Eq)]
pub struct DataMapRaw {
    pub entries: Vec<(String, DataRaw)>,
}

/// What a list of written entries holds.
pub open spec fn raw_entries(entries: Seq<(String, DataRaw)>) -> Seq<(Seq<char>, DataRawView)> {
    entries.map_values(|entry: (String, DataRaw)| (entry.0@, entry.1@))
}

impl View for DataMapRaw {
    type V = Seq<(Seq<char>, DataRawView)>;

    open spec fn view(&self) -> Seq<(Seq<char>, DataRawView)> {
        raw_entries(self.entries@)
    }
}

/// The written form of one entry, if its key has a name and its value a
/// written form.
pub open spec fn entry_to_raw(names: Seq<Seq<char>>) -> spec_fn((Id, DataView)) -> Option<
    (Seq<char>, DataRawView),
> {
    |entry: (Id, DataView)|
        match (name_at(names, entry.0), data_to_raw(entry.1, names)) {
            (Some(name), Some(raw)) => Some((name, raw)),
            _ => None,
        }
}

/// The entry that a written entry stands for, if its name is known and its
/// value can be read.
pub open spec fn entry_of_raw(names: Seq<Seq<char>>) -> spec_fn((Seq<char>, DataRawView)) -> Option<
    (Id, DataView),
> {
    |raw: (Seq<char>, DataRawView)|
        match (lookup(names, raw.0), data_of_raw(raw.1, names)) {
            (Some(id), Some(data)) => Some((id, data)),
            _ => None,
        }
}

/// The written form of a list of entries.
pub open spec fn map_to_raw(entries: Seq<(Id, DataView)>, names: Seq<Seq<char>>) -> Seq<
    (Seq<char>, DataRawView),
> {
    filter_map(entries, entry_to_raw(names))
}

/// The table that a list of written entries stands for: a later entry
/// replaces an earlier one that names the same key.
pub open spec fn map_of_raw(raw: Seq<(Seq<char>, DataRawView)>, names: Seq<Seq<char>>) -> Map<
    Id,
    DataView,
> {
    assoc(filter_map(raw, entry_of_raw(names)))
}

/// Every key of the list and every handle in its values has a name.
pub open spec fn entries_named(entries: Seq<(Id, DataView)>, names: Seq<Seq<char>>) -> bool {
    forall|i: int|
        0 <= i < entries.len() ==> name_at(names, (#[trigger] entries[i]).0) is Some && data_named(
            entries[i].1,
            names,
        )
}

impl DataMapRaw {
    /// A written table without entries.
    pub fn new() -> (raw: DataMapRaw)
        ensures
            raw@ == Seq::<(Seq<char>, DataRawView)>::empty(),
    {
        let raw = DataMapRaw { entries: Vec::new() };
        assert(raw@ =~= Seq::<(Seq<char>, DataRawView)>::empty());
        raw
    }

    /// The table that this written table stands for under the names of
    /// `interner`.
    pub fn to_data(&self, interner: &Interner) -> (map: DataMap)
        requires
            interner.wf(),
        ensures
            map.wf(),
            map@ == map_of_raw(self@, interner@),
    {
        let mut map = DataMap::new();
        let mut i: usize = 0;
        while i < self.entries.len()
            invariant
                interner.wf(),
                map.wf(),
                i <= self@.len(),
                map@ == map_of_raw(self@.take(i as int), interner@),
            decreases self@.len() - i,
        {
            let ghost entry = self@[i as int];
            assert(entry == (self.entries@[i as int].0@, self.entries@[i as int].1@));
            let ghost read = filter_map(self@.take(i as int), entry_of_raw(interner@));
            if let Some(id) = interner.get(self.entries[i].0.as_str()) {
                if let Some(data) = self.entries[i].1.to_data(interner) {
                    proof {
                        lemma_assoc_push(read, id, data@);
                    }
                    map.insert(id, data);
                }
            }
            proof {
                lemma_filter_map_push(self@.take(i as int), entry, entry_of_raw(interner@));
                assert(self@.take(i + 1) =~= self@.take(i as int).push(entry));
            }
            i += 1;
        }
        assert(self@.take(self@.len() as int) =~= self@);
        map
    }
}

impl Clone for DataMapRaw {
    fn clone(&self) -> (copy: Self)
        ensures
            copy@ == self@,
    {
        let mut entries: Vec<(String, DataRaw)> = Vec::new();
        let mut i: usize = 0;
        while i < self.entries.len()
            invariant
                i <= self.entries@.len(),
                raw_entries(entries@) == self@.take(i as int),
            decreases self.entries@.len() - i,
        {
            let ghost before = entries@;
            let key = self.entries[i].0.clone();
            let value = self.entries[i].1.clone();
            entries.push((key, value));
            assert(raw_entries(entries@) =~= raw_entries(before).push(self@[i as int]));
            assert(self@.take(i + 1) =~= self@.take(i as int).push(self@[i as int]));
            i += 1;
        }
        assert(self@.take(self@.len() as int) =~= self@);
        DataMapRaw { entries }
    }
}

/// A table whose keys and values are all named is read back from its
/// written form as it was.
pub proof fn lemma_map_round_trip(entries: Seq<(Id, DataView)>, names: Seq<Seq<char>>)
    requires
        distinct_names(names),
        entries_named(entries, names),
    ensures
        filter_map(map_to_raw(entries, names), entry_of_raw(names)) == entries,
        map_of_raw(map_to_raw(entries, names), names) == assoc(entries),
{
    assert forall|i: int| 0 <= i < entries.len() implies ((#[trigger] entry_to_raw(names)(
        entries[i],
    )) matches Some(raw) && entry_of_raw(names)(raw) == Some(entries[i])) by {
        lemma_lookup_of_name(names, entries[i].0);
        lemma_data_round_trip(entries[i].1, names);
    }
    lemma_filter_map_inverse(entries, entry_to_raw(names), entry_of_raw(names));
}

/// Every key of the written list and every name in its values is in use.
pub open spec fn entries_known(raw: Seq<(Seq<char>, DataRawView)>, names: Seq<Seq<char>>) -> bool {
    forall|i: int|
        0 <= i < raw.len() ==> lookup(names, (#[trigger] raw[i]).0) is Some && raw_known(
            raw[i].1,
            names,
        )
}

/// A written table whose names are all in use is written back, from the
/// entries that it is read as, as it was: whatever handles stand for the
/// names, every key keeps its name and its value.
pub proof fn lemma_map_raw_round_trip(raw: Seq<(Seq<char>, DataRawView)>, names: Seq<Seq<char>>)
    requires
        names.len() <= u64::MAX,
        entries_known(raw, names),
    ensures
        filter_map(raw, entry_of_raw(names)).len() == raw.len(),
        map_to_raw(filter_map(raw, entry_of_raw(names)), names) == raw,
{
    assert forall|i: int| 0 <= i < raw.len() implies ((#[trigger] entry_of_raw(names)(
        raw[i],
    )) matches Some(entry) && entry_to_raw(names)(entry) == Some(raw[i])) by {
        crate::id::lemma_name_of_lookup(names, raw[i].0);
        lemma_raw_round_trip(raw[i].1, names);
    }
    lemma_filter_map_inverse(raw, entry_of_raw(names), entry_to_raw(names));
    assert forall|i: int| 0 <= i < raw.len() implies (#[trigger] entry_of_raw(names)(
        raw[i],
    )) is Some by {}
    crate::seqs::lemma_filter_map_total(raw, entry_of_raw(names));
}

/// The written form of a table without a key twice, under names of which
/// none stands twice, holds no name twice as a key.
pub proof fn lemma_written_keys_distinct(entries: Seq<(Id, DataView)>, names: Seq<Seq<char>>)
    requires
        distinct_keys(entries),
        distinct_names(names),
    ensures
        distinct_keys(map_to_raw(entries, names)),
{
    let written = map_to_raw(entries, names);
    let f = entry_to_raw(names);
    crate::seqs::lemma_kept_at(entries, f);
    assert forall|i: int, j: int| 0 <= i < j < written.len() implies written[i].0
        != written[j].0 by {
        let a = crate::seqs::kept_at(entries, f, i);
        let b = crate::seqs::kept_at(entries, f, j);
        assert(a < b);
        assert(f(entries[a]) == Some(written[i]));
        assert(f(entries[b]) == Some(written[j]));
        if written[i].0 == written[j].0 {
            assert(entries[a].0.index() == entries[b].0.index());
            Id::lemma_index_injective(entries[a].0, entries[b].0);
        }
    }
}

/// The entries that a written table without a name twice as a key is read
/// as hold no key twice.
pub proof fn lemma_read_keys_distinct(raw: Seq<(Seq<char>, DataRawView)>, names: Seq<Seq<char>>)
    requires
        distinct_keys(raw),
        names.len() <= u64::MAX,
    ensures
        distinct_keys(filter_map(raw, entry_of_raw(names))),
{
    let read = filter_map(raw, entry_of_raw(names));
    let f = entry_of_raw(names);
    crate::seqs::lemma_kept_at(raw, f);
    assert forall|i: int, j: int| 0 <= i < j < read.len() implies read[i].0 != read[j].0 by {
        let a = crate::seqs::kept_at(raw, f, i);
        let b = crate::seqs::kept_at(raw, f, j);
        assert(a < b);
        assert(f(raw[a]) == Some(read[i]));
        assert(f(raw[b]) == Some(read[j]));
        crate::id::lemma_name_of_lookup(names, raw[a].0);
        crate::id::lemma_name_of_lookup(names, raw[b].0);
    }
}

} // verus!
