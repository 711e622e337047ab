//! The registry of what the game knows: its items and its tags.

use crate::id::Id;
use crate::item::Item;
use crate::seqs::{
    assoc, distinct_keys, has_key, lemma_assoc_insert_at, lemma_assoc_keys, lemma_assoc_len,
    lemma_assoc_update, lemma_assoc_value,
};
use std::collections::HashMap;
use vstd::prelude::*;
use vstd::std_specs::hash::*;

verus! {

/// The number under which an index files a handle.
pub open spec fn id_key(id: Id) -> u64 {
    id.index() as u64
}

/// Handles filed under the same number are the same handle.
pub proof fn lemma_id_key_injective(a: Id, b: Id)
    requires
        id_key(a) == id_key(b),
    ensures
        a == b,
{
    a.lemma_at_index();
    b.lemma_at_index();
    Id::lemma_index_injective(a, b);
}

/// The index files every pair of the list, and nothing else, under the
/// number of its handle.
pub open spec fn indexed<V>(list: Seq<(Id, V)>, index: Map<u64, usize>) -> bool {
    &&& forall|i: int|
        0 <= i < list.len() ==> index.contains_key(id_key((#[trigger] list[i]).0))
            && index[id_key(list[i].0)] == i
    &&& forall|key: u64| #[trigger]
        index.contains_key(key) ==> index[key] < list.len() && id_key(list[index[key] as int].0)
            == key
}

/// A value written over a pair leaves the index as it is.
pub proof fn lemma_indexed_update<V>(list: Seq<(Id, V)>, index: Map<u64, usize>, at: int, v: V)
    requires
        indexed(list, index),
        0 <= at < list.len(),
    ensures
        indexed(list.update(at, (list[at].0, v)), index),
{
    let after = list.update(at, (list[at].0, v));
    assert forall|i: int| 0 <= i < after.len() implies index.contains_key(
        id_key((#[trigger] after[i]).0),
    ) && index[id_key(after[i].0)] == i by {
        assert(after[i].0 == list[i].0);
    }
    assert forall|key: u64| #[trigger] index.contains_key(key) implies index[key] < after.len()
        && id_key(after[index[key] as int].0) == key by {
        assert(after[index[key] as int].0 == list[index[key] as int].0);
    }
}

/// A pair with a new handle, put at the end and filed there, keeps the
/// index right.
pub proof fn lemma_indexed_push<V>(list: Seq<(Id, V)>, index: Map<u64, usize>, id: Id, v: V)
    requires
        indexed(list, index),
        !has_key(list, id),
        list.len() < usize::MAX,
    ensures
        indexed(list.push((id, v)), index.insert(id_key(id), list.len() as usize)),
{
    let after = list.push((id, v));
    let filed = index.insert(id_key(id), list.len() as usize);
    assert forall|i: int| 0 <= i < after.len() implies filed.contains_key(
        id_key((#[trigger] after[i]).0),
    ) && filed[id_key(after[i].0)] == i by {
        if i < list.len() {
            assert(after[i] == list[i]);
            if id_key(list[i].0) == id_key(id) {
                lemma_id_key_injective(list[i].0, id);
            }
        }
    }
    assert forall|key: u64| #[trigger] filed.contains_key(key) implies filed[key] < after.len()
        && id_key(after[filed[key] as int].0) == key by {
        if key != id_key(id) {
            assert(index.contains_key(key));
            assert(after[index[key] as int] == list[index[key] as int]);
        }
    }
}

/// A category of items: the items that carry the tag.
#[derive(Debug, PartialEq, Eq)]
pub struct Tag {
    pub id: Id,
    pub entries: Vec<Id>,
}

impl View for Tag {
    type V = (Id, Seq<Id>);

    /// The handle of the tag and the handles that carry it.
    open spec fn view(&self) -> (Id, Seq<Id>) {
        (self.id, self.entries@)
    }
}

impl Tag {
    /// Whether `id` carries this tag.
    pub fn of(&self, id: Id) -> (carried: bool)
        ensures
            carried == self.entries@.contains(id),
    {
        let mut i: usize = 0;
        while i < self.entries.len()
            invariant
                i <= self.entries@.len(),
                forall|k: int| 0 <= k < i ==> self.entries@[k] != id,
            decreases self.entries@.len() - i,
        {
            if self.entries[i] == id {
                return true;
            }
            i += 1;
        }
        false
    }
}

/// Whether `id` is `other`, or `other` is a tag that `id` carries.
pub open spec fn id_matches(tags: Map<Id, Seq<Id>>, id: Id, other: Id) -> bool {
    id == other || (tags.contains_key(other) && tags[other].contains(id))
}

/// The items and the tags of the game, each by its handle.
#[derive(Debug)]
pub struct Registry {
    items: Vec<(Id, Item)>,
    tags: Vec<Tag>,
    item_index: HashMap<u64, usize>,
    tag_index: HashMap<u64, usize>,
}

impl Registry {
    /// The items with their handles, in the order in which they were added.
    pub closed spec fn item_list(&self) -> Seq<(Id, Item)> {
        self.items@
    }

    /// The tags with what carries them, in the order in which they were
    /// added.
    pub closed spec fn tag_list(&self) -> Seq<(Id, Seq<Id>)> {
        self.tags@.map_values(|tag: Tag| tag@)
    }

    /// The item of each handle.
    pub open spec fn items(&self) -> Map<Id, Item> {
        assoc(self.item_list())
    }

    /// The handles that carry each tag.
    pub open spec fn tags(&self) -> Map<Id, Seq<Id>> {
        assoc(self.tag_list())
    }

    /// No item and no tag is held twice, every item stands under its own
    /// handle, and the indexes file the items and the tags.
    pub closed spec fn wf(&self) -> bool {
        &&& distinct_keys(self.item_list())
        &&& distinct_keys(self.tag_list())
        &&& forall|i: int|
            0 <= i < self.item_list().len() ==> (#[trigger] self.item_list()[i]).1.id
                == self.item_list()[i].0
        &&& indexed(self.item_list(), self.item_index@)
        &&& indexed(self.tag_list(), self.tag_index@)
    }

    /// In a well-formed registry no item and no tag is held twice, and
    /// every item stands under its own handle.
    pub proof fn lemma_wf(&self)
        requires
            self.wf(),
        ensures
            distinct_keys(self.item_list()),
            distinct_keys(self.tag_list()),
            forall|i: int|
                0 <= i < self.item_list().len() ==> (#[trigger] self.item_list()[i]).1.id
                    == self.item_list()[i].0,
            forall|id: Id| #[trigger]
                self.items().contains_key(id) ==> self.items()[id].id == id,
    {
        lemma_assoc_keys(self.item_list());
        assert forall|id: Id| #[trigger] self.items().contains_key(id) implies self.items()[id].id
            == id by {
            let i = choose|i: int|
                0 <= i < self.item_list().len() && (#[trigger] self.item_list()[i]).0 == id;
            lemma_assoc_value(self.item_list(), i);
        }
    }

    /// A registry without items and tags.
    pub fn new() -> (registry: Registry)
        ensures
            registry.wf(),
            registry.item_list() == Seq::<(Id, Item)>::empty(),
            registry.tag_list() == Seq::<(Id, Seq<Id>)>::empty(),
            registry.items() == Map::<Id, Item>::empty(),
            registry.tags() == Map::<Id, Seq<Id>>::empty(),
    {
        let registry = Registry {
            items: Vec::new(),
            tags: Vec::new(),
            item_index: HashMap::new(),
            tag_index: HashMap::new(),
        };
        assert(registry.tag_list() =~= Seq::<(Id, Seq<Id>)>::empty());
        registry
    }

    /// The number of items.
    pub fn item_count(&self) -> (n: usize)
        ensures
            n == self.item_list().len(),
            self.wf() ==> n == self.items().len(),
    {
        proof {
            if self.wf() {
                lemma_assoc_len(self.item_list());
            }
        }
        self.items.len()
    }

    /// The number of tags.
    pub fn tag_count(&self) -> (n: usize)
        ensures
            n == self.tag_list().len(),
            self.wf() ==> n == self.tags().len(),
    {
        proof {
            if self.wf() {
                lemma_assoc_len(self.tag_list());
            }
        }
        self.tags.len()
    }

    /// The handle of the item at position `i`.
    pub fn item_id_at(&self, i: usize) -> (id: Id)
        requires
            i < self.item_list().len(),
        ensures
            id == self.item_list()[i as int].0,
    {
        self.items[i].0
    }

    /// The position of the item `id`.
    fn item_position(&self, id: Id) -> (found: Option<usize>)
        requires
            self.wf(),
        ensures
            match found {
                Some(i) => i < self.item_list().len() && self.item_list()[i as int].0 == id,
                None => !has_key(self.item_list(), id),
            },
    {
        broadcast use group_hash_axioms;

        let key = id.to_raw();
        proof {
            id.lemma_at_index();
        }
        match self.item_index.get(&key) {
            Some(at) => {
                proof {
                    lemma_id_key_injective(self.item_list()[*at as int].0, id);
                }
                Some(*at)
            },
            None => {
                proof {
                    if has_key(self.item_list(), id) {
                        let i = choose|i: int|
                            0 <= i < self.item_list().len() && (#[trigger] self.item_list()[i]).0
                                == id;
                        assert(self.item_index@.contains_key(id_key(self.item_list()[i].0)));
                    }
                }
                None
            },
        }
    }

    /// The position of the tag `id`.
    fn tag_position(&self, id: Id) -> (found: Option<usize>)
        requires
            self.wf(),
        ensures
            match found {
                Some(i) => i < self.tag_list().len() && self.tag_list()[i as int].0 == id,
                None => !has_key(self.tag_list(), id),
            },
    {
        broadcast use group_hash_axioms;

        let key = id.to_raw();
        proof {
            id.lemma_at_index();
        }
        match self.tag_index.get(&key) {
            Some(at) => {
                proof {
                    lemma_id_key_injective(self.tag_list()[*at as int].0, id);
                }
                Some(*at)
            },
            None => {
                proof {
                    if has_key(self.tag_list(), id) {
                        let i = choose|i: int|
                            0 <= i < self.tag_list().len() && (#[trigger] self.tag_list()[i]).0
                                == id;
                        assert(self.tag_index@.contains_key(id_key(self.tag_list()[i].0)));
                    }
                }
                None
            },
        }
    }

    /// The item `id`.
    pub fn item(&self, id: Id) -> (found: Option<&Item>)
        requires
            self.wf(),
        ensures
            match found {
                Some(item) => self.items().contains_key(id) && self.items()[id] == *item
                    && item.id == id,
                None => !self.items().contains_key(id),
            },
    {
        proof {
            lemma_assoc_keys(self.item_list());
        }
        match self.item_position(id) {
            Some(i) => {
                proof {
                    lemma_assoc_value(self.item_list(), i as int);
                }
                Some(&self.items[i].1)
            },
            None => None,
        }
    }

    /// The tag `id`.
    pub fn tag(&self, id: Id) -> (found: Option<&Tag>)
        requires
            self.wf(),
        ensures
            match found {
                Some(tag) => self.tags().contains_key(id) && self.tags()[id] == tag.entries@
                    && tag.id == id,
                None => !self.tags().contains_key(id),
            },
    {
        proof {
            lemma_assoc_keys(self.tag_list());
        }
        match self.tag_position(id) {
            Some(i) => {
                proof {
                    lemma_assoc_value(self.tag_list(), i as int);
                }
                Some(&self.tags[i])
            },
            None => None,
        }
    }

    /// Adds `item` under its handle, in place of any item held under it.
    pub fn insert_item(&mut self, item: Item)
        requires
            old(self).wf(),
        ensures
            final(self).wf(),
            final(self).items() == old(self).items().insert(item.id, item),
            has_key(old(self).item_list(), item.id) ==> final(self).item_list().len() == old(
                self,
            ).item_list().len(),
            !has_key(old(self).item_list(), item.id) ==> final(self).item_list() == old(
                self,
            ).item_list().push((item.id, item)),
            final(self).tags() == old(self).tags(),
            final(self).tag_list() == old(self).tag_list(),
    {
        let ghost before = self.item_list();
        match self.item_position(item.id) {
            Some(i) => {
                self.items.set(i, (item.id, item));
                proof {
                    assert(self.item_list() =~= before.update(i as int, (item.id, item)));
                    lemma_assoc_update(before, i as int, item);
                    lemma_indexed_update(before, self.item_index@, i as int, item);
                }
            },
            None => {
                let at = self.items.len();
                self.items.push((item.id, item));
                let _grown = self.items.len();
                proof {
                    item.id.lemma_at_index();
                    lemma_indexed_push(before, self.item_index@, item.id, item);
                }
                self.item_index.insert(item.id.to_raw(), at);
                proof {
                    broadcast use group_hash_axioms;

                    assert(self.item_list() =~= before.insert(
                        before.len() as int,
                        (item.id, item),
                    ));
                    assert(self.item_list() =~= before.push((item.id, item)));
                    lemma_assoc_insert_at(before, before.len() as int, item.id, item);
                }
            },
        }
    }

    /// Adds `tag` under its handle, in place of any tag held under it.
    pub fn insert_tag(&mut self, tag: Tag)
        requires
            old(self).wf(),
        ensures
            final(self).wf(),
            final(self).tags() == old(self).tags().insert(tag.id, tag.entries@),
            has_key(old(self).tag_list(), tag.id) ==> final(self).tag_list().len() == old(
                self,
            ).tag_list().len(),
            !has_key(old(self).tag_list(), tag.id) ==> final(self).tag_list() == old(
                self,
            ).tag_list().push((tag.id, tag.entries@)),
            final(self).items() == old(self).items(),
            final(self).item_list() == old(self).item_list(),
    {
        let ghost before = self.tag_list();
        let ghost id = tag.id;
        let ghost entries = tag.entries@;
        match self.tag_position(tag.id) {
            Some(i) => {
                self.tags.set(i, tag);
                proof {
                    assert(self.tag_list() =~= before.update(i as int, (id, entries)));
                    lemma_assoc_update(before, i as int, entries);
                    lemma_indexed_update(before, self.tag_index@, i as int, entries);
                }
            },
            None => {
                let at = self.tags.len();
                let key = tag.id.to_raw();
                self.tags.push(tag);
                let _grown = self.tags.len();
                proof {
                    id.lemma_at_index();
                    lemma_indexed_push(before, self.tag_index@, id, entries);
                }
                self.tag_index.insert(key, at);
                proof {
                    broadcast use group_hash_axioms;

                    assert(self.tag_list() =~= before.insert(before.len() as int, (id, entries)));
                    assert(self.tag_list() =~= before.push((id, entries)));
                    lemma_assoc_insert_at(before, before.len() as int, id, entries);
                }
            },
        }
    }
}

/// Whether `id` is `other`, or `other` is a tag of the registry that `id`
/// carries.
pub fn id_match(registry: &Registry, id: Id, other: Id) -> (matched: bool)
    requires
        registry.wf(),
    ensures
        matched == id_matches(registry.tags(), id, other),
{
    if id == other {
        return true;
    }
    if let Some(tag) = registry.tag(other) {
        return tag.of(id);
    }
    false
}

} // verus!
