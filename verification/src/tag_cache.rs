//! The cache of tag lookups: for each tag that was asked for, the items that
//! carry it.

use crate::id::Id;
use crate::item::Item;
use std::sync::Arc;
use vstd::prelude::*;

verus! {

/// A table from the numbers of tags to shared lists of items, held in a
/// hashbrown `HashMap`.
///
/// The map stands behind this struct because its type cannot be declared to
/// Verus by itself: the declaration has to name the allocator parameter of
/// `HashMap` with its bound, and hashbrown does not export that trait.
#[verifier::external_body]
pub struct TagCache {
    lists: hashbrown::HashMap<u64, Arc<Vec<Item>>>,
}

/// What the table holds: the list of items under each number.
pub uninterp spec fn tag_cache_contents(cache: TagCache) -> Map<u64, Seq<Item>>;

/// The contents of a table that holds nothing.
pub open spec fn no_lists() -> Map<u64, Seq<Item>> {
    Map::empty()
}

/// hashbrown's `HashMap::new`: a table that holds nothing.
#[verifier::external_body]
fn empty_table() -> (cache: TagCache)
    ensures
        tag_cache_contents(cache) == no_lists(),
{
    TagCache { lists: hashbrown::HashMap::new() }
}

/// hashbrown's `HashMap::get`: the list held under `key`, shared with the
/// table, or nothing where the table has no such key.
#[verifier::external_body]
fn table_get(cache: &TagCache, key: u64) -> (found: Option<Arc<Vec<Item>>>)
    ensures
        match found {
            Some(items) => tag_cache_contents(*cache).contains_key(key) && tag_cache_contents(
                *cache,
            )[key] == items@,
            None => !tag_cache_contents(*cache).contains_key(key),
        },
{
    cache.lists.get(&key).cloned()
}

/// hashbrown's `HashMap::insert`: afterwards the table holds `items` under
/// `key`, and under every other key what it held before.
#[verifier::external_body]
fn table_insert(cache: &mut TagCache, key: u64, items: Arc<Vec<Item>>)
    ensures
        tag_cache_contents(*final(cache)) == tag_cache_contents(*old(cache)).insert(key, items@),
{
    cache.lists.insert(key, items);
}

impl View for TagCache {
    type V = Map<Id, Seq<Item>>;

    /// The items remembered for each tag.
    open spec fn view(&self) -> Map<Id, Seq<Item>> {
        Map::new(
            |tag: Id| tag_cache_contents(*self).contains_key(tag.index() as u64),
            |tag: Id| tag_cache_contents(*self)[tag.index() as u64],
        )
    }
}

impl TagCache {
    /// A cache that remembers nothing.
    pub fn new() -> (cache: TagCache)
        ensures
            cache@ == Map::<Id, Seq<Item>>::empty(),
    {
        let cache = empty_table();
        assert(cache@ =~= Map::<Id, Seq<Item>>::empty());
        cache
    }

    /// The items remembered for `tag`.
    pub fn get(&self, tag: Id) -> (found: Option<Arc<Vec<Item>>>)
        ensures
            match found {
                Some(items) => self@.contains_key(tag) && self@[tag] == items@,
                None => !self@.contains_key(tag),
            },
    {
        table_get(self, tag.to_raw())
    }

    /// Remembers `items` for `tag`.
    pub fn insert(&mut self, tag: Id, items: Arc<Vec<Item>>)
        ensures
            final(self)@ == old(self)@.insert(tag, items@),
    {
        let ghost before = self@;
        let ghost list = items@;
        table_insert(self, tag.to_raw(), items);
        proof {
            let after = self@;
            let wanted = before.insert(tag, list);
            tag.lemma_at_index();
            assert forall|other: Id| after.contains_key(other) == wanted.contains_key(other) by {
                other.lemma_at_index();
                if other.index() == tag.index() {
                    Id::lemma_index_injective(other, tag);
                }
            }
            assert forall|other: Id| after.contains_key(other) implies after[other] == wanted[other] by {
                other.lemma_at_index();
                if other.index() == tag.index() {
                    Id::lemma_index_injective(other, tag);
                }
            }
            assert(after =~= wanted);
        }
    }
}

} // verus!
