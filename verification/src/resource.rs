//! The resources of a session: the names in use, the registry, the display
//! names, and the order in which items are shown.

use crate::id::{Id, Interner};
use crate::item::{with_name, Item, ItemRaw};
use crate::registry::{id_match, id_matches, Registry};
use crate::seqs::{filter_map, first_of, lemma_filter_map_push};
use crate::tag_cache::TagCache;
use crate::text::{lemma_text_le_total, lemma_text_le_transitive, str_le, text_le};
use std::sync::Arc;
use vstd::prelude::*;

verus! {

/// The display names of the game.
#[derive(Debug, PartialEq, Eq)]
pub struct Translates {
    pub items: Vec<(Id, String)>,
    pub keys: Vec<(Id, String)>,
    pub unnamed: String,
}

/// What a list of display names holds.
pub open spec fn labels(entries: Seq<(Id, String)>) -> Seq<(Id, Seq<char>)> {
    entries.map_values(|entry: (Id, String)| (entry.0, entry.1@))
}

/// The display name of `id`: the first one listed for it.
pub open spec fn label_of(entries: Seq<(Id, Seq<char>)>, id: Id) -> Option<Seq<char>> {
    first_of(entries, id)
}

/// The display name of `id`, or `unnamed` where none is listed.
pub open spec fn label_or(entries: Seq<(Id, Seq<char>)>, id: Id, unnamed: Seq<char>) -> Seq<char> {
    match label_of(entries, id) {
        Some(name) => name,
        None => unnamed,
    }
}

/// The display name listed for `id`.
pub fn find_label(entries: &Vec<(Id, String)>, id: Id) -> (found: Option<&str>)
    ensures
        match found {
            Some(name) => label_of(labels(entries@), id) == Some(name@),
            None => label_of(labels(entries@), id) is None,
        },
{
    let ghost all = labels(entries@);
    let mut i: usize = 0;
    assert(all.skip(0) =~= all);
    while i < entries.len()
        invariant
            all == labels(entries@),
            i <= entries@.len(),
            first_of(all, id) == first_of(all.skip(i as int), id),
        decreases entries@.len() - i,
    {
        let ghost rest = all.skip(i as int);
        assert(rest[0] == all[i as int]);
        if entries[i].0 == id {
            return Some(entries[i].1.as_str());
        }
        assert(rest.drop_first() =~= all.skip(i + 1));
        i += 1;
    }
    None
}

/// What there is to know in a session.
#[derive(Debug)]
pub struct ResourceManager {
    pub interner: Interner,
    pub registry: Registry,
    pub translates: Translates,
    pub ordered_items: Vec<Id>,
}

/// The item that one handle of the display order adds to the items of `tag`:
/// its own, where the handle matches the tag and is an item.
pub open spec fn tagged_item(items: Map<Id, Item>, tags: Map<Id, Seq<Id>>, tag: Id) -> spec_fn(
    Id,
) -> Option<Item> {
    |id: Id|
        if id_matches(tags, id, tag) && items.contains_key(id) {
            Some(items[id])
        } else {
            None
        }
}

/// The items that carry `tag`, in display order.
pub open spec fn tag_items(
    ordered: Seq<Id>,
    items: Map<Id, Item>,
    tags: Map<Id, Seq<Id>>,
    tag: Id,
) -> Seq<Item> {
    filter_map(ordered, tagged_item(items, tags, tag))
}

/// What a lookup of `id` gives, and what the cache remembers afterwards.
///
/// An item gives itself and leaves the cache alone. A tag gives what the
/// cache remembers for it; where that is nothing, it gives the items that
/// carry it, and the cache remembers them.
pub open spec fn resolved_items(
    ordered: Seq<Id>,
    items: Map<Id, Item>,
    tags: Map<Id, Seq<Id>>,
    cache: Map<Id, Seq<Item>>,
    id: Id,
) -> (Seq<Item>, Map<Id, Seq<Item>>) {
    if items.contains_key(id) {
        (seq![items[id]], cache)
    } else if cache.contains_key(id) {
        (cache[id], cache)
    } else {
        (tag_items(ordered, items, tags, id), cache.insert(id, tag_items(ordered, items, tags, id)))
    }
}

/// The handles of a list of items.
pub open spec fn item_ids(items: Seq<(Id, Item)>) -> Seq<Id> {
    items.map_values(|entry: (Id, Item)| entry.0)
}

/// The display names of the handles rise along the list.
pub open spec fn ordered_by_label(
    ids: Seq<Id>,
    entries: Seq<(Id, Seq<char>)>,
    unnamed: Seq<char>,
) -> bool {
    forall|i: int, j: int|
        0 <= i < j < ids.len() ==> text_le(
            label_or(entries, ids[i], unnamed),
            label_or(entries, ids[j], unnamed),
        )
}

impl ResourceManager {
    /// The names in use and the registry are well formed.
    pub open spec fn wf(&self) -> bool {
        &&& self.interner.wf()
        &&& self.registry.wf()
    }

    /// Resources that hold nothing yet; `unnamed` is shown for what has no
    /// display name.
    pub fn new(unnamed: String) -> (resources: ResourceManager)
        ensures
            resources.wf(),
            resources.interner@ == Seq::<Seq<char>>::empty(),
            resources.registry.items() == Map::<Id, Item>::empty(),
            resources.registry.tags() == Map::<Id, Seq<Id>>::empty(),
            resources.translates.items@.len() == 0,
            resources.translates.keys@.len() == 0,
            resources.translates.unnamed@ == unnamed@,
            resources.ordered_items@.len() == 0,
    {
        ResourceManager {
            interner: Interner::new(),
            registry: Registry::new(),
            translates: Translates { items: Vec::new(), keys: Vec::new(), unnamed },
            ordered_items: Vec::new(),
        }
    }

    /// The display name of the item `id`.
    pub fn item_name(&self, id: Id) -> (name: &str)
        ensures
            name@ == label_or(labels(self.translates.items@), id, self.translates.unnamed@),
    {
        match find_label(&self.translates.items, id) {
            Some(name) => name,
            None => self.translates.unnamed.as_str(),
        }
    }

    /// Takes a written item into the registry, interning its names.
    pub fn register_item(&mut self, raw: ItemRaw) -> (item: Item)
        requires
            old(self).wf(),
        ensures
            final(self).wf(),
            final(self).interner@ == with_name(with_name(old(self).interner@, raw.id@), raw.model@),
            crate::item::item_to_raw(item, final(self).interner@) == Some(raw@),
            final(self).registry.items() == old(self).registry.items().insert(item.id, item),
            final(self).registry.tags() == old(self).registry.tags(),
            final(self).ordered_items@ == old(self).ordered_items@,
            final(self).translates == old(self).translates,
    {
        let item = raw.intern_to_item(&mut self.interner);
        self.registry.insert_item(item);
        item
    }

    /// The items that `id` stands for: the item itself where `id` is one,
    /// else the items that carry the tag `id`, which `tag_cache` remembers
    /// from then on.
    pub fn get_items(&self, id: Id, tag_cache: &mut TagCache) -> (found: Arc<Vec<Item>>)
        requires
            self.registry.wf(),
        ensures
            (found@, final(tag_cache)@) == resolved_items(
                self.ordered_items@,
                self.registry.items(),
                self.registry.tags(),
                old(tag_cache)@,
                id,
            ),
    {
        if let Some(item) = self.registry.item(id) {
            let mut single: Vec<Item> = Vec::new();
            single.push(*item);
            assert(single@ =~= seq![*item]);
            return Arc::new(single);
        }
        if let Some(known) = tag_cache.get(id) {
            return known;
        }
        tag_cache.insert(id, Arc::new(self.items_of_tag(id)));
        tag_cache.get(id).unwrap()
    }

    /// The items that carry `tag`, in display order.
    pub fn items_of_tag(&self, tag: Id) -> (items: Vec<Item>)
        requires
            self.registry.wf(),
        ensures
            items@ == tag_items(
                self.ordered_items@,
                self.registry.items(),
                self.registry.tags(),
                tag,
            ),
    {
        let ghost keep = tagged_item(self.registry.items(), self.registry.tags(), tag);
        let mut items: Vec<Item> = Vec::new();
        let mut i: usize = 0;
        while i < self.ordered_items.len()
            invariant
                self.registry.wf(),
                keep == tagged_item(self.registry.items(), self.registry.tags(), tag),
                i <= self.ordered_items@.len(),
                items@ == filter_map(self.ordered_items@.take(i as int), keep),
            decreases self.ordered_items@.len() - i,
        {
            let id = self.ordered_items[i];
            if id_match(&self.registry, id, tag) {
                if let Some(item) = self.registry.item(id) {
                    items.push(*item);
                }
            }
            proof {
                lemma_filter_map_push(self.ordered_items@.take(i as int), id, keep);
                assert(self.ordered_items@.take(i + 1) =~= self.ordered_items@.take(i as int).push(
                    id,
                ));
            }
            i += 1;
        }
        assert(self.ordered_items@.take(self.ordered_items@.len() as int) =~= self.ordered_items@);
        items
    }

    /// Puts the items of the registry into display order: by display name.
    pub fn ordered_items(&mut self)
        ensures
            final(self).ordered_items@.to_multiset() == item_ids(
                old(self).registry.item_list(),
            ).to_multiset(),
            ordered_by_label(
                final(self).ordered_items@,
                labels(old(self).translates.items@),
                old(self).translates.unnamed@,
            ),
            old(self).registry.wf() ==> final(self).ordered_items@.no_duplicates(),
            final(self).interner == old(self).interner,
            final(self).registry == old(self).registry,
            final(self).translates == old(self).translates,
    {
        let ghost entries = labels(self.translates.items@);
        let ghost unnamed = self.translates.unnamed@;
        let ghost all = item_ids(self.registry.item_list());
        let mut ids: Vec<Id> = Vec::new();
        let n = self.registry.item_count();
        let mut i: usize = 0;
        assert(all.take(0) =~= Seq::<Id>::empty());
        while i < n
            invariant
                entries == labels(self.translates.items@),
                unnamed == self.translates.unnamed@,
                all == item_ids(self.registry.item_list()),
                n == all.len(),
                i <= n,
                ids@.to_multiset() == all.take(i as int).to_multiset(),
                ordered_by_label(ids@, entries, unnamed),
            decreases n - i,
        {
            let id = self.registry.item_id_at(i);
            let name = self.item_name(id);
            let mut at: usize = 0;
            while at < ids.len() && str_le(self.item_name(ids[at]), name)
                invariant
                    entries == labels(self.translates.items@),
                    unnamed == self.translates.unnamed@,
                    name@ == label_or(entries, id, unnamed),
                    at <= ids@.len(),
                    forall|k: int|
                        0 <= k < at ==> text_le(label_or(entries, ids@[k], unnamed), name@),
                decreases ids@.len() - at,
            {
                at += 1;
            }
            let ghost before = ids@;
            ids.insert(at, id);
            proof {
                let after = ids@;
                assert(after.remove(at as int) =~= before);
                vstd::seq_lib::to_multiset_remove(after, at as int);
                vstd::seq_lib::to_multiset_build(all.take(i as int), id);
                assert(all.take(i + 1) =~= all.take(i as int).push(id));
                assert(after.to_multiset() =~= before.to_multiset().insert(id)) by {
                    after.to_multiset_ensures();
                    assert(after[at as int] == id);
                    assert(after.contains(id));
                }
                assert forall|a: int, b: int| 0 <= a < b < after.len() implies text_le(
                    label_or(entries, after[a], unnamed),
                    label_or(entries, after[b], unnamed),
                ) by {
                    let ba = if a < at { a } else { a - 1 };
                    let bb = if b < at { b } else { b - 1 };
                    if a != at && b != at {
                        assert(after[a] == before[ba] && after[b] == before[bb]);
                    } else if b == at {
                        assert(after[a] == before[ba]);
                    } else {
                        assert(after[b] == before[bb]);
                        let here = label_or(entries, before[at as int], unnamed);
                        lemma_text_le_total(here, name@);
                        if bb > at {
                            lemma_text_le_transitive(
                                name@,
                                here,
                                label_or(entries, before[bb], unnamed),
                            );
                        }
                    }
                }
            }
            i += 1;
        }
        assert(all.take(n as int) =~= all);
        proof {
            if self.registry.wf() {
                self.registry.lemma_wf();
                let list = self.registry.item_list();
                assert forall|i: int, j: int|
                    0 <= i < all.len() && 0 <= j < all.len() && i != j implies all[i] != all[j] by {
                    if i < j {
                        assert(list[i].0 != list[j].0);
                    } else {
                        assert(list[j].0 != list[i].0);
                    }
                }
                all.lemma_multiset_has_no_duplicates();
                ids@.lemma_multiset_has_no_duplicates_conv();
            }
        }
        self.ordered_items = ids;
    }
}

/// The items of a tag are items of the registry, each under its own handle,
/// and none of them stands twice among them, where the display order holds
/// no handle twice.
pub proof fn lemma_tag_items_distinct(
    ordered: Seq<Id>,
    items: Map<Id, Item>,
    tags: Map<Id, Seq<Id>>,
    tag: Id,
)
    requires
        ordered.no_duplicates(),
        items.dom().finite(),
        forall|id: Id| #[trigger] items.contains_key(id) ==> items[id].id == id,
    ensures
        tag_items(ordered, items, tags, tag).no_duplicates(),
        tag_items(ordered, items, tags, tag).len() <= ordered.len(),
        tag_items(ordered, items, tags, tag).len() <= items.len(),
        forall|i: int|
            0 <= i < tag_items(ordered, items, tags, tag).len() ==> items.contains_key(
                (#[trigger] tag_items(ordered, items, tags, tag)[i]).id,
            ) && items[tag_items(ordered, items, tags, tag)[i].id] == tag_items(
                ordered,
                items,
                tags,
                tag,
            )[i],
{
    let keep = tagged_item(items, tags, tag);
    let found = tag_items(ordered, items, tags, tag);
    crate::seqs::lemma_kept_at(ordered, keep);
    assert forall|i: int| 0 <= i < found.len() implies items.contains_key(
        (#[trigger] found[i]).id,
    ) && items[found[i].id] == found[i] && found[i].id == ordered[crate::seqs::kept_at(
        ordered,
        keep,
        i,
    )] by {
        let at = crate::seqs::kept_at(ordered, keep, i);
        assert(keep(ordered[at]) == Some(found[i]));
        assert(items.contains_key(ordered[at]));
    }
    assert forall|i: int, j: int| 0 <= i < found.len() && 0 <= j < found.len() && i != j implies found[i]
        != found[j] by {
        let a = crate::seqs::kept_at(ordered, keep, i);
        let b = crate::seqs::kept_at(ordered, keep, j);
        assert(found[i].id == ordered[a]);
        assert(found[j].id == ordered[b]);
        if i < j {
            assert(a < b);
        } else {
            assert(b < a);
        }
    }
    let ids = found.map_values(|item: Item| item.id);
    assert forall|i: int, j: int| 0 <= i < ids.len() && 0 <= j < ids.len() && i != j implies ids[i]
        != ids[j] by {
        if found[i].id == found[j].id {
            assert(items[found[i].id] == found[i]);
            assert(items[found[j].id] == found[j]);
        }
    }
    ids.unique_seq_to_set();
    assert(ids.to_set().subset_of(items.dom())) by {
        assert forall|id: Id| ids.to_set().contains(id) implies items.dom().contains(id) by {
            let i = choose|i: int| 0 <= i < ids.len() && ids[i] == id;
            assert(items.contains_key(found[i].id));
        }
    }
    vstd::set_lib::lemma_len_subset(ids.to_set(), items.dom());
}

/// A second lookup of the same handle gives the same items as the first and
/// leaves the cache as the first left it; the lookup of an item never
/// changes the cache.
pub proof fn lemma_lookup_repeats(
    ordered: Seq<Id>,
    items: Map<Id, Item>,
    tags: Map<Id, Seq<Id>>,
    cache: Map<Id, Seq<Item>>,
    id: Id,
)
    ensures
        ({
            let first = resolved_items(ordered, items, tags, cache, id);
            let second = resolved_items(ordered, items, tags, first.1, id);
            &&& second.0 == first.0
            &&& second.1 == first.1
            &&& items.contains_key(id) ==> first.1 == cache
        }),
{
}

} // verus!
