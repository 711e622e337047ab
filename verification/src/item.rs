//! Items, as the game uses them and as they are written in files.

use crate::id::{lookup, name_at, Id, IdRaw, Interner};
use vstd::prelude::*;

verus! {

/// An item as it is written: its name and the name of its model.
#[derive(Debug, PartialEq, Eq)]
pub struct ItemRaw {
    pub id: IdRaw,
    pub model: IdRaw,
}

impl View for ItemRaw {
    type V = (Seq<char>, Seq<char>);

    /// The name of the item and the name of its model.
    open spec fn view(&self) -> (Seq<char>, Seq<char>) {
        (self.id@, self.model@)
    }
}

impl Clone for ItemRaw {
    fn clone(&self) -> (copy: Self)
        ensures
            copy@ == self@,
    {
        ItemRaw { id: self.id.clone(), model: self.model.clone() }
    }
}

/// An item: its handle and the handle of its model.
#[derive(Debug, Clone, Copy, PartialEq, Eq, Hash, Structural)]
pub struct Item {
    pub id: Id,
    pub model: Id,
}

/// The names in `names`, with `name` added at the end if it is new.
pub open spec fn with_name(names: Seq<Seq<char>>, name: Seq<char>) -> Seq<Seq<char>> {
    if names.contains(name) {
        names
    } else {
        names.push(name)
    }
}

/// The item that a written item stands for where both its names are in use.
pub open spec fn item_of_raw(raw: (Seq<char>, Seq<char>), names: Seq<Seq<char>>) -> Option<Item> {
    match (lookup(names, raw.0), lookup(names, raw.1)) {
        (Some(id), Some(model)) => Some(Item { id, model }),
        _ => None,
    }
}

/// The written form of an item where both its handles have names.
pub open spec fn item_to_raw(item: Item, names: Seq<Seq<char>>) -> Option<(Seq<char>, Seq<char>)> {
    match (name_at(names, item.id), name_at(names, item.model)) {
        (Some(id), Some(model)) => Some((id, model)),
        _ => None,
    }
}

impl ItemRaw {
    /// The item that this written item stands for, its names interned where
    /// they are new: first the name of the item, then the name of its model.
    pub fn intern_to_item(self, interner: &mut Interner) -> (item: Item)
        requires
            old(interner).wf(),
        ensures
            final(interner).wf(),
            final(interner)@ == with_name(with_name(old(interner)@, self.id@), self.model@),
            item_of_raw(self@, final(interner)@) == Some(item),
            item_to_raw(item, final(interner)@) == Some(self@),
    {
        let id = self.id.to_id(interner);
        let ghost between = interner@;
        proof {
            interner.lemma_wf();
        }
        let model = self.model.to_id(interner);
        proof {
            interner.lemma_wf();
            crate::id::lemma_interning_stable(between, self.id@);
            crate::id::lemma_resolve_stable(between, interner@, id);
        }
        Item { id, model }
    }

    /// The item that this written item stands for, if both its names are in
    /// use.
    pub fn to_item(self, interner: &Interner) -> (item: Option<Item>)
        requires
            interner.wf(),
        ensures
            item == item_of_raw(self@, interner@),
    {
        let id = match interner.get(self.id.as_str()) {
            Some(id) => id,
            None => {
                return None;
            },
        };
        let model = match interner.get(self.model.as_str()) {
            Some(model) => model,
            None => {
                return None;
            },
        };
        Some(Item { id, model })
    }
}

impl Item {
    /// The written form of this item, if both its handles have names.
    pub fn to_item_raw(self, interner: &Interner) -> (raw: Option<ItemRaw>)
        ensures
            match raw {
                Some(raw) => item_to_raw(self, interner@) == Some(raw@),
                None => item_to_raw(self, interner@) is None,
            },
    {
        let id = match interner.resolve(self.id) {
            Some(name) => IdRaw::parse(name),
            None => {
                return None;
            },
        };
        let model = match interner.resolve(self.model) {
            Some(name) => IdRaw::parse(name),
            None => {
                return None;
            },
        };
        Some(ItemRaw { id, model })
    }
}

/// An item whose handles have names is read back from its written form as
/// it was.
pub proof fn lemma_item_round_trip(item: Item, names: Seq<Seq<char>>)
    requires
        crate::id::distinct_names(names),
        item_to_raw(item, names) is Some,
    ensures
        item_of_raw(item_to_raw(item, names).unwrap(), names) == Some(item),
{
    crate::id::lemma_lookup_of_name(names, item.id);
    crate::id::lemma_lookup_of_name(names, item.model);
}

} // verus!
