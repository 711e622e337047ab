//! Typed values that tiles and maps hold, and their written form in which
//! every handle is spelled out as its name.

use crate::id::{lookup, name_at, Id, IdRaw, Interner};
use crate::seqs::{filter_map, lemma_filter_map_inverse, lemma_filter_map_push};
use vstd::prelude::*;

verus! {

/// A count of items.
pub type ItemAmount = i32;

/// The position of a tile on the map, in axial coordinates.
#[derive(Clone, Copy, Debug, PartialEq, Eq, Hash, Structural)]
pub struct TileCoord {
    pub q: i32,
    pub r: i32,
}

/// An amount of one kind of item.
#[derive(Clone, Copy, Debug, PartialEq, Eq, Hash, Structural)]
pub struct ItemStack {
    pub id: Id,
    pub amount: ItemAmount,
}

/// An amount of one kind of item, the item spelled out by name.
#[derive(Debug, PartialEq, Eq)]
pub struct ItemStackRaw {
    pub id: IdRaw,
    pub amount: ItemAmount,
}

impl View for ItemStackRaw {
    type V = (Seq<char>, ItemAmount);

    open spec fn view(&self) -> (Seq<char>, ItemAmount) {
        (self.id@, self.amount)
    }
}

/// The amount that a list of stacks holds of `id`: that of the first stack of
/// the item, and nothing where there is none.
pub open spec fn amount_of(stacks: Seq<ItemStack>, id: Id) -> ItemAmount
    decreases stacks.len(),
{
    if stacks.len() == 0 {
        0
    } else if stacks[0].id == id {
        stacks[0].amount
    } else {
        amount_of(stacks.drop_first(), id)
    }
}

/// A stock of items, as a list of stacks.
#[derive(Debug, PartialEq, Eq)]
pub struct Inventory {
    pub stacks: Vec<ItemStack>,
}

impl View for Inventory {
    type V = Seq<ItemStack>;

    open spec fn view(&self) -> Seq<ItemStack> {
        self.stacks@
    }
}

impl Inventory {
    /// The amount held of `id`.
    pub fn get(&self, id: Id) -> (amount: ItemAmount)
        ensures
            amount == amount_of(self@, id),
    {
        let mut i: usize = 0;
        assert(self@.skip(0) =~= self@);
        while i < self.stacks.len()
            invariant
                i <= self.stacks@.len(),
                amount_of(self@, id) == amount_of(self@.skip(i as int), id),
            decreases self.stacks@.len() - i,
        {
            let ghost rest = self@.skip(i as int);
            assert(rest[0] == self@[i as int]);
            if self.stacks[i].id == id {
                return self.stacks[i].amount;
            }
            assert(rest.drop_first() =~= self@.skip(i + 1));
            i += 1;
        }
        0
    }
}

/// One typed value.
#[derive(Debug, PartialEq, Eq)]
pub enum Data {
    Bool(bool),
    Amount(ItemAmount),
    Id(Id),
    VecId(Vec<Id>),
    Coord(TileCoord),
    VecCoord(Vec<TileCoord>),
    Inventory(Inventory),
}

/// What a [`Data`] value holds.
pub enum DataView {
    Bool(bool),
    Amount(ItemAmount),
    Id(Id),
    VecId(Seq<Id>),
    Coord(TileCoord),
    VecCoord(Seq<TileCoord>),
    Inventory(Seq<ItemStack>),
}

impl View for Data {
    type V = DataView;

    open spec fn view(&self) -> DataView {
        match self {
            Data::Bool(b) => DataView::Bool(*b),
            Data::Amount(n) => DataView::Amount(*n),
            Data::Id(id) => DataView::Id(*id),
            Data::VecId(ids) => DataView::VecId(ids@),
            Data::Coord(c) => DataView::Coord(*c),
            Data::VecCoord(cs) => DataView::VecCoord(cs@),
            Data::Inventory(inv) => DataView::Inventory(inv@),
        }
    }
}

/// A copy of a list of handles.
fn copy_ids(ids: &Vec<Id>) -> (copy: Vec<Id>)
    ensures
        copy@ == ids@,
{
    let mut copy: Vec<Id> = Vec::new();
    let mut i: usize = 0;
    while i < ids.len()
        invariant
            i <= ids@.len(),
            copy@ == ids@.take(i as int),
        decreases ids@.len() - i,
    {
        copy.push(ids[i]);
        assert(ids@.take(i + 1) =~= ids@.take(i as int).push(ids@[i as int]));
        i += 1;
    }
    assert(ids@.take(ids@.len() as int) =~= ids@);
    copy
}

/// A copy of a list of coordinates.
fn copy_coords(coords: &Vec<TileCoord>) -> (copy: Vec<TileCoord>)
    ensures
        copy@ == coords@,
{
    let mut copy: Vec<TileCoord> = Vec::new();
    let mut i: usize = 0;
    while i < coords.len()
        invariant
            i <= coords@.len(),
            copy@ == coords@.take(i as int),
        decreases coords@.len() - i,
    {
        copy.push(coords[i]);
        assert(coords@.take(i + 1) =~= coords@.take(i as int).push(coords@[i as int]));
        i += 1;
    }
    assert(coords@.take(coords@.len() as int) =~= coords@);
    copy
}

/// A copy of a list of stacks.
fn copy_stacks(stacks: &Vec<ItemStack>) -> (copy: Vec<ItemStack>)
    ensures
        copy@ == stacks@,
{
    let mut copy: Vec<ItemStack> = Vec::new();
    let mut i: usize = 0;
    while i < stacks.len()
        invariant
            i <= stacks@.len(),
            copy@ == stacks@.take(i as int),
        decreases stacks@.len() - i,
    {
        copy.push(stacks[i]);
        assert(stacks@.take(i + 1) =~= stacks@.take(i as int).push(stacks@[i as int]));
        i += 1;
    }
    assert(stacks@.take(stacks@.len() as int) =~= stacks@);
    copy
}

impl Clone for Inventory {
    fn clone(&self) -> (copy: Self)
        ensures
            copy@ == self@,
    {
        Inventory { stacks: copy_stacks(&self.stacks) }
    }
}

impl Clone for Data {
    fn clone(&self) -> (copy: Self)
        ensures
            copy@ == self@,
    {
        match self {
            Data::Bool(b) => Data::Bool(*b),
            Data::Amount(n) => Data::Amount(*n),
            Data::Id(id) => Data::Id(*id),
            Data::VecId(ids) => Data::VecId(copy_ids(ids)),
            Data::Coord(c) => Data::Coord(*c),
            Data::VecCoord(cs) => Data::VecCoord(copy_coords(cs)),
            Data::Inventory(inv) => Data::Inventory(inv.clone()),
        }
    }
}

/// One value in its written form.
#[derive(Debug, PartialEq, Eq)]
pub enum DataRaw {
    Bool(bool),
    Amount(ItemAmount),
    Id(IdRaw),
    VecId(Vec<IdRaw>),
    Coord(TileCoord),
    VecCoord(Vec<TileCoord>),
    Inventory(Vec<ItemStackRaw>),
}

/// What a [`DataRaw`] value holds.
pub enum DataRawView {
    Bool(bool),
    Amount(ItemAmount),
    Id(Seq<char>),
    VecId(Seq<Seq<char>>),
    Coord(TileCoord),
    VecCoord(Seq<TileCoord>),
    Inventory(Seq<(Seq<char>, ItemAmount)>),
}

/// The names that a list of written names spells.
pub open spec fn raw_names(raws: Seq<IdRaw>) -> Seq<Seq<char>> {
    raws.map_values(|raw: IdRaw| raw@)
}

/// What a list of written stacks holds.
pub open spec fn raw_stacks(raws: Seq<ItemStackRaw>) -> Seq<(Seq<char>, ItemAmount)> {
    raws.map_values(|raw: ItemStackRaw| raw@)
}

impl View for DataRaw {
    type V = DataRawView;

    open spec fn view(&self) -> DataRawView {
        match self {
            DataRaw::Bool(b) => DataRawView::Bool(*b),
            DataRaw::Amount(n) => DataRawView::Amount(*n),
            DataRaw::Id(raw) => DataRawView::Id(raw@),
            DataRaw::VecId(raws) => DataRawView::VecId(raw_names(raws@)),
            DataRaw::Coord(c) => DataRawView::Coord(*c),
            DataRaw::VecCoord(cs) => DataRawView::VecCoord(cs@),
            DataRaw::Inventory(raws) => DataRawView::Inventory(raw_stacks(raws@)),
        }
    }
}

/// The written form of a stack, if its item has a name.
pub open spec fn stack_to_raw(names: Seq<Seq<char>>) -> spec_fn(ItemStack) -> Option<
    (Seq<char>, ItemAmount),
> {
    |stack: ItemStack|
        match name_at(names, stack.id) {
            Some(name) => Some((name, stack.amount)),
            None => None,
        }
}

/// The stack that a written stack stands for, if its item is known.
pub open spec fn stack_of_raw(names: Seq<Seq<char>>) -> spec_fn((Seq<char>, ItemAmount)) -> Option<
    ItemStack,
> {
    |raw: (Seq<char>, ItemAmount)|
        match lookup(names, raw.0) {
            Some(id) => Some(ItemStack { id, amount: raw.1 }),
            None => None,
        }
}

/// The name of a handle, if it has one.
pub open spec fn id_to_raw(names: Seq<Seq<char>>) -> spec_fn(Id) -> Option<Seq<char>> {
    |id: Id| name_at(names, id)
}

/// The handle of a name, if it is known.
pub open spec fn id_of_raw(names: Seq<Seq<char>>) -> spec_fn(Seq<char>) -> Option<Id> {
    |name: Seq<char>| lookup(names, name)
}

/// The written form of a value under the names `names`.
///
/// A single handle without a name leaves the value without a written form;
/// in a list, the handles without a name are left out.
pub open spec fn data_to_raw(data: DataView, names: Seq<Seq<char>>) -> Option<DataRawView> {
    match data {
        DataView::Bool(b) => Some(DataRawView::Bool(b)),
        DataView::Amount(n) => Some(DataRawView::Amount(n)),
        DataView::Id(id) => match name_at(names, id) {
            Some(name) => Some(DataRawView::Id(name)),
            None => None,
        },
        DataView::VecId(ids) => Some(DataRawView::VecId(filter_map(ids, id_to_raw(names)))),
        DataView::Coord(c) => Some(DataRawView::Coord(c)),
        DataView::VecCoord(cs) => Some(DataRawView::VecCoord(cs)),
        DataView::Inventory(stacks) => Some(
            DataRawView::Inventory(filter_map(stacks, stack_to_raw(names))),
        ),
    }
}

/// The value that a written value stands for under the names `names`.
///
/// A single name that is not known leaves no value; in a list, the names
/// that are not known are left out.
pub open spec fn data_of_raw(raw: DataRawView, names: Seq<Seq<char>>) -> Option<DataView> {
    match raw {
        DataRawView::Bool(b) => Some(DataView::Bool(b)),
        DataRawView::Amount(n) => Some(DataView::Amount(n)),
        DataRawView::Id(name) => match lookup(names, name) {
            Some(id) => Some(DataView::Id(id)),
            None => None,
        },
        DataRawView::VecId(raws) => Some(DataView::VecId(filter_map(raws, id_of_raw(names)))),
        DataRawView::Coord(c) => Some(DataView::Coord(c)),
        DataRawView::VecCoord(cs) => Some(DataView::VecCoord(cs)),
        DataRawView::Inventory(raws) => Some(
            DataView::Inventory(filter_map(raws, stack_of_raw(names))),
        ),
    }
}

/// Every handle in the value has a name.
pub open spec fn data_named(data: DataView, names: Seq<Seq<char>>) -> bool {
    match data {
        DataView::Id(id) => name_at(names, id) is Some,
        DataView::VecId(ids) => forall|i: int|
            0 <= i < ids.len() ==> name_at(names, #[trigger] ids[i]) is Some,
        DataView::Inventory(stacks) => forall|i: int|
            0 <= i < stacks.len() ==> name_at(names, (#[trigger] stacks[i]).id) is Some,
        _ => true,
    }
}

impl Data {
    /// The written form of this value.
    pub fn to_raw(&self, interner: &Interner) -> (raw: Option<DataRaw>)
        ensures
            match raw {
                Some(raw) => data_to_raw(self@, interner@) == Some(raw@),
                None => data_to_raw(self@, interner@) is None,
            },
    {
        match self {
            Data::Bool(b) => Some(DataRaw::Bool(*b)),
            Data::Amount(n) => Some(DataRaw::Amount(*n)),
            Data::Id(id) => match interner.resolve(*id) {
                Some(name) => Some(DataRaw::Id(IdRaw::parse(name))),
                None => None,
            },
            Data::VecId(ids) => {
                let mut raws: Vec<IdRaw> = Vec::new();
                let mut i: usize = 0;
                while i < ids.len()
                    invariant
                        i <= ids@.len(),
                        raw_names(raws@) == filter_map(ids@.take(i as int), id_to_raw(interner@)),
                    decreases ids@.len() - i,
                {
                    let ghost before = raws@;
                    if let Some(name) = interner.resolve(ids[i]) {
                        raws.push(IdRaw::parse(name));
                        assert(raw_names(raws@) =~= raw_names(before).push(name@));
                    }
                    proof {
                        lemma_filter_map_push(
                            ids@.take(i as int),
                            ids@[i as int],
                            id_to_raw(interner@),
                        );
                        assert(ids@.take(i + 1) =~= ids@.take(i as int).push(ids@[i as int]));
                    }
                    i += 1;
                }
                assert(ids@.take(ids@.len() as int) =~= ids@);
                Some(DataRaw::VecId(raws))
            },
            Data::Coord(c) => Some(DataRaw::Coord(*c)),
            Data::VecCoord(cs) => Some(DataRaw::VecCoord(copy_coords(cs))),
            Data::Inventory(inv) => {
                let mut raws: Vec<ItemStackRaw> = Vec::new();
                let mut i: usize = 0;
                while i < inv.stacks.len()
                    invariant
                        i <= inv@.len(),
                        raw_stacks(raws@) == filter_map(
                            inv@.take(i as int),
                            stack_to_raw(interner@),
                        ),
                    decreases inv@.len() - i,
                {
                    let ghost before = raws@;
                    let stack = inv.stacks[i];
                    if let Some(name) = interner.resolve(stack.id) {
                        raws.push(ItemStackRaw { id: IdRaw::parse(name), amount: stack.amount });
                        assert(raw_stacks(raws@) =~= raw_stacks(before).push(
                            (name@, stack.amount),
                        ));
                    }
                    proof {
                        lemma_filter_map_push(
                            inv@.take(i as int),
                            inv@[i as int],
                            stack_to_raw(interner@),
                        );
                        assert(inv@.take(i + 1) =~= inv@.take(i as int).push(inv@[i as int]));
                    }
                    i += 1;
                }
                assert(inv@.take(inv@.len() as int) =~= inv@);
                Some(DataRaw::Inventory(raws))
            },
        }
    }
}

impl DataRaw {
    /// The value that this written value stands for.
    pub fn to_data(&self, interner: &Interner) -> (data: Option<Data>)
        requires
            interner.wf(),
        ensures
            match data {
                Some(data) => data_of_raw(self@, interner@) == Some(data@),
                None => data_of_raw(self@, interner@) is None,
            },
    {
        match self {
            DataRaw::Bool(b) => Some(Data::Bool(*b)),
            DataRaw::Amount(n) => Some(Data::Amount(*n)),
            DataRaw::Id(raw) => match interner.get(raw.as_str()) {
                Some(id) => Some(Data::Id(id)),
                None => None,
            },
            DataRaw::VecId(raws) => {
                let mut ids: Vec<Id> = Vec::new();
                let mut i: usize = 0;
                while i < raws.len()
                    invariant
                        interner.wf(),
                        i <= raws@.len(),
                        ids@ == filter_map(raw_names(raws@).take(i as int), id_of_raw(interner@)),
                    decreases raws@.len() - i,
                {
                    if let Some(id) = interner.get(raws[i].as_str()) {
                        ids.push(id);
                    }
                    proof {
                        let names = raw_names(raws@);
                        lemma_filter_map_push(
                            names.take(i as int),
                            names[i as int],
                            id_of_raw(interner@),
                        );
                        assert(names.take(i + 1) =~= names.take(i as int).push(names[i as int]));
                    }
                    i += 1;
                }
                assert(raw_names(raws@).take(raws@.len() as int) =~= raw_names(raws@));
                Some(Data::VecId(ids))
            },
            DataRaw::Coord(c) => Some(Data::Coord(*c)),
            DataRaw::VecCoord(cs) => Some(Data::VecCoord(copy_coords(cs))),
            DataRaw::Inventory(raws) => {
                let mut stacks: Vec<ItemStack> = Vec::new();
                let mut i: usize = 0;
                while i < raws.len()
                    invariant
                        interner.wf(),
                        i <= raws@.len(),
                        stacks@ == filter_map(
                            raw_stacks(raws@).take(i as int),
                            stack_of_raw(interner@),
                        ),
                    decreases raws@.len() - i,
                {
                    if let Some(id) = interner.get(raws[i].id.as_str()) {
                        stacks.push(ItemStack { id, amount: raws[i].amount });
                    }
                    proof {
                        let held = raw_stacks(raws@);
                        lemma_filter_map_push(
                            held.take(i as int),
                            held[i as int],
                            stack_of_raw(interner@),
                        );
                        assert(held.take(i + 1) =~= held.take(i as int).push(held[i as int]));
                    }
                    i += 1;
                }
                assert(raw_stacks(raws@).take(raws@.len() as int) =~= raw_stacks(raws@));
                Some(Data::Inventory(Inventory { stacks }))
            },
        }
    }
}

impl Clone for ItemStackRaw {
    fn clone(&self) -> (copy: Self)
        ensures
            copy@ == self@,
    {
        ItemStackRaw { id: self.id.clone(), amount: self.amount }
    }
}

impl Clone for DataRaw {
    fn clone(&self) -> (copy: Self)
        ensures
            copy@ == self@,
    {
        match self {
            DataRaw::Bool(b) => DataRaw::Bool(*b),
            DataRaw::Amount(n) => DataRaw::Amount(*n),
            DataRaw::Id(raw) => DataRaw::Id(raw.clone()),
            DataRaw::VecId(raws) => {
                let mut copy: Vec<IdRaw> = Vec::new();
                let mut i: usize = 0;
                while i < raws.len()
                    invariant
                        i <= raws@.len(),
                        raw_names(copy@) == raw_names(raws@).take(i as int),
                    decreases raws@.len() - i,
                {
                    let ghost before = copy@;
                    copy.push(raws[i].clone());
                    assert(raw_names(copy@) =~= raw_names(before).push(raws@[i as int]@));
                    assert(raw_names(raws@).take(i + 1) =~= raw_names(raws@).take(i as int).push(
                        raws@[i as int]@,
                    ));
                    i += 1;
                }
                assert(raw_names(raws@).take(raws@.len() as int) =~= raw_names(raws@));
                DataRaw::VecId(copy)
            },
            DataRaw::Coord(c) => DataRaw::Coord(*c),
            DataRaw::VecCoord(cs) => DataRaw::VecCoord(copy_coords(cs)),
            DataRaw::Inventory(raws) => {
                let mut copy: Vec<ItemStackRaw> = Vec::new();
                let mut i: usize = 0;
                while i < raws.len()
                    invariant
                        i <= raws@.len(),
                        raw_stacks(copy@) == raw_stacks(raws@).take(i as int),
                    decreases raws@.len() - i,
                {
                    let ghost before = copy@;
                    copy.push(raws[i].clone());
                    assert(raw_stacks(copy@) =~= raw_stacks(before).push(raws@[i as int]@));
                    assert(raw_stacks(raws@).take(i + 1) =~= raw_stacks(raws@).take(i as int).push(
                        raws@[i as int]@,
                    ));
                    i += 1;
                }
                assert(raw_stacks(raws@).take(raws@.len() as int) =~= raw_stacks(raws@));
                DataRaw::Inventory(copy)
            },
        }
    }
}

/// A value whose handles all have names is read back from its written form
/// as it was.
pub proof fn lemma_data_round_trip(data: DataView, names: Seq<Seq<char>>)
    requires
        crate::id::distinct_names(names),
        data_named(data, names),
    ensures
        data_to_raw(data, names) matches Some(raw) && data_of_raw(raw, names) == Some(data),
{
    match data {
        DataView::Id(id) => {
            crate::id::lemma_lookup_of_name(names, id);
        },
        DataView::VecId(ids) => {
            assert forall|i: int| 0 <= i < ids.len() implies ((#[trigger] id_to_raw(names)(
                ids[i],
            )) matches Some(name) && id_of_raw(names)(name) == Some(ids[i])) by {
                crate::id::lemma_lookup_of_name(names, ids[i]);
            }
            lemma_filter_map_inverse(ids, id_to_raw(names), id_of_raw(names));
        },
        DataView::Inventory(stacks) => {
            assert forall|i: int| 0 <= i < stacks.len() implies ((#[trigger] stack_to_raw(names)(
                stacks[i],
            )) matches Some(raw) && stack_of_raw(names)(raw) == Some(stacks[i])) by {
                crate::id::lemma_lookup_of_name(names, stacks[i].id);
            }
            lemma_filter_map_inverse(stacks, stack_to_raw(names), stack_of_raw(names));
        },
        _ => {},
    }
}

/// Every name in the written value is in use.
pub open spec fn raw_known(raw: DataRawView, names: Seq<Seq<char>>) -> bool {
    match raw {
        DataRawView::Id(name) => lookup(names, name) is Some,
        DataRawView::VecId(raws) => forall|i: int|
            0 <= i < raws.len() ==> lookup(names, #[trigger] raws[i]) is Some,
        DataRawView::Inventory(raws) => forall|i: int|
            0 <= i < raws.len() ==> lookup(names, (#[trigger] raws[i]).0) is Some,
        _ => true,
    }
}

/// A written value whose names are all in use is written back, from the
/// value that it is read as, as it was: whatever handles stand for the
/// names, the names and the values stay.
pub proof fn lemma_raw_round_trip(raw: DataRawView, names: Seq<Seq<char>>)
    requires
        names.len() <= u64::MAX,
        raw_known(raw, names),
    ensures
        data_of_raw(raw, names) matches Some(data) && data_to_raw(data, names) == Some(raw),
{
    match raw {
        DataRawView::Id(name) => {
            crate::id::lemma_name_of_lookup(names, name);
        },
        DataRawView::VecId(raws) => {
            assert forall|i: int| 0 <= i < raws.len() implies ((#[trigger] id_of_raw(names)(
                raws[i],
            )) matches Some(id) && id_to_raw(names)(id) == Some(raws[i])) by {
                crate::id::lemma_name_of_lookup(names, raws[i]);
            }
            lemma_filter_map_inverse(raws, id_of_raw(names), id_to_raw(names));
        },
        DataRawView::Inventory(raws) => {
            assert forall|i: int| 0 <= i < raws.len() implies ((#[trigger] stack_of_raw(names)(
                raws[i],
            )) matches Some(stack) && stack_to_raw(names)(stack) == Some(raws[i])) by {
                crate::id::lemma_name_of_lookup(names, raws[i].0);
            }
            lemma_filter_map_inverse(raws, stack_of_raw(names), stack_to_raw(names));
        },
        _ => {},
    }
}

} // verus!
