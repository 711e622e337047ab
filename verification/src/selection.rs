//! The tile selection: which tiles are offered for placing, and which of
//! them can be placed.

use crate::data::{amount_of, Data, DataView};
use crate::data_map::DataMap;
use crate::id::Id;
use crate::seqs::{filter_map, lemma_filter_map_push};
use vstd::prelude::*;

verus! {

/// A group of tiles in the selection. Placing its tiles takes having the
/// item it names, where it names one.
#[derive(Debug, Clone, Copy, PartialEq, Eq, Structural)]
pub struct Category {
    pub id: Id,
    pub icon: Id,
    pub item: Option<Id>,
}

/// A kind of tile: its model and the data that describes it.
#[derive(Debug, PartialEq, Eq)]
pub struct TileDef {
    pub id: Id,
    pub model: Id,
    pub data: DataMap,
}

/// What a [`TileDef`] holds.
pub struct TileDefView {
    pub id: Id,
    pub model: Id,
    pub data: Map<Id, DataView>,
}

impl View for TileDef {
    type V = TileDefView;

    open spec fn view(&self) -> TileDefView {
        TileDefView { id: self.id, model: self.model, data: self.data@ }
    }
}

/// What a list of tile definitions holds.
pub open spec fn tile_defs(tiles: Seq<TileDef>) -> Seq<TileDefView> {
    tiles.map_values(|tile: TileDef| tile@)
}

/// The keys under which tile and game data hold what the selection reads.
#[derive(Debug, Clone, Copy, PartialEq, Eq, Structural)]
pub struct SelectionKeys {
    /// In a tile's data: the category of the tile.
    pub category: Id,
    /// In a tile's data: whether the tile is always offered.
    pub default_tile: Id,
    /// In the game's data: the inventory of the player.
    pub player_inventory: Id,
}

/// A tile offered in the selection.
#[derive(Debug, Clone, Copy, PartialEq, Eq, Structural)]
pub struct TileChoice {
    pub id: Id,
    pub model: Id,
    /// Whether the tile is one that is always offered.
    pub default_tile: bool,
    /// Whether the tile can be placed: a click on it selects it.
    pub active: bool,
}

/// The first category of the list with the handle `id`.
pub open spec fn category_of(categories: Seq<Category>, id: Id) -> Option<Category>
    decreases categories.len(),
{
    if categories.len() == 0 {
        None
    } else if categories[0].id == id {
        Some(categories[0])
    } else {
        category_of(categories.drop_first(), id)
    }
}

/// The first tile definition of the list with the handle `id`.
pub open spec fn tile_def_of(tiles: Seq<TileDefView>, id: Id) -> Option<TileDefView>
    decreases tiles.len(),
{
    if tiles.len() == 0 {
        None
    } else if tiles[0].id == id {
        Some(tiles[0])
    } else {
        tile_def_of(tiles.drop_first(), id)
    }
}

/// Whether the inventory under `inventory_key` holds some of `item`.
pub open spec fn holds_item(game_data: Map<Id, DataView>, inventory_key: Id, item: Id) -> bool {
    &&& game_data.contains_key(inventory_key)
    &&& game_data[inventory_key] matches DataView::Inventory(stacks)
    &&& amount_of(stacks, item) > 0
}

/// Whether the tiles of `category` can be placed: it names no item, or the
/// player holds some of the item it names.
pub open spec fn category_open(
    category: Category,
    game_data: Map<Id, DataView>,
    inventory_key: Id,
) -> bool {
    match category.item {
        Some(item) => holds_item(game_data, inventory_key, item),
        None => true,
    }
}

/// The category that a tile's data names.
pub open spec fn tile_category(data: Map<Id, DataView>, key: Id) -> Option<Id> {
    if data.contains_key(key) {
        match data[key] {
            DataView::Id(category) => Some(category),
            _ => None,
        }
    } else {
        None
    }
}

/// Whether a tile's data marks it as always offered.
pub open spec fn is_default_tile(data: Map<Id, DataView>, key: Id) -> bool {
    data.contains_key(key) && data[key] == DataView::Bool(true)
}

/// The offer that the selection makes of one tile, if it offers it.
///
/// A tile that names a category is offered only in that category. A tile
/// that is not always offered is held back while it is locked. An offered
/// tile can be placed if it is always offered or `has_item` holds.
pub open spec fn tile_choice(
    tiles: Seq<TileDefView>,
    keys: SelectionKeys,
    locked: Seq<Id>,
    current_category: Option<Id>,
    has_item: bool,
) -> spec_fn(Id) -> Option<TileChoice> {
    |id: Id|
        match tile_def_of(tiles, id) {
            Some(tile) => {
                let named = tile_category(tile.data, keys.category);
                let always = is_default_tile(tile.data, keys.default_tile);
                if named is Some && named != current_category {
                    None
                } else if !always && locked.contains(id) {
                    None
                } else {
                    Some(
                        TileChoice {
                            id,
                            model: tile.model,
                            default_tile: always,
                            active: always || has_item,
                        },
                    )
                }
            },
            None => None,
        }
}

/// The category with the handle `id`.
pub fn find_category(categories: &Vec<Category>, id: Id) -> (found: Option<Category>)
    ensures
        found == category_of(categories@, id),
{
    let mut i: usize = 0;
    assert(categories@.skip(0) =~= categories@);
    while i < categories.len()
        invariant
            i <= categories@.len(),
            category_of(categories@, id) == category_of(categories@.skip(i as int), id),
        decreases categories@.len() - i,
    {
        let ghost rest = categories@.skip(i as int);
        assert(rest[0] == categories@[i as int]);
        if categories[i].id == id {
            return Some(categories[i]);
        }
        assert(rest.drop_first() =~= categories@.skip(i + 1));
        i += 1;
    }
    None
}

/// The position of the tile definition with the handle `id`.
pub fn find_tile_def(tiles: &Vec<TileDef>, id: Id) -> (found: Option<usize>)
    ensures
        match found {
            Some(i) => i < tiles@.len() && tile_def_of(tile_defs(tiles@), id) == Some(
                tiles@[i as int]@,
            ),
            None => tile_def_of(tile_defs(tiles@), id) is None,
        },
{
    let ghost all = tile_defs(tiles@);
    let mut i: usize = 0;
    assert(all.skip(0) =~= all);
    while i < tiles.len()
        invariant
            all == tile_defs(tiles@),
            i <= tiles@.len(),
            tile_def_of(all, id) == tile_def_of(all.skip(i as int), id),
        decreases tiles@.len() - i,
    {
        let ghost rest = all.skip(i as int);
        assert(rest[0] == all[i as int]);
        if tiles[i].id == id {
            return Some(i);
        }
        assert(rest.drop_first() =~= all.skip(i + 1));
        i += 1;
    }
    None
}

/// Whether `list` holds `id`.
fn holds_id(list: &Vec<Id>, id: Id) -> (held: bool)
    ensures
        held == list@.contains(id),
{
    let mut i: usize = 0;
    while i < list.len()
        invariant
            i <= list@.len(),
            forall|k: int| 0 <= k < i ==> list@[k] != id,
        decreases list@.len() - i,
    {
        if list[i] == id {
            return true;
        }
        i += 1;
    }
    false
}

/// Whether the tiles of the category `id` can be placed with what the game
/// data holds.
pub fn has_category_item(
    categories: &Vec<Category>,
    game_data: &DataMap,
    keys: SelectionKeys,
    id: Id,
) -> (open: bool)
    requires
        game_data.wf(),
        category_of(categories@, id) is Some,
    ensures
        open == category_open(
            category_of(categories@, id).unwrap(),
            game_data@,
            keys.player_inventory,
        ),
{
    let category = find_category(categories, id).unwrap();
    match category.item {
        Some(item) => match game_data.get(keys.player_inventory) {
            Some(Data::Inventory(inventory)) => inventory.get(item) > 0,
            _ => false,
        },
        None => true,
    }
}

/// The tiles that the selection offers, in display order.
///
/// `locked` lists the tiles whose research is not done yet, and `has_item`
/// tells whether the tiles of the current category can be placed.
pub fn tile_choices(
    tiles: &Vec<TileDef>,
    ordered_tiles: &Vec<Id>,
    keys: SelectionKeys,
    locked: &Vec<Id>,
    current_category: Option<Id>,
    has_item: bool,
) -> (choices: Vec<TileChoice>)
    requires
        forall|i: int| 0 <= i < tiles@.len() ==> (#[trigger] tiles@[i]).data.wf(),
    ensures
        choices@ == filter_map(
            ordered_tiles@,
            tile_choice(tile_defs(tiles@), keys, locked@, current_category, has_item),
        ),
{
    let ghost offer = tile_choice(tile_defs(tiles@), keys, locked@, current_category, has_item);
    let mut choices: Vec<TileChoice> = Vec::new();
    let mut i: usize = 0;
    while i < ordered_tiles.len()
        invariant
            forall|k: int| 0 <= k < tiles@.len() ==> (#[trigger] tiles@[k]).data.wf(),
            offer == tile_choice(tile_defs(tiles@), keys, locked@, current_category, has_item),
            i <= ordered_tiles@.len(),
            choices@ == filter_map(ordered_tiles@.take(i as int), offer),
        decreases ordered_tiles@.len() - i,
    {
        let id = ordered_tiles[i];
        proof {
            lemma_filter_map_push(ordered_tiles@.take(i as int), id, offer);
            assert(ordered_tiles@.take(i + 1) =~= ordered_tiles@.take(i as int).push(id));
        }
        if let Some(at) = find_tile_def(tiles, id) {
            let tile = &tiles[at];
            let named = match tile.data.get(keys.category) {
                Some(Data::Id(category)) => Some(*category),
                _ => None,
            };
            let always = match tile.data.get(keys.default_tile) {
                Some(Data::Bool(flag)) => *flag,
                _ => false,
            };
            let elsewhere = match named {
                Some(category) => match current_category {
                    Some(current) => category != current,
                    None => true,
                },
                None => false,
            };
            if !elsewhere && (always || !holds_id(locked, id)) {
                choices.push(
                    TileChoice { id, model: tile.model, default_tile: always, active: always || has_item },
                );
            }
        }
        i += 1;
    }
    assert(ordered_tiles@.take(ordered_tiles@.len() as int) =~= ordered_tiles@);
    choices
}

} // verus!
