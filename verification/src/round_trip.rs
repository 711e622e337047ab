//! What a snapshot keeps: its header names every tile type it uses, a map
//! read back from its own snapshot is the map that was saved, a snapshot is
//! read by names whatever handles are in use, and what was set in a tile
//! entity is what a save writes.

use crate::data::{data_to_raw, DataRawView, DataView, TileCoord};
use crate::data_map::{
    entries_known, entries_named, entry_of_raw, entry_to_raw, lemma_map_raw_round_trip,
    lemma_map_round_trip, lemma_read_keys_distinct, lemma_written_keys_distinct, map_of_raw,
    map_to_raw,
};
use crate::id::{distinct_names, lemma_lookup_of_name, lemma_name_of_lookup, lookup, name_at, Id};
use crate::load::{
    dropped_tile, dropped_tiles, header_name, placements, restored_map, restored_tile,
    restored_tiles, TileSpawnView,
};
use crate::seqs::{
    assoc, distinct_keys, filter_map, has_key, kept_at, lemma_assoc_keys, lemma_assoc_value,
    lemma_filter_map_compose, lemma_filter_map_member, lemma_filter_map_total, lemma_kept_at,
};
use crate::tile_entity::{run, step, TileEntityMsgView, TileEntityReplyView, TileEntityView};
use crate::snapshot::{
    data_for, first_unnamed, header_of, saved_tile, saved_tiles, snapshot_of, SerdeMapView,
    SerdeTileView,
};
use crate::tiles::Placement;
use vstd::prelude::*;

verus! {

/// The header has an entry for the type of every tile of the snapshot.
pub open spec fn header_complete(document: SerdeMapView) -> bool {
    forall|i: int|
        0 <= i < document.tiles.len() ==> has_key(
            document.header,
            (#[trigger] document.tiles[i]).1.tile_type,
        )
}

/// The header made for a list of tiles whose types all have names holds each
/// type once, with its name, and leaves out no type of the list.
pub proof fn lemma_header_complete(tiles: Seq<(TileCoord, SerdeTileView)>, names: Seq<Seq<char>>)
    requires
        first_unnamed(tiles, names) is None,
    ensures
        distinct_keys(header_of(tiles, names)),
        forall|j: int|
            0 <= j < header_of(tiles, names).len() ==> name_at(
                names,
                (#[trigger] header_of(tiles, names)[j]).0,
            ) == Some(header_of(tiles, names)[j].1),
        forall|i: int|
            0 <= i < tiles.len() ==> name_at(names, (#[trigger] tiles[i]).1.tile_type) is Some
                && header_name(header_of(tiles, names), tiles[i].1.tile_type) == name_at(
                names,
                tiles[i].1.tile_type,
            ),
        forall|i: int|
            0 <= i < tiles.len() ==> has_key(
                header_of(tiles, names),
                (#[trigger] tiles[i]).1.tile_type,
            ),
    decreases tiles.len(),
{
    if tiles.len() > 0 {
        let front = tiles.drop_last();
        let before = header_of(front, names);
        let header = header_of(tiles, names);
        let id = tiles.last().1.tile_type;
        lemma_header_complete(front, names);
        lemma_assoc_keys(before);
        lemma_assoc_keys(header);
        if has_key(before, id) {
            assert(header == before);
        } else {
            assert(header == before.push((id, names[id.index() as int])));
            assert forall|a: int, b: int| 0 <= a < b < header.len() implies header[a].0
                != header[b].0 by {
                if b == header.len() - 1 {
                    assert(before[a].0 == header[a].0);
                }
            }
        }
        assert forall|j: int| 0 <= j < header.len() implies name_at(
            names,
            (#[trigger] header[j]).0,
        ) == Some(header[j].1) by {
            if j < before.len() {
                assert(header[j] == before[j]);
            }
        }
        assert forall|i: int| 0 <= i < tiles.len() implies has_key(
            header,
            (#[trigger] tiles[i]).1.tile_type,
        ) by {
            if i < tiles.len() - 1 {
                assert(front[i] == tiles[i]);
                let j = choose|j: int|
                    0 <= j < before.len() && (#[trigger] before[j]).0 == front[i].1.tile_type;
                assert(header[j].0 == tiles[i].1.tile_type);
            } else {
                if has_key(before, id) {
                } else {
                    assert(header[header.len() - 1].0 == id);
                }
            }
        }
        assert forall|i: int| 0 <= i < tiles.len() implies name_at(
            names,
            (#[trigger] tiles[i]).1.tile_type,
        ) is Some && header_name(header, tiles[i].1.tile_type) == name_at(
            names,
            tiles[i].1.tile_type,
        ) by {
            if i < tiles.len() - 1 {
                assert(front[i] == tiles[i]);
            }
            let j = choose|j: int|
                0 <= j < header.len() && (#[trigger] header[j]).0 == tiles[i].1.tile_type;
            lemma_assoc_value(header, j);
        }
    }
}

/// A snapshot's header names the type of every tile in the snapshot.
pub proof fn lemma_snapshot_header_complete(
    cells: Seq<(TileCoord, Placement)>,
    map_data: Seq<(Id, DataView)>,
    datas: Seq<(TileCoord, Seq<(Id, DataView)>)>,
    names: Seq<Seq<char>>,
    save_time: i64,
)
    requires
        first_unnamed(saved_tiles(cells, datas, names), names) is None,
    ensures
        header_complete(snapshot_of(cells, map_data, datas, names, save_time)),
{
    lemma_header_complete(saved_tiles(cells, datas, names), names);
}

/// The spawn that stands for a placed tile as it is: the tile with the data
/// that was given for its coordinate.
pub open spec fn kept_tile(datas: Seq<(TileCoord, Seq<(Id, DataView)>)>) -> spec_fn(
    (TileCoord, Placement),
) -> Option<TileSpawnView> {
    |cell: (TileCoord, Placement)|
        match data_for(datas, cell.0) {
            Some(entries) => Some(
                TileSpawnView {
                    coord: cell.0,
                    tile_type: cell.1.0,
                    modifier: cell.1.1,
                    data: assoc(entries),
                },
            ),
            None => None,
        }
}

/// Every handle in the data given for a placed tile has a name.
pub open spec fn tile_data_named(
    cells: Seq<(TileCoord, Placement)>,
    datas: Seq<(TileCoord, Seq<(Id, DataView)>)>,
    names: Seq<Seq<char>>,
) -> bool {
    forall|i: int|
        0 <= i < cells.len() ==> (data_for(datas, (#[trigger] cells[i]).0) matches Some(entries)
            ==> entries_named(entries, names))
}

/// A map read back from its own snapshot, under the names it was saved
/// with, is the map that was saved: every saved tile comes back at its
/// coordinate with its type, its modifier and its data, the map's own data
/// comes back, and the save time is carried through. Where data was given
/// for every tile, the placement table comes back whole.
///
/// This holds where every handle in the saved data has a name; data under a
/// handle without a name is not written.
pub proof fn lemma_snapshot_round_trip(
    map_name: Seq<char>,
    cells: Seq<(TileCoord, Placement)>,
    map_data: Seq<(Id, DataView)>,
    datas: Seq<(TileCoord, Seq<(Id, DataView)>)>,
    names: Seq<Seq<char>>,
    save_time: i64,
)
    requires
        distinct_names(names),
        first_unnamed(saved_tiles(cells, datas, names), names) is None,
        entries_named(map_data, names),
        tile_data_named(cells, datas, names),
    ensures
        ({
            let document = snapshot_of(cells, map_data, datas, names, save_time);
            let restored = restored_map(map_name, document, names);
            &&& restored_tiles(document, names) == filter_map(cells, kept_tile(datas))
            &&& restored.map_name == map_name
            &&& restored.data == assoc(map_data)
            &&& restored.save_time == save_time
            &&& (forall|i: int| 0 <= i < cells.len() ==> data_for(datas, (#[trigger] cells[i]).0) is Some)
                ==> restored.tiles == assoc(cells)
        }),
{
    let document = snapshot_of(cells, map_data, datas, names, save_time);
    let saved = saved_tiles(cells, datas, names);
    let header = header_of(saved, names);
    let f = saved_tile(datas, names);
    let g = restored_tile(header, names);
    let h = kept_tile(datas);
    lemma_header_complete(saved, names);
    assert forall|i: int| 0 <= i < cells.len() implies #[trigger] h(cells[i]) == match f(cells[i]) {
        Some(tile) => g(tile),
        None => None,
    } by {
        match data_for(datas, cells[i].0) {
            Some(entries) => {
                let tile = f(cells[i]).unwrap();
                lemma_filter_map_member(cells, i, f);
                let j = choose|j: int| 0 <= j < saved.len() && saved[j] == tile;
                assert(saved[j].1.tile_type == cells[i].1.0);
                assert(header_name(header, tile.1.tile_type) == name_at(names, tile.1.tile_type));
                lemma_lookup_of_name(names, tile.1.tile_type);
                lemma_map_round_trip(entries, names);
            },
            None => {},
        }
    }
    lemma_filter_map_compose(cells, f, g, h);
    lemma_map_round_trip(map_data, names);
    if forall|i: int| 0 <= i < cells.len() ==> data_for(datas, (#[trigger] cells[i]).0) is Some {
        assert forall|i: int| 0 <= i < cells.len() implies (#[trigger] h(cells[i])) is Some by {
            assert(data_for(datas, cells[i].0) is Some);
        }
        lemma_filter_map_total(cells, h);
        let spawns = filter_map(cells, h);
        assert forall|i: int| 0 <= i < cells.len() implies placements(spawns)[i] == cells[i] by {
            assert(Some(spawns[i]) == h(cells[i]));
        }
        assert(placements(spawns) =~= cells);
    }
}

/// The spawn of a snapshot tile under other names than it was saved with:
/// its type is the handle that `names` gives to the name that the type had
/// under `saved_names`.
pub open spec fn renamed_tile(saved_names: Seq<Seq<char>>, names: Seq<Seq<char>>) -> spec_fn(
    (TileCoord, SerdeTileView),
) -> Option<TileSpawnView> {
    |tile: (TileCoord, SerdeTileView)|
        match name_at(saved_names, tile.1.tile_type) {
            Some(name) => match lookup(names, name) {
                Some(id) => Some(
                    TileSpawnView {
                        coord: tile.0,
                        tile_type: id,
                        modifier: tile.1.modifier,
                        data: map_of_raw(tile.1.data, names),
                    },
                ),
                None => None,
            },
            None => None,
        }
}

/// A snapshot is read by names, whatever handles are in use when it is
/// read: every tile whose type name is in use comes back at its coordinate
/// with its modifier and with the handle that now stands for that name, and
/// every other tile is left out.
pub proof fn lemma_restore_by_name(
    cells: Seq<(TileCoord, Placement)>,
    map_data: Seq<(Id, DataView)>,
    datas: Seq<(TileCoord, Seq<(Id, DataView)>)>,
    saved_names: Seq<Seq<char>>,
    names: Seq<Seq<char>>,
    save_time: i64,
)
    requires
        first_unnamed(saved_tiles(cells, datas, saved_names), saved_names) is None,
        names.len() <= u64::MAX,
    ensures
        ({
            let document = snapshot_of(cells, map_data, datas, saved_names, save_time);
            &&& restored_tiles(document, names) == filter_map(
                document.tiles,
                renamed_tile(saved_names, names),
            )
            &&& forall|i: int|
                0 <= i < document.tiles.len() ==> (#[trigger] renamed_tile(saved_names, names)(
                    document.tiles[i],
                ) matches Some(spawn) ==> name_at(names, spawn.tile_type) == name_at(
                    saved_names,
                    document.tiles[i].1.tile_type,
                ))
        }),
{
    let document = snapshot_of(cells, map_data, datas, saved_names, save_time);
    let saved = document.tiles;
    let header = document.header;
    lemma_header_complete(saved, saved_names);
    crate::seqs::lemma_filter_map_agree(
        saved,
        restored_tile(header, names),
        renamed_tile(saved_names, names),
    );
    assert forall|i: int| 0 <= i < saved.len() implies (#[trigger] renamed_tile(saved_names, names)(
        saved[i],
    ) matches Some(spawn) ==> name_at(names, spawn.tile_type) == name_at(
        saved_names,
        saved[i].1.tile_type,
    )) by {
        match name_at(saved_names, saved[i].1.tile_type) {
            Some(name) => {
                if lookup(names, name) is Some {
                    crate::id::lemma_name_of_lookup(names, name);
                }
            },
            None => {},
        }
    }
}

/// The snapshot tiles of a placement table without a coordinate twice hold
/// no coordinate twice.
pub proof fn lemma_saved_coords_distinct(
    cells: Seq<(TileCoord, Placement)>,
    datas: Seq<(TileCoord, Seq<(Id, DataView)>)>,
    names: Seq<Seq<char>>,
)
    requires
        distinct_keys(cells),
    ensures
        distinct_keys(saved_tiles(cells, datas, names)),
{
    let f = saved_tile(datas, names);
    let saved = saved_tiles(cells, datas, names);
    lemma_kept_at(cells, f);
    assert forall|i: int, j: int| 0 <= i < j < saved.len() implies saved[i].0 != saved[j].0 by {
        let a = kept_at(cells, f, i);
        let b = kept_at(cells, f, j);
        assert(a < b);
        assert(f(cells[a]) == Some(saved[i]));
        assert(f(cells[b]) == Some(saved[j]));
    }
}

/// The snapshot holds, for a placed tile for which data was given, the tile
/// with the written form of that data.
pub proof fn lemma_saved_tile_holds(
    cells: Seq<(TileCoord, Placement)>,
    datas: Seq<(TileCoord, Seq<(Id, DataView)>)>,
    names: Seq<Seq<char>>,
    i: int,
)
    requires
        0 <= i < cells.len(),
        data_for(datas, cells[i].0) is Some,
    ensures
        saved_tiles(cells, datas, names).contains(
            (
                cells[i].0,
                SerdeTileView {
                    tile_type: cells[i].1.0,
                    modifier: cells[i].1.1,
                    data: map_to_raw(data_for(datas, cells[i].0).unwrap(), names),
                },
            ),
        ),
{
    lemma_filter_map_member(cells, i, saved_tile(datas, names));
}

/// What a load under other handles makes of one tile of a snapshot. A tile
/// whose type name is not in use is left out of the map and of the spawns
/// and is listed as dropped. A tile whose type name is in use stands in the
/// map at its coordinate, with its modifier and with the handle that now
/// stands for the name.
pub proof fn lemma_restored_tile(
    map_name: Seq<char>,
    cells: Seq<(TileCoord, Placement)>,
    map_data: Seq<(Id, DataView)>,
    datas: Seq<(TileCoord, Seq<(Id, DataView)>)>,
    saved_names: Seq<Seq<char>>,
    names: Seq<Seq<char>>,
    save_time: i64,
    i: int,
)
    requires
        distinct_keys(cells),
        first_unnamed(saved_tiles(cells, datas, saved_names), saved_names) is None,
        names.len() <= u64::MAX,
        0 <= i < saved_tiles(cells, datas, saved_names).len(),
    ensures
        ({
            let document = snapshot_of(cells, map_data, datas, saved_names, save_time);
            let tile = document.tiles[i];
            let restored = restored_map(map_name, document, names);
            let spawns = restored_tiles(document, names);
            &&& name_at(saved_names, tile.1.tile_type) matches Some(name)
            &&& match lookup(names, name) {
                Some(id) => {
                    &&& restored.tiles.contains_key(tile.0)
                    &&& restored.tiles[tile.0] == (id, tile.1.modifier)
                    &&& name_at(names, id) == Some(name)
                    &&& spawns.contains(
                        TileSpawnView {
                            coord: tile.0,
                            tile_type: id,
                            modifier: tile.1.modifier,
                            data: map_of_raw(tile.1.data, names),
                        },
                    )
                    &&& !dropped_tiles(document, names).contains(tile.0)
                },
                None => {
                    &&& !restored.tiles.contains_key(tile.0)
                    &&& forall|j: int| 0 <= j < spawns.len() ==> (#[trigger] spawns[j]).coord != tile.0
                    &&& dropped_tiles(document, names).contains(tile.0)
                },
            }
        }),
{
    let document = snapshot_of(cells, map_data, datas, saved_names, save_time);
    let saved = document.tiles;
    let header = document.header;
    let tile = saved[i];
    let read = restored_tile(header, names);
    let lost = dropped_tile(header, names);
    let spawns = restored_tiles(document, names);
    let dropped = dropped_tiles(document, names);
    let placed = placements(spawns);
    lemma_header_complete(saved, saved_names);
    lemma_saved_coords_distinct(cells, datas, saved_names);
    lemma_kept_at(saved, read);
    lemma_kept_at(saved, lost);
    let name = name_at(saved_names, tile.1.tile_type).unwrap();
    assert(header_name(header, tile.1.tile_type) == Some(name));
    assert forall|a: int, b: int| 0 <= a < b < placed.len() implies placed[a].0 != placed[b].0 by {
        let x = kept_at(saved, read, a);
        let y = kept_at(saved, read, b);
        assert(x < y);
        assert(read(saved[x]) == Some(spawns[a]));
        assert(read(saved[y]) == Some(spawns[b]));
    }
    assert forall|j: int| 0 <= j < spawns.len() && (#[trigger] spawns[j]).coord == tile.0 implies kept_at(
        saved,
        read,
        j,
    ) == i by {
        let x = kept_at(saved, read, j);
        assert(read(saved[x]) == Some(spawns[j]));
        if x < i {
            assert(saved[x].0 != saved[i].0);
        } else if i < x {
            assert(saved[i].0 != saved[x].0);
        }
    }
    assert forall|j: int| 0 <= j < dropped.len() && (#[trigger] dropped[j]) == tile.0 implies kept_at(
        saved,
        lost,
        j,
    ) == i by {
        let x = kept_at(saved, lost, j);
        assert(lost(saved[x]) == Some(dropped[j]));
        if x < i {
            assert(saved[x].0 != saved[i].0);
        } else if i < x {
            assert(saved[i].0 != saved[x].0);
        }
    }
    lemma_assoc_keys(placed);
    match lookup(names, name) {
        Some(id) => {
            lemma_name_of_lookup(names, name);
            lemma_filter_map_member(saved, i, read);
            let spawn = read(tile).unwrap();
            let j = choose|j: int| 0 <= j < spawns.len() && spawns[j] == spawn;
            assert(placed[j] == (tile.0, (id, tile.1.modifier)));
            lemma_assoc_value(placed, j);
            if dropped.contains(tile.0) {
                let k = choose|k: int| 0 <= k < dropped.len() && dropped[k] == tile.0;
                assert(kept_at(saved, lost, k) == i);
                assert(lost(saved[i]) == Some(dropped[k]));
            }
        },
        None => {
            assert(read(tile) is None);
            assert forall|j: int| 0 <= j < spawns.len() implies (#[trigger] spawns[j]).coord
                != tile.0 by {
                if spawns[j].coord == tile.0 {
                    assert(kept_at(saved, read, j) == i);
                    assert(read(saved[i]) == Some(spawns[j]));
                }
            }
            if has_key(placed, tile.0) {
                let j = choose|j: int| 0 <= j < placed.len() && (#[trigger] placed[j]).0 == tile.0;
                assert(spawns[j].coord == tile.0);
            }
            lemma_filter_map_member(saved, i, lost);
        },
    }
}

/// The data of a snapshot is read by names, whatever handles are in use
/// when it is read: where every name in the written data of a tile, or of
/// the map, is in use, the entries that the data is read as are written
/// back as the same names with the same values, and no key stands twice
/// among them.
pub proof fn lemma_restored_data(
    raw: Seq<(Seq<char>, DataRawView)>,
    names: Seq<Seq<char>>,
)
    requires
        names.len() <= u64::MAX,
        distinct_keys(raw),
        entries_known(raw, names),
    ensures
        ({
            let read = filter_map(raw, entry_of_raw(names));
            &&& map_of_raw(raw, names) == assoc(read)
            &&& distinct_keys(read)
            &&& read.len() == raw.len()
            &&& map_to_raw(read, names) == raw
        }),
{
    lemma_map_raw_round_trip(raw, names);
    lemma_read_keys_distinct(raw, names);
}

/// A value that was set in a tile entity is what a save then writes for
/// its key: the data that the entity gives holds the value, and its written
/// form holds the name of the key once, with the written form of the value.
///
/// This holds where the key has a name and the value a written form; an
/// entry without either is not written.
pub proof fn lemma_set_is_saved(
    state: TileEntityView,
    key: Id,
    value: DataView,
    entries: Seq<(Id, DataView)>,
    names: Seq<Seq<char>>,
)
    requires
        !state.stopped,
        distinct_names(names),
        distinct_keys(entries),
        step(step(state, TileEntityMsgView::SetData(key, value)).0, TileEntityMsgView::GetData).1
            == TileEntityReplyView::Data(assoc(entries)),
        name_at(names, key) is Some,
        data_to_raw(value, names) is Some,
    ensures
        map_to_raw(entries, names).contains(
            (name_at(names, key).unwrap(), data_to_raw(value, names).unwrap()),
        ),
        distinct_keys(map_to_raw(entries, names)),
{
    lemma_held_is_written(entries, key, value, names);
}

/// Of two values set under one key in a tile entity, a save writes the one
/// set last, and writes the name of the key once.
///
/// This holds where the key has a name and the last value a written form.
pub proof fn lemma_last_set_is_saved(
    state: TileEntityView,
    key: Id,
    first: DataView,
    last: DataView,
    entries: Seq<(Id, DataView)>,
    names: Seq<Seq<char>>,
)
    requires
        !state.stopped,
        distinct_names(names),
        distinct_keys(entries),
        step(
            run(
                state,
                seq![
                    TileEntityMsgView::SetData(key, first),
                    TileEntityMsgView::SetData(key, last),
                ],
            ),
            TileEntityMsgView::GetData,
        ).1 == TileEntityReplyView::Data(assoc(entries)),
        name_at(names, key) is Some,
        data_to_raw(last, names) is Some,
    ensures
        map_to_raw(entries, names).contains(
            (name_at(names, key).unwrap(), data_to_raw(last, names).unwrap()),
        ),
        distinct_keys(map_to_raw(entries, names)),
{
    crate::tile_entity::lemma_last_write_wins(state, key, first, last);
    lemma_held_is_written(entries, key, last, names);
}

/// A value that a table holds under a key is written under the name of the
/// key, and the written table holds no name twice.
pub proof fn lemma_held_is_written(
    entries: Seq<(Id, DataView)>,
    key: Id,
    value: DataView,
    names: Seq<Seq<char>>,
)
    requires
        distinct_names(names),
        distinct_keys(entries),
        assoc(entries).contains_key(key),
        assoc(entries)[key] == value,
        name_at(names, key) is Some,
        data_to_raw(value, names) is Some,
    ensures
        map_to_raw(entries, names).contains(
            (name_at(names, key).unwrap(), data_to_raw(value, names).unwrap()),
        ),
        distinct_keys(map_to_raw(entries, names)),
{
    lemma_assoc_keys(entries);
    let i = choose|i: int| 0 <= i < entries.len() && (#[trigger] entries[i]).0 == key;
    lemma_assoc_value(entries, i);
    lemma_filter_map_member(entries, i, entry_to_raw(names));
    lemma_written_keys_distinct(entries, names);
}

} // verus!
