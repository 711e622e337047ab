//! Snapshots of a map: the document that a save writes and a load reads,
//! the rules by which it is made from a map, and the course of a save.

use crate::clock::utc_timestamp;
use crate::data::{DataRawView, DataView, TileCoord};
use crate::data_map::{map_to_raw, DataMap, DataMapRaw};
use crate::id::{name_at, Id, Interner};
use crate::map::GameMap;
use crate::round_trip::{header_complete, lemma_header_complete};
use crate::seqs::{
    distinct_keys, filter_map, has_key, lemma_filter_map_concat, lemma_filter_map_push,
};
use crate::tiles::{coord_key, key_of, lemma_coord_key_injective, Placement, TileModifier};
use std::collections::HashMap;
use vstd::prelude::*;
use vstd::std_specs::hash::*;

verus! {

/// The names of the tile types of a snapshot, by the handles that the
/// snapshot uses for them.
#[derive(Debug, PartialEq, Eq)]
pub struct MapHeader(pub Vec<(Id, String)>);

/// What a list of header entries holds.
pub open spec fn header_entries(entries: Seq<(Id, String)>) -> Seq<(Id, Seq<char>)> {
    entries.map_values(|entry: (Id, String)| (entry.0, entry.1@))
}

impl View for MapHeader {
    type V = Seq<(Id, Seq<char>)>;

    open spec fn view(&self) -> Seq<(Id, Seq<char>)> {
        header_entries(self.0@)
    }
}

/// One tile of a snapshot: its type, its modifier and its written data.
#[derive(Debug, PartialEq, Eq)]
pub struct SerdeTile(pub Id, pub TileModifier, pub DataMapRaw);

/// What a [`SerdeTile`] holds.
pub struct SerdeTileView {
    pub tile_type: Id,
    pub modifier: TileModifier,
    pub data: Seq<(Seq<char>, DataRawView)>,
}

impl View for SerdeTile {
    type V = SerdeTileView;

    open spec fn view(&self) -> SerdeTileView {
        SerdeTileView { tile_type: self.0, modifier: self.1, data: self.2@ }
    }
}

/// What a list of snapshot tiles holds.
pub open spec fn tile_views(tiles: Seq<(TileCoord, SerdeTile)>) -> Seq<(TileCoord, SerdeTileView)> {
    tiles.map_values(|tile: (TileCoord, SerdeTile)| (tile.0, tile.1@))
}

/// The document of a snapshot.
#[derive(Debug, PartialEq, Eq)]
pub struct SerdeMap {
    pub header: MapHeader,
    pub serde_tiles: Vec<(TileCoord, SerdeTile)>,
    pub data: DataMapRaw,
    pub save_time: i64,
}

/// What a [`SerdeMap`] holds.
pub struct SerdeMapView {
    pub header: Seq<(Id, Seq<char>)>,
    pub tiles: Seq<(TileCoord, SerdeTileView)>,
    pub data: Seq<(Seq<char>, DataRawView)>,
    pub save_time: i64,
}

impl View for SerdeMap {
    type V = SerdeMapView;

    open spec fn view(&self) -> SerdeMapView {
        SerdeMapView {
            header: self.header@,
            tiles: tile_views(self.serde_tiles@),
            data: self.data@,
            save_time: self.save_time,
        }
    }
}

/// What a list of tile data, as the tile entities gave it, holds.
pub open spec fn held(tile_data: Seq<(TileCoord, DataMap)>) -> Seq<
    (TileCoord, Seq<(Id, DataView)>),
> {
    tile_data.map_values(|tile: (TileCoord, DataMap)| (tile.0, tile.1.entries()))
}

/// The data that the first entry for `coord` gives, if there is one.
pub open spec fn data_for(
    datas: Seq<(TileCoord, Seq<(Id, DataView)>)>,
    coord: TileCoord,
) -> Option<Seq<(Id, DataView)>>
    decreases datas.len(),
{
    if datas.len() == 0 {
        None
    } else if datas[0].0 == coord {
        Some(datas[0].1)
    } else {
        data_for(datas.drop_first(), coord)
    }
}

/// The snapshot tile of a placed tile, if data was given for its coordinate.
pub open spec fn saved_tile(
    datas: Seq<(TileCoord, Seq<(Id, DataView)>)>,
    names: Seq<Seq<char>>,
) -> spec_fn((TileCoord, Placement)) -> Option<(TileCoord, SerdeTileView)> {
    |cell: (TileCoord, Placement)|
        match data_for(datas, cell.0) {
            Some(entries) => Some(
                (
                    cell.0,
                    SerdeTileView {
                        tile_type: cell.1.0,
                        modifier: cell.1.1,
                        data: map_to_raw(entries, names),
                    },
                ),
            ),
            None => None,
        }
}

/// The snapshot tiles of a placement table: one for each placed tile for
/// which data was given, in the order of the table.
pub open spec fn saved_tiles(
    cells: Seq<(TileCoord, Placement)>,
    datas: Seq<(TileCoord, Seq<(Id, DataView)>)>,
    names: Seq<Seq<char>>,
) -> Seq<(TileCoord, SerdeTileView)> {
    filter_map(cells, saved_tile(datas, names))
}

/// The header with an entry for `id` added, unless it has one.
pub open spec fn header_with(header: Seq<(Id, Seq<char>)>, id: Id, names: Seq<Seq<char>>) -> Seq<
    (Id, Seq<char>),
> {
    if has_key(header, id) {
        header
    } else {
        header.push((id, names[id.index() as int]))
    }
}

/// The header of a list of snapshot tiles: each tile type once with its
/// name, in the order in which the types first occur.
pub open spec fn header_of(tiles: Seq<(TileCoord, SerdeTileView)>, names: Seq<Seq<char>>) -> Seq<
    (Id, Seq<char>),
>
    decreases tiles.len(),
{
    if tiles.len() == 0 {
        Seq::empty()
    } else {
        header_with(header_of(tiles.drop_last(), names), tiles.last().1.tile_type, names)
    }
}

/// The first tile of the list whose type has no name, with its coordinate.
pub open spec fn first_unnamed(tiles: Seq<(TileCoord, SerdeTileView)>, names: Seq<Seq<char>>) -> Option<
    (TileCoord, Id),
>
    decreases tiles.len(),
{
    if tiles.len() == 0 {
        None
    } else {
        match first_unnamed(tiles.drop_last(), names) {
            Some(found) => Some(found),
            None => if name_at(names, tiles.last().1.tile_type) is None {
                Some((tiles.last().0, tiles.last().1.tile_type))
            } else {
                None
            },
        }
    }
}

/// The snapshot of a map whose tiles are `cells` and whose own data is
/// `map_data`, taken with the tile data `datas` at `save_time`.
pub open spec fn snapshot_of(
    cells: Seq<(TileCoord, Placement)>,
    map_data: Seq<(Id, DataView)>,
    datas: Seq<(TileCoord, Seq<(Id, DataView)>)>,
    names: Seq<Seq<char>>,
    save_time: i64,
) -> SerdeMapView {
    SerdeMapView {
        header: header_of(saved_tiles(cells, datas, names), names),
        tiles: saved_tiles(cells, datas, names),
        data: map_to_raw(map_data, names),
        save_time,
    }
}

/// Why a map could not be saved.
#[derive(Clone, Copy, Debug, PartialEq, Eq, Structural)]
pub enum SaveError {
    /// The type of the tile at `coord` has no name to save it under.
    UnnamedTile { coord: TileCoord, tile_type: Id },
    /// The entity of the tile at `coord` did not answer.
    TileUnavailable { coord: TileCoord },
}

/// The first unnamed tile of a list is also the first unnamed tile of every
/// list that continues it.
pub proof fn lemma_first_unnamed_extends(
    tiles: Seq<(TileCoord, SerdeTileView)>,
    more: Seq<(TileCoord, SerdeTileView)>,
    names: Seq<Seq<char>>,
)
    requires
        first_unnamed(tiles, names) is Some,
    ensures
        first_unnamed(tiles + more, names) == first_unnamed(tiles, names),
    decreases more.len(),
{
    if more.len() == 0 {
        assert(tiles + more =~= tiles);
    } else {
        assert((tiles + more).drop_last() =~= tiles + more.drop_last());
        lemma_first_unnamed_extends(tiles, more.drop_last(), names);
    }
}

/// The index finds for every coordinate the first data given for it.
pub open spec fn data_indexed(
    tile_data: Seq<(TileCoord, DataMap)>,
    from: int,
    index: Map<u64, usize>,
) -> bool {
    forall|coord: TileCoord|
        match data_for(held(tile_data).skip(from), coord) {
            Some(entries) => index.contains_key(#[trigger] coord_key(coord)) && from
                <= index[coord_key(coord)] < tile_data.len() && tile_data[index[coord_key(
                coord,
            )] as int].0 == coord && tile_data[index[coord_key(coord)] as int].1.entries()
                == entries,
            None => !index.contains_key(coord_key(coord)),
        }
}

/// An index from coordinates to the first data given for each.
fn index_data(tile_data: &Vec<(TileCoord, DataMap)>) -> (index: HashMap<u64, usize>)
    ensures
        data_indexed(tile_data@, 0, index@),
{
    broadcast use group_hash_axioms;

    let ghost datas = held(tile_data@);
    let mut index: HashMap<u64, usize> = HashMap::new();
    let mut j: usize = tile_data.len();
    assert(datas.skip(j as int) =~= Seq::<(TileCoord, Seq<(Id, DataView)>)>::empty());
    while j > 0
        invariant
            datas == held(tile_data@),
            j <= tile_data@.len(),
            data_indexed(tile_data@, j as int, index@),
        decreases j,
    {
        j -= 1;
        let ghost before = index@;
        let here = tile_data[j].0;
        index.insert(key_of(here), j);
        proof {
            let rest = datas.skip(j as int);
            assert(rest[0] == datas[j as int]);
            assert(rest.drop_first() =~= datas.skip(j + 1));
            assert forall|coord: TileCoord|
                match data_for(rest, coord) {
                    Some(entries) => index@.contains_key(#[trigger] coord_key(coord)) && j
                        <= index@[coord_key(coord)] < tile_data@.len() && tile_data@[index@[coord_key(
                        coord,
                    )] as int].0 == coord && tile_data@[index@[coord_key(
                        coord,
                    )] as int].1.entries() == entries,
                    None => !index@.contains_key(coord_key(coord)),
                } by {
                if coord != here {
                    if coord_key(coord) == coord_key(here) {
                        lemma_coord_key_injective(coord, here);
                    }
                    assert(data_for(rest, coord) == data_for(datas.skip(j + 1), coord));
                    assert(before.contains_key(coord_key(coord)) == index@.contains_key(
                        coord_key(coord),
                    ));
                }
            }
        }
    }
    assert(datas.skip(0) =~= datas);
    index
}

/// Whether the header entries hold one for `id`.
fn header_has(header: &Vec<(Id, String)>, id: Id) -> (found: bool)
    ensures
        found == has_key(header_entries(header@), id),
{
    let mut i: usize = 0;
    while i < header.len()
        invariant
            i <= header@.len(),
            forall|k: int| 0 <= k < i ==> header_entries(header@)[k].0 != id,
        decreases header@.len() - i,
    {
        if header[i].0 == id {
            assert(header_entries(header@)[i as int].0 == id);
            return true;
        }
        i += 1;
    }
    false
}

impl GameMap {
    /// The snapshot of this map at `save_time`, its tiles carrying the data
    /// that their entities gave in `tile_data`. A tile without data there is
    /// left out. Fails on the first saved tile whose type has no name.
    pub fn snapshot(
        &self,
        interner: &Interner,
        tile_data: &Vec<(TileCoord, DataMap)>,
        save_time: i64,
    ) -> (saved: Result<SerdeMap, SaveError>)
        ensures
            match first_unnamed(
                saved_tiles(self.tiles.cells(), held(tile_data@), interner@),
                interner@,
            ) {
                Some(unnamed) => saved == Err::<SerdeMap, SaveError>(
                    SaveError::UnnamedTile { coord: unnamed.0, tile_type: unnamed.1 },
                ),
                None => saved matches Ok(document) && document@ == snapshot_of(
                    self.tiles.cells(),
                    self.data.entries(),
                    held(tile_data@),
                    interner@,
                    save_time,
                ),
            },
            saved matches Ok(document) ==> header_complete(document@),
    {
        broadcast use group_hash_axioms;

        let ghost cells = self.tiles.cells();
        let ghost datas = held(tile_data@);
        let ghost names = interner@;
        let mut header: Vec<(Id, String)> = Vec::new();
        let mut serde_tiles: Vec<(TileCoord, SerdeTile)> = Vec::new();
        let index = index_data(tile_data);
        let n = self.tiles.len();
        let mut i: usize = 0;
        assert(tile_views(serde_tiles@) =~= saved_tiles(cells.take(0), datas, names));
        assert(header_entries(header@) =~= header_of(saved_tiles(cells.take(0), datas, names), names));
        while i < n
            invariant
                cells == self.tiles.cells(),
                datas == held(tile_data@),
                names == interner@,
                data_indexed(tile_data@, 0, index@),
                n == cells.len(),
                i <= n,
                tile_views(serde_tiles@) == saved_tiles(cells.take(i as int), datas, names),
                header_entries(header@) == header_of(
                    saved_tiles(cells.take(i as int), datas, names),
                    names,
                ),
                first_unnamed(saved_tiles(cells.take(i as int), datas, names), names) is None,
            decreases n - i,
        {
            let (coord, (tile_type, modifier)) = self.tiles.cell_at(i);
            let ghost done = saved_tiles(cells.take(i as int), datas, names);
            let ghost next = saved_tiles(cells.take(i + 1), datas, names);
            proof {
                lemma_filter_map_push(cells.take(i as int), cells[i as int], saved_tile(datas, names));
                assert(cells.take(i + 1) =~= cells.take(i as int).push(cells[i as int]));
            }
            proof {
                assert(datas.skip(0) =~= datas);
                assert(index@.contains_key(coord_key(coord)) <==> data_for(datas, coord) is Some);
            }
            if let Some(at) = index.get(&key_of(coord)) {
                let j = *at;
                let ghost tile = (
                    coord,
                    SerdeTileView {
                        tile_type,
                        modifier,
                        data: map_to_raw(tile_data@[j as int].1.entries(), names),
                    },
                );
                proof {
                    assert(next == done.push(tile));
                    assert(next.drop_last() =~= done);
                }
                match interner.resolve(tile_type) {
                    None => {
                        proof {
                            assert(first_unnamed(next, names) == Some((coord, tile_type)));
                            lemma_filter_map_concat(
                                cells.take(i + 1),
                                cells.skip(i + 1),
                                saved_tile(datas, names),
                            );
                            assert(cells.take(i + 1) + cells.skip(i + 1) =~= cells);
                            lemma_first_unnamed_extends(
                                next,
                                saved_tiles(cells.skip(i + 1), datas, names),
                                names,
                            );
                        }
                        return Err(SaveError::UnnamedTile { coord, tile_type });
                    },
                    Some(name) => {
                        let ghost header_before = header@;
                        if !header_has(&header, tile_type) {
                            header.push((tile_type, name.to_owned()));
                            assert(header_entries(header@) =~= header_entries(header_before).push(
                                (tile_type, name@),
                            ));
                        }
                        let raw = tile_data[j].1.to_raw(interner);
                        let ghost tiles_before = serde_tiles@;
                        serde_tiles.push((coord, SerdeTile(tile_type, modifier, raw)));
                        assert(tile_views(serde_tiles@) =~= tile_views(tiles_before).push(tile));
                    },
                }
            }
            i += 1;
        }
        assert(cells.take(n as int) =~= cells);
        proof {
            lemma_header_complete(saved_tiles(cells, datas, names), names);
        }
        Ok(
            SerdeMap {
                header: MapHeader(header),
                serde_tiles,
                data: self.data.to_raw(interner),
                save_time,
            },
        )
    }

    /// The snapshot of this map as of now: [`GameMap::snapshot`] at the time
    /// that the universal clock shows.
    pub fn save(&self, interner: &Interner, tile_data: &Vec<(TileCoord, DataMap)>) -> (saved: Result<
        SerdeMap,
        SaveError,
    >)
        ensures
            match first_unnamed(
                saved_tiles(self.tiles.cells(), held(tile_data@), interner@),
                interner@,
            ) {
                Some(unnamed) => saved == Err::<SerdeMap, SaveError>(
                    SaveError::UnnamedTile { coord: unnamed.0, tile_type: unnamed.1 },
                ),
                None => saved matches Ok(document) && document@ == snapshot_of(
                    self.tiles.cells(),
                    self.data.entries(),
                    held(tile_data@),
                    interner@,
                    document.save_time,
                ),
            },
            saved matches Ok(document) ==> header_complete(document@),
    {
        self.snapshot(interner, tile_data, utc_timestamp())
    }
}

/// What came of asking the entity of one tile for its data.
#[derive(Debug, PartialEq, Eq)]
pub enum QueryOutcome {
    /// The tile has no entity.
    NoEntity,
    /// The entity gave its data.
    Data(DataMap),
    /// The entity has ended or cannot be reached.
    Unreachable,
}

/// What to do after an entity was asked for its data.
#[derive(Debug, Clone, Copy, PartialEq, Eq, Structural)]
pub enum SaveStep {
    /// Nothing: the tile is left out of the snapshot.
    Skipped,
    /// End the entity at this coordinate: its data is in the snapshot.
    StopEntity(TileCoord),
    /// Give the save up with this error: nothing is written.
    Abort(SaveError),
}

/// The data that a save has collected after the given answers, one answer
/// for each tile gone through: the data of every tile whose entity gave
/// some, under the coordinate of the tile.
pub open spec fn answered(
    cells: Seq<(TileCoord, Placement)>,
    answers: Seq<Option<Seq<(Id, DataView)>>>,
) -> Seq<(TileCoord, Seq<(Id, DataView)>)>
    decreases answers.len(),
{
    if answers.len() == 0 {
        Seq::empty()
    } else {
        let before = answered(cells, answers.drop_last());
        match answers.last() {
            Some(entries) => before.push((cells[answers.len() - 1].0, entries)),
            None => before,
        }
    }
}

/// Data added at the end is found for its coordinate unless earlier data
/// is.
pub proof fn lemma_data_for_push(
    datas: Seq<(TileCoord, Seq<(Id, DataView)>)>,
    coord: TileCoord,
    entries: Seq<(Id, DataView)>,
    wanted: TileCoord,
)
    ensures
        data_for(datas.push((coord, entries)), wanted) == match data_for(datas, wanted) {
            Some(found) => Some(found),
            None => if coord == wanted {
                Some(entries)
            } else {
                None
            },
        },
    decreases datas.len(),
{
    let longer = datas.push((coord, entries));
    if datas.len() == 0 {
        assert(longer.drop_first() =~= datas);
    } else {
        assert(longer[0] == datas[0]);
        assert(longer.drop_first() =~= datas.drop_first().push((coord, entries)));
        lemma_data_for_push(datas.drop_first(), coord, entries, wanted);
    }
}

/// Where no coordinate is occupied twice, the data that a save has
/// collected for a tile is what the entity of that tile answered, and
/// nothing for a tile that was not gone through yet.
pub proof fn lemma_answered_lookup(
    cells: Seq<(TileCoord, Placement)>,
    answers: Seq<Option<Seq<(Id, DataView)>>>,
    i: int,
)
    requires
        distinct_keys(cells),
        answers.len() <= cells.len(),
        0 <= i < cells.len(),
    ensures
        data_for(answered(cells, answers), cells[i].0) == if i < answers.len() {
            answers[i]
        } else {
            None
        },
    decreases answers.len(),
{
    if answers.len() > 0 {
        let front = answers.drop_last();
        let last = answers.len() - 1;
        lemma_answered_lookup(cells, front, i);
        match answers.last() {
            Some(entries) => {
                lemma_data_for_push(answered(cells, front), cells[last].0, entries, cells[i].0);
            },
            None => {},
        }
        if i < last {
            assert(front[i] == answers[i]);
        }
    }
}

/// The progress of a save: the tiles of the map are gone through in order,
/// one entity asked at a time.
pub struct SaveSession {
    collected: Vec<(TileCoord, DataMap)>,
    answers: Ghost<Seq<Option<Seq<(Id, DataView)>>>>,
    position: usize,
}

impl SaveSession {
    /// What the entities of the tiles gone through so far answered: the data
    /// of each, or nothing for a tile without an entity.
    pub closed spec fn answers(&self) -> Seq<Option<Seq<(Id, DataView)>>> {
        self.answers@
    }

    /// How many tiles of the map are dealt with.
    pub open spec fn position(&self) -> nat {
        self.answers().len()
    }

    /// The data collected so far, by coordinate.
    pub closed spec fn collected(&self) -> Seq<(TileCoord, Seq<(Id, DataView)>)> {
        held(self.collected@)
    }

    /// The session has gone through tiles of `map` only, and has collected
    /// what their entities answered.
    pub closed spec fn wf(&self, map: &GameMap) -> bool {
        &&& self.position == self.answers@.len()
        &&& self.answers@.len() <= map.tiles.cells().len()
        &&& held(self.collected@) == answered(map.tiles.cells(), self.answers@)
    }

    /// A well-formed session has collected what the entities answered.
    pub proof fn lemma_wf(&self, map: &GameMap)
        requires
            self.wf(map),
        ensures
            self.position() <= map.tiles.cells().len(),
            self.collected() == answered(map.tiles.cells(), self.answers()),
    {
    }

    /// A save of `map` that has not asked any entity yet.
    pub fn begin(map: &GameMap) -> (session: SaveSession)
        ensures
            session.wf(map),
            session.answers() == Seq::<Option<Seq<(Id, DataView)>>>::empty(),
    {
        let session = SaveSession { collected: Vec::new(), answers: Ghost(Seq::empty()), position: 0 };
        assert(held(session.collected@) =~= answered(map.tiles.cells(), session.answers@));
        session
    }

    /// The coordinate of the entity to ask next, or nothing once every tile
    /// of `map` is dealt with.
    pub fn next_query(&self, map: &GameMap) -> (coord: Option<TileCoord>)
        requires
            self.wf(map),
        ensures
            match coord {
                Some(coord) => self.position() < map.tiles.cells().len() && coord
                    == map.tiles.cells()[self.position() as int].0,
                None => self.position() == map.tiles.cells().len(),
            },
    {
        if self.position < map.tiles.len() {
            Some(map.tiles.cell_at(self.position).0)
        } else {
            None
        }
    }

    /// Takes in what came of asking the entity of the next tile. Data is
    /// kept for the snapshot and its entity is to be ended; a tile without
    /// an entity is passed over; an entity that did not answer ends the save.
    pub fn record(&mut self, map: &GameMap, outcome: QueryOutcome) -> (step: SaveStep)
        requires
            old(self).wf(map),
            old(self).position() < map.tiles.cells().len(),
        ensures
            final(self).wf(map),
            match outcome {
                QueryOutcome::NoEntity => {
                    &&& step == SaveStep::Skipped
                    &&& final(self).answers() == old(self).answers().push(None)
                },
                QueryOutcome::Data(data) => {
                    &&& step == SaveStep::StopEntity(
                        map.tiles.cells()[old(self).position() as int].0,
                    )
                    &&& final(self).answers() == old(self).answers().push(Some(data.entries()))
                },
                QueryOutcome::Unreachable => {
                    &&& step == SaveStep::Abort(
                        SaveError::TileUnavailable {
                            coord: map.tiles.cells()[old(self).position() as int].0,
                        },
                    )
                    &&& final(self).answers() == old(self).answers()
                },
            },
    {
        let _tiles = map.tiles.len();
        assert(self.position < _tiles);
        let coord = map.tiles.cell_at(self.position).0;
        let ghost before = self.answers@;
        match outcome {
            QueryOutcome::NoEntity => {
                self.position = self.position + 1;
                self.answers = Ghost(before.push(None));
                assert(self.answers@.drop_last() =~= before);
                SaveStep::Skipped
            },
            QueryOutcome::Data(data) => {
                let ghost kept = self.collected@;
                let ghost entries = data.entries();
                self.collected.push((coord, data));
                self.position = self.position + 1;
                self.answers = Ghost(before.push(Some(entries)));
                assert(self.answers@.drop_last() =~= before);
                assert(held(self.collected@) =~= held(kept).push((coord, entries)));
                SaveStep::StopEntity(coord)
            },
            QueryOutcome::Unreachable => SaveStep::Abort(SaveError::TileUnavailable { coord }),
        }
    }

    /// The snapshot of `map` with the data that this save collected, as
    /// [`GameMap::save`] makes it.
    pub fn finish(self, map: &GameMap, interner: &Interner) -> (saved: Result<SerdeMap, SaveError>)
        requires
            self.wf(map),
            self.position() == map.tiles.cells().len(),
        ensures
            match first_unnamed(
                saved_tiles(
                    map.tiles.cells(),
                    answered(map.tiles.cells(), self.answers()),
                    interner@,
                ),
                interner@,
            ) {
                Some(unnamed) => saved == Err::<SerdeMap, SaveError>(
                    SaveError::UnnamedTile { coord: unnamed.0, tile_type: unnamed.1 },
                ),
                None => saved matches Ok(document) && document@ == snapshot_of(
                    map.tiles.cells(),
                    map.data.entries(),
                    answered(map.tiles.cells(), self.answers()),
                    interner@,
                    document.save_time,
                ),
            },
            saved matches Ok(document) ==> header_complete(document@),
    {
        map.save(interner, &self.collected)
    }
}

} // verus!
