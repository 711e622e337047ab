//! Loading: the map and the tile entities that a snapshot stands for, and
//! what a load gives where there is no snapshot to read.

use crate::clock::{is_time_tag, local_time_tag, local_timestamp};
use crate::codec::{unpack, zstd_decoded};
use crate::data::{DataView, TileCoord};
use crate::data_map::{map_of_raw, DataMap};
use crate::id::{lookup, Id, Interner};
use crate::map::{empty_map, GameMap, GameMapView};
use crate::seqs::{
    assoc, filter_map, lemma_assoc_keys, lemma_assoc_last, lemma_assoc_push,
    lemma_filter_map_push,
};
use crate::snapshot::{MapHeader, SerdeMap, SerdeMapView, SerdeTileView};
use crate::tiles::{Placement, TileModifier, Tiles};
use vstd::prelude::*;
use vstd::string::StringExecFns;

verus! {

/// The mark that the name of a map gets when its file could not be read.
pub const ERROR_MARKER: &'static str = "-ERR-";

/// A tile entity to bring up after a load, with the data to replay into it.
#[derive(Debug, PartialEq, Eq)]
pub struct TileSpawn {
    pub coord: TileCoord,
    pub tile_type: Id,
    pub modifier: TileModifier,
    pub data: DataMap,
}

/// What a [`TileSpawn`] holds.
pub struct TileSpawnView {
    pub coord: TileCoord,
    pub tile_type: Id,
    pub modifier: TileModifier,
    pub data: Map<Id, DataView>,
}

impl View for TileSpawn {
    type V = TileSpawnView;

    open spec fn view(&self) -> TileSpawnView {
        TileSpawnView {
            coord: self.coord,
            tile_type: self.tile_type,
            modifier: self.modifier,
            data: self.data@,
        }
    }
}

/// What a list of spawns holds.
pub open spec fn spawn_views(spawns: Seq<TileSpawn>) -> Seq<TileSpawnView> {
    spawns.map_values(|spawn: TileSpawn| spawn@)
}

/// The name that a header gives for the handle `id`: that of the last entry
/// for it.
pub open spec fn header_name(header: Seq<(Id, Seq<char>)>, id: Id) -> Option<Seq<char>> {
    if assoc(header).contains_key(id) {
        Some(assoc(header)[id])
    } else {
        None
    }
}

/// The spawn that a snapshot tile stands for: its type is the handle that
/// the names in use give to the name that the header gives. A tile whose
/// type the header does not name, or whose name is not in use, has none.
pub open spec fn restored_tile(header: Seq<(Id, Seq<char>)>, names: Seq<Seq<char>>) -> spec_fn(
    (TileCoord, SerdeTileView),
) -> Option<TileSpawnView> {
    |tile: (TileCoord, SerdeTileView)|
        match header_name(header, tile.1.tile_type) {
            Some(name) => match lookup(names, name) {
                Some(id) => Some(
                    TileSpawnView {
                        coord: tile.0,
                        tile_type: id,
                        modifier: tile.1.modifier,
                        data: map_of_raw(tile.1.data, names),
                    },
                ),
                None => None,
            },
            None => None,
        }
}

/// The spawns of a snapshot, in the order of its tiles.
pub open spec fn restored_tiles(document: SerdeMapView, names: Seq<Seq<char>>) -> Seq<
    TileSpawnView,
> {
    filter_map(document.tiles, restored_tile(document.header, names))
}

/// The coordinate of a snapshot tile that has no spawn: its type is not
/// named by the header, or its name is not in use.
pub open spec fn dropped_tile(header: Seq<(Id, Seq<char>)>, names: Seq<Seq<char>>) -> spec_fn(
    (TileCoord, SerdeTileView),
) -> Option<TileCoord> {
    |tile: (TileCoord, SerdeTileView)|
        if restored_tile(header, names)(tile) is None {
            Some(tile.0)
        } else {
            None
        }
}

/// The coordinates of the tiles of a snapshot that are left out of the map,
/// in the order of the snapshot.
pub open spec fn dropped_tiles(document: SerdeMapView, names: Seq<Seq<char>>) -> Seq<TileCoord> {
    filter_map(document.tiles, dropped_tile(document.header, names))
}

/// Where each spawn places its tile.
pub open spec fn placements(spawns: Seq<TileSpawnView>) -> Seq<(TileCoord, Placement)> {
    spawns.map_values(|spawn: TileSpawnView| (spawn.coord, (spawn.tile_type, spawn.modifier)))
}

/// The map that a snapshot stands for: a later tile replaces an earlier one
/// at the same coordinate.
pub open spec fn restored_map(
    map_name: Seq<char>,
    document: SerdeMapView,
    names: Seq<Seq<char>>,
) -> GameMapView {
    GameMapView {
        map_name,
        tiles: assoc(placements(restored_tiles(document, names))),
        data: map_of_raw(document.data, names),
        save_time: document.save_time,
    }
}

/// The name under which a map is set aside when its file cannot be read.
pub open spec fn error_name(map_name: Seq<char>, tag: Seq<char>) -> Seq<char> {
    map_name + ERROR_MARKER@ + tag
}

/// Whether `renamed` is a name under which the map named `map_name` is set
/// aside: its name, the error mark and a time tag.
pub open spec fn is_error_name(map_name: Seq<char>, renamed: Seq<char>) -> bool {
    exists|tag: Seq<char>| #[trigger] is_time_tag(tag) && renamed == error_name(map_name, tag)
}

impl MapHeader {
    /// The name that the header gives for `id`.
    pub fn name_of(&self, id: Id) -> (found: Option<&str>)
        ensures
            match found {
                Some(name) => header_name(self@, id) == Some(name@),
                None => header_name(self@, id) is None,
            },
    {
        let mut i: usize = self.0.len();
        while i > 0
            invariant
                i <= self.0@.len(),
                forall|k: int| i <= k < self@.len() ==> (#[trigger] self@[k]).0 != id,
            decreases i,
        {
            i -= 1;
            if self.0[i].0 == id {
                proof {
                    assert(self@[i as int] == (self.0@[i as int].0, self.0@[i as int].1@));
                    lemma_assoc_last(self@, i as int);
                }
                return Some(self.0[i].1.as_str());
            }
        }
        proof {
            lemma_assoc_keys(self@);
        }
        None
    }
}

/// What there is to load a map from.
#[derive(Debug, PartialEq, Eq)]
pub enum LoadSource {
    /// The map has no file.
    Missing,
    /// The map has a file, but it does not hold a snapshot.
    Corrupt,
    /// The snapshot that the file of the map holds.
    Document(SerdeMap),
}

/// What the file of a map holds.
#[derive(Debug, PartialEq, Eq)]
pub enum FileContent {
    /// There is no file.
    Missing,
    /// The file is no compressed snapshot.
    Corrupt,
    /// The text of the snapshot, decompressed.
    Text(Vec<u8>),
}

/// What a file holds, given what decompressing it gave; `file_found` tells
/// whether there is a file at all.
pub fn unpacked(file_found: bool, plain: Option<Vec<u8>>) -> (content: FileContent)
    ensures
        content == (if !file_found {
            FileContent::Missing
        } else {
            match plain {
                Some(text) => FileContent::Text(text),
                None => FileContent::Corrupt,
            }
        }),
{
    if !file_found {
        FileContent::Missing
    } else {
        match plain {
            Some(text) => FileContent::Text(text),
            None => FileContent::Corrupt,
        }
    }
}

/// What the file of a map holds: `file` is the bytes of the file, or nothing
/// where there is no file. A file holds the text that its bytes decompress
/// to, and is corrupt where they decompress to nothing.
pub fn read_file(file: Option<&[u8]>) -> (content: FileContent)
    ensures
        match file {
            None => content == FileContent::Missing,
            Some(bytes) => match zstd_decoded(bytes@) {
                Some(plain) => content matches FileContent::Text(text) && text@ == plain,
                None => content == FileContent::Corrupt,
            },
        },
{
    match file {
        Some(bytes) => unpacked(true, unpack(bytes)),
        None => unpacked(false, None),
    }
}

/// What there is to load from, given what the file holds and what reading
/// its text as a snapshot gave.
pub fn load_source(content_found: bool, document: Option<SerdeMap>) -> (source: LoadSource)
    ensures
        !content_found ==> source is Missing,
        content_found && document is None ==> source is Corrupt,
        content_found ==> (document matches Some(doc) ==> source == LoadSource::Document(doc)),
{
    if !content_found {
        LoadSource::Missing
    } else {
        match document {
            Some(doc) => LoadSource::Document(doc),
            None => LoadSource::Corrupt,
        }
    }
}

/// The notice that the file of a map could not be read and that the map was
/// set aside under another name.
#[derive(Debug, PartialEq, Eq)]
pub struct LoadDiagnostic {
    pub map_name: String,
    pub renamed: String,
}

/// What a load gives: the map, the tile entities to bring up, the
/// coordinates of the tiles that were left out because their type is not
/// known, and a notice where the file could not be read.
#[derive(Debug, PartialEq, Eq)]
pub struct Loaded {
    pub map: GameMap,
    pub spawns: Vec<TileSpawn>,
    pub dropped: Vec<TileCoord>,
    pub diagnostic: Option<LoadDiagnostic>,
}

/// The name under which a map is set aside when its file cannot be read.
pub fn error_map_name(map_name: &str, tag: &str) -> (renamed: String)
    ensures
        renamed@ == error_name(map_name@, tag@),
{
    let mut renamed = String::from_str(map_name);
    renamed.append(ERROR_MARKER);
    renamed.append(tag);
    renamed
}

impl GameMap {
    /// The map named `map_name` that `document` stands for under the names
    /// of `interner`, with the tile entities to bring up for it.
    pub fn restore(interner: &Interner, map_name: String, document: &SerdeMap) -> (restored: (
        GameMap,
        Vec<TileSpawn>,
        Vec<TileCoord>,
    ))
        requires
            interner.wf(),
        ensures
            restored.0.wf(),
            restored.0@ == restored_map(map_name@, document@, interner@),
            spawn_views(restored.1@) == restored_tiles(document@, interner@),
            restored.2@ == dropped_tiles(document@, interner@),
            forall|i: int| 0 <= i < restored.1@.len() ==> (#[trigger] restored.1@[i]).data.wf(),
    {
        let ghost names = interner@;
        let ghost header = document.header@;
        let ghost saved = document@.tiles;
        let mut tiles = Tiles::new();
        let mut spawns: Vec<TileSpawn> = Vec::new();
        let mut dropped: Vec<TileCoord> = Vec::new();
        let mut i: usize = 0;
        assert(spawn_views(spawns@) =~= filter_map(saved.take(0), restored_tile(header, names)));
        assert(dropped@ =~= filter_map(saved.take(0), dropped_tile(header, names)));
        assert(placements(spawn_views(spawns@)) =~= Seq::<(TileCoord, Placement)>::empty());
        while i < document.serde_tiles.len()
            invariant
                interner.wf(),
                names == interner@,
                header == document.header@,
                saved == document@.tiles,
                i <= saved.len(),
                tiles.wf(),
                spawn_views(spawns@) == filter_map(
                    saved.take(i as int),
                    restored_tile(header, names),
                ),
                tiles@ == assoc(placements(spawn_views(spawns@))),
                dropped@ == filter_map(saved.take(i as int), dropped_tile(header, names)),
                forall|k: int| 0 <= k < spawns@.len() ==> (#[trigger] spawns@[k]).data.wf(),
            decreases saved.len() - i,
        {
            let ghost tile = saved[i as int];
            assert(tile == (document.serde_tiles@[i as int].0, document.serde_tiles@[i as int].1@));
            let coord = document.serde_tiles[i].0;
            let modifier = document.serde_tiles[i].1.1;
            let mut kept = false;
            if let Some(name) = document.header.name_of(document.serde_tiles[i].1.0) {
                if let Some(tile_type) = interner.get(name) {
                    kept = true;
                    let data = document.serde_tiles[i].1.2.to_data(interner);
                    let ghost before = spawns@;
                    let spawn = TileSpawn { coord, tile_type, modifier, data };
                    proof {
                        lemma_assoc_push(
                            placements(spawn_views(before)),
                            coord,
                            (tile_type, modifier),
                        );
                        assert(spawn_views(before.push(spawn)) =~= spawn_views(before).push(spawn@));
                        assert(placements(spawn_views(before).push(spawn@)) =~= placements(
                            spawn_views(before),
                        ).push((coord, (tile_type, modifier))));
                    }
                    tiles.insert(coord, tile_type, modifier);
                    spawns.push(spawn);
                }
            }
            if !kept {
                dropped.push(coord);
            }
            proof {
                lemma_filter_map_push(saved.take(i as int), tile, restored_tile(header, names));
                lemma_filter_map_push(saved.take(i as int), tile, dropped_tile(header, names));
                assert(saved.take(i + 1) =~= saved.take(i as int).push(tile));
            }
            i += 1;
        }
        assert(saved.take(saved.len() as int) =~= saved);
        let data = document.data.to_data(interner);
        (GameMap { map_name, tiles, data, save_time: document.save_time }, spawns, dropped)
    }

    /// What a load of the map named `map_name` gives from `source`, at the
    /// time `now` and with the time tag `tag`.
    ///
    /// A map without a file is a new, empty map. A file that cannot be read
    /// gives an empty map under a name that sets the file aside, and a notice.
    pub fn load_at(
        interner: &Interner,
        map_name: String,
        source: LoadSource,
        now: i64,
        tag: &str,
    ) -> (loaded: Loaded)
        requires
            interner.wf(),
        ensures
            loaded.map.wf(),
            forall|i: int| 0 <= i < loaded.spawns@.len() ==> (#[trigger] loaded.spawns@[i]).data.wf(),
            match source {
                LoadSource::Missing => {
                    &&& loaded.map@ == empty_map(map_name@, now)
                    &&& loaded.spawns@.len() == 0
                    &&& loaded.dropped@.len() == 0
                    &&& loaded.diagnostic is None
                },
                LoadSource::Corrupt => {
                    &&& loaded.map@ == empty_map(error_name(map_name@, tag@), now)
                    &&& loaded.spawns@.len() == 0
                    &&& loaded.dropped@.len() == 0
                    &&& loaded.diagnostic matches Some(notice)
                    &&& notice.map_name@ == map_name@
                    &&& notice.renamed@ == error_name(map_name@, tag@)
                },
                LoadSource::Document(document) => {
                    &&& loaded.map@ == restored_map(map_name@, document@, interner@)
                    &&& spawn_views(loaded.spawns@) == restored_tiles(document@, interner@)
                    &&& loaded.dropped@ == dropped_tiles(document@, interner@)
                    &&& loaded.diagnostic is None
                },
            },
    {
        match source {
            LoadSource::Missing => Loaded {
                map: GameMap::new_empty_at(map_name, now),
                spawns: Vec::new(),
                dropped: Vec::new(),
                diagnostic: None,
            },
            LoadSource::Corrupt => {
                let renamed = error_map_name(map_name.as_str(), tag);
                let notice = LoadDiagnostic { map_name, renamed: renamed.clone() };
                Loaded {
                    map: GameMap::new_empty_at(renamed, now),
                    spawns: Vec::new(),
                    dropped: Vec::new(),
                    diagnostic: Some(notice),
                }
            },
            LoadSource::Document(document) => {
                let (map, spawns, dropped) = GameMap::restore(interner, map_name, &document);
                Loaded { map, spawns, dropped, diagnostic: None }
            },
        }
    }

    /// What a load of the map named `map_name` gives from `source`:
    /// [`GameMap::load_at`] at the time and with the time tag that the local
    /// clock shows.
    pub fn load(interner: &Interner, map_name: String, source: LoadSource) -> (loaded: Loaded)
        requires
            interner.wf(),
        ensures
            loaded.map.wf(),
            forall|i: int| 0 <= i < loaded.spawns@.len() ==> (#[trigger] loaded.spawns@[i]).data.wf(),
            match source {
                LoadSource::Missing => {
                    &&& loaded.map@ == empty_map(map_name@, loaded.map.save_time)
                    &&& loaded.spawns@.len() == 0
                    &&& loaded.dropped@.len() == 0
                    &&& loaded.diagnostic is None
                },
                LoadSource::Corrupt => {
                    &&& loaded.map@ == empty_map(loaded.map@.map_name, loaded.map.save_time)
                    &&& is_error_name(map_name@, loaded.map@.map_name)
                    &&& loaded.spawns@.len() == 0
                    &&& loaded.dropped@.len() == 0
                    &&& loaded.diagnostic matches Some(notice)
                    &&& notice.map_name@ == map_name@
                    &&& notice.renamed@ == loaded.map@.map_name
                },
                LoadSource::Document(document) => {
                    &&& loaded.map@ == restored_map(map_name@, document@, interner@)
                    &&& spawn_views(loaded.spawns@) == restored_tiles(document@, interner@)
                    &&& loaded.dropped@ == dropped_tiles(document@, interner@)
                    &&& loaded.diagnostic is None
                },
            },
    {
        match source {
            LoadSource::Missing => GameMap::load_at(
                interner,
                map_name,
                LoadSource::Missing,
                local_timestamp(),
                "",
            ),
            LoadSource::Corrupt => {
                let tag = local_time_tag();
                GameMap::load_at(
                    interner,
                    map_name,
                    LoadSource::Corrupt,
                    local_timestamp(),
                    tag.as_str(),
                )
            },
            LoadSource::Document(document) => {
                let (map, spawns, dropped) = GameMap::restore(interner, map_name, &document);
                Loaded { map, spawns, dropped, diagnostic: None }
            },
        }
    }
}

/// What to do after the entity of one spawn was brought up, or was not.
#[derive(Debug, Clone, Copy, PartialEq, Eq, Structural)]
pub enum LoadStep {
    /// Go on with the next spawn.
    Continue,
    /// Give the load up: end the entities brought up so far.
    Abort,
}

/// The end of a load: the map, and whether the entities that were brought
/// up belong to it.
#[derive(Debug)]
pub struct Settled {
    pub map: GameMap,
    pub entities_kept: bool,
    pub dropped: Vec<TileCoord>,
    pub diagnostic: Option<LoadDiagnostic>,
}

/// The course of a load after its snapshot was read: the entities of the
/// spawns are brought up in order. A world with a tile whose entity could
/// not be brought up counts as broken, and an empty map stands in for it.
#[derive(Debug)]
pub struct LoadSession {
    loaded: Loaded,
    position: usize,
    failed: bool,
}

impl LoadSession {
    /// What the load read.
    pub closed spec fn loaded(&self) -> Loaded {
        self.loaded
    }

    /// How many spawns are dealt with.
    pub closed spec fn position(&self) -> nat {
        self.position as nat
    }

    /// Whether an entity could not be brought up.
    pub closed spec fn failed(&self) -> bool {
        self.failed
    }

    /// No more spawns are dealt with than there are.
    pub open spec fn wf(&self) -> bool {
        &&& self.loaded().map.wf()
        &&& self.position() <= self.loaded().spawns@.len()
    }

    /// The course of a load that has not brought up any entity yet.
    pub fn begin(loaded: Loaded) -> (session: LoadSession)
        requires
            loaded.map.wf(),
        ensures
            session.wf(),
            session.loaded() == loaded,
            session.position() == 0,
            !session.failed(),
    {
        LoadSession { loaded, position: 0, failed: false }
    }

    /// The spawn whose entity is to be brought up next; nothing once all are
    /// dealt with or the load is given up.
    pub fn next_spawn(&self) -> (spawn: Option<&TileSpawn>)
        requires
            self.wf(),
        ensures
            match spawn {
                Some(spawn) => !self.failed() && self.position() < self.loaded().spawns@.len()
                    && *spawn == self.loaded().spawns@[self.position() as int],
                None => self.failed() || self.position() == self.loaded().spawns@.len(),
            },
    {
        if !self.failed && self.position < self.loaded.spawns.len() {
            Some(&self.loaded.spawns[self.position])
        } else {
            None
        }
    }

    /// Takes in whether the entity of the next spawn was brought up and took
    /// its data.
    pub fn record(&mut self, ready: bool) -> (step: LoadStep)
        requires
            old(self).wf(),
            !old(self).failed(),
            old(self).position() < old(self).loaded().spawns@.len(),
        ensures
            final(self).wf(),
            final(self).loaded() == old(self).loaded(),
            ready ==> step == LoadStep::Continue && !final(self).failed() && final(self).position()
                == old(self).position() + 1,
            !ready ==> step == LoadStep::Abort && final(self).failed() && final(self).position()
                == old(self).position(),
    {
        let _spawns = self.loaded.spawns.len();
        if ready {
            self.position = self.position + 1;
            LoadStep::Continue
        } else {
            self.failed = true;
            LoadStep::Abort
        }
    }

    /// The end of the load at the time `now`: the map that was read with its
    /// entities, or, where an entity could not be brought up, an empty map
    /// of the same name without entities.
    pub fn finish_at(self, now: i64) -> (settled: Settled)
        requires
            self.wf(),
            self.failed() || self.position() == self.loaded().spawns@.len(),
        ensures
            settled.map.wf(),
            settled.diagnostic == self.loaded().diagnostic,
            settled.dropped == self.loaded().dropped,
            settled.entities_kept == !self.failed(),
            !self.failed() ==> settled.map == self.loaded().map,
            self.failed() ==> settled.map@ == empty_map(self.loaded().map@.map_name, now),
    {
        if self.failed {
            Settled {
                map: GameMap::new_empty_at(self.loaded.map.map_name, now),
                entities_kept: false,
                dropped: self.loaded.dropped,
                diagnostic: self.loaded.diagnostic,
            }
        } else {
            Settled {
                map: self.loaded.map,
                entities_kept: true,
                dropped: self.loaded.dropped,
                diagnostic: self.loaded.diagnostic,
            }
        }
    }

    /// The end of the load: [`LoadSession::finish_at`] at the time that the
    /// local clock shows.
    pub fn finish(self) -> (settled: Settled)
        requires
            self.wf(),
            self.failed() || self.position() == self.loaded().spawns@.len(),
        ensures
            settled.map.wf(),
            settled.diagnostic == self.loaded().diagnostic,
            settled.dropped == self.loaded().dropped,
            settled.entities_kept == !self.failed(),
            !self.failed() ==> settled.map == self.loaded().map,
            self.failed() ==> settled.map@ == empty_map(
                self.loaded().map@.map_name,
                settled.map.save_time,
            ),
    {
        let now = if self.failed {
            local_timestamp()
        } else {
            self.loaded.map.save_time
        };
        self.finish_at(now)
    }
}

} // verus!
