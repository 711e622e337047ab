//! A map: its name, its tiles, its own data and the time it was last saved.

use crate::clock::local_timestamp;
use crate::data_map::DataMap;
use crate::data::DataView;
use crate::id::Id;
use crate::data::TileCoord;
use crate::tiles::{Placement, Tiles};
use vstd::prelude::*;
use vstd::string::StringExecFns;

verus! {

/// The directory that holds the map files.
pub const MAP_PATH: &'static str = "map";

/// The world of one session.
#[derive(Debug, PartialEq, Eq)]
pub struct GameMap {
    pub map_name: String,
    pub tiles: Tiles,
    pub data: DataMap,
    pub save_time: i64,
}

/// What a [`GameMap`] holds.
pub struct GameMapView {
    pub map_name: Seq<char>,
    pub tiles: Map<TileCoord, Placement>,
    pub data: Map<Id, DataView>,
    pub save_time: i64,
}

impl View for GameMap {
    type V = GameMapView;

    open spec fn view(&self) -> GameMapView {
        GameMapView {
            map_name: self.map_name@,
            tiles: self.tiles@,
            data: self.data@,
            save_time: self.save_time,
        }
    }
}

impl Clone for GameMap {
    fn clone(&self) -> (copy: Self)
        ensures
            copy@ == self@,
            copy.tiles.cells() == self.tiles.cells(),
            copy.data.entries() == self.data.entries(),
            self.wf() ==> copy.wf(),
    {
        GameMap {
            map_name: self.map_name.clone(),
            tiles: self.tiles.clone(),
            data: self.data.clone(),
            save_time: self.save_time,
        }
    }
}

/// A summary of a map, for display.
#[derive(Debug, PartialEq, Eq)]
pub struct MapInfo {
    pub map_name: String,
    pub tiles: usize,
    pub data: usize,
    pub save_time: i64,
}

impl Clone for MapInfo {
    fn clone(&self) -> (copy: Self)
        ensures
            copy == *self,
    {
        MapInfo {
            map_name: self.map_name.clone(),
            tiles: self.tiles,
            data: self.data,
            save_time: self.save_time,
        }
    }
}

/// The map without tiles and without data that is named `map_name` and was
/// saved at `save_time`.
pub open spec fn empty_map(map_name: Seq<char>, save_time: i64) -> GameMapView {
    GameMapView { map_name, tiles: Map::empty(), data: Map::empty(), save_time }
}

/// The path of the file of the map named `map_name`.
pub open spec fn map_path(map_name: Seq<char>) -> Seq<char> {
    MAP_PATH@ + "/"@ + map_name + ".bin"@
}

impl GameMap {
    /// Both tables of the map are well formed.
    pub open spec fn wf(&self) -> bool {
        &&& self.tiles.wf()
        &&& self.data.wf()
    }

    /// An empty map with the given name and save time.
    pub fn new_empty_at(map_name: String, save_time: i64) -> (map: GameMap)
        ensures
            map.wf(),
            map@ == empty_map(map_name@, save_time),
            map.tiles.cells().len() == 0,
            map.data.entries().len() == 0,
    {
        GameMap { map_name, tiles: Tiles::new(), data: DataMap::new(), save_time }
    }

    /// An empty map with the given name, marked as saved now.
    pub fn new_empty(map_name: String) -> (map: GameMap)
        ensures
            map.wf(),
            map@ == empty_map(map_name@, map.save_time),
            map.tiles.cells().len() == 0,
            map.data.entries().len() == 0,
    {
        GameMap::new_empty_at(map_name, local_timestamp())
    }

    /// The path of the file that holds the map named `map_name`.
    pub fn path(map_name: &str) -> (path: String)
        ensures
            path@ == map_path(map_name@),
    {
        let mut path = String::from_str(MAP_PATH);
        path.append("/");
        path.append(map_name);
        path.append(".bin");
        path
    }

    /// The summary of this map.
    pub fn info(&self) -> (info: MapInfo)
        requires
            self.wf(),
        ensures
            info.map_name@ == self.map_name@,
            info.tiles == self.tiles@.len(),
            info.data == self.data@.len(),
            info.save_time == self.save_time,
    {
        MapInfo {
            map_name: self.map_name.clone(),
            tiles: self.tiles.len(),
            data: self.data.len(),
            save_time: self.save_time,
        }
    }
}

} // verus!
