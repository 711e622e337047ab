//! The placement table of a map: which tile stands at which coordinate.

use crate::data::TileCoord;
use crate::id::Id;
use crate::seqs::{
    assoc, distinct_keys, has_key, lemma_assoc_insert_at, lemma_assoc_keys, lemma_assoc_len,
    lemma_assoc_update, lemma_assoc_value,
};
use std::collections::HashMap;
use vstd::prelude::*;
use vstd::std_specs::hash::*;

verus! {

/// Tells sub-variants of one tile type apart, such as its rotation.
pub type TileModifier = i32;

/// What stands at a coordinate: the tile's type and its modifier.
pub type Placement = (Id, TileModifier);

/// The number under which the index of a placement table files a
/// coordinate: no two coordinates share one.
pub open spec fn coord_key(coord: TileCoord) -> u64 {
    ((coord.q + 0x8000_0000) * 0x1_0000_0000 + (coord.r + 0x8000_0000)) as u64
}

/// The number under which an index files `coord`.
pub fn key_of(coord: TileCoord) -> (key: u64)
    ensures
        key == coord_key(coord),
{
    let q = (coord.q as i64 + 0x8000_0000) as u64;
    let r = (coord.r as i64 + 0x8000_0000) as u64;
    q * 0x1_0000_0000 + r
}

/// Coordinates filed under the same number are the same coordinate.
pub proof fn lemma_coord_key_injective(a: TileCoord, b: TileCoord)
    requires
        coord_key(a) == coord_key(b),
    ensures
        a == b,
{
}

/// The tiles of a map by coordinate, in the order in which they were placed.
///
/// An index from coordinates to positions finds a tile without going through
/// the table.
#[derive(Debug, PartialEq, Eq)]
pub struct Tiles {
    cells: Vec<(TileCoord, Placement)>,
    index: HashMap<u64, usize>,
}

impl View for Tiles {
    type V = Map<TileCoord, Placement>;

    /// What stands at each occupied coordinate.
    open spec fn view(&self) -> Map<TileCoord, Placement> {
        assoc(self.cells())
    }
}

impl Tiles {
    /// The occupied coordinates with what stands there, in order.
    pub closed spec fn cells(&self) -> Seq<(TileCoord, Placement)> {
        self.cells@
    }

    /// No coordinate is occupied twice, and the index files every cell, and
    /// nothing else, under the number of its coordinate.
    pub closed spec fn wf(&self) -> bool {
        &&& distinct_keys(self.cells@)
        &&& forall|i: int|
            0 <= i < self.cells@.len() ==> self.index@.contains_key(
                coord_key((#[trigger] self.cells@[i]).0),
            ) && self.index@[coord_key(self.cells@[i].0)] == i
        &&& forall|key: u64| #[trigger]
            self.index@.contains_key(key) ==> self.index@[key] < self.cells@.len() && coord_key(
                self.cells@[self.index@[key] as int].0,
            ) == key
    }

    /// In a well-formed table no coordinate is occupied twice.
    pub proof fn lemma_wf_distinct(&self)
        requires
            self.wf(),
        ensures
            distinct_keys(self.cells()),
    {
    }

    /// A table without tiles.
    pub fn new() -> (tiles: Tiles)
        ensures
            tiles.wf(),
            tiles.cells() == Seq::<(TileCoord, Placement)>::empty(),
            tiles@ == Map::<TileCoord, Placement>::empty(),
    {
        Tiles { cells: Vec::new(), index: HashMap::new() }
    }

    /// The number of occupied coordinates.
    pub fn len(&self) -> (n: usize)
        ensures
            n == self.cells().len(),
            self.wf() ==> n == self@.len(),
    {
        proof {
            if self.wf() {
                lemma_assoc_len(self.cells());
            }
        }
        self.cells.len()
    }

    /// The coordinate and tile at position `i` of the table.
    pub fn cell_at(&self, i: usize) -> (cell: (TileCoord, Placement))
        requires
            i < self.cells().len(),
        ensures
            cell == self.cells()[i as int],
    {
        self.cells[i]
    }

    /// The position of `coord` in the table, if it is occupied.
    fn position(&self, coord: TileCoord) -> (found: Option<usize>)
        requires
            self.wf(),
        ensures
            match found {
                Some(i) => i < self.cells().len() && self.cells()[i as int].0 == coord,
                None => !has_key(self.cells(), coord),
            },
    {
        broadcast use group_hash_axioms;

        let key = key_of(coord);
        match self.index.get(&key) {
            Some(at) => {
                proof {
                    lemma_coord_key_injective(self.cells@[*at as int].0, coord);
                }
                Some(*at)
            },
            None => {
                proof {
                    if has_key(self.cells(), coord) {
                        let i = choose|i: int|
                            0 <= i < self.cells().len() && (#[trigger] self.cells()[i]).0 == coord;
                        assert(self.index@.contains_key(coord_key(self.cells@[i].0)));
                    }
                }
                None
            },
        }
    }

    /// What stands at `coord`.
    pub fn get(&self, coord: TileCoord) -> (found: Option<Placement>)
        requires
            self.wf(),
        ensures
            match found {
                Some(placed) => self@.contains_key(coord) && self@[coord] == placed,
                None => !self@.contains_key(coord),
            },
    {
        proof {
            lemma_assoc_keys(self.cells());
        }
        match self.position(coord) {
            Some(i) => {
                proof {
                    lemma_assoc_value(self.cells(), i as int);
                }
                Some(self.cells[i].1)
            },
            None => None,
        }
    }

    /// Places a tile at `coord`, in place of any tile that stood there.
    pub fn insert(&mut self, coord: TileCoord, tile_type: Id, modifier: TileModifier)
        requires
            old(self).wf(),
        ensures
            final(self).wf(),
            final(self)@ == old(self)@.insert(coord, (tile_type, modifier)),
            has_key(old(self).cells(), coord) ==> final(self).cells().len() == old(
                self,
            ).cells().len(),
            !has_key(old(self).cells(), coord) ==> final(self).cells() == old(self).cells().push(
                (coord, (tile_type, modifier)),
            ),
    {
        broadcast use group_hash_axioms;

        let ghost before = self.cells();
        let ghost filed = self.index@;
        match self.position(coord) {
            Some(i) => {
                self.cells.set(i, (coord, (tile_type, modifier)));
                proof {
                    assert(self.cells() =~= before.update(i as int, (coord, (tile_type, modifier))));
                    lemma_assoc_update(before, i as int, (tile_type, modifier));
                    assert forall|k: int| 0 <= k < self.cells@.len() implies self.index@.contains_key(
                        coord_key((#[trigger] self.cells@[k]).0),
                    ) && self.index@[coord_key(self.cells@[k].0)] == k by {
                        assert(self.cells@[k].0 == before[k].0);
                    }
                    assert forall|key: u64| #[trigger]
                        self.index@.contains_key(key) implies self.index@[key] < self.cells@.len()
                        && coord_key(self.cells@[self.index@[key] as int].0) == key by {
                        assert(self.cells@[filed[key] as int].0 == before[filed[key] as int].0);
                    }
                }
            },
            None => {
                let at = self.cells.len();
                let key = key_of(coord);
                self.index.insert(key, at);
                self.cells.push((coord, (tile_type, modifier)));
                proof {
                    assert(self.cells() =~= before.insert(
                        before.len() as int,
                        (coord, (tile_type, modifier)),
                    ));
                    lemma_assoc_insert_at(
                        before,
                        before.len() as int,
                        coord,
                        (tile_type, modifier),
                    );
                    assert forall|k: int| 0 <= k < self.cells@.len() implies self.index@.contains_key(
                        coord_key((#[trigger] self.cells@[k]).0),
                    ) && self.index@[coord_key(self.cells@[k].0)] == k by {
                        if k < at {
                            assert(self.cells@[k] == before[k]);
                            if coord_key(before[k].0) == key {
                                lemma_coord_key_injective(before[k].0, coord);
                            }
                        }
                    }
                    assert forall|other: u64| #[trigger]
                        self.index@.contains_key(other) implies self.index@[other]
                        < self.cells@.len() && coord_key(self.cells@[self.index@[other] as int].0)
                        == other by {
                        if other != key {
                            assert(filed.contains_key(other));
                            assert(self.cells@[filed[other] as int] == before[filed[other] as int]);
                        }
                    }
                }
            },
        }
    }
}

impl Clone for Tiles {
    fn clone(&self) -> (copy: Self)
        ensures
            copy.cells() == self.cells(),
            copy@ == self@,
            self.wf() ==> copy.wf(),
    {
        let mut cells: Vec<(TileCoord, Placement)> = Vec::new();
        let mut i: usize = 0;
        while i < self.cells.len()
            invariant
                i <= self.cells@.len(),
                cells@ == self.cells@.take(i as int),
            decreases self.cells@.len() - i,
        {
            cells.push(self.cells[i]);
            assert(self.cells@.take(i + 1) =~= self.cells@.take(i as int).push(
                self.cells@[i as int],
            ));
            i += 1;
        }
        assert(self.cells@.take(self.cells@.len() as int) =~= self.cells@);
        Tiles { cells, index: self.index.clone() }
    }
}

} // verus!
