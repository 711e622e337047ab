//! The persistent world of a tile-based simulation.
//!
//! - [`id`]: runtime handles and the interner that issues them for names.
//! - [`data`], [`data_map`]: the typed values that tiles and maps hold, and
//!   their written form, in which every handle is spelled out as its name.
//! - [`tile_entity`]: the state of one tile and the messages it answers.
//! - [`tiles`], [`map`]: the placement table and the map around it.
//! - [`snapshot`], [`load`], [`codec`]: how a map is saved into a snapshot
//!   and read back from one, and how snapshot files are compressed.
//! - [`round_trip`]: what a snapshot is proved to keep of a map.
//! - [`item`], [`registry`], [`resource`], [`tag_cache`]: items, tags and the
//!   remembered lookup of the items that carry a tag.
//! - [`hints`], [`selection`]: what the key hints and the tile selection show.
//! - [`seqs`], [`text`], [`clock`]: sequences as models, strings, and time.

pub mod clock;
pub mod codec;
pub mod data;
pub mod data_map;
pub mod hints;
pub mod id;
pub mod item;
pub mod load;
pub mod map;
pub mod registry;
pub mod resource;
pub mod round_trip;
pub mod selection;
pub mod seqs;
pub mod snapshot;
pub mod tag_cache;
pub mod text;
pub mod tile_entity;
pub mod tiles;
