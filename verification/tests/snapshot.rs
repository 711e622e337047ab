use automancy::codec::{pack, packed, unpack, PackError};
use automancy::data::{Data, DataRaw, Inventory, ItemStack, TileCoord};
use automancy::data_map::{DataMap, DataMapRaw};
use automancy::id::{Id, IdRaw, Interner};
use automancy::load::{
    error_map_name, load_source, read_file, unpacked, FileContent, LoadDiagnostic, LoadSession,
    LoadSource, LoadStep, TileSpawn,
};
use automancy::map::{GameMap, MapInfo, MAP_PATH};
use automancy::snapshot::{
    MapHeader, QueryOutcome, SaveError, SaveSession, SaveStep, SerdeMap, SerdeTile,
};
use automancy::tile_entity::{TileEntity, TileEntityMsg, TileEntityReply};
use automancy::tiles::Tiles;

fn coord(q: i32, r: i32) -> TileCoord {
    TileCoord { q, r }
}

struct World {
    interner: Interner,
    miner: Id,
    belt: Id,
    amount: Id,
    target: Id,
    map: GameMap,
    tile_data: Vec<(TileCoord, DataMap)>,
}

fn world() -> World {
    let mut interner = Interner::new();
    let miner = interner.intern("automancy:miner");
    let belt = interner.intern("automancy:belt");
    let amount = interner.intern("automancy:amount");
    let target = interner.intern("automancy:target");
    let mut map = GameMap::new_empty_at("world".to_string(), 10);
    map.tiles.insert(coord(0, 0), miner, 0);
    map.tiles.insert(coord(1, 0), belt, 2);
    map.tiles.insert(coord(2, -1), miner, 5);
    map.data.insert(amount, Data::Amount(99));
    let mut first = DataMap::new();
    first.insert(amount, Data::Amount(4));
    first.insert(target, Data::Coord(coord(1, 0)));
    let mut second = DataMap::new();
    second.insert(
        target,
        Data::Inventory(Inventory { stacks: vec![ItemStack { id: belt, amount: 3 }] }),
    );
    let tile_data =
        vec![(coord(1, 0), second), (coord(0, 0), first), (coord(2, -1), DataMap::new())];
    World { interner, miner, belt, amount, target, map, tile_data }
}

#[test]
fn path_is_under_the_map_directory() {
    assert_eq!(MAP_PATH, "map");
    assert_eq!(GameMap::path("world"), "map/world.bin".to_string());
    assert_eq!(GameMap::path(""), "map/.bin".to_string());
}

#[test]
fn new_empty_map_holds_nothing() {
    let map = GameMap::new_empty_at("fresh".to_string(), 42);
    assert_eq!(map.map_name, "fresh");
    assert_eq!(map.tiles.len(), 0);
    assert_eq!(map.data.len(), 0);
    assert_eq!(map.save_time, 42);
    let now = GameMap::new_empty("fresh".to_string());
    assert_eq!(now.map_name, "fresh");
    assert_eq!(now.tiles, Tiles::new());
    assert_eq!(now.data, DataMap::new());
    assert!(now.save_time > 1_600_000_000);
}

#[test]
fn info_counts_tiles_and_data() {
    let world = world();
    let info = world.map.info();
    assert_eq!(
        info,
        MapInfo { map_name: "world".to_string(), tiles: 3, data: 1, save_time: 10 }
    );
    assert_eq!(info.clone(), info);
    assert_eq!(world.map.clone(), world.map);
}

#[test]
fn tiles_place_and_replace() {
    let world = world();
    let mut tiles = Tiles::new();
    assert_eq!(tiles.get(coord(0, 0)), None);
    tiles.insert(coord(0, 0), world.miner, 1);
    tiles.insert(coord(0, 1), world.belt, 2);
    tiles.insert(coord(0, 0), world.belt, 3);
    assert_eq!(tiles.len(), 2);
    assert_eq!(tiles.get(coord(0, 0)), Some((world.belt, 3)));
    assert_eq!(tiles.get(coord(0, 1)), Some((world.belt, 2)));
    assert_eq!(tiles.cell_at(0), (coord(0, 0), (world.belt, 3)));
    assert_eq!(tiles.cell_at(1), (coord(0, 1), (world.belt, 2)));
    assert_eq!(tiles.clone(), tiles);
}

#[test]
fn snapshot_writes_tiles_header_data_and_time() {
    let world = world();
    let document = world.map.snapshot(&world.interner, &world.tile_data, 1234).unwrap();
    assert_eq!(
        document.header,
        MapHeader(vec![
            (world.miner, "automancy:miner".to_string()),
            (world.belt, "automancy:belt".to_string()),
        ])
    );
    assert_eq!(document.serde_tiles.len(), 3);
    assert_eq!(
        document.serde_tiles[0],
        (
            coord(0, 0),
            SerdeTile(
                world.miner,
                0,
                DataMapRaw {
                    entries: vec![
                        ("automancy:amount".to_string(), DataRaw::Amount(4)),
                        ("automancy:target".to_string(), DataRaw::Coord(coord(1, 0))),
                    ]
                }
            )
        )
    );
    assert_eq!(document.serde_tiles[1].0, coord(1, 0));
    assert_eq!(document.serde_tiles[1].1 .0, world.belt);
    assert_eq!(document.serde_tiles[1].1 .1, 2);
    assert_eq!(document.serde_tiles[2], (coord(2, -1), SerdeTile(world.miner, 5, DataMapRaw::new())));
    assert_eq!(
        document.data,
        DataMapRaw { entries: vec![("automancy:amount".to_string(), DataRaw::Amount(99))] }
    );
    assert_eq!(document.save_time, 1234);
}

#[test]
fn snapshot_leaves_out_tiles_without_data() {
    let world = world();
    let only = vec![(coord(1, 0), DataMap::new())];
    let document = world.map.snapshot(&world.interner, &only, 1).unwrap();
    assert_eq!(document.serde_tiles, vec![(coord(1, 0), SerdeTile(world.belt, 2, DataMapRaw::new()))]);
    assert_eq!(document.header, MapHeader(vec![(world.belt, "automancy:belt".to_string())]));
    let none = world.map.snapshot(&world.interner, &vec![], 1).unwrap();
    assert_eq!(none.serde_tiles, vec![]);
    assert_eq!(none.header, MapHeader(vec![]));
}

#[test]
fn header_names_every_tile_type_of_the_snapshot() {
    let world = world();
    let document = world.map.snapshot(&world.interner, &world.tile_data, 0).unwrap();
    for (_, tile) in &document.serde_tiles {
        assert!(document.header.0.iter().any(|(id, _)| *id == tile.0));
        assert!(document.header.name_of(tile.0).is_some());
    }
}

#[test]
fn snapshot_fails_on_a_tile_type_without_a_name() {
    let mut world = world();
    let ghost = Id::from_raw(1000);
    world.map.tiles.insert(coord(9, 9), ghost, 0);
    assert_eq!(
        world.map.snapshot(&world.interner, &world.tile_data, 0).map(|d| d.save_time),
        Ok(0)
    );
    world.tile_data.push((coord(9, 9), DataMap::new()));
    assert_eq!(
        world.map.snapshot(&world.interner, &world.tile_data, 0),
        Err(SaveError::UnnamedTile { coord: coord(9, 9), tile_type: ghost })
    );
    assert_eq!(
        world.map.save(&world.interner, &world.tile_data),
        Err(SaveError::UnnamedTile { coord: coord(9, 9), tile_type: ghost })
    );
}

#[test]
fn save_stamps_the_current_time() {
    let world = world();
    let saved = world.map.save(&world.interner, &world.tile_data).unwrap();
    let at = world.map.snapshot(&world.interner, &world.tile_data, saved.save_time).unwrap();
    assert_eq!(saved, at);
    assert!(saved.save_time > 1_600_000_000);
}

#[test]
fn save_session_asks_each_tile_in_order() {
    let world = world();
    let mut session = SaveSession::begin(&world.map);
    assert_eq!(session.next_query(&world.map), Some(coord(0, 0)));
    let mut data = DataMap::new();
    data.insert(world.amount, Data::Amount(4));
    assert_eq!(
        session.record(&world.map, QueryOutcome::Data(data.clone())),
        SaveStep::StopEntity(coord(0, 0))
    );
    assert_eq!(session.next_query(&world.map), Some(coord(1, 0)));
    assert_eq!(session.record(&world.map, QueryOutcome::NoEntity), SaveStep::Skipped);
    assert_eq!(session.next_query(&world.map), Some(coord(2, -1)));
    assert_eq!(
        session.record(&world.map, QueryOutcome::Data(DataMap::new())),
        SaveStep::StopEntity(coord(2, -1))
    );
    assert_eq!(session.next_query(&world.map), None);
    let saved = session.finish(&world.map, &world.interner).unwrap();
    let expected = world
        .map
        .snapshot(
            &world.interner,
            &vec![(coord(0, 0), data), (coord(2, -1), DataMap::new())],
            saved.save_time,
        )
        .unwrap();
    assert_eq!(saved, expected);
    assert_eq!(saved.serde_tiles.len(), 2);
}

#[test]
fn save_session_aborts_on_an_unreachable_entity() {
    let world = world();
    let mut session = SaveSession::begin(&world.map);
    assert_eq!(
        session.record(&world.map, QueryOutcome::Unreachable),
        SaveStep::Abort(SaveError::TileUnavailable { coord: coord(0, 0) })
    );
    assert_eq!(session.next_query(&world.map), Some(coord(0, 0)));
}

#[test]
fn load_of_own_snapshot_gives_the_map_back() {
    let world = world();
    let document = world.map.snapshot(&world.interner, &world.tile_data, 777).unwrap();
    let (map, spawns, dropped) =
        GameMap::restore(&world.interner, "world".to_string(), &document);
    assert_eq!(dropped, vec![]);
    assert_eq!(map.map_name, "world");
    assert_eq!(map.save_time, 777);
    assert_eq!(map.data, world.map.data);
    assert_eq!(map.tiles, world.map.tiles);
    assert_eq!(spawns.len(), 3);
    assert_eq!(
        spawns[0],
        TileSpawn {
            coord: coord(0, 0),
            tile_type: world.miner,
            modifier: 0,
            data: world.tile_data[1].1.clone(),
        }
    );
    assert_eq!(
        spawns[1],
        TileSpawn {
            coord: coord(1, 0),
            tile_type: world.belt,
            modifier: 2,
            data: world.tile_data[0].1.clone(),
        }
    );
    assert_eq!(
        spawns[2],
        TileSpawn { coord: coord(2, -1), tile_type: world.miner, modifier: 5, data: DataMap::new() }
    );
}

#[test]
fn load_under_other_handles_follows_the_names() {
    let world = world();
    let document = world.map.snapshot(&world.interner, &world.tile_data, 5).unwrap();
    let mut later = Interner::new();
    let belt = later.intern("automancy:belt");
    let target = later.intern("automancy:target");
    let amount = later.intern("automancy:amount");
    assert_ne!(belt, world.belt);
    let (map, spawns, dropped) = GameMap::restore(&later, "world".to_string(), &document);
    assert_eq!(dropped, vec![coord(0, 0), coord(2, -1)]);
    assert_eq!(spawns.len(), 1);
    assert_eq!(spawns[0].coord, coord(1, 0));
    assert_eq!(spawns[0].tile_type, belt);
    assert_eq!(spawns[0].modifier, 2);
    assert_eq!(
        spawns[0].data.get(target),
        Some(&Data::Inventory(Inventory { stacks: vec![ItemStack { id: belt, amount: 3 }] }))
    );
    assert_eq!(map.tiles.len(), 1);
    assert_eq!(map.tiles.get(coord(1, 0)), Some((belt, 2)));
    assert_eq!(map.tiles.get(coord(0, 0)), None);
    assert_eq!(map.data.get(amount), Some(&Data::Amount(99)));
}

#[test]
fn restore_reads_the_header_and_drops_unknown_tiles() {
    let world = world();
    let document = SerdeMap {
        header: MapHeader(vec![
            (Id::from_raw(7), "automancy:gone".to_string()),
            (Id::from_raw(8), "automancy:miner".to_string()),
            (Id::from_raw(7), "automancy:belt".to_string()),
        ]),
        serde_tiles: vec![
            (coord(0, 0), SerdeTile(Id::from_raw(8), 1, DataMapRaw::new())),
            (coord(0, 1), SerdeTile(Id::from_raw(9), 2, DataMapRaw::new())),
            (
                coord(0, 2),
                SerdeTile(
                    Id::from_raw(7),
                    3,
                    DataMapRaw {
                        entries: vec![(
                            "automancy:target".to_string(),
                            DataRaw::Id(IdRaw::parse("automancy:miner")),
                        )],
                    },
                ),
            ),
            (coord(0, 0), SerdeTile(Id::from_raw(7), 4, DataMapRaw::new())),
        ],
        data: DataMapRaw::new(),
        save_time: -3,
    };
    assert_eq!(document.header.name_of(Id::from_raw(7)), Some("automancy:belt"));
    assert_eq!(document.header.name_of(Id::from_raw(9)), None);
    let (map, spawns, dropped) = GameMap::restore(&world.interner, "m".to_string(), &document);
    assert_eq!(dropped, vec![coord(0, 1)]);
    assert_eq!(map.save_time, -3);
    assert_eq!(map.data.len(), 0);
    assert_eq!(spawns.len(), 3);
    assert_eq!(spawns[0].tile_type, world.miner);
    assert_eq!(spawns[1].coord, coord(0, 2));
    assert_eq!(spawns[1].data.get(world.target), Some(&Data::Id(world.miner)));
    assert_eq!(spawns[2].modifier, 4);
    assert_eq!(map.tiles.len(), 2);
    assert_eq!(map.tiles.get(coord(0, 0)), Some((world.belt, 4)));
    assert_eq!(map.tiles.get(coord(0, 2)), Some((world.belt, 3)));
    assert_eq!(map.tiles.get(coord(0, 1)), None);
}

#[test]
fn load_without_a_file_gives_an_empty_map() {
    let world = world();
    let loaded = GameMap::load(&world.interner, "nonexistent".to_string(), LoadSource::Missing);
    assert_eq!(loaded.map.map_name, "nonexistent");
    assert_eq!(loaded.map.tiles.len(), 0);
    assert_eq!(loaded.map.data.len(), 0);
    assert_eq!(loaded.spawns.len(), 0);
    assert_eq!(loaded.diagnostic, None);
    let at = GameMap::load_at(&world.interner, "nonexistent".to_string(), LoadSource::Missing, 5, "tag");
    assert_eq!(at.map, GameMap::new_empty_at("nonexistent".to_string(), 5));
    assert_eq!(at.diagnostic, None);
}

#[test]
fn load_of_a_corrupt_file_sets_the_map_aside() {
    let world = world();
    assert_eq!(error_map_name("world", "240131120000"), "world-ERR-240131120000".to_string());
    let at = GameMap::load_at(
        &world.interner,
        "world".to_string(),
        LoadSource::Corrupt,
        8,
        "240131120000",
    );
    assert_eq!(at.map, GameMap::new_empty_at("world-ERR-240131120000".to_string(), 8));
    assert_eq!(at.spawns.len(), 0);
    assert_eq!(
        at.diagnostic,
        Some(LoadDiagnostic {
            map_name: "world".to_string(),
            renamed: "world-ERR-240131120000".to_string(),
        })
    );
    let loaded = GameMap::load(&world.interner, "world".to_string(), LoadSource::Corrupt);
    assert!(loaded.map.map_name.starts_with("world-ERR-"));
    assert_eq!(loaded.map.map_name.len(), "world-ERR-".len() + 12);
    assert_eq!(loaded.map.tiles.len(), 0);
    assert_eq!(loaded.map.data.len(), 0);
    assert_eq!(loaded.spawns.len(), 0);
    let notice = loaded.diagnostic.unwrap();
    assert_eq!(notice.map_name, "world");
    assert_eq!(notice.renamed, loaded.map.map_name);
}

#[test]
fn load_of_a_document_restores_it() {
    let world = world();
    let document = world.map.snapshot(&world.interner, &world.tile_data, 777).unwrap();
    let (map, spawns, dropped) =
        GameMap::restore(&world.interner, "world".to_string(), &document);
    let loaded = GameMap::load(&world.interner, "world".to_string(), LoadSource::Document(document));
    assert_eq!(loaded.map, map);
    assert_eq!(loaded.spawns, spawns);
    assert_eq!(loaded.dropped, dropped);
    assert_eq!(loaded.diagnostic, None);
}

#[test]
fn pack_and_unpack_are_inverse() {
    let text = b"[[],[],{},0] some text that repeats repeats repeats repeats repeats".to_vec();
    let file = pack(&text).unwrap();
    assert_ne!(file, text);
    assert_eq!(&file[..4], &[0x28, 0xb5, 0x2f, 0xfd]);
    assert_eq!(unpack(&file), Some(text));
    assert_eq!(unpack(&pack(&[]).unwrap()), Some(vec![]));
}

#[test]
fn unpack_refuses_what_is_no_snapshot_file() {
    assert_eq!(unpack(b"this is not compressed"), None);
    assert_eq!(packed(None), Err(PackError::Compressor));
    assert_eq!(packed(Some(vec![1, 2])), Ok(vec![1, 2]));
}

#[test]
fn file_content_tells_missing_corrupt_and_text_apart() {
    assert_eq!(read_file(None), FileContent::Missing);
    assert_eq!(read_file(Some(b"garbage")), FileContent::Corrupt);
    let file = pack(b"{}").unwrap();
    assert_eq!(read_file(Some(&file)), FileContent::Text(b"{}".to_vec()));
    assert_eq!(unpacked(false, Some(vec![1])), FileContent::Missing);
    assert_eq!(unpacked(true, None), FileContent::Corrupt);
    assert_eq!(unpacked(true, Some(vec![1])), FileContent::Text(vec![1]));
}

#[test]
fn load_source_follows_what_was_read() {
    let document =
        SerdeMap { header: MapHeader(vec![]), serde_tiles: vec![], data: DataMapRaw::new(), save_time: 1 };
    assert_eq!(load_source(false, None), LoadSource::Missing);
    assert_eq!(load_source(true, None), LoadSource::Corrupt);
    match load_source(true, Some(document)) {
        LoadSource::Document(doc) => assert_eq!(doc.save_time, 1),
        other => panic!("{:?}", other),
    }
}

#[test]
fn tiles_find_every_coordinate() {
    let world = world();
    let mut tiles = Tiles::new();
    let corners = [
        coord(i32::MIN, i32::MIN),
        coord(i32::MIN, i32::MAX),
        coord(i32::MAX, i32::MIN),
        coord(i32::MAX, i32::MAX),
        coord(0, -1),
        coord(-1, 0),
        coord(0, 0),
    ];
    for (n, corner) in corners.iter().enumerate() {
        tiles.insert(*corner, world.miner, n as i32);
    }
    for q in -20..20 {
        for r in -20..20 {
            if (q, r) != (0, -1) && (q, r) != (-1, 0) && (q, r) != (0, 0) {
                tiles.insert(coord(q, r), world.belt, q * 100 + r);
            }
        }
    }
    assert_eq!(tiles.len(), 4 + 40 * 40);
    for (n, corner) in corners.iter().enumerate() {
        assert_eq!(tiles.get(*corner), Some((world.miner, n as i32)));
    }
    assert_eq!(tiles.get(coord(7, -13)), Some((world.belt, 687)));
    assert_eq!(tiles.get(coord(-13, 7)), Some((world.belt, -1293)));
    assert_eq!(tiles.get(coord(20, 20)), None);
    assert_eq!(tiles.get(coord(i32::MAX, 0)), None);
    assert_eq!(tiles.cell_at(4), (coord(0, -1), (world.miner, 4)));
}

#[test]
fn snapshot_takes_the_first_data_given_for_a_coordinate() {
    let world = world();
    let mut first = DataMap::new();
    first.insert(world.amount, Data::Amount(1));
    let mut second = DataMap::new();
    second.insert(world.amount, Data::Amount(2));
    let tile_data = vec![(coord(1, 0), first), (coord(5, 5), DataMap::new()), (coord(1, 0), second)];
    let document = world.map.snapshot(&world.interner, &tile_data, 0).unwrap();
    assert_eq!(
        document.serde_tiles,
        vec![(
            coord(1, 0),
            SerdeTile(
                world.belt,
                2,
                DataMapRaw { entries: vec![("automancy:amount".to_string(), DataRaw::Amount(1))] }
            )
        )]
    );
}

#[test]
fn load_session_brings_up_every_spawn() {
    let world = world();
    let document = world.map.snapshot(&world.interner, &world.tile_data, 777).unwrap();
    let loaded = GameMap::load(&world.interner, "world".to_string(), LoadSource::Document(document));
    let expected = loaded.map.clone();
    let mut session = LoadSession::begin(loaded);
    let mut seen = Vec::new();
    while let Some(spawn) = session.next_spawn() {
        seen.push(spawn.coord);
        assert_eq!(session.record(true), LoadStep::Continue);
    }
    assert_eq!(seen, vec![coord(0, 0), coord(1, 0), coord(2, -1)]);
    let settled = session.finish_at(5);
    assert!(settled.entities_kept);
    assert_eq!(settled.map, expected);
    assert_eq!(settled.diagnostic, None);
}

#[test]
fn load_session_gives_an_empty_map_when_an_entity_fails() {
    let world = world();
    let document = world.map.snapshot(&world.interner, &world.tile_data, 777).unwrap();
    let loaded = GameMap::load(&world.interner, "world".to_string(), LoadSource::Document(document));
    let mut session = LoadSession::begin(loaded);
    assert_eq!(session.next_spawn().map(|spawn| spawn.coord), Some(coord(0, 0)));
    assert_eq!(session.record(true), LoadStep::Continue);
    assert_eq!(session.next_spawn().map(|spawn| spawn.coord), Some(coord(1, 0)));
    assert_eq!(session.record(false), LoadStep::Abort);
    assert_eq!(session.next_spawn(), None);
    let settled = session.finish_at(9);
    assert!(!settled.entities_kept);
    assert_eq!(settled.map, GameMap::new_empty_at("world".to_string(), 9));
    let again = LoadSession::begin(GameMap::load(
        &world.interner,
        "none".to_string(),
        LoadSource::Missing,
    ));
    assert_eq!(again.next_spawn(), None);
    let settled = again.finish();
    assert!(settled.entities_kept);
    assert_eq!(settled.map.map_name, "none");
}

#[test]
fn the_name_of_a_map_set_aside_ends_in_twelve_digits() {
    let world = world();
    let loaded = GameMap::load(&world.interner, "world".to_string(), LoadSource::Corrupt);
    let tag = loaded.map.map_name.strip_prefix("world-ERR-").unwrap();
    assert_eq!(tag.chars().count(), 12);
    assert!(tag.chars().all(|c| c.is_ascii_digit()));
    assert_eq!(loaded.map.map_name, error_map_name("world", tag));
}

fn by_name(raw: DataMapRaw) -> Vec<(String, DataRaw)> {
    let mut entries = raw.entries;
    entries.sort_by(|a, b| a.0.cmp(&b.0));
    entries
}

#[test]
fn a_load_under_other_handles_writes_the_same_data_back() {
    let world = world();
    let document = world.map.snapshot(&world.interner, &world.tile_data, 5).unwrap();
    let mut later = Interner::new();
    for name in ["automancy:belt", "automancy:target", "x", "automancy:amount", "automancy:miner"] {
        later.intern(name);
    }
    let (map, spawns, dropped) = GameMap::restore(&later, "world".to_string(), &document);
    assert_eq!(dropped, vec![]);
    assert_eq!(spawns.len(), document.serde_tiles.len());
    for (spawn, (coord, tile)) in spawns.iter().zip(document.serde_tiles.iter()) {
        assert_eq!(spawn.coord, *coord);
        assert_eq!(spawn.modifier, tile.1);
        assert_eq!(later.resolve(spawn.tile_type), world.interner.resolve(tile.0));
        assert_eq!(by_name(spawn.data.to_raw(&later)), by_name(tile.2.clone()));
    }
    assert_eq!(by_name(map.data.to_raw(&later)), by_name(document.data.clone()));
    let again = map
        .snapshot(
            &later,
            &spawns.iter().map(|spawn| (spawn.coord, spawn.data.clone())).collect(),
            5,
        )
        .unwrap();
    assert_eq!(again.serde_tiles.len(), document.serde_tiles.len());
    for (now, then) in again.serde_tiles.iter().zip(document.serde_tiles.iter()) {
        assert_eq!(now.0, then.0);
        assert_eq!(now.1 .1, then.1 .1);
        assert_eq!(by_name(now.1 .2.clone()), by_name(then.1 .2.clone()));
        assert_eq!(later.resolve(now.1 .0), world.interner.resolve(then.1 .0));
    }
    assert_eq!(by_name(again.data), by_name(document.data));
}

#[test]
fn a_value_set_in_an_entity_is_what_a_save_writes() {
    let world = world();
    let mut entity = TileEntity::new(coord(1, 0), world.belt, 2);
    entity.handle(TileEntityMsg::SetData(world.amount, Data::Amount(1)));
    entity.handle(TileEntityMsg::SetData(world.amount, Data::Amount(2)));
    let TileEntityReply::Data(data) = entity.handle(TileEntityMsg::GetData) else {
        panic!("no data");
    };
    let document = world.map.snapshot(&world.interner, &vec![(coord(1, 0), data)], 0).unwrap();
    assert_eq!(
        document.serde_tiles,
        vec![(
            coord(1, 0),
            SerdeTile(
                world.belt,
                2,
                DataMapRaw { entries: vec![("automancy:amount".to_string(), DataRaw::Amount(2))] }
            )
        )]
    );
}
