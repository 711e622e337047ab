use automancy::data::{Data, DataRaw, Inventory, ItemStack, ItemStackRaw, TileCoord};
use automancy::data_map::{DataMap, DataMapRaw};
use automancy::id::{Id, IdRaw, Interner};

fn names() -> (Interner, Id, Id, Id) {
    let mut interner = Interner::new();
    let a = interner.intern("a");
    let b = interner.intern("b");
    let c = interner.intern("c");
    (interner, a, b, c)
}

#[test]
fn inventory_gives_the_amount_of_the_first_stack() {
    let (_, a, b, c) = names();
    let inventory = Inventory {
        stacks: vec![
            ItemStack { id: a, amount: 3 },
            ItemStack { id: b, amount: 0 },
            ItemStack { id: a, amount: 9 },
        ],
    };
    assert_eq!(inventory.get(a), 3);
    assert_eq!(inventory.get(b), 0);
    assert_eq!(inventory.get(c), 0);
}

#[test]
fn plain_values_keep_their_content_in_written_form() {
    let (interner, _, _, _) = names();
    assert_eq!(Data::Bool(true).to_raw(&interner), Some(DataRaw::Bool(true)));
    assert_eq!(Data::Amount(-7).to_raw(&interner), Some(DataRaw::Amount(-7)));
    let coord = TileCoord { q: 2, r: -5 };
    assert_eq!(Data::Coord(coord).to_raw(&interner), Some(DataRaw::Coord(coord)));
    assert_eq!(
        Data::VecCoord(vec![coord, TileCoord { q: 0, r: 0 }]).to_raw(&interner),
        Some(DataRaw::VecCoord(vec![coord, TileCoord { q: 0, r: 0 }]))
    );
}

#[test]
fn a_handle_is_written_as_its_name() {
    let (interner, _, b, _) = names();
    assert_eq!(Data::Id(b).to_raw(&interner), Some(DataRaw::Id(IdRaw::parse("b"))));
    assert_eq!(Data::Id(Id::from_raw(17)).to_raw(&interner), None);
}

#[test]
fn lists_leave_out_handles_without_a_name() {
    let (interner, a, _, c) = names();
    let ids = Data::VecId(vec![c, Id::from_raw(40), a]);
    assert_eq!(
        ids.to_raw(&interner),
        Some(DataRaw::VecId(vec![IdRaw::parse("c"), IdRaw::parse("a")]))
    );
    let inventory = Data::Inventory(Inventory {
        stacks: vec![
            ItemStack { id: Id::from_raw(40), amount: 1 },
            ItemStack { id: a, amount: 12 },
        ],
    });
    assert_eq!(
        inventory.to_raw(&interner),
        Some(DataRaw::Inventory(vec![ItemStackRaw { id: IdRaw::parse("a"), amount: 12 }]))
    );
}

#[test]
fn written_values_are_read_by_name() {
    let (interner, a, b, _) = names();
    assert_eq!(DataRaw::Id(IdRaw::parse("b")).to_data(&interner), Some(Data::Id(b)));
    assert_eq!(DataRaw::Id(IdRaw::parse("zz")).to_data(&interner), None);
    assert_eq!(
        DataRaw::VecId(vec![IdRaw::parse("zz"), IdRaw::parse("a")]).to_data(&interner),
        Some(Data::VecId(vec![a]))
    );
    assert_eq!(
        DataRaw::Inventory(vec![
            ItemStackRaw { id: IdRaw::parse("b"), amount: 4 },
            ItemStackRaw { id: IdRaw::parse("zz"), amount: 5 },
        ])
        .to_data(&interner),
        Some(Data::Inventory(Inventory { stacks: vec![ItemStack { id: b, amount: 4 }] }))
    );
    assert_eq!(DataRaw::Amount(5).to_data(&interner), Some(Data::Amount(5)));
}

#[test]
fn value_round_trip() {
    let (interner, a, b, c) = names();
    let values = vec![
        Data::Bool(false),
        Data::Amount(i32::MAX),
        Data::Id(c),
        Data::VecId(vec![a, a, b]),
        Data::Coord(TileCoord { q: i32::MIN, r: i32::MAX }),
        Data::VecCoord(vec![]),
        Data::Inventory(Inventory { stacks: vec![ItemStack { id: b, amount: -1 }] }),
    ];
    for value in values {
        let raw = value.to_raw(&interner).unwrap();
        assert_eq!(raw.to_data(&interner), Some(value.clone()));
        assert_eq!(raw.clone(), raw);
    }
}

#[test]
fn data_map_keeps_keys_in_order() {
    let (_, a, b, c) = names();
    let mut map = DataMap::new();
    assert_eq!(map.len(), 0);
    map.insert(c, Data::Amount(3));
    map.insert(a, Data::Amount(1));
    map.insert(b, Data::Amount(2));
    assert_eq!(map.len(), 3);
    assert_eq!(map.key_at(0), a);
    assert_eq!(map.key_at(1), b);
    assert_eq!(map.key_at(2), c);
    assert_eq!(map.value_at(1), &Data::Amount(2));
}

#[test]
fn data_map_insert_replaces_and_remove_takes_out() {
    let (_, a, b, _) = names();
    let mut map = DataMap::new();
    map.insert(a, Data::Bool(true));
    map.insert(a, Data::Bool(false));
    assert_eq!(map.len(), 1);
    assert_eq!(map.get(a), Some(&Data::Bool(false)));
    assert_eq!(map.get(b), None);
    assert!(map.contains_key(a));
    assert!(!map.contains_key(b));
    assert_eq!(map.remove(b), None);
    assert_eq!(map.remove(a), Some(Data::Bool(false)));
    assert_eq!(map.len(), 0);
    assert_eq!(map.remove(a), None);
}

#[test]
fn data_map_clone_is_equal() {
    let (_, a, b, _) = names();
    let mut map = DataMap::new();
    map.insert(b, Data::VecId(vec![a]));
    map.insert(a, Data::Amount(1));
    assert_eq!(map.clone(), map);
}

#[test]
fn data_map_written_form_is_keyed_by_name() {
    let (interner, a, b, _) = names();
    let mut map = DataMap::new();
    map.insert(b, Data::Id(a));
    map.insert(a, Data::Amount(1));
    map.insert(Id::from_raw(9), Data::Amount(2));
    map.insert(Id::from_raw(3), Data::Id(Id::from_raw(9)));
    let raw = map.to_raw(&interner);
    assert_eq!(
        raw,
        DataMapRaw {
            entries: vec![
                ("a".to_string(), DataRaw::Amount(1)),
                ("b".to_string(), DataRaw::Id(IdRaw::parse("a"))),
            ]
        }
    );
}

#[test]
fn data_map_round_trip() {
    let (interner, a, b, c) = names();
    let mut map = DataMap::new();
    map.insert(c, Data::Inventory(Inventory { stacks: vec![ItemStack { id: a, amount: 2 }] }));
    map.insert(a, Data::Bool(true));
    map.insert(b, Data::VecCoord(vec![TileCoord { q: 1, r: 1 }]));
    assert_eq!(map.to_raw(&interner).to_data(&interner), map);
}

#[test]
fn written_table_reads_later_entries_over_earlier_ones() {
    let (interner, a, _, _) = names();
    let raw = DataMapRaw {
        entries: vec![
            ("a".to_string(), DataRaw::Amount(1)),
            ("unknown".to_string(), DataRaw::Amount(2)),
            ("a".to_string(), DataRaw::Amount(3)),
            ("b".to_string(), DataRaw::Id(IdRaw::parse("unknown"))),
        ],
    };
    let map = raw.to_data(&interner);
    assert_eq!(map.len(), 1);
    assert_eq!(map.get(a), Some(&Data::Amount(3)));
    assert_eq!(DataMapRaw::new().to_data(&interner), DataMap::new());
}

#[test]
fn stacks_at_reads_an_inventory() {
    let (_, a, b, _) = names();
    let mut map = DataMap::new();
    map.insert(a, Data::Inventory(Inventory { stacks: vec![ItemStack { id: b, amount: 5 }] }));
    map.insert(b, Data::Amount(1));
    assert_eq!(map.stacks_at(a), vec![ItemStack { id: b, amount: 5 }]);
    assert_eq!(map.stacks_at(b), vec![]);
    assert_eq!(map.stacks_at(Id::from_raw(77)), vec![]);
}

#[test]
fn data_map_finds_keys_among_many() {
    let mut map = DataMap::new();
    for n in (0..500u64).rev() {
        map.insert(Id::from_raw(n * 3), Data::Amount(n as i32));
    }
    for n in 0..500u64 {
        map.insert(Id::from_raw(n * 3), Data::Amount(-(n as i32)));
    }
    assert_eq!(map.len(), 500);
    for n in 0..500u64 {
        assert_eq!(map.key_at(n as usize), Id::from_raw(n * 3));
        assert_eq!(map.get(Id::from_raw(n * 3)), Some(&Data::Amount(-(n as i32))));
        assert_eq!(map.get(Id::from_raw(n * 3 + 1)), None);
    }
    assert_eq!(map.remove(Id::from_raw(3)), Some(Data::Amount(-1)));
    assert_eq!(map.len(), 499);
    assert_eq!(map.key_at(1), Id::from_raw(6));
}
