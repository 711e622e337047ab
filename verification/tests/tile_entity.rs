use automancy::data::{Data, TileCoord};
use automancy::data_map::DataMap;
use automancy::id::Interner;
use automancy::tile_entity::{replay_messages, TileEntity, TileEntityMsg, TileEntityReply};

#[test]
fn new_entity_is_running_and_empty() {
    let mut interner = Interner::new();
    let kind = interner.intern("miner");
    let mut entity = TileEntity::new(TileCoord { q: 1, r: 2 }, kind, 3);
    assert_eq!(entity.coord(), TileCoord { q: 1, r: 2 });
    assert_eq!(entity.tile_type(), kind);
    assert_eq!(entity.modifier(), 3);
    assert!(!entity.is_stopped());
    assert_eq!(entity.handle(TileEntityMsg::GetData), TileEntityReply::Data(DataMap::new()));
}

#[test]
fn set_then_get_returns_the_value() {
    let mut interner = Interner::new();
    let kind = interner.intern("miner");
    let key = interner.intern("amount");
    let mut entity = TileEntity::new(TileCoord { q: 0, r: 0 }, kind, 0);
    assert_eq!(entity.handle(TileEntityMsg::SetData(key, Data::Amount(5))), TileEntityReply::Done);
    let mut expected = DataMap::new();
    expected.insert(key, Data::Amount(5));
    assert_eq!(entity.handle(TileEntityMsg::GetData), TileEntityReply::Data(expected));
    assert_eq!(
        entity.handle(TileEntityMsg::GetDataValue(key)),
        TileEntityReply::DataValue(Some(Data::Amount(5)))
    );
}

#[test]
fn last_write_wins() {
    let mut interner = Interner::new();
    let kind = interner.intern("miner");
    let key = interner.intern("amount");
    let mut entity = TileEntity::new(TileCoord { q: 0, r: 0 }, kind, 0);
    entity.handle(TileEntityMsg::SetData(key, Data::Amount(1)));
    entity.handle(TileEntityMsg::SetData(key, Data::Amount(2)));
    let mut expected = DataMap::new();
    expected.insert(key, Data::Amount(2));
    assert_eq!(entity.handle(TileEntityMsg::GetData), TileEntityReply::Data(expected));
}

#[test]
fn remove_takes_the_key_away() {
    let mut interner = Interner::new();
    let kind = interner.intern("miner");
    let key = interner.intern("amount");
    let other = interner.intern("other");
    let mut entity = TileEntity::new(TileCoord { q: 0, r: 0 }, kind, 0);
    entity.handle(TileEntityMsg::SetData(key, Data::Bool(true)));
    assert_eq!(entity.handle(TileEntityMsg::RemoveData(other)), TileEntityReply::Done);
    assert_eq!(entity.handle(TileEntityMsg::RemoveData(key)), TileEntityReply::Done);
    assert_eq!(entity.handle(TileEntityMsg::GetDataValue(key)), TileEntityReply::DataValue(None));
    assert_eq!(entity.handle(TileEntityMsg::GetData), TileEntityReply::Data(DataMap::new()));
}

#[test]
fn a_stopped_entity_processes_nothing() {
    let mut interner = Interner::new();
    let kind = interner.intern("miner");
    let key = interner.intern("amount");
    let mut entity = TileEntity::new(TileCoord { q: 0, r: 0 }, kind, 0);
    entity.handle(TileEntityMsg::SetData(key, Data::Amount(1)));
    assert_eq!(entity.handle(TileEntityMsg::Stop), TileEntityReply::Stopped);
    assert!(entity.is_stopped());
    assert_eq!(entity.handle(TileEntityMsg::GetData), TileEntityReply::Unavailable);
    assert_eq!(
        entity.handle(TileEntityMsg::SetData(key, Data::Amount(2))),
        TileEntityReply::Unavailable
    );
    assert_eq!(entity.handle(TileEntityMsg::Stop), TileEntityReply::Unavailable);
}

#[test]
fn replay_sets_every_key_in_order() {
    let mut interner = Interner::new();
    let kind = interner.intern("miner");
    let first = interner.intern("first");
    let second = interner.intern("second");
    let mut data = DataMap::new();
    data.insert(second, Data::Bool(true));
    data.insert(first, Data::Amount(4));
    let msgs = replay_messages(&data);
    assert_eq!(
        msgs,
        vec![
            TileEntityMsg::SetData(first, Data::Amount(4)),
            TileEntityMsg::SetData(second, Data::Bool(true)),
        ]
    );
    let mut entity = TileEntity::new(TileCoord { q: 0, r: 0 }, kind, 0);
    for msg in msgs {
        entity.handle(msg);
    }
    assert_eq!(entity.handle(TileEntityMsg::GetData), TileEntityReply::Data(data));
}
