//! The tile entity: the state that one occupied coordinate owns, and how it
//! answers the messages that are sent to it.

use crate::data::{Data, DataView, TileCoord};
use crate::data_map::DataMap;
use crate::id::Id;
use crate::seqs::assoc;
use crate::tiles::TileModifier;
use vstd::prelude::*;

verus! {

/// A message to a tile entity.
#[derive(Debug, PartialEq, Eq)]
pub enum TileEntityMsg {
    /// Asks for all the data of the tile.
    GetData,
    /// Asks for the value under one key.
    GetDataValue(Id),
    /// Gives a key a value.
    SetData(Id, Data),
    /// Takes a key and its value away.
    RemoveData(Id),
    /// Ends the entity.
    Stop,
}

/// What a [`TileEntityMsg`] holds.
pub enum TileEntityMsgView {
    GetData,
    GetDataValue(Id),
    SetData(Id, DataView),
    RemoveData(Id),
    Stop,
}

impl View for TileEntityMsg {
    type V = TileEntityMsgView;

    open spec fn view(&self) -> TileEntityMsgView {
        match self {
            TileEntityMsg::GetData => TileEntityMsgView::GetData,
            TileEntityMsg::GetDataValue(key) => TileEntityMsgView::GetDataValue(*key),
            TileEntityMsg::SetData(key, value) => TileEntityMsgView::SetData(*key, value@),
            TileEntityMsg::RemoveData(key) => TileEntityMsgView::RemoveData(*key),
            TileEntityMsg::Stop => TileEntityMsgView::Stop,
        }
    }
}

/// The answer of a tile entity to a message.
#[derive(Debug, PartialEq, Eq)]
pub enum TileEntityReply {
    /// All the data of the tile.
    Data(DataMap),
    /// The value under the key that was asked for.
    DataValue(Option<Data>),
    /// The message was carried out; it asks for no answer.
    Done,
    /// The entity has ended on this message.
    Stopped,
    /// The entity had ended before: the message was not processed.
    Unavailable,
}

/// What a [`TileEntityReply`] holds.
pub enum TileEntityReplyView {
    Data(Map<Id, DataView>),
    DataValue(Option<DataView>),
    Done,
    Stopped,
    Unavailable,
}

impl View for TileEntityReply {
    type V = TileEntityReplyView;

    open spec fn view(&self) -> TileEntityReplyView {
        match self {
            TileEntityReply::Data(data) => TileEntityReplyView::Data(data@),
            TileEntityReply::DataValue(value) => TileEntityReplyView::DataValue(
                match value {
                    Some(data) => Some(data@),
                    None => None,
                },
            ),
            TileEntityReply::Done => TileEntityReplyView::Done,
            TileEntityReply::Stopped => TileEntityReplyView::Stopped,
            TileEntityReply::Unavailable => TileEntityReplyView::Unavailable,
        }
    }
}

/// The state of one tile.
#[derive(Debug, PartialEq, Eq)]
pub struct TileEntity {
    coord: TileCoord,
    tile_type: Id,
    modifier: TileModifier,
    data: DataMap,
    stopped: bool,
}

/// What a [`TileEntity`] holds.
pub struct TileEntityView {
    pub coord: TileCoord,
    pub tile_type: Id,
    pub modifier: TileModifier,
    pub data: Map<Id, DataView>,
    pub stopped: bool,
}

impl View for TileEntity {
    type V = TileEntityView;

    closed spec fn view(&self) -> TileEntityView {
        TileEntityView {
            coord: self.coord,
            tile_type: self.tile_type,
            modifier: self.modifier,
            data: self.data@,
            stopped: self.stopped,
        }
    }
}

/// The state of a tile entity as it is brought up: running, without data.
pub open spec fn fresh(coord: TileCoord, tile_type: Id, modifier: TileModifier) -> TileEntityView {
    TileEntityView { coord, tile_type, modifier, data: Map::empty(), stopped: false }
}

/// The state of an entity after a message, and its answer.
///
/// An entity that has ended processes nothing: its state stays as it is.
pub open spec fn step(state: TileEntityView, msg: TileEntityMsgView) -> (
    TileEntityView,
    TileEntityReplyView,
) {
    if state.stopped {
        (state, TileEntityReplyView::Unavailable)
    } else {
        match msg {
            TileEntityMsgView::GetData => (state, TileEntityReplyView::Data(state.data)),
            TileEntityMsgView::GetDataValue(key) => (
                state,
                TileEntityReplyView::DataValue(
                    if state.data.contains_key(key) {
                        Some(state.data[key])
                    } else {
                        None
                    },
                ),
            ),
            TileEntityMsgView::SetData(key, value) => (
                TileEntityView { data: state.data.insert(key, value), ..state },
                TileEntityReplyView::Done,
            ),
            TileEntityMsgView::RemoveData(key) => (
                TileEntityView { data: state.data.remove(key), ..state },
                TileEntityReplyView::Done,
            ),
            TileEntityMsgView::Stop => (
                TileEntityView { stopped: true, ..state },
                TileEntityReplyView::Stopped,
            ),
        }
    }
}

/// The state of an entity after a run of messages, processed in the order
/// in which they were sent.
pub open spec fn run(state: TileEntityView, msgs: Seq<TileEntityMsgView>) -> TileEntityView
    decreases msgs.len(),
{
    if msgs.len() == 0 {
        state
    } else {
        step(run(state, msgs.drop_last()), msgs.last()).0
    }
}

/// The messages that set each entry of a table, in the order of the table.
pub open spec fn set_messages(entries: Seq<(Id, DataView)>) -> Seq<TileEntityMsgView> {
    entries.map_values(|entry: (Id, DataView)| TileEntityMsgView::SetData(entry.0, entry.1))
}

/// What a list of messages holds.
pub open spec fn msg_views(msgs: Seq<TileEntityMsg>) -> Seq<TileEntityMsgView> {
    msgs.map_values(|msg: TileEntityMsg| msg@)
}

impl TileEntity {
    /// The table of the entity is well formed.
    pub closed spec fn wf(&self) -> bool {
        self.data.wf()
    }

    /// A running entity without data.
    pub fn new(coord: TileCoord, tile_type: Id, modifier: TileModifier) -> (entity: TileEntity)
        ensures
            entity.wf(),
            entity@ == fresh(coord, tile_type, modifier),
    {
        TileEntity { coord, tile_type, modifier, data: DataMap::new(), stopped: false }
    }

    /// The coordinate of the tile.
    pub fn coord(&self) -> (coord: TileCoord)
        ensures
            coord == self@.coord,
    {
        self.coord
    }

    /// The type of the tile.
    pub fn tile_type(&self) -> (tile_type: Id)
        ensures
            tile_type == self@.tile_type,
    {
        self.tile_type
    }

    /// The modifier of the tile.
    pub fn modifier(&self) -> (modifier: TileModifier)
        ensures
            modifier == self@.modifier,
    {
        self.modifier
    }

    /// Whether the entity has ended.
    pub fn is_stopped(&self) -> (stopped: bool)
        ensures
            stopped == self@.stopped,
    {
        self.stopped
    }

    /// Processes one message and gives the answer to it.
    pub fn handle(&mut self, msg: TileEntityMsg) -> (reply: TileEntityReply)
        requires
            old(self).wf(),
        ensures
            final(self).wf(),
            (final(self)@, reply@) == step(old(self)@, msg@),
            reply matches TileEntityReply::Data(data) ==> data.wf(),
    {
        if self.stopped {
            return TileEntityReply::Unavailable;
        }
        match msg {
            TileEntityMsg::GetData => TileEntityReply::Data(self.data.clone()),
            TileEntityMsg::GetDataValue(key) => match self.data.get(key) {
                Some(value) => TileEntityReply::DataValue(Some(value.clone())),
                None => TileEntityReply::DataValue(None),
            },
            TileEntityMsg::SetData(key, value) => {
                self.data.insert(key, value);
                TileEntityReply::Done
            },
            TileEntityMsg::RemoveData(key) => {
                let _ = self.data.remove(key);
                TileEntityReply::Done
            },
            TileEntityMsg::Stop => {
                self.stopped = true;
                TileEntityReply::Stopped
            },
        }
    }
}

/// The messages that replay `data` into an entity: one `SetData` for each
/// key, in the order of the table.
pub fn replay_messages(data: &DataMap) -> (msgs: Vec<TileEntityMsg>)
    ensures
        msg_views(msgs@) == set_messages(data.entries()),
{
    let mut msgs: Vec<TileEntityMsg> = Vec::new();
    let mut i: usize = 0;
    while i < data.len()
        invariant
            i <= data.entries().len(),
            msg_views(msgs@) == set_messages(data.entries().take(i as int)),
        decreases data.entries().len() - i,
    {
        let ghost before = msgs@;
        let msg = TileEntityMsg::SetData(data.key_at(i), data.value_at(i).clone());
        proof {
            let entry = data.entries()[i as int];
            assert(msg_views(before.push(msg)) =~= msg_views(before).push(msg@));
            assert(data.entries().take(i + 1) =~= data.entries().take(i as int).push(entry));
            assert(set_messages(data.entries().take(i as int).push(entry)) =~= set_messages(
                data.entries().take(i as int),
            ).push(TileEntityMsgView::SetData(entry.0, entry.1)));
        }
        msgs.push(msg);
        i += 1;
    }
    assert(data.entries().take(data.entries().len() as int) =~= data.entries());
    msgs
}

/// A value that was set is what the entity then gives for its key, alone
/// and within all its data.
pub proof fn lemma_set_then_get(state: TileEntityView, key: Id, value: DataView)
    requires
        !state.stopped,
    ensures
        ({
            let after = step(state, TileEntityMsgView::SetData(key, value)).0;
            &&& step(after, TileEntityMsgView::GetData).1 matches TileEntityReplyView::Data(data)
            &&& data.contains_key(key)
            &&& data[key] == value
            &&& step(after, TileEntityMsgView::GetDataValue(key)).1
                == TileEntityReplyView::DataValue(Some(value))
        }),
{
}

/// Of two values set under one key, the entity keeps the one set last.
pub proof fn lemma_last_write_wins(state: TileEntityView, key: Id, first: DataView, last: DataView)
    requires
        !state.stopped,
    ensures
        ({
            let after = run(
                state,
                seq![
                    TileEntityMsgView::SetData(key, first),
                    TileEntityMsgView::SetData(key, last),
                ],
            );
            &&& step(after, TileEntityMsgView::GetData).1 matches TileEntityReplyView::Data(data)
            &&& data.contains_key(key)
            &&& data[key] == last
        }),
{
    let msgs = seq![
        TileEntityMsgView::SetData(key, first),
        TileEntityMsgView::SetData(key, last),
    ];
    let one = seq![TileEntityMsgView::SetData(key, first)];
    assert(msgs.drop_last() =~= one);
    assert(one.drop_last() =~= Seq::<TileEntityMsgView>::empty());
    assert(run(state, one.drop_last()) == state);
    assert(run(state, one) == step(state, TileEntityMsgView::SetData(key, first)).0);
}

/// An entity that has ended answers nothing and keeps its state.
pub proof fn lemma_stopped_is_final(state: TileEntityView, msg: TileEntityMsgView)
    requires
        state.stopped,
    ensures
        step(state, msg) == (state, TileEntityReplyView::Unavailable),
{
}

/// Replaying a table into a running entity without data gives the entity
/// the data of the table.
pub proof fn lemma_replay(state: TileEntityView, entries: Seq<(Id, DataView)>)
    requires
        !state.stopped,
        state.data == Map::<Id, DataView>::empty(),
    ensures
        run(state, set_messages(entries)) == (TileEntityView { data: assoc(entries), ..state }),
    decreases entries.len(),
{
    if entries.len() > 0 {
        let front = entries.drop_last();
        lemma_replay(state, front);
        assert(set_messages(entries).drop_last() =~= set_messages(front));
        assert(set_messages(entries).last() == TileEntityMsgView::SetData(
            entries.last().0,
            entries.last().1,
        ));
    } else {
        assert(state.data =~= assoc(entries));
    }
}

} // verus!
