//! The observed state: what the server last reported.
//!
//! The engine reads a snapshot per decision and never keeps one. Streams,
//! clients and groups are listed in the order in which the snapshot was
//! walked; that order decides which of several fitting groups is taken.

use vstd::prelude::*;

verus! {

/// What a stream is doing.
#[derive(Clone, Copy, Debug, PartialEq, Eq)]
pub enum StreamStatus {
    Idle,
    Playing,
    Disabled,
    Unknown,
}

/// A stream that the server holds.
#[derive(Clone, Debug, PartialEq, Eq)]
pub struct LiveStream {
    pub key: String,
    pub status: StreamStatus,
}

/// A client that the server knows, with the name it is configured to show.
#[derive(Clone, Debug, PartialEq, Eq)]
pub struct LiveClient {
    pub id: String,
    pub configured_name: String,
}

/// A group as the server has it: its clients and the stream it is tuned to.
#[derive(Clone, Debug, PartialEq, Eq)]
pub struct LiveGroup {
    pub id: String,
    pub name: String,
    pub clients: Vec<String>,
    pub stream_id: String,
}

/// A point-in-time reading of the server.
#[derive(Clone, Debug, PartialEq, Eq)]
pub struct ObservedState {
    pub streams: Vec<LiveStream>,
    pub clients: Vec<LiveClient>,
    pub groups: Vec<LiveGroup>,
}

/// A stream as the specifications see it.
pub struct StreamModel {
    pub key: Seq<char>,
    pub status: StreamStatus,
}

/// A client as the specifications see it.
pub struct ClientModel {
    pub id: Seq<char>,
    pub configured_name: Seq<char>,
}

/// A live group as the specifications see it.
pub struct LiveGroupModel {
    pub id: Seq<char>,
    pub name: Seq<char>,
    pub clients: Seq<Seq<char>>,
    pub stream_id: Seq<char>,
}

/// A snapshot as the specifications see it: every list in its order.
pub struct StateModel {
    pub streams: Seq<StreamModel>,
    pub clients: Seq<ClientModel>,
    pub groups: Seq<LiveGroupModel>,
}

impl View for LiveStream {
    type V = StreamModel;

    open spec fn view(&self) -> StreamModel {
        StreamModel { key: self.key@, status: self.status }
    }
}

impl DeepView for LiveStream {
    type V = StreamModel;

    open spec fn deep_view(&self) -> StreamModel {
        self@
    }
}

impl View for LiveClient {
    type V = ClientModel;

    open spec fn view(&self) -> ClientModel {
        ClientModel { id: self.id@, configured_name: self.configured_name@ }
    }
}

impl DeepView for LiveClient {
    type V = ClientModel;

    open spec fn deep_view(&self) -> ClientModel {
        self@
    }
}

impl View for LiveGroup {
    type V = LiveGroupModel;

    open spec fn view(&self) -> LiveGroupModel {
        LiveGroupModel {
            id: self.id@,
            name: self.name@,
            clients: self.clients.deep_view(),
            stream_id: self.stream_id@,
        }
    }
}

impl DeepView for LiveGroup {
    type V = LiveGroupModel;

    open spec fn deep_view(&self) -> LiveGroupModel {
        self@
    }
}

impl View for ObservedState {
    type V = StateModel;

    open spec fn view(&self) -> StateModel {
        StateModel {
            streams: self.streams.deep_view(),
            clients: self.clients.deep_view(),
            groups: self.groups.deep_view(),
        }
    }
}

/// Whether some stream has the key `key`.
pub open spec fn has_stream(streams: Seq<StreamModel>, key: Seq<char>) -> bool {
    exists|i: int| 0 <= i < streams.len() && (#[trigger] streams[i]).key == key
}

/// The clients with the identifier `id`.
pub open spec fn client_is(id: Seq<char>) -> spec_fn(ClientModel) -> bool {
    |c: ClientModel| c.id == id
}

/// The groups with the identifier `id`.
pub open spec fn group_is(id: Seq<char>) -> spec_fn(LiveGroupModel) -> bool {
    |g: LiveGroupModel| g.id == id
}

/// No two live groups share an identifier.
pub open spec fn distinct_group_ids(groups: Seq<LiveGroupModel>) -> bool {
    forall|i: int, j: int|
        0 <= i < j < groups.len() ==> (#[trigger] groups[i]).id != (#[trigger] groups[j]).id
}

/// No two streams share a key.
pub open spec fn distinct_stream_keys(streams: Seq<StreamModel>) -> bool {
    forall|i: int, j: int|
        0 <= i < j < streams.len() ==> (#[trigger] streams[i]).key != (#[trigger] streams[j]).key
}

/// No two clients share an identifier.
pub open spec fn distinct_client_ids(clients: Seq<ClientModel>) -> bool {
    forall|i: int, j: int|
        0 <= i < j < clients.len() ==> (#[trigger] clients[i]).id != (#[trigger] clients[j]).id
}

impl StateModel {
    /// Streams, clients and groups are keyed by their identifier.
    pub open spec fn wf(self) -> bool {
        &&& distinct_stream_keys(self.streams)
        &&& distinct_client_ids(self.clients)
        &&& distinct_group_ids(self.groups)
    }
}

impl ObservedState {
    /// The snapshot is keyed as `StateModel::wf` says.
    pub open spec fn wf(&self) -> bool {
        self@.wf()
    }
}

/// Whether some stream has the key `key`.
pub fn stream_exists(streams: &Vec<LiveStream>, key: &String) -> (found: bool)
    ensures
        found == has_stream(streams.deep_view(), key@),
{
    let mut i: usize = 0;
    while i < streams.len()
        invariant
            i <= streams.len(),
            forall|j: int| 0 <= j < i ==> (#[trigger] streams.deep_view()[j]).key != key@,
        decreases streams.len() - i,
    {
        if streams[i].key == *key {
            assert(streams.deep_view()[i as int].key == key@);
            return true;
        }
        i += 1;
    }
    false
}

} // verus!
