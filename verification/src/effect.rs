//! What the engine expects a command to do to the server's state.
//!
//! This is the engine's picture of the server, not the server: a removed
//! stream is gone, a created one is filed under the key it was created for,
//! and a renaming or a new binding changes the one client or group that it
//! names and nothing else.

use vstd::prelude::*;
use crate::command::{Command, CommandModel};
use crate::names::clone_names;
use crate::state::{
    distinct_stream_keys, has_stream, stream_exists, ClientModel, LiveClient, LiveGroup,
    LiveGroupModel, LiveStream, ObservedState, StateModel, StreamModel, StreamStatus,
};

verus! {

/// The streams that stay when the stream `key` is removed.
pub open spec fn keeps_key(key: Seq<char>) -> spec_fn(StreamModel) -> bool {
    |stream: StreamModel| stream.key != key
}

/// The client `id` takes the name `name`; every other client stays as it is.
pub open spec fn rename_to(id: Seq<char>, name: Seq<char>) -> spec_fn(ClientModel) -> ClientModel {
    |client: ClientModel|
        if client.id == id {
            ClientModel { id: client.id, configured_name: name }
        } else {
            client
        }
}

/// What a command does to the streams: a removal drops the stream of that
/// key, a creation files a stream under its key unless one is there.
pub open spec fn apply_to_streams(streams: Seq<StreamModel>, command: CommandModel) -> Seq<
    StreamModel,
> {
    match command {
        CommandModel::RemoveStream { key } => streams.filter(keeps_key(key)),
        CommandModel::AddStream { key, source } => if has_stream(streams, key) {
            streams
        } else {
            streams.push(StreamModel { key, status: StreamStatus::Unknown })
        },
        _ => streams,
    }
}

/// What a command does to the clients: a renaming renames.
pub open spec fn apply_to_clients(clients: Seq<ClientModel>, command: CommandModel) -> Seq<
    ClientModel,
> {
    match command {
        CommandModel::RenameClient { id, name } => clients.map_values(rename_to(id, name)),
        _ => clients,
    }
}

/// What a command does to one live group: nothing, unless it names the group.
pub open spec fn apply_to_group(group: LiveGroupModel, command: CommandModel) -> LiveGroupModel {
    match command {
        CommandModel::SetGroupName { id, name } => if group.id == id {
            LiveGroupModel {
                id: group.id,
                name,
                clients: group.clients,
                stream_id: group.stream_id,
            }
        } else {
            group
        },
        CommandModel::SetGroupClients { id, clients } => if group.id == id {
            LiveGroupModel { id: group.id, name: group.name, clients, stream_id: group.stream_id }
        } else {
            group
        },
        CommandModel::SetGroupStream { id, stream_id } => if group.id == id {
            LiveGroupModel { id: group.id, name: group.name, clients: group.clients, stream_id }
        } else {
            group
        },
        _ => group,
    }
}

/// `apply_to_group` for a fixed command.
pub open spec fn regroup_by(command: CommandModel) -> spec_fn(LiveGroupModel) -> LiveGroupModel {
    |group: LiveGroupModel| apply_to_group(group, command)
}

/// What a command does to the live groups.
pub open spec fn apply_to_groups(groups: Seq<LiveGroupModel>, command: CommandModel) -> Seq<
    LiveGroupModel,
> {
    groups.map_values(regroup_by(command))
}

/// The state after one command.
pub open spec fn apply(state: StateModel, command: CommandModel) -> StateModel {
    StateModel {
        streams: apply_to_streams(state.streams, command),
        clients: apply_to_clients(state.clients, command),
        groups: apply_to_groups(state.groups, command),
    }
}

/// The state after a list of commands, carried out in order.
pub open spec fn apply_all(state: StateModel, commands: Seq<CommandModel>) -> StateModel
    decreases commands.len(),
{
    if commands.len() == 0 {
        state
    } else {
        apply(apply_all(state, commands.drop_last()), commands.last())
    }
}

/// Carrying out two lists one after the other is carrying out their
/// concatenation.
pub proof fn lemma_apply_all_add(
    state: StateModel,
    first: Seq<CommandModel>,
    then: Seq<CommandModel>,
)
    ensures
        apply_all(state, first + then) == apply_all(apply_all(state, first), then),
    decreases then.len(),
{
    if then.len() == 0 {
        assert(first + then =~= first);
    } else {
        assert((first + then).drop_last() =~= first + then.drop_last());
        lemma_apply_all_add(state, first, then.drop_last());
    }
}

/// Carrying out a list of one command is carrying out that command.
pub proof fn lemma_apply_all_one(state: StateModel, command: CommandModel)
    ensures
        apply_all(state, seq![command]) == apply(state, command),
{
    let one = seq![command];
    assert(one.drop_last() =~= Seq::<CommandModel>::empty());
    assert(apply_all(state, one.drop_last()) == state);
    assert(one.last() == command);
}

/// After a removal the removed key is gone and every other key is where it was.
pub proof fn lemma_remove_keys(streams: Seq<StreamModel>, key: Seq<char>, other: Seq<char>)
    ensures
        has_stream(streams.filter(keeps_key(key)), other) <==> has_stream(streams, other) && other
            != key,
{
    let pred = keeps_key(key);
    let kept = streams.filter(pred);
    if has_stream(kept, other) {
        let i = choose|i: int| 0 <= i < kept.len() && (#[trigger] kept[i]).key == other;
        assert(kept.contains(kept[i]));
        streams.lemma_filter_contains_rev(pred, kept[i]);
        streams.lemma_filter_pred(pred, i);
        let j = choose|j: int| 0 <= j < streams.len() && streams[j] == kept[i];
        assert(streams[j].key == other);
    }
    if has_stream(streams, other) && other != key {
        let j = choose|j: int| 0 <= j < streams.len() && (#[trigger] streams[j]).key == other;
        streams.lemma_filter_contains(pred, j);
        let i = choose|i: int| 0 <= i < kept.len() && kept[i] == streams[j];
        assert(kept[i].key == other);
    }
}

/// After a creation the created key is there, beside every key that was.
pub proof fn lemma_add_keys(
    streams: Seq<StreamModel>,
    key: Seq<char>,
    source: Seq<char>,
    other: Seq<char>,
)
    ensures
        has_stream(apply_to_streams(streams, CommandModel::AddStream { key, source }), other)
            <==> has_stream(streams, other) || other == key,
{
    let after = apply_to_streams(streams, CommandModel::AddStream { key, source });
    if !has_stream(streams, key) {
        if has_stream(after, other) {
            let i = choose|i: int| 0 <= i < after.len() && (#[trigger] after[i]).key == other;
            if i < streams.len() {
                assert(streams[i].key == other);
            }
        }
        if has_stream(streams, other) {
            let j = choose|j: int| 0 <= j < streams.len() && (#[trigger] streams[j]).key == other;
            assert(after[j].key == other);
        }
        if other == key {
            assert(after[streams.len() as int].key == other);
        }
    }
}

/// Removing a stream leaves the other streams keyed as they were.
proof fn lemma_remove_keeps_keys_distinct(streams: Seq<StreamModel>, key: Seq<char>)
    requires
        distinct_stream_keys(streams),
    ensures
        distinct_stream_keys(streams.filter(keeps_key(key))),
    decreases streams.len(),
{
    reveal(Seq::filter);
    if streams.len() > 0 {
        let keep = keeps_key(key);
        let rest = streams.drop_last();
        let last = streams.last();
        let kept = rest.filter(keep);
        assert forall|i: int, j: int| 0 <= i < j < rest.len() implies (#[trigger] rest[i]).key != (
        #[trigger] rest[j]).key by {
            assert(streams[i].key != streams[j].key);
        }
        lemma_remove_keeps_keys_distinct(rest, key);
        if keep(last) {
            let all = kept.push(last);
            assert forall|i: int, j: int| 0 <= i < j < all.len() implies (#[trigger] all[i]).key
                != (#[trigger] all[j]).key by {
                if j == kept.len() {
                    assert(has_stream(kept, kept[i].key));
                    lemma_remove_keys(rest, key, kept[i].key);
                    let m = choose|m: int|
                        0 <= m < rest.len() && (#[trigger] rest[m]).key == kept[i].key;
                    assert(streams[m].key != streams[streams.len() - 1].key);
                } else {
                    assert(kept[i].key != kept[j].key);
                }
            }
        }
    }
}

/// A command leaves a snapshot that is keyed by identifier keyed so.
pub proof fn lemma_apply_keeps_wf(state: StateModel, command: CommandModel)
    requires
        state.wf(),
    ensures
        apply(state, command).wf(),
{
    let after = apply(state, command);
    match command {
        CommandModel::RemoveStream { key } => {
            lemma_remove_keeps_keys_distinct(state.streams, key);
        },
        CommandModel::AddStream { key, source } => {
            if !has_stream(state.streams, key) {
                assert forall|i: int, j: int| 0 <= i < j < after.streams.len() implies (
                #[trigger] after.streams[i]).key != (#[trigger] after.streams[j]).key by {
                    if j == state.streams.len() {
                        assert(state.streams[i].key != key);
                    } else {
                        assert(state.streams[i].key != state.streams[j].key);
                    }
                }
            }
        },
        _ => {},
    }
    assert forall|i: int, j: int| 0 <= i < j < after.clients.len() implies (
    #[trigger] after.clients[i]).id != (#[trigger] after.clients[j]).id by {
        assert(state.clients[i].id != state.clients[j].id);
    }
    assert forall|i: int, j: int| 0 <= i < j < after.groups.len() implies (
    #[trigger] after.groups[i]).id != (#[trigger] after.groups[j]).id by {
        assert(state.groups[i].id != state.groups[j].id);
    }
}

/// So does a list of commands.
pub proof fn lemma_apply_all_keeps_wf(state: StateModel, commands: Seq<CommandModel>)
    requires
        state.wf(),
    ensures
        apply_all(state, commands).wf(),
    decreases commands.len(),
{
    if commands.len() > 0 {
        lemma_apply_all_keeps_wf(state, commands.drop_last());
        lemma_apply_keeps_wf(apply_all(state, commands.drop_last()), commands.last());
    }
}

/// The streams without the stream `key`.
pub fn without_stream(streams: &Vec<LiveStream>, key: &String) -> (kept: Vec<LiveStream>)
    ensures
        kept.deep_view() == streams.deep_view().filter(keeps_key(key@)),
{
    let ghost ss = streams.deep_view();
    let ghost keep = keeps_key(key@);
    let mut kept: Vec<LiveStream> = Vec::new();
    let mut i: usize = 0;
    proof {
        reveal(Seq::filter);
        assert(kept.deep_view() =~= ss.take(0).filter(keep));
    }
    while i < streams.len()
        invariant
            i <= streams.len(),
            ss == streams.deep_view(),
            keep == keeps_key(key@),
            kept.deep_view() == ss.take(i as int).filter(keep),
        decreases streams.len() - i,
    {
        proof {
            ss.take(i as int).lemma_filter_push(ss[i as int], keep);
            assert(ss.take(i + 1) =~= ss.take(i as int).push(ss[i as int]));
        }
        if streams[i].key != *key {
            let ghost before = kept.deep_view();
            kept.push(LiveStream { key: streams[i].key.clone(), status: streams[i].status });
            assert(kept.deep_view() =~= before.push(ss[i as int]));
        }
        i += 1;
    }
    assert(ss.take(streams.len() as int) =~= ss);
    kept
}

/// The clients, the one called `id` renamed to `name`.
pub fn renamed_clients(clients: &Vec<LiveClient>, id: &String, name: &String) -> (renamed: Vec<
    LiveClient,
>)
    ensures
        renamed.deep_view() == clients.deep_view().map_values(rename_to(id@, name@)),
{
    let ghost cs = clients.deep_view();
    let ghost rename = rename_to(id@, name@);
    let mut renamed: Vec<LiveClient> = Vec::new();
    let mut i: usize = 0;
    assert(renamed.deep_view() =~= cs.take(0).map_values(rename));
    while i < clients.len()
        invariant
            i <= clients.len(),
            cs == clients.deep_view(),
            rename == rename_to(id@, name@),
            renamed.deep_view() == cs.take(i as int).map_values(rename),
        decreases clients.len() - i,
    {
        let ghost before = renamed.deep_view();
        let configured_name = if clients[i].id == *id {
            name.clone()
        } else {
            clients[i].configured_name.clone()
        };
        renamed.push(LiveClient { id: clients[i].id.clone(), configured_name });
        assert(renamed.deep_view() =~= before.push(rename(cs[i as int])));
        assert(cs.take(i + 1).map_values(rename) =~= before.push(rename(cs[i as int])));
        i += 1;
    }
    assert(cs.take(clients.len() as int) =~= cs);
    renamed
}

/// The live group as `command` leaves it.
pub fn changed_group(group: &LiveGroup, command: &Command) -> (changed: LiveGroup)
    ensures
        changed@ == apply_to_group(group@, command@),
{
    let mut changed = LiveGroup {
        id: group.id.clone(),
        name: group.name.clone(),
        clients: clone_names(&group.clients),
        stream_id: group.stream_id.clone(),
    };
    match command {
        Command::SetGroupName { id, name } => {
            if group.id == *id {
                changed.name = name.clone();
            }
        },
        Command::SetGroupClients { id, clients } => {
            if group.id == *id {
                changed.clients = clone_names(clients);
            }
        },
        Command::SetGroupStream { id, stream_id } => {
            if group.id == *id {
                changed.stream_id = stream_id.clone();
            }
        },
        _ => {},
    }
    changed
}

/// The live groups as `command` leaves them.
pub fn changed_groups(groups: &Vec<LiveGroup>, command: &Command) -> (changed: Vec<LiveGroup>)
    ensures
        changed.deep_view() == apply_to_groups(groups.deep_view(), command@),
{
    let ghost gs = groups.deep_view();
    let ghost change = regroup_by(command@);
    let mut changed: Vec<LiveGroup> = Vec::new();
    let mut i: usize = 0;
    assert(changed.deep_view() =~= gs.take(0).map_values(change));
    while i < groups.len()
        invariant
            i <= groups.len(),
            gs == groups.deep_view(),
            change == regroup_by(command@),
            changed.deep_view() == gs.take(i as int).map_values(change),
        decreases groups.len() - i,
    {
        let ghost before = changed.deep_view();
        changed.push(changed_group(&groups[i], command));
        assert(changed.deep_view() =~= before.push(change(gs[i as int])));
        assert(gs.take(i + 1).map_values(change) =~= before.push(change(gs[i as int])));
        i += 1;
    }
    assert(gs.take(groups.len() as int) =~= gs);
    changed
}

/// Carries `command` out on a snapshot, as the engine expects the server
/// to carry it out.
pub fn apply_command(state: &mut ObservedState, command: &Command)
    ensures
        final(state)@ == apply(old(state)@, command@),
        old(state).wf() ==> final(state).wf(),
{
    let ghost before = state@;
    proof {
        if before.wf() {
            lemma_apply_keeps_wf(before, command@);
        }
    }
    match command {
        Command::RemoveStream { key } => {
            state.streams = without_stream(&state.streams, key);
            assert(apply_to_groups(before.groups, command@) =~= before.groups);
        },
        Command::AddStream { key, source } => {
            if !stream_exists(&state.streams, key) {
                state.streams.push(LiveStream { key: key.clone(), status: StreamStatus::Unknown });
                assert(state.streams.deep_view() =~= apply_to_streams(before.streams, command@));
            }
            assert(apply_to_groups(before.groups, command@) =~= before.groups);
        },
        Command::RenameClient { id, name } => {
            state.clients = renamed_clients(&state.clients, id, name);
            assert(apply_to_groups(before.groups, command@) =~= before.groups);
        },
        Command::RequestStatus => {
            assert(apply_to_groups(before.groups, command@) =~= before.groups);
        },
        _ => {
            state.groups = changed_groups(&state.groups, command);
        },
    }
}

/// Carries the commands out on a snapshot, in order.
pub fn apply_commands(state: &mut ObservedState, commands: &Vec<Command>)
    ensures
        final(state)@ == apply_all(old(state)@, commands.deep_view()),
        old(state).wf() ==> final(state).wf(),
{
    let ghost start = state@;
    proof {
        if start.wf() {
            lemma_apply_all_keeps_wf(start, commands.deep_view());
        }
    }
    let ghost all = commands.deep_view();
    let mut i: usize = 0;
    while i < commands.len()
        invariant
            i <= commands.len(),
            all == commands.deep_view(),
            state@ == apply_all(start, all.take(i as int)),
        decreases commands.len() - i,
    {
        proof {
            assert(all.take(i + 1).drop_last() =~= all.take(i as int));
        }
        apply_command(state, &commands[i]);
        i += 1;
    }
    assert(all.take(commands.len() as int) =~= all);
}

} // verus!
