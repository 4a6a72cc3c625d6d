//! What holds of every plan.

use vstd::prelude::*;
use crate::command::CommandModel;
use crate::config::{
    distinct_group_names, distinct_zone_ids, has_zone, ConfigModel, DeviceModel, GroupModel,
    ZoneModel,
};
use crate::control::{advanced, next_state, LoopEventModel, LoopModel, Phase};
use crate::follow::{
    follow_commands, follow_group, follow_with, playing_stream, retunes_mapped, zone_is, zone_of,
    NotificationModel,
};
use crate::names::name_set;
use crate::seqs::{
    is_first, lemma_concat_map_contains, lemma_concat_map_occurrences, lemma_first_index_is,
    lemma_occurrences_add, lemma_occurrences_none, lemma_occurrences_one, occurrences,
};
use crate::startup::{
    chosen_group, clients_correction, corrective_commands, create_commands, create_stream,
    create_with, default_zone, fits, group_corrections, name_correction, prune_commands,
    prune_stream, prune_with, regroup_commands, regroup_one, regroup_with, rename_commands,
    rename_device, rename_with, sole_group, startup_commands, startup_mapping,
    stream_correction,
};
use crate::state::{has_stream, ClientModel, LiveGroupModel, StateModel, StreamModel};

verus! {

/// The removals are exactly those of the observed streams that no zone
/// accounts for.
pub proof fn lemma_prune_contains(
    zones: Seq<ZoneModel>,
    streams: Seq<StreamModel>,
    command: CommandModel,
)
    ensures
        prune_commands(zones, streams).contains(command) <==> (command matches
        CommandModel::RemoveStream { key } && has_stream(streams, key) && !has_zone(zones, key)),
{
    let each = prune_with(zones);
    lemma_concat_map_contains(streams, each, command);
    if prune_commands(zones, streams).contains(command) {
        let i = choose|i: int|
            0 <= i < streams.len() && #[trigger] each(streams[i]).contains(command);
        let part = prune_stream(zones, streams[i]);
        let k = choose|k: int| 0 <= k < part.len() && part[k] == command;
        assert(command == CommandModel::RemoveStream { key: streams[i].key });
    }
    if let CommandModel::RemoveStream { key } = command {
        if has_stream(streams, key) && !has_zone(zones, key) {
            let i = choose|i: int| 0 <= i < streams.len() && (#[trigger] streams[i]).key == key;
            assert(each(streams[i])[0] == command);
            assert(each(streams[i]).contains(command));
        }
    }
}

/// The creations are exactly those for the zones that have no stream.
pub proof fn lemma_create_contains(
    zones: Seq<ZoneModel>,
    streams: Seq<StreamModel>,
    command: CommandModel,
)
    ensures
        create_commands(zones, streams).contains(command) <==> (command matches
        CommandModel::AddStream { key, source } && !has_stream(streams, key) && exists|i: int|
            0 <= i < zones.len() && (#[trigger] zones[i]).id == key && zones[i].stream == source),
{
    let each = create_with(streams);
    lemma_concat_map_contains(zones, each, command);
    if create_commands(zones, streams).contains(command) {
        let i = choose|i: int| 0 <= i < zones.len() && #[trigger] each(zones[i]).contains(command);
        let part = create_stream(streams, zones[i]);
        let k = choose|k: int| 0 <= k < part.len() && part[k] == command;
        assert(command == CommandModel::AddStream { key: zones[i].id, source: zones[i].stream });
    }
    if let CommandModel::AddStream { key, source } = command {
        if !has_stream(streams, key) && exists|i: int|
            0 <= i < zones.len() && (#[trigger] zones[i]).id == key && zones[i].stream == source {
            let i = choose|i: int|
                0 <= i < zones.len() && (#[trigger] zones[i]).id == key && zones[i].stream
                    == source;
            assert(each(zones[i])[0] == command);
            assert(each(zones[i]).contains(command));
        }
    }
}

/// The device renamings hold nothing but renamings.
pub proof fn lemma_rename_contains(
    devices: Seq<DeviceModel>,
    clients: Seq<ClientModel>,
    command: CommandModel,
)
    requires
        rename_commands(devices, clients).contains(command),
    ensures
        command is RenameClient,
{
    let each = rename_with(clients);
    lemma_concat_map_contains(devices, each, command);
    let i = choose|i: int| 0 <= i < devices.len() && #[trigger] each(devices[i]).contains(command);
    let part = rename_device(clients, devices[i]);
    let k = choose|k: int| 0 <= k < part.len() && part[k] == command;
}

/// `command` gives `live` the name or the devices of `group`, or tunes it to
/// the group's default zone.
pub open spec fn corrects(
    command: CommandModel,
    group: GroupModel,
    live: LiveGroupModel,
    zones: Seq<ZoneModel>,
) -> bool {
    ||| command == (CommandModel::SetGroupName { id: live.id, name: group.name })
    ||| command == (CommandModel::SetGroupClients { id: live.id, clients: group.devices })
    ||| (default_zone(zones, group.name) matches Some(z) && command
        == (CommandModel::SetGroupStream { id: live.id, stream_id: zones[z].id }))
}

/// `command` tunes the live group chosen for some configured group to that
/// group's default zone.
pub open spec fn assigns_default(
    command: CommandModel,
    groups: Seq<GroupModel>,
    zones: Seq<ZoneModel>,
    live: Seq<LiveGroupModel>,
) -> bool {
    exists|g: int|
        0 <= g < groups.len() && (chosen_group(live, (#[trigger] groups[g]).devices) matches Some(
            j,
        ) && default_zone(zones, groups[g].name) matches Some(z) && command
            == (CommandModel::SetGroupStream { id: live[j].id, stream_id: zones[z].id }))
}

/// A command among the corrections of one group names that live group, and
/// a retuning among them tunes it to the group's default zone.
pub proof fn lemma_corrections_contain(
    group: GroupModel,
    live: LiveGroupModel,
    zones: Seq<ZoneModel>,
    command: CommandModel,
)
    requires
        group_corrections(group, live, zones).contains(command),
    ensures
        corrects(command, group, live, zones),
{
    let all = group_corrections(group, live, zones);
    let naming = name_correction(group, live);
    let filling = clients_correction(group, live);
    let tuning = stream_correction(group, live, zones);
    let k = choose|k: int| 0 <= k < all.len() && all[k] == command;
    if k < naming.len() {
        assert(naming[k] == command);
    } else if k < naming.len() + filling.len() {
        assert(filling[k - naming.len()] == command);
    } else {
        assert(tuning[k - naming.len() - filling.len()] == command);
    }
}

/// The group corrections hold nothing but changes to groups, and every
/// retuning among them comes from a configured group's default zone.
pub proof fn lemma_regroup_contains(
    groups: Seq<GroupModel>,
    zones: Seq<ZoneModel>,
    live: Seq<LiveGroupModel>,
    command: CommandModel,
)
    requires
        regroup_commands(groups, zones, live).contains(command),
    ensures
        command is SetGroupName || command is SetGroupClients || command is SetGroupStream,
        command is SetGroupStream ==> assigns_default(command, groups, zones, live),
{
    let each = regroup_with(zones, live);
    lemma_concat_map_contains(groups, each, command);
    let g = choose|g: int| 0 <= g < groups.len() && #[trigger] each(groups[g]).contains(command);
    let j = chosen_group(live, groups[g].devices).unwrap();
    assert(regroup_one(zones, live, groups[g]).contains(command));
    assert(chosen_group(live, groups[g].devices) is Some) by {
        if chosen_group(live, groups[g].devices) is None {
            let part = regroup_one(zones, live, groups[g]);
            let k = choose|k: int| 0 <= k < part.len() && part[k] == command;
        }
    }
    lemma_corrections_contain(groups[g], live[j], zones, command);
}

/// How often a command occurs in the startup plan: as often as in its parts.
pub proof fn lemma_startup_occurrences(
    config: ConfigModel,
    state: StateModel,
    command: CommandModel,
)
    ensures
        occurrences(startup_commands(config, state), command) == occurrences(
            prune_commands(config.zones, state.streams),
            command,
        ) + occurrences(create_commands(config.zones, state.streams), command) + occurrences(
            rename_commands(config.devices, state.clients),
            command,
        ) + occurrences(regroup_commands(config.groups, config.zones, state.groups), command) + (
        if command is RequestStatus {
            1nat
        } else {
            0nat
        }),
{
    let pruning = prune_commands(config.zones, state.streams);
    let creating = create_commands(config.zones, state.streams);
    let renaming = rename_commands(config.devices, state.clients);
    let regrouping = regroup_commands(config.groups, config.zones, state.groups);
    let last = seq![CommandModel::RequestStatus];
    lemma_occurrences_add(pruning, creating, command);
    lemma_occurrences_add(pruning + creating, renaming, command);
    lemma_occurrences_add(pruning + creating + renaming, regrouping, command);
    lemma_occurrences_add(corrective_commands(config, state), last, command);
    lemma_occurrences_one(CommandModel::RequestStatus, command);
    assert(startup_commands(config, state) =~= corrective_commands(config, state) + last);
}

/// Pruning is correct.
///
/// A stream that the server holds and that no zone accounts for is removed
/// exactly once by the startup plan, and the plan creates no stream under
/// its key.
pub proof fn lemma_stale_stream_is_removed_once(
    config: ConfigModel,
    state: StateModel,
    key: Seq<char>,
)
    requires
        state.wf(),
        has_stream(state.streams, key),
        !has_zone(config.zones, key),
    ensures
        occurrences(startup_commands(config, state), CommandModel::RemoveStream { key }) == 1,
        forall|source: Seq<char>|
            !(#[trigger] startup_commands(config, state).contains(
                CommandModel::AddStream { key, source },
            )),
{
    let removal = CommandModel::RemoveStream { key };
    let streams = state.streams;
    let each = prune_with(config.zones);
    let g = choose|g: int| 0 <= g < streams.len() && (#[trigger] streams[g]).key == key;
    assert forall|i: int| 0 <= i < streams.len() && i != g implies !(#[trigger] each(
        streams[i],
    )).contains(removal) by {
        let part = prune_stream(config.zones, streams[i]);
        if part.contains(removal) {
            let k = choose|k: int| 0 <= k < part.len() && part[k] == removal;
            assert(streams[i].key == key);
            if i < g {
                assert(streams[i].key != streams[g].key);
            } else {
                assert(streams[g].key != streams[i].key);
            }
        }
    }
    lemma_concat_map_occurrences(streams, each, removal, g);
    assert(each(streams[g]) == seq![removal]);
    lemma_occurrences_one(removal, removal);
    lemma_startup_occurrences(config, state, removal);
    lemma_foreign_to(config, state, removal);

    assert forall|source: Seq<char>|
        !(#[trigger] startup_commands(config, state).contains(
            CommandModel::AddStream { key, source },
        )) by {
        let creation = CommandModel::AddStream { key, source };
        lemma_startup_occurrences(config, state, creation);
        lemma_foreign_to(config, state, creation);
        lemma_create_contains(config.zones, state.streams, creation);
        lemma_occurrences_none(create_commands(config.zones, state.streams), creation);
        lemma_occurrences_none(startup_commands(config, state), creation);
    }
}

/// A command does not occur in the parts of the plan that are made of
/// commands of another kind.
proof fn lemma_foreign_to(config: ConfigModel, state: StateModel, command: CommandModel)
    ensures
        !(command is RemoveStream) ==> occurrences(
            prune_commands(config.zones, state.streams),
            command,
        ) == 0,
        !(command is AddStream) ==> occurrences(
            create_commands(config.zones, state.streams),
            command,
        ) == 0,
        !(command is RenameClient) ==> occurrences(
            rename_commands(config.devices, state.clients),
            command,
        ) == 0,
        !(command is SetGroupName || command is SetGroupClients || command is SetGroupStream)
            ==> occurrences(regroup_commands(config.groups, config.zones, state.groups), command)
            == 0,
{
    let pruning = prune_commands(config.zones, state.streams);
    let creating = create_commands(config.zones, state.streams);
    let renaming = rename_commands(config.devices, state.clients);
    let regrouping = regroup_commands(config.groups, config.zones, state.groups);
    lemma_prune_contains(config.zones, state.streams, command);
    lemma_create_contains(config.zones, state.streams, command);
    if renaming.contains(command) {
        lemma_rename_contains(config.devices, state.clients, command);
    }
    if regrouping.contains(command) {
        lemma_regroup_contains(config.groups, config.zones, state.groups, command);
    }
    lemma_occurrences_none(pruning, command);
    lemma_occurrences_none(creating, command);
    lemma_occurrences_none(renaming, command);
    lemma_occurrences_none(regrouping, command);
}

/// The first fitting live group is chosen, and the order decides.
///
/// Where a configured group's devices take in the clients of the live
/// groups at `i` and at `j`, and the one at `i` is chosen, exchanging the two
/// in the order of the snapshot makes the other the chosen one.
pub proof fn lemma_choice_follows_order(
    live: Seq<LiveGroupModel>,
    devices: Seq<Seq<char>>,
    i: int,
    j: int,
)
    requires
        0 <= i < j < live.len(),
        chosen_group(live, devices) == Some(i),
        fits(devices)(live[j]),
    ensures
        fits(devices)(live[i]),
        forall|k: int| 0 <= k < i ==> !fits(devices)(#[trigger] live[k]),
        chosen_group(live.update(i, live[j]).update(j, live[i]), devices) == Some(i),
        live.update(i, live[j]).update(j, live[i])[i] == live[j],
{
    let swapped = live.update(i, live[j]).update(j, live[i]);
    assert(is_first(live, fits(devices), i));
    assert forall|k: int| 0 <= k < i implies !fits(devices)(#[trigger] swapped[k]) by {
        assert(swapped[k] == live[k]);
    }
    assert(is_first(swapped, fits(devices), i));
    lemma_first_index_is(swapped, fits(devices), i);
}

/// A name is in the startup mapping only if a configured group of that name
/// found a live group.
pub proof fn lemma_mapping_keys(groups: Seq<GroupModel>, live: Seq<LiveGroupModel>, name: Seq<char>)
    requires
        startup_mapping(groups, live).contains_key(name),
    ensures
        exists|g: int|
            0 <= g < groups.len() && (#[trigger] groups[g]).name == name && chosen_group(
                live,
                groups[g].devices,
            ) is Some,
    decreases groups.len(),
{
    if groups.len() > 0 {
        let rest = groups.drop_last();
        if groups.last().name == name && chosen_group(live, groups.last().devices) is Some {
            assert(groups[groups.len() - 1].name == name);
        } else {
            lemma_mapping_keys(rest, live, name);
            let g = choose|g: int|
                0 <= g < rest.len() && (#[trigger] rest[g]).name == name && chosen_group(
                    live,
                    rest[g].devices,
                ) is Some;
            assert(groups[g].name == name);
        }
    }
}

/// What the startup mapping records. Where group names are not repeated, a
/// configured group is mapped to the live group chosen for it, and is not
/// mapped at all where none was chosen.
pub proof fn lemma_mapping_of_group(groups: Seq<GroupModel>, live: Seq<LiveGroupModel>, g: int)
    requires
        distinct_group_names(groups),
        0 <= g < groups.len(),
    ensures
        match chosen_group(live, groups[g].devices) {
            Some(j) => startup_mapping(groups, live).contains_key(groups[g].name)
                && startup_mapping(groups, live)[groups[g].name] == live[j].id,
            None => !startup_mapping(groups, live).contains_key(groups[g].name),
        },
    decreases groups.len(),
{
    let rest = groups.drop_last();
    let name = groups[g].name;
    if g == groups.len() - 1 {
        if chosen_group(live, groups[g].devices) is None {
            if startup_mapping(rest, live).contains_key(name) {
                lemma_mapping_keys(rest, live, name);
                let h = choose|h: int|
                    0 <= h < rest.len() && (#[trigger] rest[h]).name == name && chosen_group(
                        live,
                        rest[h].devices,
                    ) is Some;
                assert(groups[h].name != groups[g].name);
            }
        }
    } else {
        assert forall|a: int, b: int| 0 <= a < b < rest.len() implies (#[trigger] rest[a]).name != (
        #[trigger] rest[b]).name by {
            assert(groups[a].name != groups[b].name);
        }
        lemma_mapping_of_group(rest, live, g);
        assert(rest[g] == groups[g]);
        assert(groups[g].name != groups[groups.len() - 1].name);
    }
}

/// Every command of the follow path retunes a live group that the mapping
/// names, to the zone that started playing.
pub proof fn lemma_follow_addresses_mapped(
    config: ConfigModel,
    mapping: Map<Seq<char>, Seq<char>>,
    live: Seq<LiveGroupModel>,
    notification: NotificationModel,
    command: CommandModel,
)
    requires
        follow_commands(config, mapping, live, notification).contains(command),
    ensures
        playing_stream(notification) is Some,
        retunes_mapped(mapping, playing_stream(notification).unwrap(), command),
{
    let all = follow_commands(config, mapping, live, notification);
    let at = choose|at: int| 0 <= at < all.len() && all[at] == command;
    let id = playing_stream(notification).unwrap();
    let z = zone_of(config.zones, id).unwrap();
    let zone = config.zones[z];
    assert(is_first(config.zones, zone_is(id), z));
    assert(zone.id == id);
    let each = follow_with(mapping, live, zone.id);
    lemma_concat_map_contains(zone.groups, each, command);
    let i = choose|i: int|
        0 <= i < zone.groups.len() && #[trigger] each(zone.groups[i]).contains(command);
    let name = zone.groups[i];
    let part = follow_group(mapping, live, zone.id, name);
    let k = choose|k: int| 0 <= k < part.len() && part[k] == command;
    assert(mapping.contains_key(name));
}

/// The mapping is never rebuilt.
///
/// A running loop keeps the mapping it has, whatever happens, and leaves
/// the running phase on termination only.
pub proof fn lemma_running_loop_keeps_its_mapping(
    config: ConfigModel,
    state: LoopModel,
    observed: StateModel,
    event: LoopEventModel,
)
    requires
        state.phase is Running,
    ensures
        next_state(config, state, observed, event).mapping == state.mapping,
        next_state(config, state, observed, event).phase is Running || event is Terminate,
{
}

/// The loop after `n` commands in a row were reported as delivered.
pub open spec fn after_deliveries(state: LoopModel, n: nat) -> LoopModel
    decreases n,
{
    if n == 0 {
        state
    } else {
        advanced(after_deliveries(state, (n - 1) as nat))
    }
}

/// Startup leads to running.
///
/// An initializing loop that has received the server's first report holds
/// out the startup plan. It keeps initializing while commands of the plan are
/// outstanding, and runs, with the mapping that startup recorded and nothing
/// left to send, once the last of them is delivered.
pub proof fn lemma_startup_leads_to_running(
    config: ConfigModel,
    fresh: LoopModel,
    observed: StateModel,
    k: nat,
)
    requires
        fresh.phase is Initializing,
        fresh.pending.len() == 0,
        k <= startup_commands(config, observed).len(),
    ensures
        after_deliveries(next_state(config, fresh, observed, LoopEventModel::StatusReceived), k)
            == (LoopModel {
            phase: if k == startup_commands(config, observed).len() {
                Phase::Running
            } else {
                Phase::Initializing
            },
            mapping: startup_mapping(config.groups, observed.groups),
            pending: startup_commands(config, observed).skip(k as int),
        }),
    decreases k,
{
    let plan = startup_commands(config, observed);
    let planned = next_state(config, fresh, observed, LoopEventModel::StatusReceived);
    if k == 0 {
        assert(plan.skip(0) =~= plan);
    } else {
        lemma_startup_leads_to_running(config, fresh, observed, (k - 1) as nat);
        assert(plan.skip(k - 1).drop_first() =~= plan.skip(k as int));
    }
}

/// An unmatched group stays unmatched.
///
/// Let group names not be repeated. A configured group for which startup
/// chose no live group is absent from the mapping that startup records, and
/// with that mapping the follow path never retunes anything for it, whatever
/// the server's groups have become by then.
pub proof fn lemma_unmatched_group_stays_out(
    config: ConfigModel,
    state: StateModel,
    g: int,
    later: Seq<LiveGroupModel>,
    zone: Seq<char>,
)
    requires
        distinct_group_names(config.groups),
        0 <= g < config.groups.len(),
        chosen_group(state.groups, config.groups[g].devices) is None,
    ensures
        !startup_mapping(config.groups, state.groups).contains_key(config.groups[g].name),
        follow_group(
            startup_mapping(config.groups, state.groups),
            later,
            zone,
            config.groups[g].name,
        ) == Seq::<CommandModel>::empty(),
{
    lemma_mapping_of_group(config.groups, state.groups, g);
}

/// Only a stream that plays is followed: a notification of any other status
/// leads to no command and leaves the loop as it is.
pub proof fn lemma_only_playing_is_followed(
    config: ConfigModel,
    mapping: Map<Seq<char>, Seq<char>>,
    observed: StateModel,
    notification: NotificationModel,
    state: LoopModel,
)
    requires
        playing_stream(notification) is None,
    ensures
        follow_commands(config, mapping, observed.groups, notification) == Seq::<
            CommandModel,
        >::empty(),
        next_state(config, state, observed, LoopEventModel::Message(notification)) == state,
{
    assert(state.pending + Seq::<CommandModel>::empty() =~= state.pending);
}

/// The default stream is assigned once.
///
/// Let zone identifiers and group names not be repeated. A configured group
/// that found a live group, and whose default zone is not what that live
/// group plays, is tuned to the zone by exactly one command of the startup
/// plan, and no other command of the plan tunes anything to that zone.
pub proof fn lemma_default_stream_is_assigned_once(
    config: ConfigModel,
    state: StateModel,
    g: int,
    j: int,
    z: int,
)
    requires
        distinct_zone_ids(config.zones),
        distinct_group_names(config.groups),
        0 <= g < config.groups.len(),
        chosen_group(state.groups, config.groups[g].devices) == Some(j),
        default_zone(config.zones, config.groups[g].name) == Some(z),
        state.groups[j].stream_id != config.zones[z].id,
    ensures
        occurrences(
            startup_commands(config, state),
            CommandModel::SetGroupStream { id: state.groups[j].id, stream_id: config.zones[z].id },
        ) == 1,
        forall|id: Seq<char>|
            (#[trigger] startup_commands(config, state).contains(
                CommandModel::SetGroupStream { id, stream_id: config.zones[z].id },
            )) ==> id == state.groups[j].id,
{
    let groups = config.groups;
    let zones = config.zones;
    let live = state.groups;
    let each = regroup_with(zones, live);
    let tuning = CommandModel::SetGroupStream { id: live[j].id, stream_id: zones[z].id };
    assert(is_first(zones, sole_group(groups[g].name), z));

    assert forall|h: int, id: Seq<char>|
        0 <= h < groups.len() && (#[trigger] each(groups[h]).contains(
            CommandModel::SetGroupStream { id, stream_id: zones[z].id },
        )) implies h == g && id == live[j].id by {
        let command = CommandModel::SetGroupStream { id, stream_id: zones[z].id };
        let c = chosen_group(live, groups[h].devices);
        if c is None {
            let part = regroup_one(zones, live, groups[h]);
            let k = choose|k: int| 0 <= k < part.len() && part[k] == command;
        }
        lemma_corrections_contain(groups[h], live[c.unwrap()], zones, command);
        let y = default_zone(zones, groups[h].name).unwrap();
        assert(is_first(zones, sole_group(groups[h].name), y));
        if y < z {
            assert(zones[y].id != zones[z].id);
        }
        if z < y {
            assert(zones[z].id != zones[y].id);
        }
        assert(set![groups[h].name].contains(groups[h].name));
        assert(set![groups[g].name].contains(groups[h].name));
        if h < g {
            assert(groups[h].name != groups[g].name);
        }
        if g < h {
            assert(groups[g].name != groups[h].name);
        }
    }
    assert forall|h: int| 0 <= h < groups.len() && h != g implies !(#[trigger] each(
        groups[h],
    )).contains(tuning) by {}
    lemma_concat_map_occurrences(groups, each, tuning, g);
    let naming = name_correction(groups[g], live[j]);
    let filling = clients_correction(groups[g], live[j]);
    lemma_occurrences_add(naming, filling, tuning);
    lemma_occurrences_add(naming + filling, seq![tuning], tuning);
    lemma_occurrences_one(tuning, tuning);
    if naming.len() > 0 {
        assert(naming =~= seq![naming[0]]);
        lemma_occurrences_one(naming[0], tuning);
    }
    if filling.len() > 0 {
        assert(filling =~= seq![filling[0]]);
        lemma_occurrences_one(filling[0], tuning);
    }
    assert(each(groups[g]) == naming + filling + seq![tuning]);
    lemma_startup_occurrences(config, state, tuning);
    lemma_foreign_to(config, state, tuning);

    assert forall|id: Seq<char>|
        (#[trigger] startup_commands(config, state).contains(
            CommandModel::SetGroupStream { id, stream_id: zones[z].id },
        )) implies id == live[j].id by {
        let command = CommandModel::SetGroupStream { id, stream_id: zones[z].id };
        lemma_startup_occurrences(config, state, command);
        lemma_foreign_to(config, state, command);
        lemma_occurrences_none(startup_commands(config, state), command);
        lemma_occurrences_none(regroup_commands(groups, zones, live), command);
        lemma_concat_map_contains(groups, each, command);
        let h = choose|h: int|
            0 <= h < groups.len() && #[trigger] each(groups[h]).contains(command);
    }
}

/// A zone with two or more groups gives no default stream.
///
/// Let zone identifiers not be repeated. Then no command of the startup plan
/// tunes a group to a zone that names two different groups.
pub proof fn lemma_shared_zone_is_no_default(
    config: ConfigModel,
    state: StateModel,
    z: int,
    a: int,
    b: int,
    id: Seq<char>,
)
    requires
        distinct_zone_ids(config.zones),
        0 <= z < config.zones.len(),
        0 <= a < config.zones[z].groups.len(),
        0 <= b < config.zones[z].groups.len(),
        config.zones[z].groups[a] != config.zones[z].groups[b],
    ensures
        forall|name: Seq<char>| default_zone(config.zones, name) != Some(z),
        !startup_commands(config, state).contains(
            CommandModel::SetGroupStream { id, stream_id: config.zones[z].id },
        ),
{
    let zones = config.zones;
    let members = zones[z].groups;
    assert forall|name: Seq<char>| !(#[trigger] sole_group(name)(zones[z])) by {
        assert(members.contains(members[a]));
        assert(members.contains(members[b]));
        if name_set(members) == set![name] {
            assert(set![name].contains(members[a]));
            assert(set![name].contains(members[b]));
        }
    }
    assert forall|name: Seq<char>| default_zone(zones, name) != Some(z) by {
        if default_zone(zones, name) == Some(z) {
            assert(is_first(zones, sole_group(name), z));
        }
    }
    let command = CommandModel::SetGroupStream { id, stream_id: zones[z].id };
    if startup_commands(config, state).contains(command) {
        lemma_startup_occurrences(config, state, command);
        lemma_foreign_to(config, state, command);
        lemma_occurrences_none(startup_commands(config, state), command);
        lemma_occurrences_none(regroup_commands(config.groups, zones, state.groups), command);
        lemma_regroup_contains(config.groups, zones, state.groups, command);
        let g = choose|g: int|
            0 <= g < config.groups.len() && (chosen_group(
                state.groups,
                (#[trigger] config.groups[g]).devices,
            ) matches Some(j) && default_zone(zones, config.groups[g].name) matches Some(y)
                && command == (CommandModel::SetGroupStream {
                id: state.groups[j].id,
                stream_id: zones[y].id,
            }));
        let y = default_zone(zones, config.groups[g].name).unwrap();
        if y < z {
            assert(zones[y].id != zones[z].id);
        }
        if z < y {
            assert(zones[z].id != zones[y].id);
        }
        assert(false);
    }
}

} // verus!
