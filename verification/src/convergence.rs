//! Startup reconciliation settles: carried out once, it leaves nothing to
//! correct.
//!
//! The proof follows the plan part by part. Each part changes one component
//! of the state, and is computed from that component alone, so the state
//! after the whole plan can be read off component by component.

use vstd::prelude::*;
use crate::command::CommandModel;
use crate::config::{distinct_device_ids, has_zone, ConfigModel, DeviceModel, GroupModel, ZoneModel};
use crate::effect::{
    apply, apply_all, apply_to_group, apply_to_groups, lemma_add_keys, lemma_apply_all_add,
    lemma_apply_all_one, lemma_remove_keys, rename_to,
};
use crate::names::name_set;
use crate::seqs::{
    first_index, is_first, lemma_concat_map_empty, lemma_first_index_congruent,
    lemma_first_index_is, lemma_first_index_none,
};
use crate::startup::{
    chosen_group, clients_correction, corrective_commands, create_commands, create_stream,
    create_with, default_zone, fits, group_corrections, name_correction, prune_commands,
    prune_stream, prune_with, regroup_commands, regroup_one, regroup_with, rename_commands,
    rename_device, rename_with, startup_commands, startup_mapping, stream_correction,
};
use crate::state::{
    client_is, distinct_group_ids, has_stream, ClientModel, LiveGroupModel, StateModel,
    StreamModel,
};

verus! {

/// No live group is chosen for two configured groups.
pub open spec fn no_shared_choice(groups: Seq<GroupModel>, live: Seq<LiveGroupModel>) -> bool {
    forall|g: int, h: int|
        0 <= g < h < groups.len() && chosen_group(live, (#[trigger] groups[g]).devices) is Some
            ==> chosen_group(live, groups[g].devices) != chosen_group(
            live,
            (#[trigger] groups[h]).devices,
        )
}

/// Whether the plan renames the live client of `device`.
pub open spec fn renames(clients: Seq<ClientModel>, device: DeviceModel) -> bool {
    rename_device(clients, device).len() > 0
}

/// The name that client `j` carries once the renamings for the first `n`
/// devices are done.
pub open spec fn name_after(
    devices: Seq<DeviceModel>,
    clients: Seq<ClientModel>,
    n: int,
    j: int,
) -> Seq<char>
    decreases n,
{
    if n <= 0 {
        clients[j].configured_name
    } else if devices[n - 1].id == clients[j].id && renames(clients, devices[n - 1]) {
        devices[n - 1].preferred_name.unwrap()
    } else {
        name_after(devices, clients, n - 1, j)
    }
}

/// The live group `target` after the corrections that were computed for
/// `group` on the snapshot `live`.
pub open spec fn corrected(
    target: LiveGroupModel,
    group: GroupModel,
    live: LiveGroupModel,
    zones: Seq<ZoneModel>,
) -> LiveGroupModel {
    LiveGroupModel {
        id: target.id,
        name: if live.name != group.name {
            group.name
        } else {
            target.name
        },
        clients: if name_set(live.clients) != name_set(group.devices) {
            group.devices
        } else {
            target.clients
        },
        stream_id: match default_zone(zones, group.name) {
            Some(z) => if live.stream_id != zones[z].id {
                zones[z].id
            } else {
                target.stream_id
            },
            None => target.stream_id,
        },
    }
}

/// The live group `j` once the corrections for the first `n` configured
/// groups are done.
pub open spec fn group_after(
    groups: Seq<GroupModel>,
    zones: Seq<ZoneModel>,
    live: Seq<LiveGroupModel>,
    n: int,
    j: int,
) -> LiveGroupModel
    decreases n,
{
    if n <= 0 {
        live[j]
    } else {
        let earlier = group_after(groups, zones, live, n - 1, j);
        match chosen_group(live, groups[n - 1].devices) {
            Some(c) => if earlier.id == live[c].id {
                corrected(earlier, groups[n - 1], live[c], zones)
            } else {
                earlier
            },
            None => earlier,
        }
    }
}

proof fn lemma_has_stream_last(streams: Seq<StreamModel>, key: Seq<char>)
    requires
        streams.len() > 0,
    ensures
        has_stream(streams, key) <==> has_stream(streams.drop_last(), key) || streams.last().key
            == key,
{
    let rest = streams.drop_last();
    if has_stream(streams, key) {
        let i = choose|i: int| 0 <= i < streams.len() && (#[trigger] streams[i]).key == key;
        if i < rest.len() {
            assert(rest[i].key == key);
        }
    }
    if has_stream(rest, key) {
        let i = choose|i: int| 0 <= i < rest.len() && (#[trigger] rest[i]).key == key;
        assert(streams[i].key == key);
    }
    if streams.last().key == key {
        assert(streams[streams.len() - 1].key == key);
    }
}

proof fn lemma_has_zone_last(zones: Seq<ZoneModel>, id: Seq<char>)
    requires
        zones.len() > 0,
    ensures
        has_zone(zones, id) <==> has_zone(zones.drop_last(), id) || zones.last().id == id,
{
    let rest = zones.drop_last();
    if has_zone(zones, id) {
        let i = choose|i: int| 0 <= i < zones.len() && (#[trigger] zones[i]).id == id;
        if i < rest.len() {
            assert(rest[i].id == id);
        }
    }
    if has_zone(rest, id) {
        let i = choose|i: int| 0 <= i < rest.len() && (#[trigger] rest[i]).id == id;
        assert(zones[i].id == id);
    }
    if zones.last().id == id {
        assert(zones[zones.len() - 1].id == id);
    }
}

/// A command changes only the component it is for.
pub proof fn lemma_apply_frame(state: StateModel, command: CommandModel)
    ensures
        !(command is RemoveStream || command is AddStream) ==> apply(state, command).streams
            == state.streams,
        !(command is RenameClient) ==> apply(state, command).clients == state.clients,
        !(command is SetGroupName || command is SetGroupClients || command is SetGroupStream)
            ==> apply(state, command).groups == state.groups,
{
    if !(command is SetGroupName || command is SetGroupClients || command is SetGroupStream) {
        assert(apply_to_groups(state.groups, command) =~= state.groups);
    }
}

/// A list of at most one command is carried out by carrying out that command.
proof fn lemma_apply_optional(state: StateModel, commands: Seq<CommandModel>)
    requires
        commands.len() <= 1,
    ensures
        apply_all(state, commands) == if commands.len() == 0 {
            state
        } else {
            apply(state, commands[0])
        },
{
    if commands.len() == 1 {
        assert(commands =~= seq![commands[0]]);
        lemma_apply_all_one(state, commands[0]);
    }
}

/// After the removals, the streams left are those that were there and are
/// either accounted for by a zone or were not among the streams examined.
pub proof fn lemma_after_prune(
    zones: Seq<ZoneModel>,
    examined: Seq<StreamModel>,
    state: StateModel,
)
    ensures
        ({
            let after = apply_all(state, prune_commands(zones, examined));
            &&& after.clients == state.clients
            &&& after.groups == state.groups
            &&& forall|key: Seq<char>| #[trigger]
                has_stream(after.streams, key) <==> has_stream(state.streams, key) && !(
                has_stream(examined, key) && !has_zone(zones, key))
        }),
    decreases examined.len(),
{
    let after = apply_all(state, prune_commands(zones, examined));
    if examined.len() == 0 {
        assert forall|key: Seq<char>| #[trigger]
            has_stream(after.streams, key) <==> has_stream(state.streams, key) && !(has_stream(
                examined,
                key,
            ) && !has_zone(zones, key)) by {}
    } else {
        let rest = examined.drop_last();
        let last = examined.last();
        let mid = apply_all(state, prune_commands(zones, rest));
        lemma_after_prune(zones, rest, state);
        lemma_apply_all_add(state, prune_commands(zones, rest), prune_stream(zones, last));
        lemma_apply_optional(mid, prune_stream(zones, last));
        if !has_zone(zones, last.key) {
            lemma_apply_frame(mid, CommandModel::RemoveStream { key: last.key });
        }
        assert forall|key: Seq<char>| #[trigger]
            has_stream(after.streams, key) <==> has_stream(state.streams, key) && !(has_stream(
                examined,
                key,
            ) && !has_zone(zones, key)) by {
            lemma_has_stream_last(examined, key);
            if !has_zone(zones, last.key) {
                lemma_remove_keys(mid.streams, last.key, key);
            }
        }
    }
}

/// After the creations, the streams are those that were there and those of
/// the zones that had none in the snapshot.
pub proof fn lemma_after_create(
    zones: Seq<ZoneModel>,
    snapshot: Seq<StreamModel>,
    state: StateModel,
)
    ensures
        ({
            let after = apply_all(state, create_commands(zones, snapshot));
            &&& after.clients == state.clients
            &&& after.groups == state.groups
            &&& forall|key: Seq<char>| #[trigger]
                has_stream(after.streams, key) <==> has_stream(state.streams, key) || (has_zone(
                    zones,
                    key,
                ) && !has_stream(snapshot, key))
        }),
    decreases zones.len(),
{
    let after = apply_all(state, create_commands(zones, snapshot));
    if zones.len() == 0 {
        assert forall|key: Seq<char>| #[trigger]
            has_stream(after.streams, key) <==> has_stream(state.streams, key) || (has_zone(
                zones,
                key,
            ) && !has_stream(snapshot, key)) by {}
    } else {
        let rest = zones.drop_last();
        let last = zones.last();
        let mid = apply_all(state, create_commands(rest, snapshot));
        lemma_after_create(rest, snapshot, state);
        lemma_apply_all_add(state, create_commands(rest, snapshot), create_stream(snapshot, last));
        lemma_apply_optional(mid, create_stream(snapshot, last));
        let add = CommandModel::AddStream { key: last.id, source: last.stream };
        if !has_stream(snapshot, last.id) {
            lemma_apply_frame(mid, add);
        }
        assert forall|key: Seq<char>| #[trigger]
            has_stream(after.streams, key) <==> has_stream(state.streams, key) || (has_zone(
                zones,
                key,
            ) && !has_stream(snapshot, key)) by {
            lemma_has_zone_last(zones, key);
            if !has_stream(snapshot, last.id) {
                lemma_add_keys(mid.streams, last.id, last.stream, key);
            }
        }
    }
}

/// After the renamings for the first `n` devices, every client has its
/// identifier and the name that `name_after` gives.
pub proof fn lemma_after_rename(
    devices: Seq<DeviceModel>,
    clients: Seq<ClientModel>,
    n: int,
    state: StateModel,
)
    requires
        0 <= n <= devices.len(),
        state.clients == clients,
    ensures
        ({
            let after = apply_all(state, rename_commands(devices.take(n), clients));
            &&& after.streams == state.streams
            &&& after.groups == state.groups
            &&& after.clients.len() == clients.len()
            &&& forall|j: int|
                0 <= j < clients.len() ==> (#[trigger] after.clients[j]).id == clients[j].id
            &&& forall|j: int|
                0 <= j < clients.len() ==> (#[trigger] after.clients[j]).configured_name
                    == name_after(devices, clients, n, j)
        }),
    decreases n,
{
    if n == 0 {
        assert(devices.take(0) =~= Seq::<DeviceModel>::empty());
    } else {
        let device = devices[n - 1];
        let before = rename_commands(devices.take(n - 1), clients);
        let mid = apply_all(state, before);
        lemma_after_rename(devices, clients, n - 1, state);
        assert(devices.take(n).drop_last() =~= devices.take(n - 1));
        assert(devices.take(n).last() == device);
        lemma_apply_all_add(state, before, rename_device(clients, device));
        lemma_apply_optional(mid, rename_device(clients, device));
        if renames(clients, device) {
            let name = device.preferred_name.unwrap();
            let command = CommandModel::RenameClient { id: device.id, name };
            assert(rename_device(clients, device)[0] == command);
            lemma_apply_frame(mid, command);
            let after = apply(mid, command);
            assert(after.clients == mid.clients.map_values(rename_to(device.id, name)));
        }
    }
}

/// A client that no device names keeps its name.
proof fn lemma_name_kept(devices: Seq<DeviceModel>, clients: Seq<ClientModel>, n: int, j: int)
    requires
        0 <= n <= devices.len(),
        forall|d: int| 0 <= d < n ==> (#[trigger] devices[d]).id != clients[j].id,
    ensures
        name_after(devices, clients, n, j) == clients[j].configured_name,
    decreases n,
{
    if n > 0 {
        lemma_name_kept(devices, clients, n - 1, j);
    }
}

/// Where identifiers are not repeated, only the one device with a client's
/// identifier decides the client's name.
proof fn lemma_name_settled(
    devices: Seq<DeviceModel>,
    clients: Seq<ClientModel>,
    n: int,
    j: int,
    d: int,
)
    requires
        distinct_device_ids(devices),
        0 <= d < n <= devices.len(),
        devices[d].id == clients[j].id,
    ensures
        name_after(devices, clients, n, j) == if renames(clients, devices[d]) {
            devices[d].preferred_name.unwrap()
        } else {
            clients[j].configured_name
        },
    decreases n,
{
    if n - 1 == d {
        assert forall|e: int| 0 <= e < d implies (#[trigger] devices[e]).id != clients[j].id by {
            assert(devices[e].id != devices[d].id);
        }
        lemma_name_kept(devices, clients, d, j);
    } else {
        assert(devices[d].id != devices[n - 1].id);
        lemma_name_settled(devices, clients, n - 1, j, d);
    }
}

/// The corrections computed for one configured group change the live groups
/// with the identifier they were computed for, as `corrected` says.
pub proof fn lemma_after_corrections(
    state: StateModel,
    group: GroupModel,
    live: LiveGroupModel,
    zones: Seq<ZoneModel>,
)
    ensures
        ({
            let after = apply_all(state, group_corrections(group, live, zones));
            &&& after.streams == state.streams
            &&& after.clients == state.clients
            &&& after.groups.len() == state.groups.len()
            &&& forall|j: int|
                0 <= j < state.groups.len() ==> (#[trigger] after.groups[j]) == if state.groups[j]
                    .id == live.id {
                    corrected(state.groups[j], group, live, zones)
                } else {
                    state.groups[j]
                }
        }),
{
    let naming = name_correction(group, live);
    let filling = clients_correction(group, live);
    let tuning = stream_correction(group, live, zones);
    let named = apply_all(state, naming);
    let filled = apply_all(named, filling);
    let tuned = apply_all(filled, tuning);
    lemma_apply_all_add(state, naming, filling);
    lemma_apply_all_add(state, naming + filling, tuning);
    lemma_apply_optional(state, naming);
    lemma_apply_optional(named, filling);
    lemma_apply_optional(filled, tuning);
    if naming.len() > 0 {
        lemma_apply_frame(state, naming[0]);
    }
    if filling.len() > 0 {
        lemma_apply_frame(named, filling[0]);
    }
    if tuning.len() > 0 {
        lemma_apply_frame(filled, tuning[0]);
    }
    assert(tuned.groups.len() == state.groups.len());
    assert forall|j: int| 0 <= j < state.groups.len() implies (#[trigger] tuned.groups[j])
        == if state.groups[j].id == live.id {
        corrected(state.groups[j], group, live, zones)
    } else {
        state.groups[j]
    } by {
        assert(named.groups[j] == if naming.len() > 0 {
            apply_to_group(state.groups[j], naming[0])
        } else {
            state.groups[j]
        });
        assert(filled.groups[j] == if filling.len() > 0 {
            apply_to_group(named.groups[j], filling[0])
        } else {
            named.groups[j]
        });
        assert(tuned.groups[j] == if tuning.len() > 0 {
            apply_to_group(filled.groups[j], tuning[0])
        } else {
            filled.groups[j]
        });
    }
}

/// After the corrections for the first `n` configured groups, every live
/// group is what `group_after` gives.
pub proof fn lemma_after_regroup(
    groups: Seq<GroupModel>,
    zones: Seq<ZoneModel>,
    live: Seq<LiveGroupModel>,
    n: int,
    state: StateModel,
)
    requires
        0 <= n <= groups.len(),
        state.groups == live,
    ensures
        ({
            let after = apply_all(state, regroup_commands(groups.take(n), zones, live));
            &&& after.streams == state.streams
            &&& after.clients == state.clients
            &&& after.groups.len() == live.len()
            &&& forall|j: int|
                0 <= j < live.len() ==> (#[trigger] after.groups[j]) == group_after(
                    groups,
                    zones,
                    live,
                    n,
                    j,
                )
        }),
    decreases n,
{
    if n == 0 {
        assert(groups.take(0) =~= Seq::<GroupModel>::empty());
    } else {
        let group = groups[n - 1];
        let before = regroup_commands(groups.take(n - 1), zones, live);
        let mid = apply_all(state, before);
        lemma_after_regroup(groups, zones, live, n - 1, state);
        assert(groups.take(n).drop_last() =~= groups.take(n - 1));
        assert(groups.take(n).last() == group);
        lemma_apply_all_add(state, before, regroup_one(zones, live, group));
        match chosen_group(live, group.devices) {
            Some(c) => {
                lemma_after_corrections(mid, group, live[c], zones);
            },
            None => {},
        }
    }
}

/// Where no live group is chosen twice and no identifier is repeated, a live
/// group that was chosen carries the corrections of the group it was chosen
/// for, and every other live group is untouched.
proof fn lemma_group_settled(
    groups: Seq<GroupModel>,
    zones: Seq<ZoneModel>,
    live: Seq<LiveGroupModel>,
    n: int,
    j: int,
)
    requires
        distinct_group_ids(live),
        no_shared_choice(groups, live),
        0 <= n <= groups.len(),
        0 <= j < live.len(),
    ensures
        group_after(groups, zones, live, n, j).id == live[j].id,
        (forall|g: int|
            0 <= g < n ==> chosen_group(live, (#[trigger] groups[g]).devices) != Some(j))
            ==> group_after(groups, zones, live, n, j) == live[j],
        forall|g: int|
            0 <= g < n && chosen_group(live, (#[trigger] groups[g]).devices) == Some(j)
                ==> group_after(groups, zones, live, n, j) == corrected(
                live[j],
                groups[g],
                live[j],
                zones,
            ),
    decreases n,
{
    if n > 0 {
        lemma_group_settled(groups, zones, live, n - 1, j);
        let earlier = group_after(groups, zones, live, n - 1, j);
        let choice = chosen_group(live, groups[n - 1].devices);
        if choice is Some {
            let c = choice.unwrap();
            assert(is_first(live, fits(groups[n - 1].devices), c));
            if c == j {
                assert forall|g: int| 0 <= g < n - 1 implies chosen_group(
                    live,
                    (#[trigger] groups[g]).devices,
                ) != Some(j) by {
                    if chosen_group(live, groups[g].devices) == Some(j) {
                        assert(chosen_group(live, groups[g].devices) != chosen_group(
                            live,
                            groups[n - 1].devices,
                        ));
                    }
                }
                assert(earlier == live[j]);
            } else {
                if c < j {
                    assert(live[c].id != live[j].id);
                } else {
                    assert(live[j].id != live[c].id);
                }
            }
        }
        assert forall|g: int|
            0 <= g < n && chosen_group(live, (#[trigger] groups[g]).devices) == Some(
                j,
            ) implies group_after(groups, zones, live, n, j) == corrected(
            live[j],
            groups[g],
            live[j],
            zones,
        ) by {
            if g < n - 1 {
                assert(chosen_group(live, groups[g].devices) != chosen_group(
                    live,
                    groups[n - 1].devices,
                ));
            }
        }
    }
}

/// A live group that carries the corrections of a configured group needs
/// none of them again, and fits that group.
proof fn lemma_corrected_is_settled(group: GroupModel, live: LiveGroupModel, zones: Seq<ZoneModel>)
    ensures
        group_corrections(group, corrected(live, group, live, zones), zones).len() == 0,
        name_set(corrected(live, group, live, zones).clients) == name_set(group.devices),
        fits(group.devices)(corrected(live, group, live, zones)),
{
}

/// On the groups that the first run leaves, the second run chooses as the
/// first did and finds nothing to correct.
proof fn lemma_regroup_settles(
    groups: Seq<GroupModel>,
    zones: Seq<ZoneModel>,
    live: Seq<LiveGroupModel>,
    after: Seq<LiveGroupModel>,
    g: int,
)
    requires
        distinct_group_ids(live),
        no_shared_choice(groups, live),
        0 <= g < groups.len(),
        after.len() == live.len(),
        forall|j: int|
            0 <= j < live.len() ==> (#[trigger] after[j]) == group_after(
                groups,
                zones,
                live,
                groups.len() as int,
                j,
            ),
    ensures
        chosen_group(after, groups[g].devices) == chosen_group(live, groups[g].devices),
        regroup_one(zones, after, groups[g]).len() == 0,
{
    let n = groups.len() as int;
    let wanted = groups[g].devices;
    let choice = chosen_group(live, wanted);
    lemma_first_index_none(live, fits(wanted));
    assert forall|k: int|
        0 <= k < live.len() && !fits(wanted)(live[k]) implies !fits(wanted)(
        #[trigger] after[k],
    ) by {
        lemma_group_settled(groups, zones, live, n, k);
        if exists|h: int|
            0 <= h < n && chosen_group(live, (#[trigger] groups[h]).devices) == Some(k) {
            let h = choose|h: int|
                0 <= h < n && chosen_group(live, (#[trigger] groups[h]).devices) == Some(k);
            lemma_corrected_is_settled(groups[h], live[k], zones);
            assert(is_first(live, fits(groups[h].devices), k));
            if fits(wanted)(after[k]) {
                assert(name_set(live[k].clients).subset_of(name_set(groups[h].devices)));
                assert(name_set(groups[h].devices).subset_of(name_set(wanted)));
                assert(name_set(live[k].clients).subset_of(name_set(wanted)));
                assert(false);
            }
        } else {
            assert(after[k] == live[k]);
        }
    }
    if choice is Some {
        let j = choice.unwrap();
        assert(is_first(live, fits(wanted), j));
        lemma_group_settled(groups, zones, live, n, j);
        lemma_corrected_is_settled(groups[g], live[j], zones);
        assert(after[j] == corrected(live[j], groups[g], live[j], zones));
        assert forall|k: int| 0 <= k < j implies !fits(wanted)(#[trigger] after[k]) by {
            assert(!fits(wanted)(live[k]));
        }
        assert(is_first(after, fits(wanted), j));
        lemma_first_index_is(after, fits(wanted), j);
    } else {
        assert forall|k: int| 0 <= k < after.len() implies !fits(wanted)(#[trigger] after[k]) by {
            assert(!fits(wanted)(live[k]));
        }
        lemma_first_index_none(after, fits(wanted));
    }
}

/// Where two snapshots list live groups with the same identifiers, and every
/// configured group is given the same choice on both, startup records the
/// same mapping on both.
proof fn lemma_same_choices_same_mapping(
    groups: Seq<GroupModel>,
    live: Seq<LiveGroupModel>,
    after: Seq<LiveGroupModel>,
)
    requires
        after.len() == live.len(),
        forall|j: int| 0 <= j < live.len() ==> (#[trigger] after[j]).id == live[j].id,
        forall|g: int|
            0 <= g < groups.len() ==> chosen_group(after, (#[trigger] groups[g]).devices)
                == chosen_group(live, groups[g].devices),
    ensures
        startup_mapping(groups, after) == startup_mapping(groups, live),
    decreases groups.len(),
{
    if groups.len() > 0 {
        let rest = groups.drop_last();
        assert forall|g: int| 0 <= g < rest.len() implies chosen_group(
            after,
            (#[trigger] rest[g]).devices,
        ) == chosen_group(live, rest[g].devices) by {
            assert(rest[g] == groups[g]);
        }
        lemma_same_choices_same_mapping(rest, live, after);
        let last = groups[groups.len() - 1];
        assert(chosen_group(after, last.devices) == chosen_group(live, last.devices));
        if chosen_group(live, last.devices) is Some {
            let j = chosen_group(live, last.devices).unwrap();
            assert(is_first(live, fits(last.devices), j));
            assert(after[j].id == live[j].id);
        }
    }
}

/// Startup reconciliation is idempotent.
///
/// Take a configuration whose devices are keyed by identifier, a snapshot
/// whose groups are, and let no live group be chosen for two configured
/// groups. Then on the state that the startup plan leaves behind, a second
/// startup reconciliation has nothing to correct, and records the mapping
/// that the first recorded.
pub proof fn lemma_startup_is_idempotent(config: ConfigModel, state: StateModel)
    requires
        config.wf(),
        state.wf(),
        no_shared_choice(config.groups, state.groups),
    ensures
        corrective_commands(config, apply_all(state, startup_commands(config, state)))
            == Seq::<CommandModel>::empty(),
        startup_mapping(config.groups, apply_all(state, startup_commands(config, state)).groups)
            == startup_mapping(config.groups, state.groups),
{
    let pruning = prune_commands(config.zones, state.streams);
    let creating = create_commands(config.zones, state.streams);
    let renaming = rename_commands(config.devices, state.clients);
    let regrouping = regroup_commands(config.groups, config.zones, state.groups);
    let pruned = apply_all(state, pruning);
    let created = apply_all(pruned, creating);
    let renamed = apply_all(created, renaming);
    let regrouped = apply_all(renamed, regrouping);
    let corrections = corrective_commands(config, state);
    let done = apply_all(state, startup_commands(config, state));

    lemma_apply_all_add(state, pruning, creating);
    lemma_apply_all_add(state, pruning + creating, renaming);
    lemma_apply_all_add(state, pruning + creating + renaming, regrouping);
    lemma_apply_all_add(state, corrections, seq![CommandModel::RequestStatus]);
    assert(startup_commands(config, state) =~= corrections + seq![CommandModel::RequestStatus]);
    lemma_apply_all_one(regrouped, CommandModel::RequestStatus);
    lemma_apply_frame(regrouped, CommandModel::RequestStatus);

    lemma_after_prune(config.zones, state.streams, state);
    lemma_after_create(config.zones, state.streams, pruned);
    assert(config.devices.take(config.devices.len() as int) =~= config.devices);
    lemma_after_rename(config.devices, state.clients, config.devices.len() as int, created);
    assert(config.groups.take(config.groups.len() as int) =~= config.groups);
    lemma_after_regroup(
        config.groups,
        config.zones,
        state.groups,
        config.groups.len() as int,
        renamed,
    );
    assert(done.streams == created.streams);
    assert(done.clients == renamed.clients);
    assert(done.groups == regrouped.groups);

    // Every stream left is accounted for by a zone.
    assert forall|i: int| 0 <= i < done.streams.len() implies (#[trigger] prune_with(config.zones)(
        done.streams[i],
    )).len() == 0 by {
        assert(has_stream(done.streams, done.streams[i].key));
    }
    lemma_concat_map_empty(done.streams, prune_with(config.zones));

    // Every zone has its stream.
    assert forall|i: int| 0 <= i < config.zones.len() implies (#[trigger] create_with(done.streams)(
        config.zones[i],
    )).len() == 0 by {
        assert(has_zone(config.zones, config.zones[i].id));
    }
    lemma_concat_map_empty(config.zones, create_with(done.streams));

    // Every device with a preferred name shows it.
    assert forall|d: int| 0 <= d < config.devices.len() implies (#[trigger] rename_with(
        done.clients,
    )(config.devices[d])).len() == 0 by {
        let device = config.devices[d];
        let wanted = client_is(device.id);
        assert forall|j: int| 0 <= j < state.clients.len() implies wanted(
            #[trigger] state.clients[j],
        ) == wanted(done.clients[j]) by {}
        lemma_first_index_congruent(state.clients, done.clients, wanted);
        if device.preferred_name is Some && first_index(state.clients, wanted) is Some {
            let j = first_index(state.clients, wanted).unwrap();
            assert(is_first(state.clients, wanted, j));
            lemma_name_settled(
                config.devices,
                state.clients,
                config.devices.len() as int,
                j,
                d,
            );
        }
    }
    lemma_concat_map_empty(config.devices, rename_with(done.clients));

    // Every configured group finds its live group corrected.
    assert forall|g: int| 0 <= g < config.groups.len() implies (#[trigger] regroup_with(
        config.zones,
        done.groups,
    )(config.groups[g])).len() == 0 by {
        lemma_regroup_settles(config.groups, config.zones, state.groups, done.groups, g);
    }
    lemma_concat_map_empty(config.groups, regroup_with(config.zones, done.groups));

    assert(corrective_commands(config, done) =~= Seq::<CommandModel>::empty());

    assert forall|g: int| 0 <= g < config.groups.len() implies chosen_group(
        done.groups,
        (#[trigger] config.groups[g]).devices,
    ) == chosen_group(state.groups, config.groups[g].devices) by {
        lemma_regroup_settles(config.groups, config.zones, state.groups, done.groups, g);
    }
    assert forall|j: int| 0 <= j < state.groups.len() implies (#[trigger] done.groups[j]).id
        == state.groups[j].id by {
        lemma_group_settled(
            config.groups,
            config.zones,
            state.groups,
            config.groups.len() as int,
            j,
        );
    }
    lemma_same_choices_same_mapping(config.groups, state.groups, done.groups);
}

} // verus!
