//! Startup reconciliation: the full comparison of desired and observed state.
//!
//! The plan has five parts, in this order: stale streams are removed, missing
//! streams are created, devices get their preferred names, each configured
//! group is matched to a live group and corrected, and the server is asked to
//! report its state again. Every decision is taken on the one snapshot that
//! the plan was computed from.

use vstd::prelude::*;
use crate::command::{issue, Command, CommandModel};
use crate::config::{
    has_zone, zone_exists, ConfigModel, DeviceModel, GroupModel, MultiroomConfig,
    MultiroomConfigDevice, MultiroomConfigGroup, MultiroomConfigZone, ZoneModel,
};
use crate::mapping::GroupMapping;
use crate::names::{clone_names, holds_only, is_subset, name_set, same_names};
use crate::seqs::{
    as_index, concat_map, first_index, is_first, lemma_concat_map_step, lemma_first_index_is,
    lemma_first_index_none,
};
use crate::state::{
    client_is, has_stream, stream_exists, ClientModel, LiveClient, LiveGroup, LiveGroupModel,
    LiveStream, ObservedState, StateModel, StreamModel,
};

verus! {

/// A stream whose key is no zone's identifier is removed.
pub open spec fn prune_stream(zones: Seq<ZoneModel>, stream: StreamModel) -> Seq<CommandModel> {
    if has_zone(zones, stream.key) {
        Seq::empty()
    } else {
        seq![CommandModel::RemoveStream { key: stream.key }]
    }
}

/// `prune_stream` for fixed zones.
pub open spec fn prune_with(zones: Seq<ZoneModel>) -> spec_fn(StreamModel) -> Seq<CommandModel> {
    |stream: StreamModel| prune_stream(zones, stream)
}

/// The removals, in the order of the observed streams.
pub open spec fn prune_commands(zones: Seq<ZoneModel>, streams: Seq<StreamModel>) -> Seq<
    CommandModel,
> {
    concat_map(streams, prune_with(zones))
}

/// A zone without a stream of its identifier gets one, made from its source.
pub open spec fn create_stream(streams: Seq<StreamModel>, zone: ZoneModel) -> Seq<CommandModel> {
    if has_stream(streams, zone.id) {
        Seq::empty()
    } else {
        seq![CommandModel::AddStream { key: zone.id, source: zone.stream }]
    }
}

/// `create_stream` for a fixed snapshot.
pub open spec fn create_with(streams: Seq<StreamModel>) -> spec_fn(ZoneModel) -> Seq<CommandModel> {
    |zone: ZoneModel| create_stream(streams, zone)
}

/// The creations, in the order of the configured zones.
pub open spec fn create_commands(zones: Seq<ZoneModel>, streams: Seq<StreamModel>) -> Seq<
    CommandModel,
> {
    concat_map(zones, create_with(streams))
}

/// A device with a preferred name is renamed where the server knows it under
/// another name. Without a preferred name, or without a live client, nothing
/// is done.
pub open spec fn rename_device(clients: Seq<ClientModel>, device: DeviceModel) -> Seq<
    CommandModel,
> {
    match (device.preferred_name, first_index(clients, client_is(device.id))) {
        (Some(name), Some(i)) => if clients[i].configured_name != name {
            seq![CommandModel::RenameClient { id: device.id, name }]
        } else {
            Seq::empty()
        },
        _ => Seq::empty(),
    }
}

/// `rename_device` for a fixed snapshot.
pub open spec fn rename_with(clients: Seq<ClientModel>) -> spec_fn(DeviceModel) -> Seq<
    CommandModel,
> {
    |device: DeviceModel| rename_device(clients, device)
}

/// The renamings, in the order of the configured devices.
pub open spec fn rename_commands(devices: Seq<DeviceModel>, clients: Seq<ClientModel>) -> Seq<
    CommandModel,
> {
    concat_map(devices, rename_with(clients))
}

/// The live groups that may stand for a configured group with these devices:
/// those whose clients are all among the devices.
pub open spec fn fits(devices: Seq<Seq<char>>) -> spec_fn(LiveGroupModel) -> bool {
    |live: LiveGroupModel| name_set(live.clients).subset_of(name_set(devices))
}

/// The live group chosen for a configured group: the first that fits.
pub open spec fn chosen_group(live: Seq<LiveGroupModel>, devices: Seq<Seq<char>>) -> Option<int> {
    first_index(live, fits(devices))
}

/// The zones that name `group` and no other group.
pub open spec fn sole_group(group: Seq<char>) -> spec_fn(ZoneModel) -> bool {
    |zone: ZoneModel| name_set(zone.groups) == set![group]
}

/// The zone that a group plays by default: the first that names it alone.
pub open spec fn default_zone(zones: Seq<ZoneModel>, group: Seq<char>) -> Option<int> {
    first_index(zones, sole_group(group))
}

/// The live group takes the configured name.
pub open spec fn name_correction(group: GroupModel, live: LiveGroupModel) -> Seq<CommandModel> {
    if live.name != group.name {
        seq![CommandModel::SetGroupName { id: live.id, name: group.name }]
    } else {
        Seq::empty()
    }
}

/// The live group's clients are replaced by the configured devices.
pub open spec fn clients_correction(group: GroupModel, live: LiveGroupModel) -> Seq<CommandModel> {
    if name_set(live.clients) != name_set(group.devices) {
        seq![CommandModel::SetGroupClients { id: live.id, clients: group.devices }]
    } else {
        Seq::empty()
    }
}

/// The live group is tuned to the group's default zone, where it has one.
pub open spec fn stream_correction(
    group: GroupModel,
    live: LiveGroupModel,
    zones: Seq<ZoneModel>,
) -> Seq<CommandModel> {
    match default_zone(zones, group.name) {
        Some(z) => if live.stream_id != zones[z].id {
            seq![CommandModel::SetGroupStream { id: live.id, stream_id: zones[z].id }]
        } else {
            Seq::empty()
        },
        None => Seq::empty(),
    }
}

/// What is corrected on the live group chosen for a configured group: its
/// name, then its clients, then its stream.
pub open spec fn group_corrections(
    group: GroupModel,
    live: LiveGroupModel,
    zones: Seq<ZoneModel>,
) -> Seq<CommandModel> {
    name_correction(group, live) + clients_correction(group, live) + stream_correction(
        group,
        live,
        zones,
    )
}

/// The corrections for one configured group; none where no live group fits.
pub open spec fn regroup_one(
    zones: Seq<ZoneModel>,
    live: Seq<LiveGroupModel>,
    group: GroupModel,
) -> Seq<CommandModel> {
    match chosen_group(live, group.devices) {
        Some(j) => group_corrections(group, live[j], zones),
        None => Seq::empty(),
    }
}

/// `regroup_one` for fixed zones and a fixed snapshot.
pub open spec fn regroup_with(zones: Seq<ZoneModel>, live: Seq<LiveGroupModel>) -> spec_fn(
    GroupModel,
) -> Seq<CommandModel> {
    |group: GroupModel| regroup_one(zones, live, group)
}

/// The group corrections, in the order of the configured groups.
pub open spec fn regroup_commands(
    groups: Seq<GroupModel>,
    zones: Seq<ZoneModel>,
    live: Seq<LiveGroupModel>,
) -> Seq<CommandModel> {
    concat_map(groups, regroup_with(zones, live))
}

/// The mapping that startup records: each configured group that found a live
/// group, under its name. A name configured twice keeps its last match.
pub open spec fn startup_mapping(groups: Seq<GroupModel>, live: Seq<LiveGroupModel>) -> Map<
    Seq<char>,
    Seq<char>,
>
    decreases groups.len(),
{
    if groups.len() == 0 {
        Map::empty()
    } else {
        let earlier = startup_mapping(groups.drop_last(), live);
        match chosen_group(live, groups.last().devices) {
            Some(j) => earlier.insert(groups.last().name, live[j].id),
            None => earlier,
        }
    }
}

/// Everything that startup changes on the server.
pub open spec fn corrective_commands(config: ConfigModel, state: StateModel) -> Seq<CommandModel> {
    prune_commands(config.zones, state.streams) + create_commands(config.zones, state.streams)
        + rename_commands(config.devices, state.clients) + regroup_commands(
        config.groups,
        config.zones,
        state.groups,
    )
}

/// The whole startup plan: the corrections, then the request for a fresh
/// report of the server's state.
pub open spec fn startup_commands(config: ConfigModel, state: StateModel) -> Seq<CommandModel> {
    corrective_commands(config, state).push(CommandModel::RequestStatus)
}

/// What startup reconciliation hands back: the commands to send, in order,
/// and the group mapping to keep.
#[derive(Clone, Debug, PartialEq, Eq)]
pub struct StartupPlan {
    pub commands: Vec<Command>,
    pub mapping: GroupMapping,
}

/// The position of the first client with the identifier `id`.
pub fn find_client(clients: &Vec<LiveClient>, id: &String) -> (found: Option<usize>)
    ensures
        as_index(found) == first_index(clients.deep_view(), client_is(id@)),
        found matches Some(i) ==> i < clients.len(),
{
    let mut i: usize = 0;
    while i < clients.len()
        invariant
            i <= clients.len(),
            forall|j: int| 0 <= j < i ==> !client_is(id@)(#[trigger] clients.deep_view()[j]),
        decreases clients.len() - i,
    {
        if clients[i].id == *id {
            proof {
                assert(is_first(clients.deep_view(), client_is(id@), i as int));
                lemma_first_index_is(clients.deep_view(), client_is(id@), i as int);
            }
            return Some(i);
        }
        i += 1;
    }
    proof {
        lemma_first_index_none(clients.deep_view(), client_is(id@));
    }
    None
}

/// The position of the first live group whose clients are all among `devices`.
pub fn find_fitting_group(live: &Vec<LiveGroup>, devices: &Vec<String>) -> (found: Option<usize>)
    ensures
        as_index(found) == chosen_group(live.deep_view(), devices.deep_view()),
        found matches Some(i) ==> i < live.len(),
{
    let mut i: usize = 0;
    while i < live.len()
        invariant
            i <= live.len(),
            forall|j: int|
                0 <= j < i ==> !fits(devices.deep_view())(#[trigger] live.deep_view()[j]),
        decreases live.len() - i,
    {
        if is_subset(&live[i].clients, devices) {
            proof {
                assert(is_first(live.deep_view(), fits(devices.deep_view()), i as int));
                lemma_first_index_is(live.deep_view(), fits(devices.deep_view()), i as int);
            }
            return Some(i);
        }
        i += 1;
    }
    proof {
        lemma_first_index_none(live.deep_view(), fits(devices.deep_view()));
    }
    None
}

/// The position of the first zone that names `group` and no other group.
pub fn find_default_zone(zones: &Vec<MultiroomConfigZone>, group: &String) -> (found: Option<
    usize,
>)
    ensures
        as_index(found) == default_zone(zones.deep_view(), group@),
        found matches Some(i) ==> i < zones.len(),
{
    let mut i: usize = 0;
    while i < zones.len()
        invariant
            i <= zones.len(),
            forall|j: int| 0 <= j < i ==> !sole_group(group@)(#[trigger] zones.deep_view()[j]),
        decreases zones.len() - i,
    {
        if holds_only(&zones[i].groups, group) {
            proof {
                assert(is_first(zones.deep_view(), sole_group(group@), i as int));
                lemma_first_index_is(zones.deep_view(), sole_group(group@), i as int);
            }
            return Some(i);
        }
        i += 1;
    }
    proof {
        lemma_first_index_none(zones.deep_view(), sole_group(group@));
    }
    None
}

/// Appends the removal of every observed stream that no zone accounts for.
pub fn prune_streams(
    zones: &Vec<MultiroomConfigZone>,
    streams: &Vec<LiveStream>,
    commands: &mut Vec<Command>,
)
    ensures
        final(commands).deep_view() == old(commands).deep_view() + prune_commands(
            zones.deep_view(),
            streams.deep_view(),
        ),
{
    let ghost before = commands.deep_view();
    let ghost zs = zones.deep_view();
    let ghost ss = streams.deep_view();
    let mut i: usize = 0;
    assert(commands.deep_view() =~= before + prune_commands(zs, ss.take(0)));
    while i < streams.len()
        invariant
            i <= streams.len(),
            zs == zones.deep_view(),
            ss == streams.deep_view(),
            commands.deep_view() == before + prune_commands(zs, ss.take(i as int)),
        decreases streams.len() - i,
    {
        proof {
            lemma_concat_map_step(ss, prune_with(zs), i as int);
        }
        if !zone_exists(zones, &streams[i].key) {
            issue(commands, Command::RemoveStream { key: streams[i].key.clone() });
        }
        assert(commands.deep_view() =~= before + prune_commands(zs, ss.take(i + 1)));
        i += 1;
    }
    assert(ss.take(streams.len() as int) =~= ss);
}

/// Appends the creation of a stream for every zone that has none.
pub fn create_streams(
    zones: &Vec<MultiroomConfigZone>,
    streams: &Vec<LiveStream>,
    commands: &mut Vec<Command>,
)
    ensures
        final(commands).deep_view() == old(commands).deep_view() + create_commands(
            zones.deep_view(),
            streams.deep_view(),
        ),
{
    let ghost before = commands.deep_view();
    let ghost zs = zones.deep_view();
    let ghost ss = streams.deep_view();
    let mut i: usize = 0;
    assert(commands.deep_view() =~= before + create_commands(zs.take(0), ss));
    while i < zones.len()
        invariant
            i <= zones.len(),
            zs == zones.deep_view(),
            ss == streams.deep_view(),
            commands.deep_view() == before + create_commands(zs.take(i as int), ss),
        decreases zones.len() - i,
    {
        proof {
            lemma_concat_map_step(zs, create_with(ss), i as int);
        }
        if !stream_exists(streams, &zones[i].id) {
            issue(
                commands,
                Command::AddStream { key: zones[i].id.clone(), source: zones[i].stream.clone() },
            );
        }
        assert(commands.deep_view() =~= before + create_commands(zs.take(i + 1), ss));
        i += 1;
    }
    assert(zs.take(zones.len() as int) =~= zs);
}

/// Appends a renaming for every device whose live client shows another name
/// than the preferred one.
pub fn rename_devices(
    devices: &Vec<MultiroomConfigDevice>,
    clients: &Vec<LiveClient>,
    commands: &mut Vec<Command>,
)
    ensures
        final(commands).deep_view() == old(commands).deep_view() + rename_commands(
            devices.deep_view(),
            clients.deep_view(),
        ),
{
    let ghost before = commands.deep_view();
    let ghost ds = devices.deep_view();
    let ghost cs = clients.deep_view();
    let mut i: usize = 0;
    assert(commands.deep_view() =~= before + rename_commands(ds.take(0), cs));
    while i < devices.len()
        invariant
            i <= devices.len(),
            ds == devices.deep_view(),
            cs == clients.deep_view(),
            commands.deep_view() == before + rename_commands(ds.take(i as int), cs),
        decreases devices.len() - i,
    {
        proof {
            lemma_concat_map_step(ds, rename_with(cs), i as int);
        }
        let device = &devices[i];
        match &device.preferred_name {
            Some(name) => {
                match find_client(clients, &device.id) {
                    Some(c) => {
                        if clients[c].configured_name != *name {
                            issue(
                                commands,
                                Command::RenameClient { id: device.id.clone(), name: name.clone() },
                            );
                        }
                    },
                    None => {},
                }
            },
            None => {},
        }
        assert(commands.deep_view() =~= before + rename_commands(ds.take(i + 1), cs));
        i += 1;
    }
    assert(ds.take(devices.len() as int) =~= ds);
}

/// Appends what has to change on `live` for it to stand for `group`.
pub fn correct_group(
    group: &MultiroomConfigGroup,
    live: &LiveGroup,
    zones: &Vec<MultiroomConfigZone>,
    commands: &mut Vec<Command>,
)
    ensures
        final(commands).deep_view() == old(commands).deep_view() + group_corrections(
            group@,
            live@,
            zones.deep_view(),
        ),
{
    let ghost before = commands.deep_view();
    if live.name != group.name {
        issue(commands, Command::SetGroupName { id: live.id.clone(), name: group.name.clone() });
    }
    assert(commands.deep_view() =~= before + name_correction(group@, live@));
    if !same_names(&live.clients, &group.devices) {
        issue(
            commands,
            Command::SetGroupClients { id: live.id.clone(), clients: clone_names(&group.devices) },
        );
    }
    assert(commands.deep_view() =~= before + name_correction(group@, live@) + clients_correction(
        group@,
        live@,
    ));
    match find_default_zone(zones, &group.name) {
        Some(z) => {
            if live.stream_id != zones[z].id {
                issue(
                    commands,
                    Command::SetGroupStream {
                        id: live.id.clone(),
                        stream_id: zones[z].id.clone(),
                    },
                );
            }
        },
        None => {},
    }
    assert(commands.deep_view() =~= before + group_corrections(group@, live@, zones.deep_view()));
}

/// Matches every configured group to a live group, appends the corrections,
/// and returns the mapping from group name to live group.
pub fn match_groups(
    groups: &Vec<MultiroomConfigGroup>,
    zones: &Vec<MultiroomConfigZone>,
    live: &Vec<LiveGroup>,
    commands: &mut Vec<Command>,
) -> (mapping: GroupMapping)
    ensures
        final(commands).deep_view() == old(commands).deep_view() + regroup_commands(
            groups.deep_view(),
            zones.deep_view(),
            live.deep_view(),
        ),
        mapping@ == startup_mapping(groups.deep_view(), live.deep_view()),
{
    let ghost before = commands.deep_view();
    let ghost gs = groups.deep_view();
    let ghost zs = zones.deep_view();
    let ghost ls = live.deep_view();
    let mut mapping = GroupMapping::new();
    let mut i: usize = 0;
    assert(commands.deep_view() =~= before + regroup_commands(gs.take(0), zs, ls));
    while i < groups.len()
        invariant
            i <= groups.len(),
            gs == groups.deep_view(),
            zs == zones.deep_view(),
            ls == live.deep_view(),
            commands.deep_view() == before + regroup_commands(gs.take(i as int), zs, ls),
            mapping@ == startup_mapping(gs.take(i as int), ls),
        decreases groups.len() - i,
    {
        proof {
            lemma_concat_map_step(gs, regroup_with(zs, ls), i as int);
            assert(gs.take(i + 1).drop_last() =~= gs.take(i as int));
        }
        let group = &groups[i];
        match find_fitting_group(live, &group.devices) {
            Some(j) => {
                mapping.insert(group.name.clone(), live[j].id.clone());
                correct_group(group, &live[j], zones, commands);
            },
            None => {},
        }
        assert(commands.deep_view() =~= before + regroup_commands(gs.take(i + 1), zs, ls));
        i += 1;
    }
    assert(gs.take(groups.len() as int) =~= gs);
    mapping
}

/// Startup reconciliation.
///
/// Compares the configuration with the snapshot and returns the commands
/// that align the server with it, in the order in which they must be sent,
/// together with the group mapping. The caller sends them one by one and
/// gives up at the first that fails.
pub fn initial_setup(config: &MultiroomConfig, state: &ObservedState) -> (plan: StartupPlan)
    ensures
        plan.commands.deep_view() == startup_commands(config@, state@),
        plan.mapping@ == startup_mapping(config@.groups, state@.groups),
{
    let mut commands: Vec<Command> = Vec::new();
    assert(commands.deep_view() =~= Seq::empty());
    prune_streams(&config.zones, &state.streams, &mut commands);
    create_streams(&config.zones, &state.streams, &mut commands);
    rename_devices(&config.devices, &state.clients, &mut commands);
    let mapping = match_groups(&config.groups, &config.zones, &state.groups, &mut commands);
    assert(commands.deep_view() =~= corrective_commands(config@, state@));
    issue(&mut commands, Command::RequestStatus);
    StartupPlan { commands, mapping }
}

} // verus!
