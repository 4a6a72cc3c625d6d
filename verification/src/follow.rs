//! The follow path: the correction made when a stream starts to play.
//!
//! A notification that a zone's stream is playing retunes the groups of that
//! zone: each group name is resolved through the group mapping, and the live
//! group it stands for is tuned to the zone unless it already is. Any other
//! status, any other notification, and a zone that is not configured lead to
//! nothing.

use vstd::prelude::*;
use crate::command::{issue, Command, CommandModel};
use crate::config::{ConfigModel, MultiroomConfig, MultiroomConfigZone, ZoneModel};
use crate::mapping::GroupMapping;
use crate::seqs::{
    as_index, concat_map, first_index, is_first, lemma_concat_map_step, lemma_first_index_is,
    lemma_first_index_none,
};
use crate::state::{group_is, LiveGroup, LiveGroupModel, ObservedState, StreamStatus};

verus! {

/// What the server reported. Only a stream update means anything to the
/// engine; every other message is `Other`.
#[derive(Clone, Debug, PartialEq, Eq)]
pub enum Notification {
    StreamUpdate { id: String, status: StreamStatus },
    Other,
}

/// A notification as the specifications see it.
pub enum NotificationModel {
    StreamUpdate { id: Seq<char>, status: StreamStatus },
    Other,
}

impl View for Notification {
    type V = NotificationModel;

    open spec fn view(&self) -> NotificationModel {
        match self {
            Notification::StreamUpdate { id, status } => NotificationModel::StreamUpdate {
                id: id@,
                status: *status,
            },
            Notification::Other => NotificationModel::Other,
        }
    }
}

/// The zones with the identifier `id`.
pub open spec fn zone_is(id: Seq<char>) -> spec_fn(ZoneModel) -> bool {
    |zone: ZoneModel| zone.id == id
}

/// The configured zone with the identifier `id`.
pub open spec fn zone_of(zones: Seq<ZoneModel>, id: Seq<char>) -> Option<int> {
    first_index(zones, zone_is(id))
}

/// The retuning of one group of the zone: the live group that the mapping
/// gives for `name` is tuned to `zone`, unless the name is unmapped, the live
/// group is gone, or it plays the zone already.
pub open spec fn follow_group(
    mapping: Map<Seq<char>, Seq<char>>,
    live: Seq<LiveGroupModel>,
    zone: Seq<char>,
    name: Seq<char>,
) -> Seq<CommandModel> {
    if mapping.contains_key(name) {
        match first_index(live, group_is(mapping[name])) {
            Some(g) => if live[g].stream_id != zone {
                seq![CommandModel::SetGroupStream { id: mapping[name], stream_id: zone }]
            } else {
                Seq::empty()
            },
            None => Seq::empty(),
        }
    } else {
        Seq::empty()
    }
}

/// `follow_group` for a fixed mapping, snapshot and zone.
pub open spec fn follow_with(
    mapping: Map<Seq<char>, Seq<char>>,
    live: Seq<LiveGroupModel>,
    zone: Seq<char>,
) -> spec_fn(Seq<char>) -> Seq<CommandModel> {
    |name: Seq<char>| follow_group(mapping, live, zone, name)
}

/// The retunings for all groups of a zone, in the order in which the zone
/// lists them.
pub open spec fn follow_zone(
    mapping: Map<Seq<char>, Seq<char>>,
    live: Seq<LiveGroupModel>,
    zone: ZoneModel,
) -> Seq<CommandModel> {
    concat_map(zone.groups, follow_with(mapping, live, zone.id))
}

/// The stream that a notification reports as playing, if it reports one.
pub open spec fn playing_stream(notification: NotificationModel) -> Option<Seq<char>> {
    match notification {
        NotificationModel::StreamUpdate { id, status } => if status is Playing {
            Some(id)
        } else {
            None
        },
        NotificationModel::Other => None,
    }
}

/// The commands that answer a notification: where it reports the stream of
/// a configured zone as playing, the retunings for that zone.
pub open spec fn follow_commands(
    config: ConfigModel,
    mapping: Map<Seq<char>, Seq<char>>,
    live: Seq<LiveGroupModel>,
    notification: NotificationModel,
) -> Seq<CommandModel> {
    match playing_stream(notification) {
        Some(id) => match zone_of(config.zones, id) {
            Some(z) => follow_zone(mapping, live, config.zones[z]),
            None => Seq::empty(),
        },
        None => Seq::empty(),
    }
}

/// `command` tunes a live group that `mapping` names to `stream`.
pub open spec fn retunes_mapped(
    mapping: Map<Seq<char>, Seq<char>>,
    stream: Seq<char>,
    command: CommandModel,
) -> bool {
    exists|name: Seq<char>| #[trigger]
        mapping.contains_key(name) && command == (CommandModel::SetGroupStream {
            id: mapping[name],
            stream_id: stream,
        })
}

/// The position of the first zone with the identifier `id`.
pub fn find_zone(zones: &Vec<MultiroomConfigZone>, id: &String) -> (found: Option<usize>)
    ensures
        as_index(found) == zone_of(zones.deep_view(), id@),
        found matches Some(i) ==> i < zones.len(),
{
    let mut i: usize = 0;
    while i < zones.len()
        invariant
            i <= zones.len(),
            forall|j: int| 0 <= j < i ==> !zone_is(id@)(#[trigger] zones.deep_view()[j]),
        decreases zones.len() - i,
    {
        if zones[i].id == *id {
            proof {
                assert(is_first(zones.deep_view(), zone_is(id@), i as int));
                lemma_first_index_is(zones.deep_view(), zone_is(id@), i as int);
            }
            return Some(i);
        }
        i += 1;
    }
    proof {
        lemma_first_index_none(zones.deep_view(), zone_is(id@));
    }
    None
}

/// The position of the first live group with the identifier `id`.
pub fn find_group(live: &Vec<LiveGroup>, id: &String) -> (found: Option<usize>)
    ensures
        as_index(found) == first_index(live.deep_view(), group_is(id@)),
        found matches Some(i) ==> i < live.len(),
{
    let mut i: usize = 0;
    while i < live.len()
        invariant
            i <= live.len(),
            forall|j: int| 0 <= j < i ==> !group_is(id@)(#[trigger] live.deep_view()[j]),
        decreases live.len() - i,
    {
        if live[i].id == *id {
            proof {
                assert(is_first(live.deep_view(), group_is(id@), i as int));
                lemma_first_index_is(live.deep_view(), group_is(id@), i as int);
            }
            return Some(i);
        }
        i += 1;
    }
    proof {
        lemma_first_index_none(live.deep_view(), group_is(id@));
    }
    None
}

/// Retunes the groups of `zone` that play something else.
pub fn follow_stream(
    zone: &MultiroomConfigZone,
    mapping: &GroupMapping,
    live: &Vec<LiveGroup>,
) -> (commands: Vec<Command>)
    ensures
        commands.deep_view() == follow_zone(mapping@, live.deep_view(), zone@),
{
    let ghost names = zone.groups.deep_view();
    let ghost ls = live.deep_view();
    let ghost each = follow_with(mapping@, ls, zone.id@);
    let mut commands: Vec<Command> = Vec::new();
    let mut i: usize = 0;
    assert(commands.deep_view() =~= concat_map(names.take(0), each));
    while i < zone.groups.len()
        invariant
            i <= zone.groups.len(),
            names == zone.groups.deep_view(),
            ls == live.deep_view(),
            each == follow_with(mapping@, ls, zone.id@),
            commands.deep_view() == concat_map(names.take(i as int), each),
        decreases zone.groups.len() - i,
    {
        proof {
            lemma_concat_map_step(names, each, i as int);
        }
        match mapping.get(&zone.groups[i]) {
            Some(group_id) => {
                match find_group(live, group_id) {
                    Some(g) => {
                        if live[g].stream_id != zone.id {
                            issue(
                                &mut commands,
                                Command::SetGroupStream {
                                    id: group_id.clone(),
                                    stream_id: zone.id.clone(),
                                },
                            );
                        }
                    },
                    None => {},
                }
            },
            None => {},
        }
        assert(commands.deep_view() =~= concat_map(names.take(i + 1), each));
        i += 1;
    }
    assert(names.take(zone.groups.len() as int) =~= names);
    commands
}

/// Answers one notification from the server.
///
/// Returns the commands to send, in order. The caller sends them one by one;
/// a failure ends this answer and nothing else.
pub fn handle_notification(
    config: &MultiroomConfig,
    mapping: &GroupMapping,
    state: &ObservedState,
    notification: &Notification,
) -> (commands: Vec<Command>)
    ensures
        commands.deep_view() == follow_commands(
            config@,
            mapping@,
            state@.groups,
            notification@,
        ),
        playing_stream(notification@) is None ==> commands@.len() == 0,
{
    let mut none: Vec<Command> = Vec::new();
    assert(none.deep_view() =~= Seq::empty());
    match notification {
        Notification::StreamUpdate { id, status } => {
            match find_zone(&config.zones, id) {
                Some(z) => {
                    match status {
                        StreamStatus::Playing => follow_stream(
                            &config.zones[z],
                            mapping,
                            &state.groups,
                        ),
                        _ => none,
                    }
                },
                None => none,
            }
        },
        Notification::Other => none,
    }
}

} // verus!
