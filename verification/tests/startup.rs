use snapcast_multiroom::command::Command;
use snapcast_multiroom::config::{
    MultiroomConfig, MultiroomConfigDevice, MultiroomConfigGroup, MultiroomConfigZone,
};
use snapcast_multiroom::effect::apply_commands;
use snapcast_multiroom::follow::{handle_notification, Notification};
use snapcast_multiroom::startup::{
    correct_group, create_streams, find_client, find_default_zone, find_fitting_group,
    initial_setup, match_groups, prune_streams, rename_devices,
};
use snapcast_multiroom::state::{LiveClient, LiveGroup, LiveStream, ObservedState, StreamStatus};

fn text(value: &str) -> String {
    value.to_string()
}

fn texts(values: &[&str]) -> Vec<String> {
    values.iter().map(|value| value.to_string()).collect()
}

fn zone(id: &str, stream: &str, groups: &[&str]) -> MultiroomConfigZone {
    MultiroomConfigZone { id: text(id), stream: text(stream), groups: texts(groups) }
}

fn group(name: &str, devices: &[&str]) -> MultiroomConfigGroup {
    MultiroomConfigGroup { name: text(name), devices: texts(devices) }
}

fn device(id: &str, preferred_name: Option<&str>) -> MultiroomConfigDevice {
    MultiroomConfigDevice { id: text(id), preferred_name: preferred_name.map(text) }
}

fn live_group(id: &str, name: &str, clients: &[&str], stream_id: &str) -> LiveGroup {
    LiveGroup { id: text(id), name: text(name), clients: texts(clients), stream_id: text(stream_id) }
}

fn live_stream(key: &str, status: StreamStatus) -> LiveStream {
    LiveStream { key: text(key), status }
}

fn live_client(id: &str, configured_name: &str) -> LiveClient {
    LiveClient { id: text(id), configured_name: text(configured_name) }
}

fn kitchen_config() -> MultiroomConfig {
    MultiroomConfig {
        server_address: text("127.0.0.1:1705"),
        devices: vec![],
        groups: vec![group("Downstairs", &["d1", "d2"])],
        zones: vec![zone("kitchen", "kitchen-src", &["Downstairs"])],
    }
}

fn kitchen_state() -> ObservedState {
    ObservedState {
        streams: vec![live_stream("kitchen", StreamStatus::Idle)],
        clients: vec![live_client("d1", "one"), live_client("d2", "two")],
        groups: vec![live_group("g1", "Downstairs", &["d1", "d2"], "other")],
    }
}

fn house_config() -> MultiroomConfig {
    MultiroomConfig {
        server_address: text("127.0.0.1:1705"),
        devices: vec![
            device("d1", Some("Kitchen Speaker")),
            device("d2", None),
            device("d3", Some("Office")),
        ],
        groups: vec![group("Downstairs", &["d1", "d2"]), group("Upstairs", &["d3", "d4"])],
        zones: vec![
            zone("kitchen", "pipe:///tmp/kitchen?name=kitchen", &["Downstairs"]),
            zone("party", "pipe:///tmp/party?name=party", &["Downstairs", "Upstairs"]),
        ],
    }
}

fn house_state() -> ObservedState {
    ObservedState {
        streams: vec![
            live_stream("default", StreamStatus::Idle),
            live_stream("kitchen", StreamStatus::Playing),
        ],
        clients: vec![live_client("d1", "old"), live_client("d2", "x"), live_client("d4", "y")],
        groups: vec![
            live_group("gA", "Group A", &["d4"], "default"),
            live_group("gB", "Downstairs", &["d1", "d2"], "default"),
        ],
    }
}

#[test]
fn end_to_end_kitchen_example() {
    let config = kitchen_config();
    let mut state = kitchen_state();
    let plan = initial_setup(&config, &state);
    assert_eq!(
        plan.commands,
        vec![
            Command::SetGroupStream { id: text("g1"), stream_id: text("kitchen") },
            Command::RequestStatus,
        ]
    );
    assert_eq!(plan.mapping.get(&text("Downstairs")), Some(&text("g1")));
    assert_eq!(plan.mapping.len(), 1);

    apply_commands(&mut state, &plan.commands);
    assert_eq!(state.groups[0].stream_id, "kitchen");

    let playing = Notification::StreamUpdate { id: text("kitchen"), status: StreamStatus::Playing };
    let idle = Notification::StreamUpdate { id: text("kitchen"), status: StreamStatus::Idle };
    assert_eq!(handle_notification(&config, &plan.mapping, &state, &playing), vec![]);
    assert_eq!(handle_notification(&config, &plan.mapping, &state, &idle), vec![]);
    assert_eq!(handle_notification(&config, &plan.mapping, &kitchen_state(), &idle), vec![]);
}

#[test]
fn startup_plan_lists_every_correction_in_order() {
    let plan = initial_setup(&house_config(), &house_state());
    assert_eq!(
        plan.commands,
        vec![
            Command::RemoveStream { key: text("default") },
            Command::AddStream {
                key: text("party"),
                source: text("pipe:///tmp/party?name=party"),
            },
            Command::RenameClient { id: text("d1"), name: text("Kitchen Speaker") },
            Command::SetGroupStream { id: text("gB"), stream_id: text("kitchen") },
            Command::SetGroupName { id: text("gA"), name: text("Upstairs") },
            Command::SetGroupClients { id: text("gA"), clients: texts(&["d3", "d4"]) },
            Command::RequestStatus,
        ]
    );
    assert_eq!(plan.mapping.get(&text("Downstairs")), Some(&text("gB")));
    assert_eq!(plan.mapping.get(&text("Upstairs")), Some(&text("gA")));
    assert_eq!(plan.mapping.get(&text("Attic")), None);
}

#[test]
fn startup_is_idempotent_on_the_state_it_leaves() {
    let config = house_config();
    let mut state = house_state();
    let first = initial_setup(&config, &state);
    assert_eq!(first.commands.len(), 7);
    apply_commands(&mut state, &first.commands);
    let second = initial_setup(&config, &state);
    assert_eq!(second.commands, vec![Command::RequestStatus]);
    assert_eq!(second.mapping.get(&text("Downstairs")), Some(&text("gB")));
    assert_eq!(second.mapping.get(&text("Upstairs")), Some(&text("gA")));
}

#[test]
fn startup_on_an_empty_server_only_creates_streams() {
    let state = ObservedState { streams: vec![], clients: vec![], groups: vec![] };
    let plan = initial_setup(&house_config(), &state);
    assert_eq!(
        plan.commands,
        vec![
            Command::AddStream {
                key: text("kitchen"),
                source: text("pipe:///tmp/kitchen?name=kitchen"),
            },
            Command::AddStream {
                key: text("party"),
                source: text("pipe:///tmp/party?name=party"),
            },
            Command::RequestStatus,
        ]
    );
    assert_eq!(plan.mapping.len(), 0);
}

#[test]
fn stale_stream_is_removed_once_and_not_created() {
    let config = house_config();
    let state = house_state();
    let plan = initial_setup(&config, &state);
    let removals = plan
        .commands
        .iter()
        .filter(|command| **command == Command::RemoveStream { key: text("default") })
        .count();
    assert_eq!(removals, 1);
    assert!(!plan.commands.iter().any(|command| matches!(
        command,
        Command::AddStream { key, .. } if key == "default"
    )));
    assert!(!plan.commands.iter().any(|command| matches!(
        command,
        Command::RemoveStream { key } if key == "kitchen"
    )));
}

#[test]
fn prune_streams_appends_to_what_is_there() {
    let zones = vec![zone("kitchen", "src", &[])];
    let streams = vec![
        live_stream("a", StreamStatus::Idle),
        live_stream("kitchen", StreamStatus::Idle),
        live_stream("b", StreamStatus::Unknown),
    ];
    let mut commands = vec![Command::RequestStatus];
    prune_streams(&zones, &streams, &mut commands);
    assert_eq!(
        commands,
        vec![
            Command::RequestStatus,
            Command::RemoveStream { key: text("a") },
            Command::RemoveStream { key: text("b") },
        ]
    );
}

#[test]
fn create_streams_skips_zones_that_have_one() {
    let zones = vec![zone("kitchen", "k-src", &[]), zone("bath", "b-src", &[])];
    let streams = vec![live_stream("bath", StreamStatus::Disabled)];
    let mut commands = vec![];
    create_streams(&zones, &streams, &mut commands);
    assert_eq!(commands, vec![Command::AddStream { key: text("kitchen"), source: text("k-src") }]);
}

#[test]
fn rename_devices_skips_what_it_cannot_or_need_not_rename() {
    let devices = vec![
        device("same", Some("Same")),
        device("none", None),
        device("gone", Some("Gone")),
        device("other", Some("New")),
    ];
    let clients = vec![
        live_client("same", "Same"),
        live_client("none", "whatever"),
        live_client("other", "Old"),
    ];
    let mut commands = vec![];
    rename_devices(&devices, &clients, &mut commands);
    assert_eq!(commands, vec![Command::RenameClient { id: text("other"), name: text("New") }]);
}

#[test]
fn first_fitting_group_wins_and_order_decides() {
    let devices = texts(&["d1", "d2", "d3"]);
    let small = live_group("small", "s", &["d1"], "x");
    let large = live_group("large", "l", &["d2", "d3"], "x");
    let alien = live_group("alien", "a", &["d9"], "x");
    let one_way = vec![alien.clone(), small.clone(), large.clone()];
    let other_way = vec![alien.clone(), large.clone(), small.clone()];
    assert_eq!(find_fitting_group(&one_way, &devices), Some(1));
    assert_eq!(find_fitting_group(&other_way, &devices), Some(1));
    assert_eq!(one_way[1].id, "small");
    assert_eq!(other_way[1].id, "large");

    let groups = vec![group("All", &["d1", "d2", "d3"])];
    let mut commands = vec![];
    let first = match_groups(&groups, &vec![], &one_way, &mut commands);
    let second = match_groups(&groups, &vec![], &other_way, &mut commands);
    assert_eq!(first.get(&text("All")), Some(&text("small")));
    assert_eq!(second.get(&text("All")), Some(&text("large")));
}

#[test]
fn a_live_group_without_clients_fits_any_group() {
    let live = vec![live_group("empty", "e", &[], "x")];
    assert_eq!(find_fitting_group(&live, &texts(&["d1"])), Some(0));
    assert_eq!(find_fitting_group(&live, &texts(&[])), Some(0));
}

#[test]
fn no_live_group_fits_when_each_has_a_foreign_client() {
    let live = vec![
        live_group("g1", "a", &["d1", "d9"], "x"),
        live_group("g2", "b", &["d8"], "x"),
    ];
    assert_eq!(find_fitting_group(&live, &texts(&["d1", "d2"])), None);
    assert_eq!(find_fitting_group(&vec![], &texts(&["d1", "d2"])), None);
}

#[test]
fn unmatched_group_is_left_out_of_the_mapping() {
    let config = MultiroomConfig {
        server_address: text("host:1705"),
        devices: vec![],
        groups: vec![group("Attic", &["d9"])],
        zones: vec![zone("attic", "attic-src", &["Attic"])],
    };
    let state = ObservedState {
        streams: vec![live_stream("attic", StreamStatus::Idle)],
        clients: vec![],
        groups: vec![live_group("g1", "x", &["d1"], "other")],
    };
    let plan = initial_setup(&config, &state);
    assert_eq!(plan.commands, vec![Command::RequestStatus]);
    assert_eq!(plan.mapping.get(&text("Attic")), None);

    let later = ObservedState {
        streams: vec![live_stream("attic", StreamStatus::Playing)],
        clients: vec![],
        groups: vec![live_group("g1", "x", &["d9"], "other")],
    };
    let playing = Notification::StreamUpdate { id: text("attic"), status: StreamStatus::Playing };
    assert_eq!(handle_notification(&config, &plan.mapping, &later, &playing), vec![]);
}

#[test]
fn default_zone_is_the_first_zone_that_names_the_group_alone() {
    let zones = vec![
        zone("both", "s", &["A", "B"]),
        zone("none", "s", &[]),
        zone("first", "s", &["A"]),
        zone("second", "s", &["A"]),
        zone("twice", "s", &["B", "B"]),
    ];
    assert_eq!(find_default_zone(&zones, &text("A")), Some(2));
    assert_eq!(find_default_zone(&zones, &text("B")), Some(4));
    assert_eq!(find_default_zone(&zones, &text("C")), None);
}

#[test]
fn zone_with_two_groups_assigns_no_default_stream() {
    let zones = vec![zone("party", "s", &["A", "B"])];
    let live = live_group("g1", "A", &["d1"], "other");
    let mut commands = vec![];
    correct_group(&group("A", &["d1"]), &live, &zones, &mut commands);
    assert_eq!(commands, vec![]);
}

#[test]
fn zone_with_one_group_assigns_its_stream_once() {
    let zones = vec![zone("solo", "s", &["A"])];
    let mut commands = vec![];
    correct_group(
        &group("A", &["d1"]),
        &live_group("g1", "A", &["d1"], "other"),
        &zones,
        &mut commands,
    );
    assert_eq!(commands, vec![Command::SetGroupStream { id: text("g1"), stream_id: text("solo") }]);

    let mut settled = vec![];
    correct_group(
        &group("A", &["d1"]),
        &live_group("g1", "A", &["d1"], "solo"),
        &zones,
        &mut settled,
    );
    assert_eq!(settled, vec![]);
}

#[test]
fn correct_group_renames_refills_and_retunes_in_that_order() {
    let zones = vec![zone("solo", "s", &["A"])];
    let mut commands = vec![];
    correct_group(
        &group("A", &["d1", "d2"]),
        &live_group("g1", "old", &["d2"], "other"),
        &zones,
        &mut commands,
    );
    assert_eq!(
        commands,
        vec![
            Command::SetGroupName { id: text("g1"), name: text("A") },
            Command::SetGroupClients { id: text("g1"), clients: texts(&["d1", "d2"]) },
            Command::SetGroupStream { id: text("g1"), stream_id: text("solo") },
        ]
    );
}

#[test]
fn clients_in_another_order_are_the_same_set() {
    let mut commands = vec![];
    correct_group(
        &group("A", &["d1", "d2"]),
        &live_group("g1", "A", &["d2", "d1"], "x"),
        &vec![],
        &mut commands,
    );
    assert_eq!(commands, vec![]);
}

#[test]
fn find_client_returns_the_first_with_the_identifier() {
    let clients = vec![live_client("a", "1"), live_client("b", "2"), live_client("b", "3")];
    assert_eq!(find_client(&clients, &text("b")), Some(1));
    assert_eq!(find_client(&clients, &text("a")), Some(0));
    assert_eq!(find_client(&clients, &text("c")), None);
}

#[test]
fn a_group_name_configured_twice_keeps_its_last_match() {
    let groups = vec![group("Twin", &["d1"]), group("Twin", &["d2"])];
    let live = vec![live_group("g1", "Twin", &["d1"], "x"), live_group("g2", "Twin", &["d2"], "x")];
    let mut commands = vec![];
    let mapping = match_groups(&groups, &vec![], &live, &mut commands);
    assert_eq!(mapping.get(&text("Twin")), Some(&text("g2")));
    assert_eq!(commands, vec![]);
}

#[test]
fn zone_that_names_an_unknown_group_is_tolerated() {
    let config = MultiroomConfig {
        server_address: text("host:1705"),
        devices: vec![],
        groups: vec![group("Known", &["d1"])],
        zones: vec![zone("solo", "solo-src", &["Ghost"]), zone("mixed", "m-src", &["Ghost", "Known"])],
    };
    let state = ObservedState {
        streams: vec![
            live_stream("solo", StreamStatus::Idle),
            live_stream("mixed", StreamStatus::Idle),
        ],
        clients: vec![],
        groups: vec![live_group("g1", "Known", &["d1"], "other")],
    };
    let plan = initial_setup(&config, &state);
    assert_eq!(plan.commands, vec![Command::RequestStatus]);
    assert_eq!(plan.mapping.get(&text("Ghost")), None);

    let playing = Notification::StreamUpdate { id: text("mixed"), status: StreamStatus::Playing };
    assert_eq!(
        handle_notification(&config, &plan.mapping, &state, &playing),
        vec![Command::SetGroupStream { id: text("g1"), stream_id: text("mixed") }]
    );
    let solo = Notification::StreamUpdate { id: text("solo"), status: StreamStatus::Playing };
    assert_eq!(handle_notification(&config, &plan.mapping, &state, &solo), vec![]);
}

#[test]
fn live_group_chosen_twice_need_not_settle() {
    let config = MultiroomConfig {
        server_address: text("host:1705"),
        devices: vec![],
        groups: vec![group("A", &["d1", "d2"]), group("B", &["d1"])],
        zones: vec![],
    };
    let mut state = ObservedState {
        streams: vec![],
        clients: vec![],
        groups: vec![live_group("g1", "X", &["d1"], "s")],
    };
    let first = initial_setup(&config, &state);
    assert_eq!(
        first.commands,
        vec![
            Command::SetGroupName { id: text("g1"), name: text("A") },
            Command::SetGroupClients { id: text("g1"), clients: texts(&["d1", "d2"]) },
            Command::SetGroupName { id: text("g1"), name: text("B") },
            Command::RequestStatus,
        ]
    );
    assert_eq!(first.mapping.get(&text("A")), Some(&text("g1")));
    assert_eq!(first.mapping.get(&text("B")), Some(&text("g1")));

    apply_commands(&mut state, &first.commands);
    let second = initial_setup(&config, &state);
    assert_eq!(
        second.commands,
        vec![Command::SetGroupName { id: text("g1"), name: text("A") }, Command::RequestStatus]
    );
    assert_eq!(second.mapping.get(&text("B")), None);
}
