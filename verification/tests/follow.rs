use snapcast_multiroom::command::Command;
use snapcast_multiroom::config::{MultiroomConfig, MultiroomConfigGroup, MultiroomConfigZone};
use snapcast_multiroom::follow::{
    find_group, find_zone, follow_stream, handle_notification, Notification,
};
use snapcast_multiroom::mapping::GroupMapping;
use snapcast_multiroom::state::{LiveGroup, ObservedState, StreamStatus};

fn word(value: &str) -> String {
    value.to_string()
}

fn words(values: &[&str]) -> Vec<String> {
    values.iter().map(|value| value.to_string()).collect()
}

fn two_zone_config() -> MultiroomConfig {
    MultiroomConfig {
        server_address: word("host:1705"),
        devices: vec![],
        groups: vec![
            MultiroomConfigGroup { name: word("Downstairs"), devices: words(&["d1", "d2"]) },
            MultiroomConfigGroup { name: word("Upstairs"), devices: words(&["d3"]) },
            MultiroomConfigGroup { name: word("Attic"), devices: words(&["d9"]) },
        ],
        zones: vec![
            MultiroomConfigZone {
                id: word("kitchen"),
                stream: word("kitchen-src"),
                groups: words(&["Downstairs"]),
            },
            MultiroomConfigZone {
                id: word("party"),
                stream: word("party-src"),
                groups: words(&["Upstairs", "Attic", "Downstairs"]),
            },
        ],
    }
}

fn two_group_state(first_stream: &str, second_stream: &str) -> ObservedState {
    ObservedState {
        streams: vec![],
        clients: vec![],
        groups: vec![
            LiveGroup {
                id: word("g1"),
                name: word("Downstairs"),
                clients: words(&["d1", "d2"]),
                stream_id: word(first_stream),
            },
            LiveGroup {
                id: word("g2"),
                name: word("Upstairs"),
                clients: words(&["d3"]),
                stream_id: word(second_stream),
            },
        ],
    }
}

fn two_group_mapping() -> GroupMapping {
    let mut mapping = GroupMapping::new();
    mapping.insert(word("Downstairs"), word("g1"));
    mapping.insert(word("Upstairs"), word("g2"));
    mapping
}

fn update(id: &str, status: StreamStatus) -> Notification {
    Notification::StreamUpdate { id: word(id), status }
}

#[test]
fn playing_stream_retunes_the_groups_of_its_zone() {
    let commands = handle_notification(
        &two_zone_config(),
        &two_group_mapping(),
        &two_group_state("kitchen", "kitchen"),
        &update("party", StreamStatus::Playing),
    );
    assert_eq!(
        commands,
        vec![
            Command::SetGroupStream { id: word("g2"), stream_id: word("party") },
            Command::SetGroupStream { id: word("g1"), stream_id: word("party") },
        ]
    );
}

#[test]
fn playing_stream_skips_groups_that_follow_already() {
    let commands = handle_notification(
        &two_zone_config(),
        &two_group_mapping(),
        &two_group_state("kitchen", "party"),
        &update("party", StreamStatus::Playing),
    );
    assert_eq!(commands, vec![Command::SetGroupStream { id: word("g1"), stream_id: word("party") }]);
}

#[test]
fn only_playing_triggers_corrections() {
    let config = two_zone_config();
    let mapping = two_group_mapping();
    let state = two_group_state("other", "other");
    for status in [StreamStatus::Idle, StreamStatus::Disabled, StreamStatus::Unknown] {
        assert_eq!(handle_notification(&config, &mapping, &state, &update("kitchen", status)), vec![]);
        assert_eq!(handle_notification(&config, &mapping, &state, &update("party", status)), vec![]);
    }
    assert_eq!(
        handle_notification(&config, &mapping, &state, &update("kitchen", StreamStatus::Playing)),
        vec![Command::SetGroupStream { id: word("g1"), stream_id: word("kitchen") }]
    );
}

#[test]
fn unknown_zone_is_ignored() {
    let commands = handle_notification(
        &two_zone_config(),
        &two_group_mapping(),
        &two_group_state("other", "other"),
        &update("garage", StreamStatus::Playing),
    );
    assert_eq!(commands, vec![]);
}

#[test]
fn other_notifications_are_ignored() {
    let commands = handle_notification(
        &two_zone_config(),
        &two_group_mapping(),
        &two_group_state("other", "other"),
        &Notification::Other,
    );
    assert_eq!(commands, vec![]);
}

#[test]
fn unmapped_group_is_never_retuned() {
    let mut state = two_group_state("other", "other");
    state.groups.push(LiveGroup {
        id: word("g9"),
        name: word("Attic"),
        clients: words(&["d9"]),
        stream_id: word("other"),
    });
    let commands = handle_notification(
        &two_zone_config(),
        &two_group_mapping(),
        &state,
        &update("party", StreamStatus::Playing),
    );
    assert!(!commands.iter().any(|command| matches!(
        command,
        Command::SetGroupStream { id, .. } if id == "g9"
    )));
    assert_eq!(commands.len(), 2);
}

#[test]
fn mapped_group_that_left_the_server_is_skipped() {
    let mut state = two_group_state("other", "other");
    state.groups.remove(0);
    let commands = handle_notification(
        &two_zone_config(),
        &two_group_mapping(),
        &state,
        &update("kitchen", StreamStatus::Playing),
    );
    assert_eq!(commands, vec![]);
}

#[test]
fn follow_stream_with_an_empty_mapping_does_nothing() {
    let config = two_zone_config();
    let state = two_group_state("other", "other");
    assert_eq!(follow_stream(&config.zones[1], &GroupMapping::new(), &state.groups), vec![]);
}

#[test]
fn find_zone_and_find_group_return_the_first_match() {
    let config = two_zone_config();
    let state = two_group_state("a", "b");
    assert_eq!(find_zone(&config.zones, &word("party")), Some(1));
    assert_eq!(find_zone(&config.zones, &word("garage")), None);
    assert_eq!(find_group(&state.groups, &word("g2")), Some(1));
    assert_eq!(find_group(&state.groups, &word("g3")), None);
}

#[test]
fn mapping_answers_with_the_last_recording() {
    let mut mapping = GroupMapping::new();
    assert_eq!(mapping.get(&word("A")), None);
    assert_eq!(mapping.len(), 0);
    mapping.insert(word("A"), word("g1"));
    mapping.insert(word("B"), word("g2"));
    mapping.insert(word("A"), word("g3"));
    assert_eq!(mapping.get(&word("A")), Some(&word("g3")));
    assert_eq!(mapping.get(&word("B")), Some(&word("g2")));
    assert_eq!(mapping.get(&word("C")), None);
    assert_eq!(mapping.len(), 3);
}
