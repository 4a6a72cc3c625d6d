use snapcast_multiroom::config::{
    device_recurs, distinct_names, init_config, keyed_devices, keyed_zones, tidy_groups,
    zone_exists, zone_recurs, MultiroomConfig, MultiroomConfigDevice, MultiroomConfigGroup,
    MultiroomConfigJson, MultiroomConfigZone,
};
use snapcast_multiroom::names::{clone_names, contains_name, holds_only, is_subset, same_names};

fn id(value: &str) -> String {
    value.to_string()
}

fn ids(values: &[&str]) -> Vec<String> {
    values.iter().map(|value| value.to_string()).collect()
}

fn strings(value: &serde_json::Value) -> Vec<String> {
    value
        .as_array()
        .expect("could not deserialize config")
        .iter()
        .map(|item| item.as_str().expect("could not deserialize config").to_string())
        .collect()
}

fn string(value: &serde_json::Value) -> String {
    value.as_str().expect("could not deserialize config").to_string()
}

fn items(value: &serde_json::Value) -> Vec<serde_json::Value> {
    value.as_array().expect("could not deserialize config").clone()
}

const EXAMPLE: &str = r#"{
  "serverAddress": "127.0.0.1:1705",
  "devices": [
    { "id": "d1", "preferredName": "Kitchen" },
    { "id": "d2" }
  ],
  "groups": [
    { "name": "Downstairs", "devices": ["d1", "d2", "d1"] }
  ],
  "zones": [
    { "id": "kitchen", "stream": "pipe:///tmp/kitchen?name=kitchen", "groups": ["Downstairs"] }
  ]
}"#;

#[test]
fn test_deserialize_config() {
    let document: serde_json::Value =
        serde_json::from_str(EXAMPLE).expect("could not deserialize config");
    let written = MultiroomConfigJson {
        server_address: string(&document["serverAddress"]),
        devices: items(&document["devices"])
            .iter()
            .map(|device| MultiroomConfigDevice {
                id: string(&device["id"]),
                preferred_name: device["preferredName"].as_str().map(|name| name.to_string()),
            })
            .collect(),
        groups: items(&document["groups"])
            .iter()
            .map(|group| MultiroomConfigGroup {
                name: string(&group["name"]),
                devices: strings(&group["devices"]),
            })
            .collect(),
        zones: items(&document["zones"])
            .iter()
            .map(|zone| MultiroomConfigZone {
                id: string(&zone["id"]),
                stream: string(&zone["stream"]),
                groups: strings(&zone["groups"]),
            })
            .collect(),
    };
    let config: MultiroomConfig = init_config(written);
    assert_eq!(config.server_address, "127.0.0.1:1705");
    assert_eq!(config.devices.len(), 2);
    assert_eq!(config.devices[0].preferred_name, Some(id("Kitchen")));
    assert_eq!(config.devices[1].preferred_name, None);
    assert_eq!(config.groups[0].devices, ids(&["d1", "d2"]));
    assert_eq!(config.zones[0].groups, ids(&["Downstairs"]));
}

#[test]
fn later_entries_replace_earlier_ones_with_the_same_identifier() {
    let written = MultiroomConfigJson {
        server_address: id("host:1705"),
        devices: vec![
            MultiroomConfigDevice { id: id("d1"), preferred_name: Some(id("first")) },
            MultiroomConfigDevice { id: id("d2"), preferred_name: None },
            MultiroomConfigDevice { id: id("d1"), preferred_name: Some(id("second")) },
        ],
        groups: vec![
            MultiroomConfigGroup { name: id("G"), devices: ids(&["d2", "d1", "d2"]) },
            MultiroomConfigGroup { name: id("G"), devices: ids(&[]) },
        ],
        zones: vec![
            MultiroomConfigZone { id: id("z"), stream: id("old"), groups: ids(&["G"]) },
            MultiroomConfigZone { id: id("y"), stream: id("other"), groups: ids(&["G", "H", "G"]) },
            MultiroomConfigZone { id: id("z"), stream: id("new"), groups: ids(&["H", "H"]) },
        ],
    };
    let config = init_config(written);
    assert_eq!(
        config,
        MultiroomConfig {
            server_address: id("host:1705"),
            devices: vec![
                MultiroomConfigDevice { id: id("d2"), preferred_name: None },
                MultiroomConfigDevice { id: id("d1"), preferred_name: Some(id("second")) },
            ],
            groups: vec![
                MultiroomConfigGroup { name: id("G"), devices: ids(&["d2", "d1"]) },
                MultiroomConfigGroup { name: id("G"), devices: ids(&[]) },
            ],
            zones: vec![
                MultiroomConfigZone { id: id("y"), stream: id("other"), groups: ids(&["G", "H"]) },
                MultiroomConfigZone { id: id("z"), stream: id("new"), groups: ids(&["H"]) },
            ],
        }
    );
}

#[test]
fn empty_written_configuration_gives_an_empty_configuration() {
    let config = init_config(MultiroomConfigJson {
        server_address: id(""),
        devices: vec![],
        groups: vec![],
        zones: vec![],
    });
    assert_eq!(
        config,
        MultiroomConfig { server_address: id(""), devices: vec![], groups: vec![], zones: vec![] }
    );
}

#[test]
fn normalizing_helpers_give_each_key_once() {
    let devices = vec![
        MultiroomConfigDevice { id: id("a"), preferred_name: None },
        MultiroomConfigDevice { id: id("a"), preferred_name: Some(id("x")) },
    ];
    assert!(device_recurs(&devices, 0));
    assert!(!device_recurs(&devices, 1));
    assert_eq!(keyed_devices(&devices), vec![devices[1].clone()]);

    let zones = vec![
        MultiroomConfigZone { id: id("z"), stream: id("1"), groups: ids(&["a", "a"]) },
        MultiroomConfigZone { id: id("w"), stream: id("2"), groups: ids(&[]) },
    ];
    assert!(!zone_recurs(&zones, 0));
    assert!(!zone_recurs(&zones, 1));
    assert_eq!(keyed_zones(&zones)[0].groups, ids(&["a"]));
    assert!(zone_exists(&zones, &id("w")));
    assert!(!zone_exists(&zones, &id("v")));

    let groups = vec![MultiroomConfigGroup { name: id("g"), devices: ids(&["b", "a", "b", "a"]) }];
    assert_eq!(tidy_groups(&groups)[0].devices, ids(&["b", "a"]));
    assert_eq!(distinct_names(&ids(&["x", "y", "x", "z", "y"])), ids(&["x", "y", "z"]));
}

#[test]
fn name_lists_are_compared_as_sets() {
    assert!(contains_name(&ids(&["a", "b"]), &id("b")));
    assert!(!contains_name(&ids(&["a", "b"]), &id("c")));
    assert!(!contains_name(&ids(&[]), &id("")));

    assert!(is_subset(&ids(&[]), &ids(&[])));
    assert!(is_subset(&ids(&["a", "a"]), &ids(&["b", "a"])));
    assert!(!is_subset(&ids(&["a", "c"]), &ids(&["b", "a"])));

    assert!(same_names(&ids(&["a", "b", "a"]), &ids(&["b", "a"])));
    assert!(!same_names(&ids(&["a"]), &ids(&["b", "a"])));
    assert!(same_names(&ids(&[]), &ids(&[])));

    assert!(holds_only(&ids(&["a"]), &id("a")));
    assert!(holds_only(&ids(&["a", "a"]), &id("a")));
    assert!(!holds_only(&ids(&["a", "b"]), &id("a")));
    assert!(!holds_only(&ids(&[]), &id("a")));
    assert!(!holds_only(&ids(&["b"]), &id("a")));

    assert_eq!(clone_names(&ids(&["x", "y"])), ids(&["x", "y"]));
}
