use snapcast_multiroom::command::Command;
use snapcast_multiroom::config::{MultiroomConfig, MultiroomConfigGroup, MultiroomConfigZone};
use snapcast_multiroom::control::{ControlLoop, LoopEvent, Phase};
use snapcast_multiroom::follow::Notification;
use snapcast_multiroom::state::{LiveGroup, LiveStream, ObservedState, StreamStatus};

fn name(value: &str) -> String {
    value.to_string()
}

fn loop_config() -> MultiroomConfig {
    MultiroomConfig {
        server_address: name("host:1705"),
        devices: vec![],
        groups: vec![
            MultiroomConfigGroup { name: name("Downstairs"), devices: vec![name("d1")] },
            MultiroomConfigGroup { name: name("Upstairs"), devices: vec![name("d2")] },
        ],
        zones: vec![
            MultiroomConfigZone {
                id: name("kitchen"),
                stream: name("kitchen-src"),
                groups: vec![name("Downstairs")],
            },
            MultiroomConfigZone {
                id: name("party"),
                stream: name("party-src"),
                groups: vec![name("Downstairs"), name("Upstairs")],
            },
        ],
    }
}

fn loop_state(first_stream: &str, second_stream: &str) -> ObservedState {
    ObservedState {
        streams: vec![
            LiveStream { key: name("kitchen"), status: StreamStatus::Idle },
            LiveStream { key: name("party"), status: StreamStatus::Idle },
        ],
        clients: vec![],
        groups: vec![
            LiveGroup {
                id: name("g1"),
                name: name("Downstairs"),
                clients: vec![name("d1")],
                stream_id: name(first_stream),
            },
            LiveGroup {
                id: name("g2"),
                name: name("Upstairs"),
                clients: vec![name("d2")],
                stream_id: name(second_stream),
            },
        ],
    }
}

fn plays(zone: &str) -> LoopEvent {
    LoopEvent::Message(Notification::StreamUpdate { id: name(zone), status: StreamStatus::Playing })
}

fn running_loop() -> ControlLoop {
    let config = loop_config();
    let state = loop_state("kitchen", "kitchen");
    let mut control = ControlLoop::new();
    control.step(LoopEvent::StatusReceived, &config, &state);
    while control.next_command().is_some() {
        control.step(LoopEvent::Delivered, &config, &state);
    }
    control
}

#[test]
fn fresh_loop_initializes_and_holds_nothing_out() {
    let control = ControlLoop::new();
    assert_eq!(control.phase(), Phase::Initializing);
    assert!(!control.is_finished());
    assert_eq!(control.next_command(), None);
    assert_eq!(control.mapping().len(), 0);
}

#[test]
fn first_status_is_answered_with_the_startup_plan() {
    let config = loop_config();
    let state = loop_state("other", "kitchen");
    let mut control = ControlLoop::new();
    control.step(LoopEvent::StatusReceived, &config, &state);
    assert_eq!(control.phase(), Phase::Initializing);
    assert_eq!(control.mapping().get(&name("Downstairs")), Some(&name("g1")));
    assert_eq!(control.mapping().get(&name("Upstairs")), Some(&name("g2")));
    assert_eq!(
        control.next_command(),
        Some(&Command::SetGroupStream { id: name("g1"), stream_id: name("kitchen") })
    );

    control.step(LoopEvent::Delivered, &config, &state);
    assert_eq!(control.phase(), Phase::Initializing);
    assert_eq!(control.next_command(), Some(&Command::RequestStatus));

    control.step(LoopEvent::Delivered, &config, &state);
    assert_eq!(control.phase(), Phase::Running);
    assert_eq!(control.next_command(), None);
    assert_eq!(control.mapping().get(&name("Downstairs")), Some(&name("g1")));
}

#[test]
fn second_status_does_not_plan_again() {
    let config = loop_config();
    let state = loop_state("other", "kitchen");
    let mut control = ControlLoop::new();
    control.step(LoopEvent::StatusReceived, &config, &state);
    let planned = control.clone();
    control.step(LoopEvent::StatusReceived, &config, &loop_state("x", "y"));
    assert_eq!(control, planned);

    let mut running = running_loop();
    let before = running.clone();
    running.step(LoopEvent::StatusReceived, &config, &state);
    assert_eq!(running, before);
}

#[test]
fn failure_during_startup_shuts_down() {
    let config = loop_config();
    let state = loop_state("other", "kitchen");
    for event in [LoopEvent::Failed, LoopEvent::DecodeFailed, LoopEvent::Terminate] {
        let mut unplanned = ControlLoop::new();
        unplanned.step(event.clone(), &config, &state);
        assert_eq!(unplanned.phase(), Phase::ShuttingDown);

        let mut planned = ControlLoop::new();
        planned.step(LoopEvent::StatusReceived, &config, &state);
        planned.step(event, &config, &state);
        assert_eq!(planned.phase(), Phase::ShuttingDown);
        assert!(planned.is_finished());
        assert_eq!(planned.next_command(), None);
    }
}

#[test]
fn delivery_report_without_a_command_changes_nothing() {
    let config = loop_config();
    let state = loop_state("other", "kitchen");
    let mut control = ControlLoop::new();
    control.step(LoopEvent::Delivered, &config, &state);
    assert_eq!(control, ControlLoop::new());

    let mut running = running_loop();
    running.step(LoopEvent::Delivered, &config, &state);
    assert_eq!(running, running_loop());
}

#[test]
fn messages_before_startup_are_not_answered() {
    let mut control = ControlLoop::new();
    control.step(plays("kitchen"), &loop_config(), &loop_state("other", "other"));
    assert_eq!(control, ControlLoop::new());
}

#[test]
fn running_loop_answers_a_stream_update_command_by_command() {
    let config = loop_config();
    let state = loop_state("kitchen", "kitchen");
    let mut control = running_loop();
    control.step(plays("party"), &config, &state);
    assert_eq!(control.phase(), Phase::Running);
    assert_eq!(
        control.next_command(),
        Some(&Command::SetGroupStream { id: name("g1"), stream_id: name("party") })
    );
    control.step(LoopEvent::Delivered, &config, &state);
    assert_eq!(
        control.next_command(),
        Some(&Command::SetGroupStream { id: name("g2"), stream_id: name("party") })
    );
    control.step(LoopEvent::Delivered, &config, &state);
    assert_eq!(control.next_command(), None);
    assert_eq!(control.phase(), Phase::Running);
}

#[test]
fn failed_command_ends_the_answer_and_nothing_else() {
    let config = loop_config();
    let state = loop_state("kitchen", "kitchen");
    let mut control = running_loop();
    control.step(plays("party"), &config, &state);
    control.step(LoopEvent::Failed, &config, &state);
    assert_eq!(control, running_loop());

    control.step(plays("party"), &config, &state);
    assert_eq!(
        control.next_command(),
        Some(&Command::SetGroupStream { id: name("g1"), stream_id: name("party") })
    );
}

#[test]
fn running_loop_survives_what_it_cannot_use() {
    let config = loop_config();
    let state = loop_state("other", "other");
    for event in [
        LoopEvent::DecodeFailed,
        LoopEvent::Failed,
        LoopEvent::StatusReceived,
        LoopEvent::Delivered,
        LoopEvent::Message(Notification::Other),
        LoopEvent::Message(Notification::StreamUpdate {
            id: name("kitchen"),
            status: StreamStatus::Idle,
        }),
        plays("garage"),
    ] {
        let mut control = running_loop();
        control.step(event, &config, &state);
        assert_eq!(control, running_loop());
    }
}

#[test]
fn termination_ends_the_loop_without_further_commands() {
    let config = loop_config();
    let state = loop_state("kitchen", "kitchen");
    let mut control = running_loop();
    control.step(plays("party"), &config, &state);
    control.step(LoopEvent::Terminate, &config, &state);
    assert_eq!(control.phase(), Phase::ShuttingDown);
    assert!(control.is_finished());
    assert_eq!(control.next_command(), None);
}

#[test]
fn shut_down_loop_stays_shut_down() {
    let config = loop_config();
    let state = loop_state("other", "other");
    let mut stopped = running_loop();
    stopped.step(LoopEvent::Terminate, &config, &state);
    for event in [
        plays("kitchen"),
        LoopEvent::StatusReceived,
        LoopEvent::Delivered,
        LoopEvent::Failed,
        LoopEvent::DecodeFailed,
        LoopEvent::Terminate,
    ] {
        let mut control = stopped.clone();
        control.step(event, &config, &state);
        assert_eq!(control, stopped);
    }
}
