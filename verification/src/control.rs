//! The control loop as a state machine.
//!
//! The loop starts out initializing, runs once startup reconciliation has
//! gone through, and ends shutting down. It never touches the server: the
//! caller sends the command that the loop holds out, reports how that went,
//! and, when no command is waiting, reports what arrived from the server or
//! that the process was asked to end.

use vstd::prelude::*;
use crate::command::{Command, CommandModel};
use crate::config::{ConfigModel, MultiroomConfig};
use crate::follow::{follow_commands, handle_notification, Notification, NotificationModel};
use crate::mapping::GroupMapping;
use crate::startup::{initial_setup, startup_commands, startup_mapping, StartupPlan};
use crate::state::{ObservedState, StateModel};

verus! {

/// Where the loop stands.
#[derive(Clone, Copy, Debug, PartialEq, Eq)]
pub enum Phase {
    Initializing,
    Running,
    ShuttingDown,
}

/// What happened since the loop was last asked.
#[derive(Clone, Debug, PartialEq, Eq)]
pub enum LoopEvent {
    /// The server's first full report has arrived; the snapshot holds it.
    StatusReceived,
    /// The server sent a message that could be decoded.
    Message(Notification),
    /// The server sent something that could not be decoded.
    DecodeFailed,
    /// The command that the loop held out was sent.
    Delivered,
    /// The command that the loop held out could not be sent, or the very
    /// first request for the server's state could not.
    Failed,
    /// The process was asked to end.
    Terminate,
}

/// An event as the specifications see it.
pub enum LoopEventModel {
    StatusReceived,
    Message(NotificationModel),
    DecodeFailed,
    Delivered,
    Failed,
    Terminate,
}

impl View for LoopEvent {
    type V = LoopEventModel;

    open spec fn view(&self) -> LoopEventModel {
        match self {
            LoopEvent::StatusReceived => LoopEventModel::StatusReceived,
            LoopEvent::Message(notification) => LoopEventModel::Message(notification@),
            LoopEvent::DecodeFailed => LoopEventModel::DecodeFailed,
            LoopEvent::Delivered => LoopEventModel::Delivered,
            LoopEvent::Failed => LoopEventModel::Failed,
            LoopEvent::Terminate => LoopEventModel::Terminate,
        }
    }
}

/// The control loop: its phase, the group mapping that startup recorded, and
/// the commands that wait to be sent, the next one first.
#[derive(Clone, Debug, PartialEq, Eq)]
pub struct ControlLoop {
    phase: Phase,
    mapping: GroupMapping,
    pending: Vec<Command>,
}

/// The loop as the specifications see it.
pub struct LoopModel {
    pub phase: Phase,
    pub mapping: Map<Seq<char>, Seq<char>>,
    pub pending: Seq<CommandModel>,
}

impl View for ControlLoop {
    type V = LoopModel;

    closed spec fn view(&self) -> LoopModel {
        LoopModel {
            phase: self.phase,
            mapping: self.mapping@,
            pending: self.pending.deep_view(),
        }
    }
}

/// The loop shut down: nothing more is sent.
pub open spec fn halted(state: LoopModel) -> LoopModel {
    LoopModel { phase: Phase::ShuttingDown, mapping: state.mapping, pending: Seq::empty() }
}

/// The loop with the command it held out taken off. An initializing loop
/// whose last command this was starts to run.
pub open spec fn advanced(state: LoopModel) -> LoopModel {
    if state.pending.len() == 0 {
        state
    } else {
        LoopModel {
            phase: if state.phase is Initializing && state.pending.len() == 1 {
                Phase::Running
            } else {
                state.phase
            },
            mapping: state.mapping,
            pending: state.pending.drop_first(),
        }
    }
}

/// The state that follows `state` on `event`.
///
/// While initializing, the first report of the server is answered with the
/// startup plan; the loop runs once every command of the plan is delivered,
/// and shuts down on the first thing that goes wrong. While running, a
/// message is answered with the commands of the follow path; a command that
/// fails takes the rest of that answer with it and nothing else; only
/// termination ends the loop; and nothing replaces the mapping. A loop that is
/// shutting down stays as it is.
pub open spec fn next_state(
    config: ConfigModel,
    state: LoopModel,
    observed: StateModel,
    event: LoopEventModel,
) -> LoopModel {
    match state.phase {
        Phase::Initializing => match event {
            LoopEventModel::StatusReceived => if state.pending.len() == 0 {
                LoopModel {
                    phase: Phase::Initializing,
                    mapping: startup_mapping(config.groups, observed.groups),
                    pending: startup_commands(config, observed),
                }
            } else {
                state
            },
            LoopEventModel::Delivered => advanced(state),
            LoopEventModel::Message(_) => state,
            _ => halted(state),
        },
        Phase::Running => match event {
            LoopEventModel::Message(notification) => LoopModel {
                phase: Phase::Running,
                mapping: state.mapping,
                pending: state.pending + follow_commands(
                    config,
                    state.mapping,
                    observed.groups,
                    notification,
                ),
            },
            LoopEventModel::Delivered => advanced(state),
            LoopEventModel::Failed => LoopModel {
                phase: Phase::Running,
                mapping: state.mapping,
                pending: Seq::empty(),
            },
            LoopEventModel::Terminate => halted(state),
            _ => state,
        },
        Phase::ShuttingDown => state,
    }
}

impl ControlLoop {
    /// A loop that is initializing, with nothing recorded and nothing to send.
    pub fn new() -> (fresh: ControlLoop)
        ensures
            fresh@ == (LoopModel {
                phase: Phase::Initializing,
                mapping: Map::empty(),
                pending: Seq::empty(),
            }),
    {
        let fresh = ControlLoop {
            phase: Phase::Initializing,
            mapping: GroupMapping::new(),
            pending: Vec::new(),
        };
        assert(fresh.pending.deep_view() =~= Seq::empty());
        fresh
    }

    /// Where the loop stands.
    pub fn phase(&self) -> (phase: Phase)
        ensures
            phase == self@.phase,
    {
        self.phase
    }

    /// Whether the loop has ended.
    pub fn is_finished(&self) -> (finished: bool)
        ensures
            finished == (self@.phase is ShuttingDown),
    {
        match self.phase {
            Phase::ShuttingDown => true,
            _ => false,
        }
    }

    /// The group mapping that the loop holds.
    pub fn mapping(&self) -> (mapping: &GroupMapping)
        ensures
            mapping@ == self@.mapping,
    {
        &self.mapping
    }

    /// The command to send now. `None` means that nothing waits: the caller
    /// stops if the loop has ended, and otherwise waits for the next event.
    pub fn next_command(&self) -> (next: Option<&Command>)
        ensures
            match next {
                Some(command) => !(self@.phase is ShuttingDown) && self@.pending.len() > 0
                    && command@ == self@.pending[0],
                None => self@.phase is ShuttingDown || self@.pending.len() == 0,
            },
    {
        match self.phase {
            Phase::ShuttingDown => None,
            _ => {
                if self.pending.len() > 0 {
                    Some(&self.pending[0])
                } else {
                    None
                }
            },
        }
    }

    fn halt(&mut self)
        ensures
            final(self)@ == halted(old(self)@),
    {
        self.phase = Phase::ShuttingDown;
        self.pending.clear();
        assert(self.pending.deep_view() =~= Seq::empty());
    }

    fn advance(&mut self)
        ensures
            final(self)@ == advanced(old(self)@),
    {
        if self.pending.len() > 0 {
            let ghost before = self.pending.deep_view();
            let _ = self.pending.remove(0);
            assert(self.pending.deep_view() =~= before.drop_first());
            if self.pending.len() == 0 {
                match self.phase {
                    Phase::Initializing => {
                        self.phase = Phase::Running;
                    },
                    _ => {},
                }
            }
        }
    }

    /// One turn of the control loop: takes in what happened, with the latest
    /// snapshot of the server.
    pub fn step(&mut self, event: LoopEvent, config: &MultiroomConfig, observed: &ObservedState)
        ensures
            final(self)@ == next_state(config@, old(self)@, observed@, event@),
    {
        match self.phase {
            Phase::Initializing => match event {
                LoopEvent::StatusReceived => {
                    if self.pending.len() == 0 {
                        let StartupPlan { commands, mapping } = initial_setup(config, observed);
                        self.pending = commands;
                        self.mapping = mapping;
                    }
                },
                LoopEvent::Delivered => {
                    self.advance();
                },
                LoopEvent::Message(_) => {},
                _ => {
                    self.halt();
                },
            },
            Phase::Running => match event {
                LoopEvent::Message(notification) => {
                    let ghost before = self.pending.deep_view();
                    let mut answer = handle_notification(
                        config,
                        &self.mapping,
                        observed,
                        &notification,
                    );
                    let ghost more = answer.deep_view();
                    self.pending.append(&mut answer);
                    assert(self.pending.deep_view() =~= before + more);
                },
                LoopEvent::Delivered => {
                    self.advance();
                },
                LoopEvent::Failed => {
                    self.pending.clear();
                    assert(self.pending.deep_view() =~= Seq::empty());
                },
                LoopEvent::Terminate => {
                    self.halt();
                },
                _ => {},
            },
            Phase::ShuttingDown => {},
        }
    }
}

} // verus!
