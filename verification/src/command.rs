//! The commands that the engine asks the server to carry out.

use vstd::prelude::*;

verus! {

/// One request to the server. The engine only names them; sending is the
/// caller's business, one at a time and in the order given.
#[derive(Clone, Debug, PartialEq, Eq)]
pub enum Command {
    /// Drop the stream with this key.
    RemoveStream { key: String },
    /// Create the stream described by `source`, which the server is expected
    /// to file under `key`.
    AddStream { key: String, source: String },
    /// Give the client a display name.
    RenameClient { id: String, name: String },
    /// Give the group a name.
    SetGroupName { id: String, name: String },
    /// Make exactly these clients the members of the group.
    SetGroupClients { id: String, clients: Vec<String> },
    /// Tune the group to a stream.
    SetGroupStream { id: String, stream_id: String },
    /// Ask the server to report its full state again.
    RequestStatus,
}

/// A command as the specifications see it.
pub enum CommandModel {
    RemoveStream { key: Seq<char> },
    AddStream { key: Seq<char>, source: Seq<char> },
    RenameClient { id: Seq<char>, name: Seq<char> },
    SetGroupName { id: Seq<char>, name: Seq<char> },
    SetGroupClients { id: Seq<char>, clients: Seq<Seq<char>> },
    SetGroupStream { id: Seq<char>, stream_id: Seq<char> },
    RequestStatus,
}

impl View for Command {
    type V = CommandModel;

    open spec fn view(&self) -> CommandModel {
        match self {
            Command::RemoveStream { key } => CommandModel::RemoveStream { key: key@ },
            Command::AddStream { key, source } => CommandModel::AddStream {
                key: key@,
                source: source@,
            },
            Command::RenameClient { id, name } => CommandModel::RenameClient {
                id: id@,
                name: name@,
            },
            Command::SetGroupName { id, name } => CommandModel::SetGroupName {
                id: id@,
                name: name@,
            },
            Command::SetGroupClients { id, clients } => CommandModel::SetGroupClients {
                id: id@,
                clients: clients.deep_view(),
            },
            Command::SetGroupStream { id, stream_id } => CommandModel::SetGroupStream {
                id: id@,
                stream_id: stream_id@,
            },
            Command::RequestStatus => CommandModel::RequestStatus,
        }
    }
}

impl DeepView for Command {
    type V = CommandModel;

    open spec fn deep_view(&self) -> CommandModel {
        self@
    }
}

/// Appends `command` to `commands`.
pub fn issue(commands: &mut Vec<Command>, command: Command)
    ensures
        final(commands).deep_view() == old(commands).deep_view().push(command@),
{
    commands.push(command);
    assert(commands.deep_view() =~= old(commands).deep_view().push(command@));
}

} // verus!
