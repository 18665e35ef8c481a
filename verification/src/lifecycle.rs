//! The lifecycle of each protocol server, as a typed state machine:
//! `Stopped` to `Starting` on start, `Starting` to `Running` once the
//! socket is bound, any state to `Stopping` on the halt signal, and
//! `Stopping` back to `Stopped` when the in-flight work has drained.

use vstd::prelude::*;

verus! {

/// The state a protocol server is in.
#[derive(Clone, Copy, Debug, PartialEq, Eq, Structural)]
pub enum ServerState {
    Stopped,
    Starting,
    Running,
    Stopping,
}

/// What can happen to a server.
#[derive(Clone, Copy, Debug, PartialEq, Eq, Structural)]
pub enum ServerInput {
    /// The supervisor asked the server to start.
    Start,
    /// The socket was bound and the started signal sent.
    BindSucceeded,
    /// The halt signal arrived.
    Halt,
    /// Every in-flight worker finished or the drain deadline passed.
    Drained,
}

/// The transition relation of the server lifecycle. An input that a
/// state has no edge for leaves the state where it is.
pub open spec fn spec_lifecycle_step(s: ServerState, input: ServerInput) -> ServerState {
    match (s, input) {
        (ServerState::Stopped, ServerInput::Start) => ServerState::Starting,
        (ServerState::Starting, ServerInput::BindSucceeded) => ServerState::Running,
        (ServerState::Stopped, ServerInput::Halt) => ServerState::Stopped,
        (_, ServerInput::Halt) => ServerState::Stopping,
        (ServerState::Stopping, ServerInput::Drained) => ServerState::Stopped,
        (_, _) => s,
    }
}

/// Advances the lifecycle by one input.
pub fn lifecycle_step(s: ServerState, input: ServerInput) -> (r: ServerState)
    ensures
        r == spec_lifecycle_step(s, input),
        s == ServerState::Stopped && input == ServerInput::Start ==> r == ServerState::Starting,
        s == ServerState::Starting && input == ServerInput::BindSucceeded ==> r
            == ServerState::Running,
        s != ServerState::Stopped && input == ServerInput::Halt ==> r == ServerState::Stopping,
        s == ServerState::Stopping && input == ServerInput::Drained ==> r == ServerState::Stopped,
{
    match (s, input) {
        (ServerState::Stopped, ServerInput::Start) => ServerState::Starting,
        (ServerState::Starting, ServerInput::BindSucceeded) => ServerState::Running,
        (ServerState::Stopped, ServerInput::Halt) => ServerState::Stopped,
        (_, ServerInput::Halt) => ServerState::Stopping,
        (ServerState::Stopping, ServerInput::Drained) => ServerState::Stopped,
        (_, _) => s,
    }
}

/// Only a running server has a bound address to report: the socket
/// address becomes readable exactly in `Running`.
pub fn bind_address_readable(s: ServerState) -> (r: bool)
    ensures
        r <==> s == ServerState::Running,
{
    match s {
        ServerState::Running => true,
        _ => false,
    }
}

} // verus!
