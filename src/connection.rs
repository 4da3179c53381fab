//! The decisions of one connection's lifecycle: read, parse, route, write and
//! close. The caller performs each action and reports what came of it.

use vstd::prelude::*;
use crate::error::ServerError;
use crate::request::{parse_spec, HttpRequest, ParseError, ParseSpec};
use crate::router::{error_response, error_wire, file_for, route_result, route_target, success_wire};

verus! {

/// Where a connection stands.
#[derive(Debug, Clone, Copy, PartialEq, Eq, Structural)]
pub enum ConnState {
    /// Waiting for the one read of the request's bytes.
    AwaitingRead,
    /// Waiting for the requested file to be read.
    Routing,
    /// Waiting for the response to be written.
    Writing,
    /// Shut down; nothing further happens.
    Closed,
}

/// What came of the last action.
#[derive(Debug)]
pub enum ConnEvent {
    /// The read gave this text.
    Received(String),
    /// The read failed, or its bytes are not UTF-8 text.
    ReadFailed,
    /// The requested file holds this text.
    FileRead(String),
    /// The requested file could not be opened or read.
    FileUnreadable,
    /// The write finished, whether or not it succeeded.
    WriteFinished,
}

/// What the caller is to do next.
#[derive(Debug)]
pub enum ConnAction {
    /// Read this file, relative to the server root, as text.
    ReadFile(String),
    /// Write these bytes to the peer.
    Write(String),
    /// Shut down both directions of the connection.
    Shutdown,
    /// Nothing: the event does not apply in this state.
    Nothing,
}

/// The next state and action, in terms of characters.
pub enum ActionSpec {
    ReadFile(Seq<char>),
    Write(Seq<char>),
    Shutdown,
    Nothing,
}

/// The transition that `event` causes in `state`.
pub open spec fn next(state: ConnState, event: ConnEvent, default_page: Seq<char>) -> (
    ConnState,
    ActionSpec,
) {
    match (state, event) {
        (ConnState::AwaitingRead, ConnEvent::Received(t)) => match parse_spec(t@) {
            ParseSpec::Parsed { path, .. } => (
                ConnState::Routing,
                ActionSpec::ReadFile(file_for(path, default_page)),
            ),
            ParseSpec::NotImplemented => (
                ConnState::Writing,
                ActionSpec::Write(error_wire(ServerError::NotImplemented)),
            ),
            _ => (ConnState::Closed, ActionSpec::Shutdown),
        },
        (ConnState::AwaitingRead, ConnEvent::ReadFailed) => (ConnState::Closed, ActionSpec::Shutdown),
        (ConnState::Routing, ConnEvent::FileRead(c)) => (
            ConnState::Writing,
            ActionSpec::Write(success_wire(c@)),
        ),
        (ConnState::Routing, ConnEvent::FileUnreadable) => (
            ConnState::Writing,
            ActionSpec::Write(error_wire(ServerError::NotFound)),
        ),
        (ConnState::Writing, ConnEvent::WriteFinished) => (ConnState::Closed, ActionSpec::Shutdown),
        _ => (state, ActionSpec::Nothing),
    }
}

/// Whether `a` is the action that `s` describes.
pub open spec fn action_is(a: ConnAction, s: ActionSpec) -> bool {
    match (a, s) {
        (ConnAction::ReadFile(f), ActionSpec::ReadFile(g)) => f@ == g,
        (ConnAction::Write(w), ActionSpec::Write(v)) => w@ == v,
        (ConnAction::Shutdown, ActionSpec::Shutdown) => true,
        (ConnAction::Nothing, ActionSpec::Nothing) => true,
        _ => false,
    }
}

/// One transition of a connection: from its state and the event that the
/// last action gave, the next state and the action to perform. A request
/// that parses asks for its file; one whose method is not implemented is
/// answered with `501`; any other parse failure, or a failed read, closes the
/// connection without a response; a file's contents are served with `200`
/// and an unreadable file with `404`; a finished write closes the
/// connection.
pub fn step(state: ConnState, event: ConnEvent, default_page: &str) -> (r: (ConnState, ConnAction))
    ensures
        r.0 == next(state, event, default_page@).0,
        action_is(r.1, next(state, event, default_page@).1),
{
    match (state, event) {
        (ConnState::AwaitingRead, ConnEvent::Received(t)) => {
            match HttpRequest::from_str(t.as_str()) {
                Ok(req) => {
                    let f = route_target(&req, default_page);
                    (ConnState::Routing, ConnAction::ReadFile(f))
                },
                Err(ParseError::Server(e)) => {
                    let resp = error_response(e);
                    (ConnState::Writing, ConnAction::Write(resp.to_string()))
                },
                Err(_) => (ConnState::Closed, ConnAction::Shutdown),
            }
        },
        (ConnState::AwaitingRead, ConnEvent::ReadFailed) => (ConnState::Closed, ConnAction::Shutdown),
        (ConnState::Routing, ConnEvent::FileRead(c)) => {
            match route_result(Some(c)) {
                Ok(resp) => (ConnState::Writing, ConnAction::Write(resp.to_string())),
                Err(e) => (ConnState::Writing, ConnAction::Write(error_response(e).to_string())),
            }
        },
        (ConnState::Routing, ConnEvent::FileUnreadable) => {
            let resp = error_response(ServerError::NotFound);
            (ConnState::Writing, ConnAction::Write(resp.to_string()))
        },
        (ConnState::Writing, ConnEvent::WriteFinished) => (ConnState::Closed, ConnAction::Shutdown),
        _ => (state, ConnAction::Nothing),
    }
}

} // verus!
