//! The per-session lifecycle machine.
//!
//! A session moves `Idle -> Connecting -> Authenticating -> Interactive`
//! and ends in `Closed` (with the remote exit status) or `Failed` (with the
//! kind of error that the failing component raised). The worker performs
//! the blocking transport, authentication and shell calls and feeds what it
//! observed in here; this machine decides the next state.

use vstd::prelude::*;
use crate::errors::ErrorKind;

verus! {

/// The lifecycle state of one session. `Closed` carries the remote exit
/// status; `Failed` carries the kind of error that ended the session.
#[derive(Clone, Copy, Debug, PartialEq, Eq, Structural)]
pub enum SessionState {
    Idle,
    Connecting,
    Authenticating,
    Interactive,
    Closed(i32),
    Failed(ErrorKind),
}

/// An observation the session worker feeds into the lifecycle machine.
///
/// `HandshakeDone` means the stream transport is open and the protocol
/// handshake finished; `AuthAccepted` means the credential was taken but
/// the shell is not up yet; `ShellStarted` covers pty allocation and shell
/// start succeeding together.
#[derive(Clone, Copy, Debug, PartialEq, Eq, Structural)]
pub enum SessionEvent {
    ConnectRequested,
    TransportFailed,
    HandshakeDone,
    HandshakeFailed,
    AuthAccepted,
    AuthRejected,
    ShellStarted,
    ShellFailed,
    ChunkDelivered,
    RemoteClosed(i32),
    ReadFailed,
    DecodeFailed,
}

impl SessionState {
    /// True for the two states no transition leaves.
    pub open spec fn is_terminal(&self) -> bool {
        self is Closed || self is Failed
    }
}

/// The state that follows `s` when the worker observes `e`. Terminal
/// states absorb every event; an event that does not belong to the current
/// stage leaves the state unchanged.
pub open spec fn spec_advance(s: SessionState, e: SessionEvent) -> SessionState {
    match (s, e) {
        (SessionState::Idle, SessionEvent::ConnectRequested) => SessionState::Connecting,
        (SessionState::Connecting, SessionEvent::HandshakeDone) => SessionState::Authenticating,
        (SessionState::Connecting, SessionEvent::TransportFailed) => SessionState::Failed(
            ErrorKind::Network,
        ),
        (SessionState::Connecting, SessionEvent::HandshakeFailed) => SessionState::Failed(
            ErrorKind::Handshake,
        ),
        (SessionState::Authenticating, SessionEvent::AuthAccepted) => SessionState::Authenticating,
        (SessionState::Authenticating, SessionEvent::AuthRejected) => SessionState::Failed(
            ErrorKind::Auth,
        ),
        (SessionState::Authenticating, SessionEvent::ShellStarted) => SessionState::Interactive,
        (SessionState::Authenticating, SessionEvent::ShellFailed) => SessionState::Failed(
            ErrorKind::ShellStart,
        ),
        (SessionState::Interactive, SessionEvent::ChunkDelivered) => SessionState::Interactive,
        (SessionState::Interactive, SessionEvent::RemoteClosed(status)) => SessionState::Closed(
            status,
        ),
        (SessionState::Interactive, SessionEvent::ReadFailed) => SessionState::Failed(ErrorKind::Io),
        (SessionState::Interactive, SessionEvent::DecodeFailed) => SessionState::Failed(
            ErrorKind::Encoding,
        ),
        _ => s,
    }
}

/// Advances the lifecycle machine by one observed event.
pub fn advance(s: SessionState, e: SessionEvent) -> (r: SessionState)
    ensures
        r == spec_advance(s, e),
{
    match (s, e) {
        (SessionState::Idle, SessionEvent::ConnectRequested) => SessionState::Connecting,
        (SessionState::Connecting, SessionEvent::HandshakeDone) => SessionState::Authenticating,
        (SessionState::Connecting, SessionEvent::TransportFailed) => SessionState::Failed(
            ErrorKind::Network,
        ),
        (SessionState::Connecting, SessionEvent::HandshakeFailed) => SessionState::Failed(
            ErrorKind::Handshake,
        ),
        (SessionState::Authenticating, SessionEvent::AuthAccepted) => SessionState::Authenticating,
        (SessionState::Authenticating, SessionEvent::AuthRejected) => SessionState::Failed(
            ErrorKind::Auth,
        ),
        (SessionState::Authenticating, SessionEvent::ShellStarted) => SessionState::Interactive,
        (SessionState::Authenticating, SessionEvent::ShellFailed) => SessionState::Failed(
            ErrorKind::ShellStart,
        ),
        (SessionState::Interactive, SessionEvent::ChunkDelivered) => SessionState::Interactive,
        (SessionState::Interactive, SessionEvent::RemoteClosed(status)) => SessionState::Closed(
            status,
        ),
        (SessionState::Interactive, SessionEvent::ReadFailed) => SessionState::Failed(ErrorKind::Io),
        (SessionState::Interactive, SessionEvent::DecodeFailed) => SessionState::Failed(
            ErrorKind::Encoding,
        ),
        _ => s,
    }
}

/// `Closed` and `Failed` are terminal: no event leaves them.
pub proof fn lemma_terminal_states_absorb(s: SessionState, e: SessionEvent)
    requires
        s.is_terminal(),
    ensures
        spec_advance(s, e) == s,
{
}

/// No transition skips `Authenticating`: a session is `Interactive` only
/// by having been `Authenticating` the step before (or by already being
/// `Interactive`).
pub proof fn lemma_interactive_only_after_authenticating(s: SessionState, e: SessionEvent)
    requires
        spec_advance(s, e) is Interactive,
    ensures
        s is Authenticating || s is Interactive,
{
}

/// Each failure kind arises only in the stage whose component raises it:
/// network and handshake failures while connecting, credential and shell
/// failures while authenticating, transport and decode failures while
/// interactive.
pub proof fn lemma_failure_kind_names_its_stage(s: SessionState, e: SessionEvent)
    requires
        !s.is_terminal(),
        spec_advance(s, e) is Failed,
    ensures
        ({
            let k = spec_advance(s, e)->Failed_0;
            &&& (k == ErrorKind::Network || k == ErrorKind::Handshake) ==> s is Connecting
            &&& (k == ErrorKind::Auth || k == ErrorKind::ShellStart) ==> s is Authenticating
            &&& (k == ErrorKind::Io || k == ErrorKind::Encoding) ==> s is Interactive
        }),
{
}

} // verus!
