//! Error taxonomy of the session engine.
//!
//! Every failure a session can meet is one of these variants; none is
//! swallowed silently. `NetworkError`, `AuthError` and `IoError` carry the
//! underlying cause as text.

use vstd::prelude::*;

verus! {

/// A failure raised by one of the engine's components.
///
/// `NetworkError` is connection-level (the caller may retry);
/// `HandshakeError` is a protocol-negotiation failure; `AuthError` means the
/// credential was rejected (never retried automatically); `ShellStartError`
/// covers pty allocation and shell start; `EncodingError` is a non-UTF-8
/// byte sequence observed mid-stream; `IoError` is a transport failure
/// during the read loop.
#[derive(Debug)]
pub enum SessionError {
    NetworkError(String),
    HandshakeError,
    AuthError(String),
    ShellStartError,
    EncodingError,
    IoError(String),
}

/// The kind of a `SessionError`, without its cause text.
#[derive(Clone, Copy, Debug, PartialEq, Eq, Structural)]
pub enum ErrorKind {
    Network,
    Handshake,
    Auth,
    ShellStart,
    Encoding,
    Io,
}

impl SessionError {
    /// The kind of this error.
    pub open spec fn spec_kind(&self) -> ErrorKind {
        match self {
            SessionError::NetworkError(_) => ErrorKind::Network,
            SessionError::HandshakeError => ErrorKind::Handshake,
            SessionError::AuthError(_) => ErrorKind::Auth,
            SessionError::ShellStartError => ErrorKind::ShellStart,
            SessionError::EncodingError => ErrorKind::Encoding,
            SessionError::IoError(_) => ErrorKind::Io,
        }
    }

    /// Returns the kind of this error.
    pub fn kind(&self) -> (k: ErrorKind)
        ensures
            k == self.spec_kind(),
    {
        match self {
            SessionError::NetworkError(_) => ErrorKind::Network,
            SessionError::HandshakeError => ErrorKind::Handshake,
            SessionError::AuthError(_) => ErrorKind::Auth,
            SessionError::ShellStartError => ErrorKind::ShellStart,
            SessionError::EncodingError => ErrorKind::Encoding,
            SessionError::IoError(_) => ErrorKind::Io,
        }
    }
}

} // verus!
