//! Core engine of an interactive remote-shell client.
//!
//! The engine establishes an authenticated transport to a remote host,
//! allocates a pseudo-terminal and shell, relays the resulting byte stream
//! to a polling consumer, and tracks the lifecycle of each session.
//! Blocking I/O lives outside this crate; the decisions it depends on
//! (identity resolution, stream decoding, state transitions, registry
//! bookkeeping) are all here, with their contracts.

pub mod codec;
pub mod config;
pub mod connect;
pub mod errors;
pub mod machine;
pub mod registry;
pub mod relay;
pub mod shell;
