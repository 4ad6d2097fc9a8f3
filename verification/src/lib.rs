//! A verified room-based chat relay core.
//!
//! The library owns the logic of a chat relay: a registry that maps room
//! identifiers to rooms and fans messages out to their members, and a
//! per-connection session state machine that turns inbound frames into
//! registry commands.  Transport, HTTP routing and JSON serialisation of
//! outbound frames live outside the library.

pub mod envelope;
pub mod ids;
pub mod registry;
pub mod session;
pub mod strutil;
