//! Live broadcaster for DOT pipeline snapshots.
//!
//! The library holds the verified core of a WebSocket snapshot server:
//! a client registry, a broker that fans filesystem-derived events out to
//! registered clients and replays current state to newly joined ones, the
//! normalization of raw filesystem events, and the JSON wire encoding of
//! the outbound messages.

pub mod broker;
pub mod codec;
pub mod laws;
pub mod paths;
pub mod registry;
pub mod store;
pub mod watcher;
