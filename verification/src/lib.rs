//! Core logic of a real-time chat gateway: per-connection heartbeat and
//! sequence reconciliation, the JSON wire envelope, a registry of connected
//! users and their live clients, a role-to-user reverse index, bulk fan-out
//! of events, and a resumable-session store.
//!
//! Everything here is synchronous, verified logic. The surrounding process
//! (sockets, timers, tasks, channels, the database) drives these functions
//! and performs the actions they decide on.
#![verifier::loop_isolation(false)]

pub mod bulk;
pub mod channel;
pub mod codec;
pub mod connection;
pub mod error;
pub mod events;
pub mod heartbeat;
pub mod idmap;
pub mod registry;
pub mod resume;
pub mod role_map;
pub mod session;
