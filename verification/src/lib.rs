//! The core of a chat homeserver: validated identifiers, the room event
//! model, the authorization rules for candidate events, state resolution
//! over a room's event graph, an in-memory store, and the decisions of the
//! long-poll sync protocol.
//!
//! Everything here is synchronous and free of I/O. Callers supply clock
//! readings and carry out the waits that the sync decisions ask for.

pub mod client_api;
pub mod config;
pub mod error;
pub mod events;
pub mod json;
pub mod state;
pub mod storage;
pub mod sync;
pub mod util;
pub mod validate;
