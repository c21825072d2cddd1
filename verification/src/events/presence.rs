//! Presence of a user.

use vstd::prelude::*;

verus! {

#[derive(Debug, Clone, Copy, PartialEq, Eq, Hash, Structural)]
pub enum PresenceState {
    Online,
    Offline,
    Unavailable,
}

/// What a user last said of their presence.
#[derive(Debug, Clone, Hash)]
pub struct Status {
    pub presence: PresenceState,
    pub status_msg: Option<String>,
}

} // verus!
