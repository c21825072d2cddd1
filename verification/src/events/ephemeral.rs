//! What is known of a room for the moment only.

use vstd::prelude::*;
use crate::util::mxid::MatrixId;

verus! {

/// The users who are typing in a room.
#[derive(Clone, Debug)]
pub struct Typing {
    pub user_ids: Vec<MatrixId>,
}

/// Ephemeral data of one type.
#[derive(Debug)]
pub enum EphemeralData<'a> {
    /// The users who are typing, computed when it is asked for.
    Typing(Typing),
    /// Data that was set as it is.
    Data(&'a serde_json::Value),
}

} // verus!
