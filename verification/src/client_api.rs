//! What the client-facing endpoints decide, on plain values: each function
//! here takes what a request carries and the store, and says what the
//! response is.

pub mod auth;
pub mod ephemeral;
pub mod keys;
pub mod pushrules;
pub mod room_events;
pub mod user;

use vstd::prelude::*;

verus! {

/// The versions of the protocol that the server speaks.
pub fn versions() -> (v: Vec<String>)
    ensures
        v@.len() == 1,
        v@[0]@ == "v1.7"@,
{
    let mut v = Vec::new();
    v.push("v1.7".to_owned());
    v
}

} // verus!
