//! What the server is configured with.

use vstd::prelude::*;

verus! {

/// The kinds of store that a server can be run on.
#[derive(Clone, Copy, Debug, PartialEq, Eq, Structural)]
pub enum DatabaseType {
    Sled,
    InMemory,
}

} // verus!
