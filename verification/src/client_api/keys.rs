//! Device keys.

use vstd::prelude::*;
use crate::util::mxid::MatrixId;
use crate::util::table::Table;

verus! {

/// How long a query for keys may take, in milliseconds.
#[derive(Clone, Copy, Debug)]
pub struct Timeout(pub u128);

impl Default for Timeout {
    fn default() -> (t: Self)
        ensures
            t.0 == 10_000,
    {
        Timeout(10_000)
    }
}

#[derive(Debug)]
pub struct QueryRequest {
    pub device_keys: Table<MatrixId, Vec<String>>,
    pub timeout: Timeout,
}

#[derive(Clone, Copy, Debug)]
pub struct QueryResponse {}

/// The keys of the devices that are asked for: the server holds none.
pub fn query(_req: &QueryRequest) -> QueryResponse {
    QueryResponse {  }
}

} // verus!
