//! JSON payloads, carried through the library without being read.

use vstd::prelude::*;

verus! {

/// `serde_json::Value`: a JSON document. The library stores and hands out
/// such values and never looks inside one.
#[verifier::external_type_specification]
#[verifier::external_body]
pub struct ExJsonValue(serde_json::Value);

/// Trusted: `Clone` for `serde_json::Value` yields an equal document.
pub assume_specification[ <serde_json::Value as Clone>::clone ](v: &serde_json::Value) -> (r:
    serde_json::Value)
    ensures
        r == *v,
;

/// An empty JSON object.
///
/// Trusted: builds `serde_json::Value::Object` over an empty map. Nothing is
/// claimed of the value.
#[verifier::external_body]
pub(crate) fn empty_object() -> serde_json::Value {
    serde_json::Value::Object(serde_json::Map::new())
}

} // verus!
