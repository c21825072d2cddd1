//! The one place where the library draws random numbers.

use vstd::prelude::*;

verus! {

/// A random 64-bit integer.
///
/// Trusted: calls `rand::random::<i64>()`. Nothing is claimed of the value.
#[verifier::external_body]
pub(crate) fn random_i64() -> i64 {
    rand::random::<i64>()
}

/// A random 32-bit integer.
///
/// Trusted: calls `rand::random::<u32>()`. Nothing is claimed of the value.
#[verifier::external_body]
pub(crate) fn random_u32() -> u32 {
    rand::random::<u32>()
}

/// A random 64-bit unsigned integer.
///
/// Trusted: calls `rand::random::<u64>()`. Nothing is claimed of the value.
#[verifier::external_body]
pub(crate) fn random_u64() -> u64 {
    rand::random::<u64>()
}

/// Sixteen random bytes.
///
/// Trusted: calls `rand::random::<[u8; 16]>()`. Only the length is claimed.
#[verifier::external_body]
pub(crate) fn random_salt() -> (salt: Vec<u8>)
    ensures
        salt@.len() == 16,
{
    rand::random::<[u8; 16]>().to_vec()
}

} // verus!
