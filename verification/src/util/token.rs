//! Access tokens: random 128-bit numbers, written as UUIDs.

use vstd::prelude::*;
use crate::util::text::hex_lower;

verus! {

/// What `Uuid::parse_str` makes of a string: the 128-bit value of the UUID,
/// or nothing where the string is no UUID.
pub uninterp spec fn uuid_parsed(text: Seq<char>) -> Option<u128>;

/// A token written as a UUID: its 32 hexadecimal digits in lower case, in
/// groups of 8, 4, 4, 4 and 12 with hyphens between them.
pub open spec fn hyphenated(token: u128) -> Seq<char> {
    let digits = hex_lower(token as nat, 32);
    digits.subrange(0, 8) + seq!['-'] + digits.subrange(8, 12) + seq!['-'] + digits.subrange(
        12,
        16,
    ) + seq!['-'] + digits.subrange(16, 20) + seq!['-'] + digits.subrange(20, 32)
}

/// A new random token.
///
/// Trusted: calls `Uuid::new_v4` and takes the value of the UUID. Nothing is
/// claimed of the value.
#[verifier::external_body]
pub(crate) fn fresh_token() -> u128 {
    uuid::Uuid::new_v4().as_u128()
}

/// Writes a token as a hyphenated UUID.
///
/// Trusted: formats `Uuid::from_u128(token).hyphenated()`, which writes the
/// sixteen bytes of the value, most significant first, as lower-case
/// hexadecimal digits with hyphens after the 8th, 12th, 16th and 20th digit.
#[verifier::external_body]
pub(crate) fn token_text(token: u128) -> (text: String)
    ensures
        text@ == hyphenated(token),
{
    format!("{}", uuid::Uuid::from_u128(token).hyphenated())
}

/// Reads a token from a string.
///
/// Trusted: calls `Uuid::parse_str` and takes the value of the UUID. The
/// contract only names the result; an error of the call shows as `None`.
#[verifier::external_body]
pub(crate) fn parse_token(text: &str) -> (r: Option<u128>)
    ensures
        r == uuid_parsed(text@),
{
    uuid::Uuid::parse_str(text).ok().map(|id| id.as_u128())
}

} // verus!
