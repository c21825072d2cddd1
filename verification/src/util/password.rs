//! Passwords as one-way verifiable credentials.

use vstd::prelude::*;
use vstd::string::StringSliceAdditionalSpecFns;

verus! {

/// What `argon2::hash_encoded` returns for a password and a salt under the
/// default configuration: the encoded hash, or nothing where it refuses the
/// arguments.
pub uninterp spec fn argon2_encoded(password: Seq<u8>, salt: Seq<u8>) -> Option<Seq<char>>;

/// What `argon2::verify_encoded` says of an encoded hash and a password,
/// where an encoded hash that it cannot read counts as a mismatch.
pub uninterp spec fn argon2_verifies(encoded: Seq<char>, password: Seq<u8>) -> bool;

/// Whether `encoded` is what a credential may hold: nothing, or an encoded
/// hash that was made by hashing some password with some salt.
pub open spec fn is_credential(encoded: Seq<char>) -> bool {
    encoded.len() == 0 || exists|password: Seq<u8>, salt: Seq<u8>|
        #[trigger] argon2_encoded(password, salt) == Some(encoded)
}

/// Hashes a password.
///
/// Trusted: calls `argon2::hash_encoded` with `argon2::Config::default()`.
/// The contract only names the result: the same password and salt give the
/// same encoded hash, and an error of the call shows as `None`.
#[verifier::external_body]
fn hash_encoded(password: &[u8], salt: &[u8]) -> (r: Option<String>)
    ensures
        match r {
            Some(encoded) => argon2_encoded(password@, salt@) == Some(encoded@),
            None => argon2_encoded(password@, salt@) is None,
        },
{
    argon2::hash_encoded(password, salt, &argon2::Config::default()).ok()
}

/// Checks a password against an encoded hash.
///
/// Trusted: calls `argon2::verify_encoded`. The contract only names the
/// result; an error of the call shows as `false`. The call works with as
/// much memory as the encoded hash asks for, so it is only made on hashes
/// that this library made, and on the empty string, which it refuses.
#[verifier::external_body]
fn verify_encoded(encoded: &str, password: &[u8]) -> (r: bool)
    requires
        is_credential(encoded@),
    ensures
        r == argon2_verifies(encoded@, password@),
{
    argon2::verify_encoded(encoded, password).unwrap_or(false)
}

/// The encoded hash of a password.
///
/// A value of this type holds an encoded hash that was made by hashing a
/// password, or nothing.
#[derive(Debug)]
pub struct Credential {
    encoded: String,
}

impl View for Credential {
    type V = Seq<char>;

    closed spec fn view(&self) -> Seq<char> {
        self.encoded@
    }
}

impl Credential {
    #[verifier::type_invariant]
    spec fn made_by_hashing(self) -> bool {
        is_credential(self.encoded@)
    }

    /// The credential that holds nothing.
    pub fn blank() -> (c: Self)
        ensures
            c@ == Seq::<char>::empty(),
    {
        Credential { encoded: String::new() }
    }

    /// Hashes `password` with `salt`.
    pub fn new(password: &str, salt: &[u8]) -> (r: Option<Self>)
        ensures
            match argon2_encoded(password.spec_bytes(), salt@) {
                Some(encoded) => r matches Some(c) && c@ == encoded,
                None => r is None,
            },
    {
        match hash_encoded(password.as_bytes(), salt) {
            Some(encoded) => Some(Credential { encoded }),
            None => None,
        }
    }

    /// Whether `password` is the password that the credential was made of.
    pub fn verifies(&self, password: &str) -> (ok: bool)
        ensures
            ok == argon2_verifies(self@, password.spec_bytes()),
    {
        proof {
            use_type_invariant(self);
        }
        verify_encoded(self.encoded.as_str(), password.as_bytes())
    }
}

} // verus!
