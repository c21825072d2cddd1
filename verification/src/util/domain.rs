//! Server names: a hostname with an optional port.

use vstd::prelude::*;
use vstd::std_specs::cmp::PartialEqSpecImpl;
use crate::util::text::{
    all_in_class, chars_of, last_index_of, span_in_class, CharClass,
};

verus! {

/// A DNS name or IPv4 address: 1 to 255 letters, digits, `-` and `.`.
pub open spec fn valid_dns_name(s: Seq<char>) -> bool {
    1 <= s.len() <= 255 && all_in_class(CharClass::DnsName, s)
}

/// An IPv6 address in square brackets, 2 to 45 characters between them.
pub open spec fn valid_ipv6_literal(s: Seq<char>) -> bool {
    &&& 4 <= s.len() <= 47
    &&& s[0] == '['
    &&& s[s.len() - 1] == ']'
    &&& all_in_class(CharClass::Ipv6, s.subrange(1, s.len() - 1))
}

pub open spec fn valid_hostname(s: Seq<char>) -> bool {
    valid_dns_name(s) || valid_ipv6_literal(s)
}

/// One to five decimal digits.
pub open spec fn valid_port(s: Seq<char>) -> bool {
    1 <= s.len() <= 5 && all_in_class(CharClass::Digit, s)
}

/// `s` is a hostname followed by `:` and a port, split at index `i`.
pub open spec fn splits_into_host_and_port(s: Seq<char>, i: int) -> bool {
    &&& 0 <= i < s.len()
    &&& s[i] == ':'
    &&& valid_hostname(s.take(i))
    &&& valid_port(s.skip(i + 1))
}

/// The server-name grammar: a hostname, optionally followed by `:` and a port.
pub open spec fn valid_server_name(s: Seq<char>) -> bool {
    valid_hostname(s) || exists|i: int| splits_into_host_and_port(s, i)
}

fn is_hostname(v: &Vec<char>, to: usize) -> (ok: bool)
    requires
        to <= v.len(),
    ensures
        ok == valid_hostname(v@.take(to as int)),
{
    let ghost s = v@.take(to as int);
    assert(s =~= v@.subrange(0, to as int));
    let dns = 1 <= to && to <= 255 && span_in_class(CharClass::DnsName, v, 0, to);
    if dns {
        return true;
    }
    if to < 4 || to > 47 {
        return false;
    }
    assert(s[0] == v@[0] && s[to - 1] == v@[to - 1]);
    assert(s.subrange(1, to - 1) =~= v@.subrange(1, to - 1));
    v[0] == '[' && v[to - 1] == ']' && span_in_class(CharClass::Ipv6, v, 1, to - 1)
}

fn is_port(v: &Vec<char>, from: usize) -> (ok: bool)
    requires
        from <= v.len(),
    ensures
        ok == valid_port(v@.skip(from as int)),
{
    assert(v@.skip(from as int) =~= v@.subrange(from as int, v.len() as int));
    let n = v.len() - from;
    1 <= n && n <= 5 && span_in_class(CharClass::Digit, v, from, v.len())
}

fn is_server_name(v: &Vec<char>) -> (ok: bool)
    ensures
        ok == valid_server_name(v@),
{
    assert(v@.take(v.len() as int) =~= v@);
    if is_hostname(v, v.len()) {
        return true;
    }
    match last_index_of(v, ':') {
        Some(i) => {
            let ok = is_hostname(v, i) && is_port(v, i + 1);
            proof {
                if ok {
                    assert(splits_into_host_and_port(v@, i as int));
                } else {
                    assert forall|k: int| !splits_into_host_and_port(v@, k) by {
                        if splits_into_host_and_port(v@, k) {
                            if k < i {
                                let p = v@.skip(k + 1);
                                assert(p[i - k - 1] == v@[i as int]);
                            }
                        }
                    }
                }
            }
            ok
        },
        None => {
            proof {
                assert forall|k: int| !splits_into_host_and_port(v@, k) by {
                    if 0 <= k < v@.len() && v@[k] == ':' {
                        assert(v@.contains(':'));
                    }
                }
            }
            false
        },
    }
}

/// The name of a server: a hostname with an optional port.
///
/// A value of this type always holds a valid server name.
#[derive(Debug, Eq, Hash)]
pub struct Domain {
    url: String,
}

/// The error of parsing a string that is no server name.
#[derive(Debug, PartialEq, Eq, Structural)]
pub struct InvalidDomainError {}

impl View for Domain {
    type V = Seq<char>;

    closed spec fn view(&self) -> Seq<char> {
        self.url@
    }
}

impl Domain {
    #[verifier::type_invariant]
    spec fn well_formed(self) -> bool {
        valid_server_name(self.url@)
    }

    /// Takes ownership of `url` if it is a valid server name.
    pub fn new(url: String) -> (r: Option<Self>)
        ensures
            r is Some <==> valid_server_name(url@),
            r matches Some(d) ==> d@ == url@,
    {
        if !Self::is_valid(url.as_str()) {
            None
        } else {
            Some(Self { url })
        }
    }

    pub fn as_str(&self) -> (s: &str)
        ensures
            s@ == self@,
            valid_server_name(s@),
    {
        proof {
            use_type_invariant(self);
        }
        self.url.as_str()
    }

    /// Whether `url` matches the server-name grammar.
    pub fn is_valid(url: &str) -> (ok: bool)
        ensures
            ok == valid_server_name(url@),
    {
        let v = chars_of(url);
        is_server_name(&v)
    }

    /// Parses a server name.
    pub fn from_str(s: &str) -> (r: Result<Self, InvalidDomainError>)
        ensures
            r is Ok <==> valid_server_name(s@),
            r matches Ok(d) ==> d@ == s@,
    {
        if !Self::is_valid(s) {
            Err(InvalidDomainError {  })
        } else {
            Ok(Self { url: s.to_owned() })
        }
    }

    /// The server name as text.
    pub fn to_string(&self) -> (s: String)
        ensures
            s@ == self@,
    {
        self.url.clone()
    }
}

impl InvalidDomainError {
    /// The message shown for this error.
    pub fn to_string(&self) -> (s: String)
        ensures
            s@ == "invalid domain string"@,
    {
        "invalid domain string".to_owned()
    }
}

impl Clone for Domain {
    fn clone(&self) -> (r: Self)
        ensures
            r == *self,
    {
        proof {
            use_type_invariant(self);
        }
        Self { url: self.url.clone() }
    }
}

impl PartialEq for Domain {
    fn eq(&self, other: &Self) -> (r: bool) {
        self.url == other.url
    }
}

impl PartialEqSpecImpl for Domain {
    open spec fn obeys_eq_spec() -> bool {
        true
    }

    open spec fn eq_spec(&self, other: &Self) -> bool {
        self@ == other@
    }
}

} // verus!
