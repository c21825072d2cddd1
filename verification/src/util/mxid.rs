//! Domain-qualified identifiers of users and rooms.

use vstd::prelude::*;
use vstd::string::StrSliceExecFns;
use crate::util::domain::{valid_server_name, Domain};
use crate::util::random::random_i64;
use crate::util::table::Key;
use crate::util::text::{
    all_in_class, byte_len, byte_length, chars_of, first_index, first_index_of, hex_upper,
    hex_upper_chars, is_first_index, lemma_first_index, lemma_hex_upper_len, lemma_ascii_byte_len,
    push_chars, same_chars, same_text, span_in_class, string_from_chars, CharClass,
};

verus! {

/// An identifier: a localpart and the domain of the server it lives on,
/// written as the prefix character, the localpart, `:` and the domain.
///
/// `PREFIX` is the code of the prefix character. A value of this type always
/// satisfies [`Id::valid`].
#[derive(Debug, PartialEq, Eq, Hash)]
pub struct Id<const PREFIX: u8> {
    domain: Domain,
    localpart: String,
}

/// Identifier of a user, written with a leading `@`.
pub type MatrixId = Id<64>;

/// Identifier of a room, written with a leading `!`.
pub type RoomId = Id<33>;

/// Why a string or a pair of parts is no identifier.
#[derive(Debug, PartialEq, Eq, Structural)]
pub enum MxidError {
    /// The identifier would be longer than 255 bytes.
    TooLong,
    /// The localpart of a user holds a character outside `a-z0-9-_.=/`.
    InvalidChar,
    /// The string does not begin with the prefix character.
    NoLeadingChar(char),
    /// The string holds no colon.
    WrongNumberOfColons,
    /// What follows the first colon is no server name.
    InvalidDomain,
}

/// The two parts of an identifier, as text.
pub struct IdParts {
    pub localpart: Seq<char>,
    pub domain: Seq<char>,
}

impl<const PREFIX: u8> View for Id<PREFIX> {
    type V = IdParts;

    closed spec fn view(&self) -> IdParts {
        IdParts { localpart: self.localpart@, domain: self.domain@ }
    }
}

impl MxidError {
    /// The message shown for this error.
    pub open spec fn message(self) -> Seq<char> {
        match self {
            MxidError::TooLong =>
                "A Matrix ID can only be 255 characters long, including the '@', localpart, ':' and domain."@,
            MxidError::InvalidChar =>
                "A Matrix ID can only have lowercase letters, numbers, and `-_.=/`."@,
            MxidError::NoLeadingChar(c) => "An ID must begin "@.push(c),
            MxidError::WrongNumberOfColons => "A Matrix ID must contain exactly one colon."@,
            MxidError::InvalidDomain => "A Matrix ID must contain a valid domain name."@,
        }
    }

    pub fn to_string(&self) -> (s: String)
        ensures
            s@ == self.message(),
    {
        match self {
            MxidError::TooLong =>
                "A Matrix ID can only be 255 characters long, including the '@', localpart, ':' and domain.".to_owned(),
            MxidError::InvalidChar =>
                "A Matrix ID can only have lowercase letters, numbers, and `-_.=/`.".to_owned(),
            MxidError::NoLeadingChar(c) => {
                let mut v = chars_of("An ID must begin ");
                v.push(*c);
                string_from_chars(&v, 0, v.len())
            },
            MxidError::WrongNumberOfColons => "A Matrix ID must contain exactly one colon.".to_owned(),
            MxidError::InvalidDomain => "A Matrix ID must contain a valid domain name.".to_owned(),
        }
    }
}

impl<const PREFIX: u8> Id<PREFIX> {
    /// The prefix character of this kind of identifier.
    pub open spec fn prefix() -> char {
        PREFIX as char
    }

    /// The number of bytes that the prefix character takes in UTF-8.
    pub open spec fn prefix_len() -> nat {
        if PREFIX < 128 {
            1
        } else {
            2
        }
    }

    /// Whether this kind of identifier names users.
    pub open spec fn names_users() -> bool {
        PREFIX == 64
    }

    /// The error, if any, that keeps two parts from forming an identifier.
    pub open spec fn parts_error(localpart: Seq<char>, domain: Seq<char>) -> Option<MxidError> {
        if Self::names_users() && !all_in_class(CharClass::UserLocalpart, localpart) {
            Some(MxidError::InvalidChar)
        } else if byte_len(localpart) + byte_len(domain) + 1 + Self::prefix_len() > 255 {
            Some(MxidError::TooLong)
        } else {
            None
        }
    }

    /// What holds of every identifier: the domain is a server name, a user's
    /// localpart is made of the allowed characters, and the whole is at most
    /// 255 bytes long.
    pub open spec fn valid(parts: IdParts) -> bool {
        &&& valid_server_name(parts.domain)
        &&& Self::parts_error(parts.localpart, parts.domain) is None
    }

    /// The identifier written out.
    pub open spec fn text(parts: IdParts) -> Seq<char> {
        seq![Self::prefix()] + parts.localpart + seq![':'] + parts.domain
    }

    /// What parsing `s` yields: the prefix is taken off, the localpart runs
    /// up to the first colon, and the rest is the domain.
    pub open spec fn parse(s: Seq<char>) -> Result<IdParts, MxidError> {
        if s.len() == 0 || s[0] != Self::prefix() {
            Err(MxidError::NoLeadingChar(Self::prefix()))
        } else if !s.skip(1).contains(':') {
            Err(MxidError::WrongNumberOfColons)
        } else {
            let colon = first_index(s.skip(1), ':');
            let localpart = s.skip(1).take(colon);
            let domain = s.skip(1).skip(colon + 1);
            if !valid_server_name(domain) {
                Err(MxidError::InvalidDomain)
            } else {
                match Self::parts_error(localpart, domain) {
                    Some(e) => Err(e),
                    None => Ok(IdParts { localpart, domain }),
                }
            }
        }
    }

    #[verifier::type_invariant]
    spec fn well_formed(self) -> bool {
        Self::parts_error(self.localpart@, self.domain@) is None
    }

    /// Forms an identifier out of its parts, if they are valid together.
    pub fn new(localpart: &str, domain: Domain) -> (r: Result<Self, MxidError>)
        ensures
            match Self::parts_error(localpart@, domain@) {
                Some(e) => r == Err::<Self, MxidError>(e),
                None => r matches Ok(id) && id@ == (IdParts {
                    localpart: localpart@,
                    domain: domain@,
                }) && Self::valid(id@),
            },
    {
        match Self::validate_parts(localpart, &domain) {
            Err(e) => Err(e),
            Ok(()) => {
                let _ = domain.as_str();
                Ok(Self { domain, localpart: localpart.to_owned() })
            },
        }
    }

    pub fn localpart(&self) -> (s: &str)
        ensures
            s@ == self@.localpart,
    {
        self.localpart.as_str()
    }

    pub fn domain(&self) -> (d: &Domain)
        ensures
            d@ == self@.domain,
    {
        &self.domain
    }

    /// Whether the localpart reads `text`.
    pub fn localpart_is(&self, text: &str) -> (b: bool)
        ensures
            b == (self@.localpart == text@),
    {
        same_text(self.localpart.as_str(), text)
    }

    /// Whether the domain reads `text`.
    pub fn domain_is(&self, text: &str) -> (b: bool)
        ensures
            b == (self@.domain == text@),
    {
        same_text(self.domain.as_str(), text)
    }

    fn prefix_byte_len() -> (n: usize)
        ensures
            n == Self::prefix_len(),
    {
        if PREFIX < 128 {
            1
        } else {
            2
        }
    }

    /// Length in bytes when written out, prefix and separator included.
    pub fn str_len(&self) -> (n: usize)
        ensures
            n == byte_len(self@.domain) + byte_len(self@.localpart) + 1 + Self::prefix_len(),
            n <= 255,
    {
        proof {
            use_type_invariant(self);
        }
        byte_length(self.domain.as_str()) + byte_length(self.localpart.as_str()) + 1
            + Self::prefix_byte_len()
    }

    /// Whether this kind of identifier names users.
    pub fn is_matrix_id() -> (b: bool)
        ensures
            b == Self::names_users(),
    {
        PREFIX == 64
    }

    /// Verifies that a localpart and domain could together form a valid identifier.
    pub fn validate_parts(localpart: &str, domain: &Domain) -> (r: Result<(), MxidError>)
        ensures
            match Self::parts_error(localpart@, domain@) {
                Some(e) => r == Err::<(), MxidError>(e),
                None => r is Ok,
            },
    {
        if Self::is_matrix_id() {
            let chars = chars_of(localpart);
            assert(chars@.subrange(0, chars.len() as int) =~= chars@);
            if !span_in_class(CharClass::UserLocalpart, &chars, 0, chars.len()) {
                return Err(MxidError::InvalidChar);
            }
        }
        let local_len = byte_length(localpart);
        let domain_len = byte_length(domain.as_str());
        if local_len > 255 || domain_len > 255 {
            return Err(MxidError::TooLong);
        }
        if local_len + domain_len + 1 + Self::prefix_byte_len() > 255 {
            return Err(MxidError::TooLong);
        }
        Ok(())
    }

    /// Verifies that a `&str` forms a valid identifier, and splits it.
    pub fn validate_all(mxid: &str) -> (r: Result<(Domain, &str), MxidError>)
        ensures
            match Self::parse(mxid@) {
                Ok(parts) => r matches Ok(pair) && pair.0@ == parts.domain && pair.1@
                    == parts.localpart,
                Err(e) => r matches Err(x) && x == e,
            },
    {
        let chars = chars_of(mxid);
        if chars.len() == 0 || chars[0] != PREFIX as char {
            return Err(MxidError::NoLeadingChar(PREFIX as char));
        }
        let ghost rest = chars@.skip(1);
        match first_index_of(&chars, 1, ':') {
            None => Err(MxidError::WrongNumberOfColons),
            Some(i) => {
                proof {
                    lemma_first_index(rest, ':', i - 1);
                    assert(rest.take(i - 1) =~= mxid@.subrange(1, i as int));
                    assert(rest.skip(i - 1 + 1) =~= mxid@.subrange(i + 1, chars.len() as int));
                }
                let localpart = mxid.substring_char(1, i);
                let domain_text = mxid.substring_char(i + 1, chars.len());
                match Domain::from_str(domain_text) {
                    Err(_) => Err(MxidError::InvalidDomain),
                    Ok(domain) => match Self::validate_parts(localpart, &domain) {
                        Err(e) => Err(e),
                        Ok(()) => Ok((domain, localpart)),
                    },
                }
            },
        }
    }

    /// Parses an identifier.
    pub fn from_str(value: &str) -> (r: Result<Self, MxidError>)
        ensures
            match Self::parse(value@) {
                Ok(parts) => r matches Ok(id) && id@ == parts && Self::valid(id@),
                Err(e) => r == Err::<Self, MxidError>(e),
            },
    {
        match Self::validate_all(value) {
            Err(e) => Err(e),
            Ok((domain, localpart)) => Ok(Self { domain, localpart: localpart.to_owned() }),
        }
    }

    fn new_len_checked(local: String, domain: Domain) -> (r: Result<Self, MxidError>)
        requires
            Self::names_users() ==> all_in_class(CharClass::UserLocalpart, local@),
        ensures
            match Self::parts_error(local@, domain@) {
                Some(e) => r == Err::<Self, MxidError>(e),
                None => r matches Ok(id) && id@ == (IdParts { localpart: local@, domain: domain@ })
                    && Self::valid(id@),
            },
    {
        let local_len = byte_length(local.as_str());
        let domain_len = byte_length(domain.as_str());
        if local_len > 255 || domain_len > 255 || domain_len + 1 + Self::prefix_byte_len()
            + local_len > 255 {
            Err(MxidError::TooLong)
        } else {
            Ok(Self { domain, localpart: local })
        }
    }

    fn text_chars(&self) -> (v: Vec<char>)
        ensures
            v@ == Self::text(self@),
    {
        let mut v: Vec<char> = Vec::new();
        v.push(PREFIX as char);
        push_chars(&mut v, self.localpart.as_str());
        v.push(':');
        push_chars(&mut v, self.domain.as_str());
        assert(v@ =~= Self::text(self@));
        v
    }

    /// The identifier written out: prefix, localpart, `:` and domain.
    pub fn to_string(&self) -> (s: String)
        ensures
            s@ == Self::text(self@),
            Self::valid(self@),
    {
        proof {
            use_type_invariant(self);
        }
        let _ = self.domain.as_str();
        let v = self.text_chars();
        assert(v@.subrange(0, v.len() as int) =~= v@);
        string_from_chars(&v, 0, v.len())
    }

    /// Whether `other` is this identifier written out. An identifier whose
    /// localpart holds a colon equals no string.
    pub fn eq_str(&self, other: &str) -> (r: bool)
        ensures
            r == (other@ == Self::text(self@) && !self@.localpart.contains(':')),
    {
        let mine = self.text_chars();
        let theirs = chars_of(other);
        let local = chars_of(self.localpart.as_str());
        assert(local@.skip(0) =~= local@);
        same_chars(&mine, &theirs) && first_index_of(&local, 0, ':').is_none()
    }
}

impl Id<64> {
    /// An identifier for a user who gave no name of their own.
    pub fn new_with_random_local(domain: Domain) -> (r: Result<Self, MxidError>)
        ensures
            match Self::parts_error("todo-impl-me"@, domain@) {
                Some(e) => r == Err::<Self, MxidError>(e),
                None => r matches Ok(id) && id@ == (IdParts {
                    localpart: "todo-impl-me"@,
                    domain: domain@,
                }) && Self::valid(id@),
            },
    {
        let local = "todo-impl-me";
        proof {
            reveal_strlit("todo-impl-me");
            let s = local@;
            assert(s.len() == 12);
            assert(s[0] == 't' && s[1] == 'o' && s[2] == 'd' && s[3] == 'o' && s[4] == '-' && s[5]
                == 'i' && s[6] == 'm' && s[7] == 'p' && s[8] == 'l' && s[9] == '-' && s[10] == 'm'
                && s[11] == 'e');
        }
        Self::new_len_checked(local.to_owned(), domain)
    }
}

impl Id<33> {
    /// The localpart that a room gets from the number `seed`: its sixteen
    /// hexadecimal digits, upper case.
    pub open spec fn seeded_localpart(seed: i64) -> Seq<char> {
        hex_upper((seed as u64) as nat, 16)
    }

    /// The identifier of a new room whose localpart is derived from `seed`.
    pub fn new_with_local_from(seed: i64, domain: Domain) -> (r: Result<Self, MxidError>)
        ensures
            match Self::parts_error(Self::seeded_localpart(seed), domain@) {
                Some(e) => r == Err::<Self, MxidError>(e),
                None => r matches Ok(id) && id@ == (IdParts {
                    localpart: Self::seeded_localpart(seed),
                    domain: domain@,
                }) && Self::valid(id@),
            },
    {
        let bits = #[verifier::truncate] (seed as u64);
        let v = hex_upper_chars(bits, 16);
        assert(v@.subrange(0, v.len() as int) =~= v@);
        let local = string_from_chars(&v, 0, v.len());
        Self::new_len_checked(local, domain)
    }

    /// The identifier of a new room, with a random localpart.
    pub fn new_with_random_local(domain: Domain) -> (r: Result<Self, MxidError>)
        ensures
            r is Ok <==> byte_len(domain@) + 18 <= 255,
            r matches Ok(id) ==> id@.domain == domain@ && Self::valid(id@) && exists|seed: i64|
                id@.localpart == Self::seeded_localpart(seed),
            r matches Err(e) ==> e == MxidError::TooLong,
    {
        let seed = random_i64();
        proof {
            let local = Self::seeded_localpart(seed);
            lemma_hex_upper_len((seed as u64) as nat, 16);
            lemma_ascii_byte_len(local);
        }
        Self::new_with_local_from(seed, domain)
    }
}

impl<const PREFIX: u8> Clone for Id<PREFIX> {
    fn clone(&self) -> (r: Self)
        ensures
            r == *self,
    {
        proof {
            use_type_invariant(self);
        }
        Self { domain: self.domain.clone(), localpart: self.localpart.clone() }
    }
}

impl<const PREFIX: u8> Key for Id<PREFIX> {
    fn same(&self, other: &Self) -> (r: bool) {
        self.localpart == other.localpart && same_text(
            self.domain.as_str(),
            other.domain.as_str(),
        )
    }

    fn duplicate(&self) -> (r: Self) {
        self.clone()
    }
}

/// Writing an identifier out and parsing the text gives the identifier back,
/// provided that its localpart holds no colon.
pub proof fn lemma_parse_of_text<const PREFIX: u8>(parts: IdParts)
    requires
        Id::<PREFIX>::valid(parts),
        !parts.localpart.contains(':'),
    ensures
        Id::<PREFIX>::parse(Id::<PREFIX>::text(parts)) == Ok::<IdParts, MxidError>(parts),
{
    let s = Id::<PREFIX>::text(parts);
    let rest = s.skip(1);
    let n = parts.localpart.len() as int;
    assert(s[0] == Id::<PREFIX>::prefix());
    assert(rest =~= parts.localpart + seq![':'] + parts.domain);
    assert(rest[n] == ':');
    assert forall|j: int| 0 <= j < n implies rest[j] != ':' by {
        assert(parts.localpart.contains(rest[j]));
    }
    assert(is_first_index(rest, ':', n));
    lemma_first_index(rest, ':', n);
    assert(rest.take(n) =~= parts.localpart);
    assert(rest.skip(n + 1) =~= parts.domain);
}

/// Every string that parses is the text of the identifier it parses to, so
/// parsing that text again gives the same identifier.
pub proof fn lemma_text_of_parsed<const PREFIX: u8>(s: Seq<char>)
    requires
        Id::<PREFIX>::parse(s) is Ok,
    ensures
        ({
            let parts = Id::<PREFIX>::parse(s)->Ok_0;
            &&& Id::<PREFIX>::valid(parts)
            &&& !parts.localpart.contains(':')
            &&& Id::<PREFIX>::text(parts) == s
            &&& Id::<PREFIX>::parse(Id::<PREFIX>::text(parts)) == Id::<PREFIX>::parse(s)
        }),
{
    let parts = Id::<PREFIX>::parse(s)->Ok_0;
    let rest = s.skip(1);
    let colon = first_index(rest, ':');
    assert(rest.contains(':'));
    lemma_has_first_index(rest, ':');
    assert(is_first_index(rest, ':', colon));
    assert forall|j: int| 0 <= j < parts.localpart.len() implies parts.localpart[j] != ':' by {
        assert(parts.localpart[j] == rest[j]);
    }
    assert(Id::<PREFIX>::text(parts) =~= s);
}

/// A string that does not begin with the prefix is refused as such, and one
/// that begins with it but holds no colon is refused for its colons.
pub proof fn lemma_malformed_text_is_refused<const PREFIX: u8>(s: Seq<char>)
    ensures
        s.len() == 0 || s[0] != Id::<PREFIX>::prefix() ==> Id::<PREFIX>::parse(s) == Err::<
            IdParts,
            MxidError,
        >(MxidError::NoLeadingChar(Id::<PREFIX>::prefix())),
        s.len() > 0 && s[0] == Id::<PREFIX>::prefix() && !s.skip(1).contains(':')
            ==> Id::<PREFIX>::parse(s) == Err::<IdParts, MxidError>(MxidError::WrongNumberOfColons),
{
}

/// Parts of which the domain is a server name are refused only for a
/// character that a user's localpart may not hold, or for their length.
pub proof fn lemma_invalid_parts_are_refused<const PREFIX: u8>(parts: IdParts)
    requires
        valid_server_name(parts.domain),
    ensures
        Id::<PREFIX>::names_users() && !all_in_class(CharClass::UserLocalpart, parts.localpart)
            ==> Id::<PREFIX>::parts_error(parts.localpart, parts.domain) == Some(
            MxidError::InvalidChar,
        ),
        !(Id::<PREFIX>::names_users() && !all_in_class(CharClass::UserLocalpart, parts.localpart))
            && byte_len(parts.localpart) + byte_len(parts.domain) + 1 + Id::<PREFIX>::prefix_len()
            > 255 ==> Id::<PREFIX>::parts_error(parts.localpart, parts.domain) == Some(
            MxidError::TooLong,
        ),
        Id::<PREFIX>::valid(parts) <==> Id::<PREFIX>::parts_error(parts.localpart, parts.domain)
            is None,
{
}

/// A sequence that contains `c` has a first index of `c`.
pub proof fn lemma_has_first_index(s: Seq<char>, c: char)
    requires
        s.contains(c),
    ensures
        is_first_index(s, c, first_index(s, c)),
{
    let w = choose|i: int| 0 <= i < s.len() && s[i] == c;
    lemma_first_index_below(s, c, w);
}

proof fn lemma_first_index_below(s: Seq<char>, c: char, w: int)
    requires
        0 <= w < s.len(),
        s[w] == c,
    ensures
        is_first_index(s, c, first_index(s, c)),
    decreases w,
{
    if forall|j: int| 0 <= j < w ==> s[j] != c {
        assert(is_first_index(s, c, w));
    } else {
        let j = choose|j: int| 0 <= j < w && s[j] == c;
        lemma_first_index_below(s, c, j);
    }
}

} // verus!
