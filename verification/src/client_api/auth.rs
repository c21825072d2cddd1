//! Access tokens, login, logout and registration.

use vstd::prelude::*;
use crate::storage::Storage;
use crate::error::{fails_with, ErrorKind, ErrorKindView};
use crate::events::opt_str_text;
use crate::storage::model::{new_user, StoreView};
use crate::util::domain::Domain;
use crate::util::mxid::{Id, IdParts, MatrixId};
use crate::util::password::{argon2_encoded, argon2_verifies};
use crate::util::random::{random_salt, random_u32};
use crate::util::text::{
    begins_with, begins_with_at, chars_of, hex_upper, hex_upper_chars, skip_leading, slice_chars,
    string_from_chars, without_leading,
};
use crate::util::token::{fresh_token, hyphenated, parse_token, token_text, uuid_parsed};

verus! {

/// The ways to log in.
#[derive(Clone, Copy, Debug, PartialEq, Eq, Structural)]
pub enum LoginType {
    Password,
}

/// The token that a request is made with.
#[derive(Clone, Copy, Debug, PartialEq, Eq, Structural)]
pub struct AccessToken(pub u128);

/// The number of characters of `s` before its first `&`, or its length
/// where it has none.
pub open spec fn pair_len(s: Seq<char>) -> int
    decreases s.len(),
{
    if s.len() == 0 || s[0] == '&' {
        0
    } else {
        1 + pair_len(s.drop_first())
    }
}

/// The first of the pairs of `query`, which `&` separates, that begins with
/// `access_token`.
pub open spec fn token_pair(query: Seq<char>) -> Option<Seq<char>>
    decreases query.len(),
{
    let end = pair_len(query);
    if begins_with(query.take(end), "access_token"@) {
        Some(query.take(end))
    } else if 0 <= end < query.len() {
        token_pair(query.skip(end + 1))
    } else {
        None
    }
}

/// What [`pair_len`] is, given where the first `&` stands.
pub proof fn lemma_pair_len(s: Seq<char>, k: int)
    requires
        0 <= k <= s.len(),
        forall|j: int| 0 <= j < k ==> s[j] != '&',
        k == s.len() || s[k] == '&',
    ensures
        pair_len(s) == k,
    decreases k,
{
    if k > 0 {
        let rest = s.drop_first();
        assert forall|j: int| 0 <= j < k - 1 implies rest[j] != '&' by {
            assert(rest[j] == s[j + 1]);
        }
        lemma_pair_len(rest, k - 1);
    }
}

impl AccessToken {
    /// The token in an `Authorization` header: what follows `Bearer `.
    pub open spec fn in_header(header: Seq<char>) -> Result<u128, ErrorKindView> {
        if !begins_with(header, "Bearer "@) {
            Err(ErrorKindView::MissingToken)
        } else {
            match uuid_parsed(without_leading(header, "Bearer "@)) {
                Some(token) => Ok(token),
                None => Err(ErrorKindView::UnknownToken),
            }
        }
    }

    /// The token in the query of a request: what follows `access_token=` in
    /// the first pair that begins with `access_token`.
    pub open spec fn in_query(query: Seq<char>) -> Result<u128, ErrorKindView> {
        match token_pair(query) {
            None => Err(ErrorKindView::MissingToken),
            Some(pair) => match uuid_parsed(without_leading(pair, "access_token="@)) {
                Some(token) => Ok(token),
                None => Err(ErrorKindView::UnknownToken),
            },
        }
    }

    /// The token of a request with the given `Authorization` header and
    /// query. The header counts where there is one.
    pub open spec fn requested(
        authorization: Option<Seq<char>>,
        query: Option<Seq<char>>,
    ) -> Result<u128, ErrorKindView> {
        match authorization {
            Some(header) => Self::in_header(header),
            None => match query {
                Some(q) => Self::in_query(q),
                None => Err(ErrorKindView::MissingToken),
            },
        }
    }

    fn parse_from(v: &Vec<char>, from: usize) -> (r: Result<AccessToken, ErrorKind>)
        requires
            from <= v.len(),
        ensures
            match uuid_parsed(v@.skip(from as int)) {
                Some(token) => r matches Ok(t) && t.0 == token,
                None => fails_with(r, ErrorKindView::UnknownToken),
            },
    {
        assert(v@.skip(from as int) =~= v@.subrange(from as int, v.len() as int));
        let text = string_from_chars(v, from, v.len());
        match parse_token(text.as_str()) {
            Some(token) => Ok(AccessToken(token)),
            None => Err(ErrorKind::UnknownToken),
        }
    }

    fn from_header(header: &str) -> (r: Result<AccessToken, ErrorKind>)
        ensures
            match Self::in_header(header@) {
                Ok(token) => r matches Ok(t) && t.0 == token,
                Err(e) => fails_with(r, e),
            },
    {
        let v = chars_of(header);
        let prefix = chars_of("Bearer ");
        assert(v@.skip(0) =~= v@);
        if !begins_with_at(&v, 0, &prefix) {
            return Err(ErrorKind::MissingToken);
        }
        let at = skip_leading(&v, 0, &prefix);
        Self::parse_from(&v, at)
    }

    #[verifier::loop_isolation(false)]
    fn from_query(query: &str) -> (r: Result<AccessToken, ErrorKind>)
        ensures
            match Self::in_query(query@) {
                Ok(token) => r matches Ok(t) && t.0 == token,
                Err(e) => fails_with(r, e),
            },
    {
        let v = chars_of(query);
        let key = chars_of("access_token");
        let prefix = chars_of("access_token=");
        let mut start: usize = 0;
        assert(v@.skip(0) =~= v@);
        loop
            invariant
                start <= v.len(),
                token_pair(v@.skip(start as int)) == token_pair(v@),
            decreases v.len() - start,
        {
            let ghost rest = v@.skip(start as int);
            let mut end: usize = start;
            while end < v.len() && v[end] != '&'
                invariant
                    start <= end <= v.len(),
                    forall|j: int| start <= j < end ==> v@[j] != '&',
                decreases v.len() - end,
            {
                end += 1;
            }
            proof {
                assert forall|j: int| 0 <= j < end - start implies rest[j] != '&' by {
                    assert(rest[j] == v@[start + j]);
                }
                lemma_pair_len(rest, end - start);
                assert(rest.take(end - start) =~= v@.subrange(start as int, end as int));
            }
            let pair = slice_chars(&v, start, end);
            assert(pair@.skip(0) =~= pair@);
            if begins_with_at(&pair, 0, &key) {
                let at = skip_leading(&pair, 0, &prefix);
                return Self::parse_from(&pair, at);
            }
            if end >= v.len() {
                return Err(ErrorKind::MissingToken);
            }
            assert(rest.skip(end - start + 1) =~= v@.skip(end + 1));
            start = end + 1;
        }
    }

    /// Reads the token of a request from its `Authorization` header or,
    /// where it has none, from its query.
    pub fn from_request(authorization: Option<&str>, query: Option<&str>) -> (r: Result<
        AccessToken,
        ErrorKind,
    >)
        ensures
            match Self::requested(opt_str_text(authorization), opt_str_text(query)) {
                Ok(token) => r matches Ok(t) && t.0 == token,
                Err(e) => fails_with(r, e),
            },
    {
        match authorization {
            Some(header) => Self::from_header(header),
            None => match query {
                Some(q) => Self::from_query(q),
                None => Err(ErrorKind::MissingToken),
            },
        }
    }

    /// The token written as a hyphenated UUID.
    pub fn to_string(&self) -> (s: String)
        ensures
            s@ == hyphenated(self.0),
    {
        token_text(self.0)
    }
}

/// The login types that the server supports.
pub fn get_supported_login_types() -> (flows: Vec<LoginType>)
    ensures
        flows@ == seq![LoginType::Password],
{
    let mut flows = Vec::new();
    flows.push(LoginType::Password);
    flows
}

/// Who logs in.
#[derive(Clone, Debug)]
pub enum Identifier {
    Username { user: String },
    ThirdParty { medium: String, address: String },
    Phone { country: String, phone: String },
}

#[derive(Clone, Debug)]
pub struct LoginRequest {
    pub login_type: LoginType,
    pub identifier: Identifier,
    pub password: Option<String>,
    pub token: Option<String>,
    pub device_id: Option<String>,
    pub initial_device_display_name: String,
}

#[derive(Clone, Debug)]
pub struct LoginResponse {
    pub user_id: MatrixId,
    pub access_token: String,
    pub device_id: String,
    pub home_server: String,
}

/// The device identifier made of the number `seed`: its eight hexadecimal
/// digits, upper case.
pub open spec fn device_id_of(seed: u32) -> Seq<char> {
    hex_upper(seed as nat, 8)
}

/// The device identifier of a session: the one that was asked for, or one
/// made of `seed`.
pub open spec fn device_of(given: Option<String>, seed: u32) -> Seq<char> {
    match given {
        Some(id) => id@,
        None => device_id_of(seed),
    }
}

fn device_id(given: Option<String>, seed: u32) -> (id: String)
    ensures
        id@ == device_of(given, seed),
{
    match given {
        Some(id) => id,
        None => {
            let digits = hex_upper_chars(seed as u64, 8);
            assert(digits@.subrange(0, digits.len() as int) =~= digits@);
            string_from_chars(&digits, 0, digits.len())
        },
    }
}

/// The name of the user who logs in as `user`: the localpart where `user`
/// is a user identifier, else `user` itself.
pub open spec fn login_name(user: Seq<char>) -> Seq<char> {
    match Id::<64>::parse(user) {
        Ok(parts) => parts.localpart,
        Err(_) => user,
    }
}

/// What a login ends in, before anything is stored: an error, or the name
/// of the user.
pub open spec fn login_check(store: StoreView, domain: Seq<char>, req: LoginRequest) -> Result<
    Seq<char>,
    ErrorKindView,
> {
    match req.identifier {
        Identifier::Username { user } => match req.password {
            None => Err(ErrorKindView::Unimplemented),
            Some(password) => {
                let name = login_name(user@);
                let verified = match store.password_hash(name) {
                    Some(hash) => argon2_verifies(hash, vstd::utf8::encode_utf8(password@)),
                    None => false,
                };
                if !verified {
                    Err(ErrorKindView::Forbidden)
                } else {
                    match Id::<64>::parts_error(name, domain) {
                        Some(e) => Err(ErrorKindView::BadJson(e.message())),
                        None => Ok(name),
                    }
                }
            },
        },
        _ => Err(ErrorKindView::Unimplemented),
    }
}

/// Logs a user in with their password and binds `token` to them. A session
/// that names no device gets one made of `device_seed`.
///
/// Logging in with anything but a user name and a password is not
/// supported. A wrong password and a user that does not exist are both
/// `Forbidden`.
pub fn login_with<S: Storage>(
    store: &mut S,
    domain: &Domain,
    req: LoginRequest,
    device_seed: u32,
    token: u128,
) -> (r: Result<LoginResponse, ErrorKind>)
    ensures
        match login_check(old(store).state(), domain@, req) {
            Err(e) => fails_with(r, e) && final(store).state() == old(store).state(),
            Ok(name) => r matches Ok(response) && response.user_id@ == (IdParts {
                localpart: name,
                domain: domain@,
            }) && response.access_token@ == hyphenated(token) && response.device_id@ == device_of(
                req.device_id,
                device_seed,
            ) && response.home_server@ == domain@ && final(store).state() == (StoreView {
                access_tokens: old(store).state().access_tokens.insert(token, name),
                ..old(store).state()
            }),
        },
{
    let LoginRequest { identifier, password, device_id: given_device, .. } = req;
    let username = match identifier {
        Identifier::Username { user } => {
            match MatrixId::from_str(user.as_str()) {
                Ok(mxid) => mxid.localpart().to_owned(),
                Err(_) => user,
            }
        },
        _ => {
            return Err(ErrorKind::Unimplemented);
        },
    };
    let password = match password {
        Some(password) => password,
        None => {
            return Err(ErrorKind::Unimplemented);
        },
    };
    if !store.verify_password(username.as_str(), password.as_str()) {
        return Err(ErrorKind::Forbidden);
    }
    let user_id = match MatrixId::new(username.as_str(), domain.clone()) {
        Ok(id) => id,
        Err(e) => {
            return Err(ErrorKind::BadJson(e.to_string()));
        },
    };
    let device_id = device_id(given_device, device_seed);
    match store.bind_access_token(token, username.as_str()) {
        Ok(()) => {},
        Err(e) => {
            return Err(e);
        },
    }
    Ok(
        LoginResponse {
            user_id,
            access_token: token_text(token),
            device_id,
            home_server: domain.to_string(),
        },
    )
}

/// Logs a user in with their password, with a random access token and,
/// where the session names no device, a random device identifier.
pub fn login<S: Storage>(store: &mut S, domain: &Domain, req: LoginRequest) -> (r: Result<
    LoginResponse,
    ErrorKind,
>)
    ensures
        match login_check(old(store).state(), domain@, req) {
            Err(e) => fails_with(r, e) && final(store).state() == old(store).state(),
            Ok(name) => r matches Ok(response) && response.user_id@ == (IdParts {
                localpart: name,
                domain: domain@,
            }) && response.home_server@ == domain@ && exists|device_seed: u32, token: u128|
                #![trigger device_of(req.device_id, device_seed), hyphenated(token)]
                response.access_token@ == hyphenated(token) && response.device_id@ == device_of(
                    req.device_id,
                    device_seed,
                ) && final(store).state() == (StoreView {
                    access_tokens: old(store).state().access_tokens.insert(token, name),
                    ..old(store).state()
                }),
        },
{
    let seed = random_u32();
    let token = fresh_token();
    login_with(store, domain, req, seed, token)
}

/// Forgets the token that a request was made with.
pub fn logout<S: Storage>(store: &mut S, token: AccessToken)
    ensures
        final(store).state() == (StoreView {
            access_tokens: old(store).state().access_tokens.remove(token.0),
            ..old(store).state()
        }),
{
    store.delete_access_token(token.0)
}

/// Forgets every token of the user that made the request.
pub fn logout_all<S: Storage>(store: &mut S, token: AccessToken)
    ensures
        final(store).state() == if old(store).state().access_tokens.dom().contains(token.0) {
            StoreView {
                access_tokens: old(store).state().tokens_without(old(store).state().access_tokens[token.0]),
                ..old(store).state()
            }
        } else {
            old(store).state()
        },
{
    store.delete_all_access_tokens(token.0)
}

#[derive(Clone, Debug)]
pub struct RegisterRequest {
    pub auth: Option<serde_json::Value>,
    pub username: Option<String>,
    pub password: Option<String>,
    pub device_id: Option<String>,
    pub initial_device_display_name: Option<String>,
    pub inhibit_login: bool,
}

#[derive(Clone, Copy, Debug, PartialEq, Eq, Structural)]
pub struct CheckUsernameAvailableResponse {
    pub available: bool,
}

#[derive(Clone, Debug)]
pub struct CheckUsernameAvailableParams {
    pub username: String,
}

/// Whether no user has the name that is asked for.
pub fn check_username_available<S: Storage>(store: &S, query: &CheckUsernameAvailableParams) -> (r:
    CheckUsernameAvailableResponse)
    ensures
        r.available == !store.state().users.dom().contains(query.username@),
{
    let exists = store.get_profile(query.username.as_str()).is_some();
    CheckUsernameAvailableResponse { available: !exists }
}

/// The kind of account that is asked for.
#[derive(Clone, Copy, Debug, PartialEq, Eq, Structural)]
pub enum UserType {
    Guest,
    User,
}

impl Default for UserType {
    fn default() -> (kind: Self)
        ensures
            kind == UserType::User,
    {
        UserType::User
    }
}

#[derive(Clone, Copy, Debug)]
pub struct RegisterParams {
    pub kind: UserType,
}

/// What a registration ends in.
#[derive(Debug)]
pub enum Registration {
    /// The request carries neither a password nor authentication data: the
    /// client is told how it can register.
    Flows(Vec<LoginType>),
    /// The user was made, but not logged in.
    Created { localpart: String },
    /// The user was made and logged in.
    LoggedIn { user_id: MatrixId, access_token: String, device_id: String },
}

/// The message of the error for a registration without a password.
pub open spec fn missing_password_message() -> Seq<char> {
    "missing password"@
}

/// The localpart of the user that a registration makes.
pub open spec fn registered_name(username: Option<String>) -> Seq<char> {
    match username {
        Some(name) => name@,
        None => "todo-impl-me"@,
    }
}

/// What a registration ends in, before anything is stored: the flows, an
/// error, or the name and the password hash of the user to make.
pub open spec fn register_check(
    store: StoreView,
    domain: Seq<char>,
    req: RegisterRequest,
    kind: UserType,
    salt: Seq<u8>,
) -> Result<Option<(Seq<char>, Seq<char>)>, ErrorKindView> {
    if req.password is None && req.auth is None {
        Ok(None)
    } else if kind == UserType::Guest {
        Err(ErrorKindView::Unimplemented)
    } else {
        let name = registered_name(req.username);
        match Id::<64>::parts_error(name, domain) {
            Some(e) => Err(ErrorKindView::BadJson(e.message())),
            None => match req.password {
                None => Err(ErrorKindView::BadJson(missing_password_message())),
                Some(password) => match argon2_encoded(vstd::utf8::encode_utf8(password@), salt) {
                    None => Err(
                        ErrorKindView::Unknown(crate::storage::model::hashing_failed_message()),
                    ),
                    Some(hash) => if store.users.dom().contains(name) {
                        Err(ErrorKindView::UsernameTaken)
                    } else {
                        Ok(Some((name, hash)))
                    },
                },
            },
        }
    }
}

/// Whether `after` and `r` are what a registration in the store `before`
/// ends in, where the password is hashed with `salt`, a login is given
/// `token`, and a session that names no device is given one made of
/// `device_seed`.
///
/// A request with neither a password nor authentication data is shown how
/// to register and changes nothing, and so does a request that is refused.
/// Otherwise the user is made and, unless the request inhibits it, `token`
/// is bound to them.
pub open spec fn registered(
    before: StoreView,
    after: StoreView,
    domain: Seq<char>,
    req: RegisterRequest,
    kind: UserType,
    salt: Seq<u8>,
    device_seed: u32,
    token: u128,
    r: Result<Registration, ErrorKind>,
) -> bool {
    match register_check(before, domain, req, kind, salt) {
        Err(e) => fails_with(r, e) && after == before,
        Ok(None) => r matches Ok(Registration::Flows(flows)) && flows@ == seq![
            LoginType::Password,
        ] && after == before,
        Ok(Some((name, hash))) => {
            let made = StoreView { users: before.users.insert(name, new_user(hash)), ..before };
            if req.inhibit_login {
                r matches Ok(Registration::Created { localpart }) && localpart@ == name && after
                    == made
            } else {
                r matches Ok(Registration::LoggedIn { user_id, access_token, device_id })
                    && user_id@ == (IdParts { localpart: name, domain }) && access_token@
                    == hyphenated(token) && device_id@ == device_of(req.device_id, device_seed)
                    && after == (StoreView {
                    access_tokens: made.access_tokens.insert(token, name),
                    ..made
                })
            }
        },
    }
}

/// Registers a user, with the password hashed with `salt`, and logs them in
/// with `token` unless the request inhibits it.
pub fn register_with<S: Storage>(
    store: &mut S,
    domain: &Domain,
    req: RegisterRequest,
    params: &RegisterParams,
    salt: &[u8],
    device_seed: u32,
    token: u128,
) -> (r: Result<Registration, ErrorKind>)
    ensures
        registered(
            old(store).state(),
            final(store).state(),
            domain@,
            req,
            params.kind,
            salt@,
            device_seed,
            token,
            r,
        ),
{
    let RegisterRequest { auth, username, password, device_id: given_device, inhibit_login, .. } =
        req;
    if password.is_none() && auth.is_none() {
        return Ok(Registration::Flows(get_supported_login_types()));
    }
    if let UserType::Guest = params.kind {
        return Err(ErrorKind::Unimplemented);
    }
    let made = match username {
        Some(name) => MatrixId::new(name.as_str(), domain.clone()),
        None => MatrixId::new_with_random_local(domain.clone()),
    };
    let user_id = match made {
        Ok(id) => id,
        Err(e) => {
            return Err(ErrorKind::BadJson(e.to_string()));
        },
    };
    let password = match password {
        Some(password) => password,
        None => {
            return Err(ErrorKind::BadJson("missing password".to_owned()));
        },
    };
    match store.create_user_with_salt(user_id.localpart(), password.as_str(), salt) {
        Ok(()) => {},
        Err(e) => {
            return Err(e);
        },
    }
    if inhibit_login {
        return Ok(Registration::Created { localpart: user_id.localpart().to_owned() });
    }
    let device_id = device_id(given_device, device_seed);
    match store.bind_access_token(token, user_id.localpart()) {
        Ok(()) => {},
        Err(e) => {
            return Err(e);
        },
    }
    Ok(Registration::LoggedIn { user_id, access_token: token_text(token), device_id })
}

/// Registers a user with a random salt of sixteen bytes, a random access
/// token and, where the request names no device, a random device
/// identifier: what [`register_with`] does with those.
pub fn register<S: Storage>(
    store: &mut S,
    domain: &Domain,
    req: RegisterRequest,
    params: &RegisterParams,
) -> (r: Result<Registration, ErrorKind>)
    ensures
        exists|salt: Seq<u8>, device_seed: u32, token: u128|
            salt.len() == 16 && #[trigger] registered(
                old(store).state(),
                final(store).state(),
                domain@,
                req,
                params.kind,
                salt,
                device_seed,
                token,
                r,
            ),
{
    let salt = random_salt();
    let seed = random_u32();
    let token = fresh_token();
    let r = register_with(store, domain, req, params, salt.as_slice(), seed, token);
    assert(salt@.len() == 16 && registered(
        old(store).state(),
        store.state(),
        domain@,
        req,
        params.kind,
        salt@,
        seed,
        token,
        r,
    ));
    r
}

} // verus!
