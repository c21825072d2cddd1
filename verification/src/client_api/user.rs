//! Profiles, the user directory, presence and account data.

use vstd::prelude::*;
use crate::storage::Storage;
use crate::error::{fails_with, ErrorKind, ErrorKindView};
use crate::events::opt_text;
use crate::events::presence::Status;
use crate::storage::model::{StoreView, UserView};
use crate::storage::UserProfile;
use crate::util::domain::Domain;
use crate::util::mxid::{Id, IdParts, MatrixId};
use crate::util::text::{chars_of, push_chars, string_from_chars};

verus! {

/// The message of the error for a user of another server.
pub open spec fn foreign_user_message() -> Seq<char> {
    "User does not live on this homeserver"@
}

/// The message of the error for a profile of another server.
pub open spec fn foreign_profile_message(user_domain: Seq<char>, server_domain: Seq<char>) -> Seq<
    char,
> {
    "User does not live on this homeserver (user domain: "@ + user_domain + " != server domain "@
        + server_domain + ")"@
}

/// The profile of the user `name`, if there is such a user.
pub open spec fn profile_of(store: StoreView, name: Seq<char>) -> Option<UserProfile> {
    if store.users.dom().contains(name) {
        Some(store.users[name].profile)
    } else {
        None
    }
}

/// The avatar of `user_id`. Users of other servers are not supported.
pub fn get_avatar_url<S: Storage>(store: &S, domain: &Domain, user_id: &MatrixId) -> (r: Result<
    String,
    ErrorKind,
>)
    ensures
        if user_id@.domain != domain@ {
            fails_with(r, ErrorKindView::Unimplemented)
        } else {
            match profile_of(store.state(), user_id@.localpart) {
                Some(profile) => match profile.avatar_url {
                    Some(url) => r matches Ok(found) && found@ == url@,
                    None => fails_with(r, ErrorKindView::NotFound),
                },
                None => fails_with(r, ErrorKindView::NotFound),
            }
        },
{
    if !user_id.domain_is(domain.as_str()) {
        return Err(ErrorKind::Unimplemented);
    }
    match store.get_profile(user_id.localpart()) {
        Some(profile) => match &profile.avatar_url {
            Some(url) => Ok(url.clone()),
            None => Err(ErrorKind::NotFound),
        },
        None => Err(ErrorKind::NotFound),
    }
}

/// What keeps the user `username` from changing the profile of `req_id`.
pub open spec fn profile_writer_error(username: Seq<char>, domain: Seq<char>, req_id: IdParts) -> Option<
    ErrorKindView,
> {
    if req_id.localpart != username {
        Some(ErrorKindView::Forbidden)
    } else if req_id.domain != domain {
        Some(ErrorKindView::Unknown(foreign_user_message()))
    } else {
        None
    }
}

fn check_profile_writer(username: &str, domain: &Domain, req_id: &MatrixId) -> (r: Result<
    (),
    ErrorKind,
>)
    ensures
        match profile_writer_error(username@, domain@, req_id@) {
            Some(e) => fails_with(r, e),
            None => r is Ok,
        },
{
    if !req_id.localpart_is(username) {
        return Err(ErrorKind::Forbidden);
    }
    if !req_id.domain_is(domain.as_str()) {
        return Err(ErrorKind::Unknown("User does not live on this homeserver".to_owned()));
    }
    Ok(())
}

/// Sets the avatar of `req_id`, who must be the user `username` that made
/// the request.
pub fn set_avatar_url<S: Storage>(
    store: &mut S,
    domain: &Domain,
    username: &str,
    req_id: &MatrixId,
    avatar_url: &str,
) -> (r: Result<(), ErrorKind>)
    ensures
        match profile_writer_error(username@, domain@, req_id@) {
            Some(e) => fails_with(r, e) && final(store).state() == old(store).state(),
            None => if old(store).state().users.dom().contains(username@) {
                let was = old(store).state().users[username@];
                let now = final(store).state().users[username@];
                &&& r is Ok
                &&& final(store).state() == (StoreView {
                    users: old(store).state().users.insert(username@, now),
                    ..old(store).state()
                })
                &&& opt_text(now.profile.avatar_url) == Some(avatar_url@)
                &&& now.profile.displayname == was.profile.displayname
                &&& now.profile.status == was.profile.status
                &&& now.password_hash == was.password_hash
                &&& now.account_data == was.account_data
            } else {
                fails_with(r, ErrorKindView::UserNotFound) && final(store).state() == old(store).state()
            },
        },
{
    match check_profile_writer(username, domain, req_id) {
        Ok(()) => {},
        Err(e) => {
            return Err(e);
        },
    }
    store.set_avatar_url(username, avatar_url)
}

/// The name that `user_id` shows.
pub fn get_display_name<S: Storage>(store: &S, domain: &Domain, user_id: &MatrixId) -> (r: Result<
    String,
    ErrorKind,
>)
    ensures
        if user_id@.domain != domain@ {
            fails_with(r, ErrorKindView::Unknown(foreign_user_message()))
        } else {
            match profile_of(store.state(), user_id@.localpart) {
                Some(profile) => match profile.displayname {
                    Some(name) => r matches Ok(found) && found@ == name@,
                    None => fails_with(r, ErrorKindView::NotFound),
                },
                None => fails_with(r, ErrorKindView::NotFound),
            }
        },
{
    if !user_id.domain_is(domain.as_str()) {
        return Err(ErrorKind::Unknown("User does not live on this homeserver".to_owned()));
    }
    match store.get_profile(user_id.localpart()) {
        Some(profile) => match &profile.displayname {
            Some(name) => Ok(name.clone()),
            None => Err(ErrorKind::NotFound),
        },
        None => Err(ErrorKind::NotFound),
    }
}

/// Sets the name that `req_id` shows, who must be the user `username` that
/// made the request.
pub fn set_display_name<S: Storage>(
    store: &mut S,
    domain: &Domain,
    username: &str,
    req_id: &MatrixId,
    display_name: &str,
) -> (r: Result<(), ErrorKind>)
    ensures
        match profile_writer_error(username@, domain@, req_id@) {
            Some(e) => fails_with(r, e) && final(store).state() == old(store).state(),
            None => if old(store).state().users.dom().contains(username@) {
                let was = old(store).state().users[username@];
                let now = final(store).state().users[username@];
                &&& r is Ok
                &&& final(store).state() == (StoreView {
                    users: old(store).state().users.insert(username@, now),
                    ..old(store).state()
                })
                &&& opt_text(now.profile.displayname) == Some(display_name@)
                &&& now.profile.avatar_url == was.profile.avatar_url
                &&& now.profile.status == was.profile.status
                &&& now.password_hash == was.password_hash
                &&& now.account_data == was.account_data
            } else {
                fails_with(r, ErrorKindView::UserNotFound) && final(store).state() == old(store).state()
            },
        },
{
    match check_profile_writer(username, domain, req_id) {
        Ok(()) => {},
        Err(e) => {
            return Err(e);
        },
    }
    store.set_display_name(username, display_name)
}

/// The profile of `user_id`.
pub fn get_profile<'a, S: Storage>(store: &'a S, domain: &Domain, user_id: &MatrixId) -> (r: Result<
    &'a UserProfile,
    ErrorKind,
>)
    ensures
        if user_id@.domain != domain@ {
            fails_with(r, ErrorKindView::Unknown(foreign_profile_message(user_id@.domain, domain@)))
        } else {
            match profile_of(store.state(), user_id@.localpart) {
                Some(profile) => r matches Ok(found) && *found == profile,
                None => fails_with(r, ErrorKindView::NotFound),
            }
        },
{
    if !user_id.domain_is(domain.as_str()) {
        let mut message = chars_of("User does not live on this homeserver (user domain: ");
        push_chars(&mut message, user_id.domain().as_str());
        push_chars(&mut message, " != server domain ");
        push_chars(&mut message, domain.as_str());
        push_chars(&mut message, ")");
        assert(message@.subrange(0, message.len() as int) =~= message@);
        return Err(ErrorKind::Unknown(string_from_chars(&message, 0, message.len())));
    }
    match store.get_profile(user_id.localpart()) {
        Some(profile) => Ok(profile),
        None => Err(ErrorKind::NotFound),
    }
}

#[derive(Clone, Debug)]
pub struct UserDirSearchRequest {
    pub search_term: String,
    pub limit: Option<usize>,
}

#[derive(Clone, Debug)]
pub struct UserDirSearchResponse {
    pub results: Vec<User>,
    pub limited: bool,
}

/// A user as the directory shows them.
#[derive(Clone, Debug)]
pub struct User {
    pub user_id: MatrixId,
    pub avatar_url: Option<String>,
    pub display_name: Option<String>,
}

/// Looks a user up by the localpart `req.search_term`: the directory holds
/// that user or nobody.
pub fn search_user_directory<S: Storage>(store: &S, domain: &Domain, req: &UserDirSearchRequest) -> (r:
    Result<UserDirSearchResponse, ErrorKind>)
    ensures
        match Id::<64>::parts_error(req.search_term@, domain@) {
            Some(e) => fails_with(r, ErrorKindView::Unknown(e.message())),
            None => r matches Ok(response) && !response.limited && match profile_of(
                store.state(),
                req.search_term@,
            ) {
                Some(profile) => response.results@.len() == 1 && response.results@[0].user_id@
                    == (IdParts { localpart: req.search_term@, domain: domain@ }) && opt_text(
                    response.results@[0].avatar_url,
                ) == opt_text(profile.avatar_url) && opt_text(response.results@[0].display_name)
                    == opt_text(profile.displayname),
                None => response.results@.len() == 0,
            },
        },
{
    let searched_user = match MatrixId::new(req.search_term.as_str(), domain.clone()) {
        Ok(id) => id,
        Err(e) => {
            return Err(ErrorKind::Unknown(e.to_string()));
        },
    };
    let mut results: Vec<User> = Vec::new();
    match store.get_profile(searched_user.localpart()) {
        Some(profile) => {
            let avatar_url = match &profile.avatar_url {
                Some(url) => Some(url.clone()),
                None => None,
            };
            let display_name = match &profile.displayname {
                Some(name) => Some(name.clone()),
                None => None,
            };
            results.push(User { user_id: searched_user, avatar_url, display_name });
        },
        None => {},
    }
    Ok(UserDirSearchResponse { results, limited: false })
}

#[derive(Clone, Debug)]
pub struct Get3pidsResponse {
    pub threepids: Vec<Threepid>,
}

/// A third-party identifier of a user.
#[derive(Clone, Debug)]
pub struct Threepid {
    pub medium: Medium,
    pub address: String,
    pub validated_at: u64,
    pub added_at: u64,
}

#[derive(Clone, Copy, Debug, PartialEq, Eq, Structural)]
pub enum Medium {
    Email,
    /// Phone number, including calling code
    Msisdn,
}

/// The third-party identifiers of a user: there are none.
pub fn get_3pids() -> (r: Get3pidsResponse)
    ensures
        r.threepids@.len() == 0,
{
    Get3pidsResponse { threepids: Vec::new() }
}

#[derive(Clone, Debug)]
pub struct FilterEventsResponse {
    pub filter_id: String,
}

/// Stores a filter: every filter gets the same identifier.
pub fn filter_events() -> (r: FilterEventsResponse)
    ensures
        r.filter_id@ == "todo"@,
{
    FilterEventsResponse { filter_id: "todo".to_owned() }
}

#[derive(Clone, Debug)]
pub struct StatusRequest(pub Status);

/// Sets what the user `user_id` says of their presence.
pub fn status<S: Storage>(store: &mut S, user_id: &MatrixId, req: StatusRequest) -> (r: Result<
    (),
    ErrorKind,
>)
    ensures
        if old(store).state().users.dom().contains(user_id@.localpart) {
            let was = old(store).state().users[user_id@.localpart];
            r is Ok && final(store).state() == (StoreView {
                users: old(store).state().users.insert(
                    user_id@.localpart,
                    UserView { profile: UserProfile { status: Some(req.0), ..was.profile }, ..was },
                ),
                ..old(store).state()
            })
        } else {
            fails_with(r, ErrorKindView::UserNotFound) && final(store).state() == old(store).state()
        },
{
    store.set_status(user_id.localpart(), req.0)
}

/// The account data of `username` under `data_type`.
pub fn account_data<'a, S: Storage>(store: &'a S, username: &str, data_type: &str) -> (r: Result<
    &'a serde_json::Value,
    ErrorKind,
>)
    ensures
        if store.state().users.dom().contains(username@)
            && store.state().users[username@].account_data.dom().contains(data_type@) {
            r matches Ok(value) && *value == store.state().users[username@].account_data[data_type@]
        } else {
            fails_with(r, ErrorKindView::NotFound)
        },
{
    match store.get_user_account_data_value(username, data_type) {
        Some(value) => Ok(value),
        None => Err(ErrorKind::NotFound),
    }
}

/// Sets the account data of `username` under `data_type`.
pub fn account_data_update<S: Storage>(
    store: &mut S,
    username: &str,
    data_type: String,
    value: serde_json::Value,
) -> (r: Result<(), ErrorKind>)
    ensures
        if old(store).state().users.dom().contains(username@) {
            let was = old(store).state().users[username@];
            r is Ok && final(store).state() == (StoreView {
                users: old(store).state().users.insert(
                    username@,
                    UserView { account_data: was.account_data.insert(data_type@, value), ..was },
                ),
                ..old(store).state()
            })
        } else {
            fails_with(r, ErrorKindView::NotFound) && final(store).state() == old(store).state()
        },
{
    store.set_user_account_data_value(username, data_type, value)
}

} // verus!
