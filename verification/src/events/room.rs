//! The content of the state events that make up a room.

use vstd::prelude::*;
use crate::util::mxid::{IdParts, MatrixId, RoomId};
use crate::util::table::Table;
use crate::util::text::same_text;

verus! {

/// Content that can be reduced to the fields that survive a redaction.
pub trait Redactable: Sized {
    /// `reduced` is what is left of `self` after a redaction.
    spec fn redacts_to(self, reduced: Self) -> bool;

    fn redact(self) -> (r: Self)
        ensures
            self.redacts_to(r),
    ;
}

#[derive(Debug, PartialEq, Eq, Hash, Clone, Copy, Structural)]
pub enum RoomVersion {
    V4,
    Unsupported,
}

/// m.room.create
#[derive(Clone, Debug)]
pub struct Create {
    pub creator: MatrixId,
    pub room_version: Option<RoomVersion>,
    pub predecessor: Option<PreviousRoom>,
    pub extra: Table<String, serde_json::Value>,
}

#[derive(Clone, Debug)]
pub struct PreviousRoom {
    pub room_id: RoomId,
    pub event_id: String,
}

impl Redactable for Create {
    open spec fn redacts_to(self, reduced: Self) -> bool {
        &&& reduced.creator == self.creator
        &&& reduced.room_version is None
        &&& reduced.predecessor is None
        &&& reduced.extra@ == Map::<Seq<char>, serde_json::Value>::empty()
    }

    fn redact(self) -> (r: Self) {
        Create { creator: self.creator, room_version: None, predecessor: None, extra: Table::new() }
    }
}

/// m.room.join_rules
#[derive(Clone, Debug)]
pub struct JoinRules {
    pub join_rule: JoinRule,
}

#[derive(Clone, Copy, Debug, PartialEq, Eq, Structural)]
pub enum JoinRule {
    Public,
    Knock,
    Invite,
    Private,
}

impl Redactable for JoinRules {
    open spec fn redacts_to(self, reduced: Self) -> bool {
        reduced == self
    }

    fn redact(self) -> (r: Self) {
        self
    }
}

/// m.room.history_visibility
#[derive(Clone, Debug)]
pub struct HistoryVisibility {
    pub history_visibility: HistoryVisibilityType,
}

#[derive(Clone, Copy, Debug, PartialEq, Eq, Structural)]
pub enum HistoryVisibilityType {
    Invited,
    Joined,
    Shared,
    WorldReadable,
}

impl Redactable for HistoryVisibility {
    open spec fn redacts_to(self, reduced: Self) -> bool {
        reduced == self
    }

    fn redact(self) -> (r: Self) {
        self
    }
}

/// m.room.guest_access
#[derive(Clone, Debug)]
pub struct GuestAccess {
    /// `None` only after a redaction.
    pub guest_access: Option<GuestAccessType>,
}

impl Redactable for GuestAccess {
    open spec fn redacts_to(self, reduced: Self) -> bool {
        reduced.guest_access is None
    }

    fn redact(self) -> (r: Self) {
        GuestAccess { guest_access: None }
    }
}

#[derive(Clone, Copy, Debug, PartialEq, Eq, Structural)]
pub enum GuestAccessType {
    CanJoin,
    Forbidden,
}

/// m.room.name
#[derive(Clone, Debug)]
pub struct Name {
    /// `None` only after a redaction.
    pub name: Option<String>,
}

impl Redactable for Name {
    open spec fn redacts_to(self, reduced: Self) -> bool {
        reduced.name is None
    }

    fn redact(self) -> (r: Self) {
        Name { name: None }
    }
}

/// m.room.topic
#[derive(Clone, Debug)]
pub struct Topic {
    /// `None` only after a redaction.
    pub topic: Option<String>,
}

impl Redactable for Topic {
    open spec fn redacts_to(self, reduced: Self) -> bool {
        reduced.topic is None
    }

    fn redact(self) -> (r: Self) {
        Topic { topic: None }
    }
}

/// m.room.power_levels
///
/// A field that is `None` stands for its default: 50 for `ban`, `invite`,
/// `kick`, `redact` and `state_default`, 0 for `events_default` and
/// `users_default`.
#[derive(Clone, Debug)]
pub struct PowerLevels {
    pub ban: Option<u32>,
    pub invite: Option<u32>,
    pub kick: Option<u32>,
    pub redact: Option<u32>,
    pub events: Table<String, u32>,
    pub events_default: Option<u32>,
    pub state_default: Option<u32>,
    pub users: Table<MatrixId, u32>,
    pub users_default: Option<u32>,
    pub notifications: Option<Notifications>,
}

/// `threshold`, or `default` where none is given.
pub open spec fn level_or(threshold: Option<u32>, default: u32) -> u32 {
    match threshold {
        Some(level) => level,
        None => default,
    }
}

fn or_default(threshold: Option<u32>, default: u32) -> (level: u32)
    ensures
        level == level_or(threshold, default),
{
    match threshold {
        Some(level) => level,
        None => default,
    }
}

impl PowerLevels {
    /// The level needed to ban a user.
    pub open spec fn ban_level(self) -> u32 {
        level_or(self.ban, 50)
    }

    /// The level needed to invite a user.
    pub open spec fn invite_level(self) -> u32 {
        level_or(self.invite, 50)
    }

    /// The level needed to remove a user from the room.
    pub open spec fn kick_level(self) -> u32 {
        level_or(self.kick, 50)
    }

    /// The level needed to redact another user's event.
    pub open spec fn redact_level(self) -> u32 {
        level_or(self.redact, 50)
    }

    /// The level needed to send an event that is no state event and has no
    /// level of its own.
    pub open spec fn events_default_level(self) -> u32 {
        level_or(self.events_default, 0)
    }

    /// The level needed to send a state event that has no level of its own.
    pub open spec fn state_default_level(self) -> u32 {
        level_or(self.state_default, 50)
    }

    /// The level of a user who has no level of their own.
    pub open spec fn users_default_level(self) -> u32 {
        level_or(self.users_default, 0)
    }

    /// The effective level of a user: their own where they have one, else
    /// the default for users.
    pub open spec fn user_level(self, user: IdParts) -> u32 {
        if self.users@.dom().contains(user) {
            self.users@[user]
        } else {
            self.users_default_level()
        }
    }

    /// The effective level of an event type: its own where it has one, else
    /// the default for state events or for other events.
    pub open spec fn event_level(self, event_type: Seq<char>, is_state_event: bool) -> u32 {
        if self.events@.dom().contains(event_type) {
            self.events@[event_type]
        } else if is_state_event {
            self.state_default_level()
        } else {
            self.events_default_level()
        }
    }

    /// The effective power levels of a room that has no power levels event.
    /// They are those of an event that leaves every value out, but that
    /// `state_default` is 0 and the creator of the room has level 100.
    pub fn no_event_default_levels(room_creator: &MatrixId) -> (r: Self)
        ensures
            r.users@ == Map::<IdParts, u32>::empty().insert(room_creator@, 100),
            r.events@ == Map::<Seq<char>, u32>::empty(),
            r.ban == Some(50u32),
            r.invite == Some(50u32),
            r.kick == Some(50u32),
            r.redact == Some(50u32),
            r.events_default == Some(0u32),
            r.state_default == Some(0u32),
            r.users_default == Some(0u32),
            r.notifications is None,
            r.user_level(room_creator@) == 100,
            forall|user: IdParts| user != room_creator@ ==> r.user_level(user) == 0,
            forall|event_type: Seq<char>, is_state: bool|
                r.event_level(event_type, is_state) == 0,
    {
        let mut users = Table::new();
        users.insert(room_creator.clone(), 100);
        PowerLevels {
            ban: Some(50),
            invite: Some(50),
            kick: Some(50),
            redact: Some(50),
            events: Table::new(),
            events_default: Some(0),
            state_default: Some(0),
            users,
            users_default: Some(0),
            notifications: None,
        }
    }

    pub fn ban(&self) -> (level: u32)
        ensures
            level == self.ban_level(),
    {
        or_default(self.ban, 50)
    }

    pub fn invite(&self) -> (level: u32)
        ensures
            level == self.invite_level(),
    {
        or_default(self.invite, 50)
    }

    pub fn kick(&self) -> (level: u32)
        ensures
            level == self.kick_level(),
    {
        or_default(self.kick, 50)
    }

    pub fn redact(&self) -> (level: u32)
        ensures
            level == self.redact_level(),
    {
        or_default(self.redact, 50)
    }

    pub fn events_default(&self) -> (level: u32)
        ensures
            level == self.events_default_level(),
    {
        or_default(self.events_default, 0)
    }

    pub fn state_default(&self) -> (level: u32)
        ensures
            level == self.state_default_level(),
    {
        or_default(self.state_default, 50)
    }

    pub fn users_default(&self) -> (level: u32)
        ensures
            level == self.users_default_level(),
    {
        or_default(self.users_default, 0)
    }

    /// The levels for notifications, 50 for a room-wide one by default.
    pub fn notifications(&self) -> (n: Notifications)
        ensures
            n == match self.notifications {
                Some(given) => given,
                None => Notifications { room: 50 },
            },
    {
        match self.notifications {
            Some(given) => given,
            None => Notifications { room: 50 },
        }
    }

    pub fn get_user_level(&self, user_id: &MatrixId) -> (level: u32)
        ensures
            level == self.user_level(user_id@),
    {
        match self.users.get(user_id) {
            Some(level) => *level,
            None => or_default(self.users_default, 0),
        }
    }

    pub fn get_event_level(&self, event_type: &str, is_state_event: bool) -> (level: u32)
        ensures
            level == self.event_level(event_type@, is_state_event),
    {
        let default = if is_state_event {
            or_default(self.state_default, 50)
        } else {
            or_default(self.events_default, 0)
        };
        match self.events.get_text(event_type) {
            Some(level) => *level,
            None => default,
        }
    }
}

impl Redactable for PowerLevels {
    open spec fn redacts_to(self, reduced: Self) -> bool {
        &&& reduced.ban == self.ban
        &&& reduced.invite is None
        &&& reduced.kick == self.kick
        &&& reduced.redact == self.redact
        &&& reduced.events == self.events
        &&& reduced.events_default == self.events_default
        &&& reduced.state_default == self.state_default
        &&& reduced.users == self.users
        &&& reduced.users_default == self.users_default
        &&& reduced.notifications is None
    }

    fn redact(self) -> (r: Self) {
        PowerLevels {
            ban: self.ban,
            invite: None,
            kick: self.kick,
            redact: self.redact,
            events: self.events,
            events_default: self.events_default,
            state_default: self.state_default,
            users: self.users,
            users_default: self.users_default,
            notifications: None,
        }
    }
}

#[derive(Clone, Copy, Debug, PartialEq, Eq, Structural)]
pub struct Notifications {
    pub room: u32,
}

impl Default for PowerLevels {
    /// The levels that a new room is given.
    fn default() -> (r: Self)
        ensures
            r.ban == Some(50u32),
            r.invite == Some(50u32),
            r.kick == Some(50u32),
            r.redact == Some(50u32),
            r.events_default == Some(0u32),
            r.state_default == Some(50u32),
            r.users_default == Some(50u32),
            r.events@ == Map::<Seq<char>, u32>::empty(),
            r.users@ == Map::<IdParts, u32>::empty(),
            r.notifications is None,
    {
        PowerLevels {
            ban: Some(50),
            events: Table::new(),
            events_default: Some(0),
            invite: Some(50),
            kick: Some(50),
            redact: Some(50),
            state_default: Some(50),
            users: Table::new(),
            users_default: Some(50),
            notifications: None,
        }
    }
}

impl Default for Notifications {
    fn default() -> (r: Self)
        ensures
            r == (Notifications { room: 50 }),
    {
        Notifications { room: 50 }
    }
}

/// Power levels that leave every value out have the documented defaults:
/// 50 for the actions and for state events, 0 for other events and for users.
pub proof fn lemma_levels_of_an_empty_event(levels: PowerLevels, user: IdParts, event_type: Seq<char>)
    requires
        levels.ban is None,
        levels.invite is None,
        levels.kick is None,
        levels.redact is None,
        levels.events_default is None,
        levels.state_default is None,
        levels.users_default is None,
        levels.events@ == Map::<Seq<char>, u32>::empty(),
        levels.users@ == Map::<IdParts, u32>::empty(),
    ensures
        levels.ban_level() == 50,
        levels.invite_level() == 50,
        levels.kick_level() == 50,
        levels.redact_level() == 50,
        levels.user_level(user) == 0,
        levels.event_level(event_type, true) == 50,
        levels.event_level(event_type, false) == 0,
{
}

/// m.room.member
#[derive(Clone, Debug)]
pub struct Member {
    pub avatar_url: Option<String>,
    pub displayname: Option<String>,
    pub membership: Membership,
    pub is_direct: Option<bool>,
}

#[derive(Clone, Copy, Debug, PartialEq, Eq, Structural)]
pub enum Membership {
    Invite,
    Join,
    Knock,
    Leave,
    Ban,
}

impl Redactable for Member {
    open spec fn redacts_to(self, reduced: Self) -> bool {
        &&& reduced.avatar_url is None
        &&& reduced.displayname is None
        &&& reduced.membership == self.membership
        &&& reduced.is_direct is None
    }

    fn redact(self) -> (r: Self) {
        Member { avatar_url: None, displayname: None, membership: self.membership, is_direct: None }
    }
}

/// A string that names no membership.
#[derive(Debug)]
pub struct InvalidMembership(pub String);

impl Membership {
    /// The name of a membership on the wire.
    pub open spec fn name(self) -> Seq<char> {
        match self {
            Membership::Ban => "ban"@,
            Membership::Invite => "invite"@,
            Membership::Join => "join"@,
            Membership::Knock => "knock"@,
            Membership::Leave => "leave"@,
        }
    }

    /// The membership that `s` names, if any.
    pub open spec fn named(s: Seq<char>) -> Option<Membership> {
        if s == "ban"@ {
            Some(Membership::Ban)
        } else if s == "invite"@ {
            Some(Membership::Invite)
        } else if s == "join"@ {
            Some(Membership::Join)
        } else if s == "knock"@ {
            Some(Membership::Knock)
        } else if s == "leave"@ {
            Some(Membership::Leave)
        } else {
            None
        }
    }

    pub fn from_str(s: &str) -> (r: Result<Self, InvalidMembership>)
        ensures
            match Self::named(s@) {
                Some(m) => r matches Ok(x) && x == m,
                None => r matches Err(e) && e.0@ == s@,
            },
    {
        if same_text(s, "ban") {
            Ok(Membership::Ban)
        } else if same_text(s, "invite") {
            Ok(Membership::Invite)
        } else if same_text(s, "join") {
            Ok(Membership::Join)
        } else if same_text(s, "knock") {
            Ok(Membership::Knock)
        } else if same_text(s, "leave") {
            Ok(Membership::Leave)
        } else {
            Err(InvalidMembership(s.to_owned()))
        }
    }

    pub fn to_string(&self) -> (s: String)
        ensures
            s@ == self.name(),
    {
        match self {
            Membership::Ban => "ban",
            Membership::Invite => "invite",
            Membership::Join => "join",
            Membership::Knock => "knock",
            Membership::Leave => "leave",
        }.to_owned()
    }
}

/// Every membership is named by its own name and by no other string.
pub proof fn lemma_membership_names_round_trip(m: Membership)
    ensures
        Membership::named(m.name()) == Some(m),
{
    reveal_strlit("ban");
    reveal_strlit("invite");
    reveal_strlit("join");
    reveal_strlit("knock");
    reveal_strlit("leave");
    assert("ban"@.len() == 3 && "join"@.len() == 4 && "invite"@.len() == 6 && "knock"@.len() == 5
        && "leave"@.len() == 5);
    assert("knock"@[0] == 'k' && "leave"@[0] == 'l');
}

/// m.room.redaction
#[derive(Clone, Debug)]
pub struct Redaction {
    pub reason: Option<String>,
}

impl Redactable for Redaction {
    open spec fn redacts_to(self, reduced: Self) -> bool {
        reduced.reason is None
    }

    fn redact(self) -> (r: Self) {
        Redaction { reason: None }
    }
}

} // verus!
