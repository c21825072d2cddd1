//! The authorization rules: which events a user may add to a room, given the
//! room's resolved state.
//!
//! Every function here is a pure decision. None changes the store.

use vstd::prelude::*;
use crate::error::{fails_with, ErrorKind, ErrorKindView};
use crate::events::pdu::StoredPdu;
use crate::events::room::{JoinRule, Member, Membership, PowerLevels};
use crate::events::{opt_text, EventContent};
use crate::state::{create_slot, ResolvedState, Slot};
use crate::util::mxid::{Id, IdParts, MatrixId};
use crate::util::storage::{AddEventError, AddEventErrorView, NewEvent};

verus! {

/// The type and state key of the member event of the user written `user`.
pub open spec fn member_slot(user: Seq<char>) -> Slot {
    ("m.room.member"@, user)
}

/// The type and state key of the power levels event.
pub open spec fn levels_slot() -> Slot {
    ("m.room.power_levels"@, Seq::<char>::empty())
}

/// The type and state key of the join rules event.
pub open spec fn join_rules_slot() -> Slot {
    ("m.room.join_rules"@, Seq::<char>::empty())
}

/// The content of the state event of `state` at `k`, if there is one.
pub open spec fn content_at(state: Map<Slot, StoredPdu>, k: Slot) -> Option<EventContent> {
    if state.dom().contains(k) {
        Some(state[k].pdu().v4().event_content)
    } else {
        None
    }
}

/// The membership of `user` in a room with state `state`: that of the
/// user's member event, if the state holds one.
pub open spec fn membership_in(state: Map<Slot, StoredPdu>, user: IdParts) -> Option<Membership> {
    match content_at(state, member_slot(Id::<64>::text(user))) {
        Some(EventContent::Member(m)) => Some(m.membership),
        _ => None,
    }
}

/// Whether anyone may join the room: its join rule is `Public`.
pub open spec fn is_public(state: Map<Slot, StoredPdu>) -> bool {
    match content_at(state, join_rules_slot()) {
        Some(EventContent::JoinRules(rules)) => rules.join_rule == JoinRule::Public,
        _ => false,
    }
}

/// The power levels event of the room, if its state holds one.
pub open spec fn levels_in(state: Map<Slot, StoredPdu>) -> Option<PowerLevels> {
    match content_at(state, levels_slot()) {
        Some(EventContent::PowerLevels(levels)) => Some(levels),
        _ => None,
    }
}

/// Whether `user` created the room.
pub open spec fn is_creator(state: Map<Slot, StoredPdu>, user: IdParts) -> bool {
    match content_at(state, create_slot()) {
        Some(EventContent::Create(create)) => create.creator@ == user,
        _ => false,
    }
}

/// The effective power level of `user`. In a room without a power levels
/// event the creator has level 100 and everyone else level 0.
pub open spec fn user_power(state: Map<Slot, StoredPdu>, user: IdParts) -> u32 {
    match levels_in(state) {
        Some(levels) => levels.user_level(user),
        None => if is_creator(state, user) {
            100
        } else {
            0
        },
    }
}

/// The level needed to remove another user from the room.
pub open spec fn kick_threshold(state: Map<Slot, StoredPdu>) -> u32 {
    match levels_in(state) {
        Some(levels) => levels.kick_level(),
        None => 50,
    }
}

/// The level needed to ban a user.
pub open spec fn ban_threshold(state: Map<Slot, StoredPdu>) -> u32 {
    match levels_in(state) {
        Some(levels) => levels.ban_level(),
        None => 50,
    }
}

/// The level needed to invite a user.
pub open spec fn invite_threshold(state: Map<Slot, StoredPdu>) -> u32 {
    match levels_in(state) {
        Some(levels) => levels.invite_level(),
        None => 50,
    }
}

/// The level needed to send an event of type `kind`. In a room without a
/// power levels event it is 0 for every event.
pub open spec fn event_threshold(
    state: Map<Slot, StoredPdu>,
    kind: Seq<char>,
    is_state_event: bool,
) -> u32 {
    match levels_in(state) {
        Some(levels) => levels.event_level(kind, is_state_event),
        None => 0,
    }
}

/// The refusal of an event for the reason `e`.
pub open spec fn refused(e: AddEventErrorView) -> Option<ErrorKindView> {
    Some(ErrorKindView::AddEvent(e))
}

/// The message for an attempt to join on behalf of someone else.
pub open spec fn foreign_join_message() -> Seq<char> {
    "user tried to set someone else's membership to join"@
}

/// The message for a member event without a state key.
pub open spec fn no_state_key_message() -> Seq<char> {
    "no state key in m.room.member event"@
}

/// The message for a second create event.
pub open spec fn second_create_message() -> Seq<char> {
    "a room has exactly one create event"@
}

/// The table of membership transitions. `None` accepts the event.
///
/// `requested` is the new membership, `own` says whether the sender sets
/// their own membership, `prior` is the target's current membership and
/// `sender_membership` the sender's, `public` whether the room's join rule
/// is `Public`, and `level` the sender's power level.
pub open spec fn member_rule(
    requested: Membership,
    own: bool,
    prior: Option<Membership>,
    sender_membership: Option<Membership>,
    public: bool,
    level: u32,
    kick: u32,
    ban: u32,
    invite: u32,
) -> Option<ErrorKindView> {
    match requested {
        Membership::Join => if !own {
            refused(AddEventErrorView::InvalidEvent(foreign_join_message()))
        } else {
            match prior {
                Some(Membership::Join) | Some(Membership::Invite) => None,
                Some(Membership::Ban) => refused(AddEventErrorView::UserBanned),
                _ => if public {
                    None
                } else {
                    refused(AddEventErrorView::UserNotInvited)
                },
            }
        },
        Membership::Leave => if sender_membership != Some(Membership::Join) {
            refused(AddEventErrorView::UserNotInRoom)
        } else if own || level >= kick {
            None
        } else {
            refused(AddEventErrorView::InsufficientPowerLevel)
        },
        Membership::Ban => if sender_membership != Some(Membership::Join) {
            refused(AddEventErrorView::UserNotInRoom)
        } else if level >= ban {
            None
        } else {
            refused(AddEventErrorView::InsufficientPowerLevel)
        },
        Membership::Invite => if sender_membership != Some(Membership::Join) {
            refused(AddEventErrorView::UserNotInRoom)
        } else if level >= invite {
            None
        } else {
            refused(AddEventErrorView::InsufficientPowerLevel)
        },
        Membership::Knock => Some(ErrorKindView::Unimplemented),
    }
}

/// Decides a membership transition by the table of [`member_rule`].
pub fn decide_membership(
    requested: Membership,
    own: bool,
    prior: Option<Membership>,
    sender_membership: Option<Membership>,
    public: bool,
    level: u32,
    kick: u32,
    ban: u32,
    invite: u32,
) -> (r: Result<(), ErrorKind>)
    ensures
        match member_rule(requested, own, prior, sender_membership, public, level, kick, ban, invite) {
            None => r is Ok,
            Some(e) => fails_with(r, e),
        },
{
    let sender_joined = match sender_membership {
        Some(Membership::Join) => true,
        _ => false,
    };
    match requested {
        Membership::Join => {
            if !own {
                return Err(
                    ErrorKind::AddEvent(
                        AddEventError::InvalidEvent(
                            "user tried to set someone else's membership to join".to_owned(),
                        ),
                    ),
                );
            }
            match prior {
                Some(Membership::Join) | Some(Membership::Invite) => Ok(()),
                Some(Membership::Ban) => Err(ErrorKind::AddEvent(AddEventError::UserBanned)),
                _ => if public {
                    Ok(())
                } else {
                    Err(ErrorKind::AddEvent(AddEventError::UserNotInvited))
                },
            }
        },
        Membership::Leave => {
            if !sender_joined {
                Err(ErrorKind::AddEvent(AddEventError::UserNotInRoom))
            } else if own || level >= kick {
                // users can set own membership to leave, but setting others'
                // to leave is kicking and you need permission for that
                Ok(())
            } else {
                Err(ErrorKind::AddEvent(AddEventError::InsufficientPowerLevel))
            }
        },
        Membership::Ban => {
            if !sender_joined {
                Err(ErrorKind::AddEvent(AddEventError::UserNotInRoom))
            } else if level >= ban {
                Ok(())
            } else {
                Err(ErrorKind::AddEvent(AddEventError::InsufficientPowerLevel))
            }
        },
        Membership::Invite => {
            if !sender_joined {
                Err(ErrorKind::AddEvent(AddEventError::UserNotInRoom))
            } else if level >= invite {
                Ok(())
            } else {
                Err(ErrorKind::AddEvent(AddEventError::InsufficientPowerLevel))
            }
        },
        Membership::Knock => Err(ErrorKind::Unimplemented),
    }
}

/// The membership of `user` in a room with state `state`.
pub fn membership_of(state: &ResolvedState<'_>, user: &MatrixId) -> (r: Option<Membership>)
    ensures
        r == membership_in(state@, user@),
{
    let text = user.to_string();
    match state.get("m.room.member", text.as_str()) {
        Some(e) => match e.event_content() {
            EventContent::Member(m) => Some(m.membership),
            _ => None,
        },
        None => None,
    }
}

/// Whether the room's join rule is `Public`.
pub fn room_is_public(state: &ResolvedState<'_>) -> (r: bool)
    ensures
        r == is_public(state@),
{
    proof {
        reveal_strlit("");
        assert(""@ =~= Seq::<char>::empty());
    }
    match state.get("m.room.join_rules", "") {
        Some(e) => match e.event_content() {
            EventContent::JoinRules(rules) => match rules.join_rule {
                JoinRule::Public => true,
                _ => false,
            },
            _ => false,
        },
        None => false,
    }
}

/// The power levels event of the room, if its state holds one.
pub fn power_levels_of<'a>(state: &ResolvedState<'a>) -> (r: Option<&'a PowerLevels>)
    ensures
        match r {
            Some(levels) => levels_in(state@) == Some(*levels),
            None => levels_in(state@) is None,
        },
{
    proof {
        reveal_strlit("");
        assert(""@ =~= Seq::<char>::empty());
    }
    match state.get("m.room.power_levels", "") {
        Some(e) => match e.event_content() {
            EventContent::PowerLevels(levels) => Some(levels),
            _ => None,
        },
        None => None,
    }
}

/// The user who created the room, if the state holds the create event.
pub fn creator_of<'a>(state: &ResolvedState<'a>) -> (r: Option<&'a MatrixId>)
    ensures
        match r {
            Some(creator) => forall|user: IdParts|
                is_creator(state@, user) == (creator@ == user),
            None => forall|user: IdParts| !is_creator(state@, user),
        },
{
    proof {
        reveal_strlit("");
        assert(""@ =~= Seq::<char>::empty());
    }
    match state.get("m.room.create", "") {
        Some(e) => match e.event_content() {
            EventContent::Create(create) => Some(&create.creator),
            _ => None,
        },
        None => None,
    }
}

/// The effective power level of `user` in a room with state `state`.
pub fn power_level_of(state: &ResolvedState<'_>, user: &MatrixId) -> (level: u32)
    ensures
        level == user_power(state@, user@),
{
    match power_levels_of(state) {
        Some(levels) => levels.get_user_level(user),
        None => match creator_of(state) {
            Some(creator) => {
                let implicit = PowerLevels::no_event_default_levels(creator);
                implicit.get_user_level(user)
            },
            None => 0,
        },
    }
}

/// What is decided of a member event: `None` accepts it.
pub open spec fn member_verdict(
    sender: IdParts,
    state_key: Option<Seq<char>>,
    requested: Membership,
    state: Map<Slot, StoredPdu>,
) -> Option<ErrorKindView> {
    match state_key {
        None => refused(AddEventErrorView::InvalidEvent(no_state_key_message())),
        Some(key) => match Id::<64>::parse(key) {
            Err(e) => refused(AddEventErrorView::InvalidEvent(e.message())),
            Ok(target) => member_rule(
                requested,
                target == sender,
                membership_in(state, target),
                membership_in(state, sender),
                is_public(state),
                user_power(state, sender),
                kick_threshold(state),
                ban_threshold(state),
                invite_threshold(state),
            ),
        },
    }
}

/// Decides whether `sender` may set the membership of the user named by
/// `state_key` to that of `content`, in a room with state `state`.
pub fn validate_member_event(
    sender: &MatrixId,
    state_key: &Option<String>,
    content: &Member,
    state: &ResolvedState<'_>,
) -> (r: Result<(), ErrorKind>)
    ensures
        match member_verdict(sender@, opt_text(*state_key), content.membership, state@) {
            None => r is Ok,
            Some(e) => fails_with(r, e),
        },
{
    let key = match state_key {
        Some(key) => key,
        None => {
            return Err(
                ErrorKind::AddEvent(
                    AddEventError::InvalidEvent("no state key in m.room.member event".to_owned()),
                ),
            );
        },
    };
    let affected_user = match MatrixId::from_str(key.as_str()) {
        Ok(id) => id,
        Err(e) => {
            return Err(ErrorKind::AddEvent(AddEventError::InvalidEvent(e.to_string())));
        },
    };
    let sender_membership = membership_of(state, sender);
    let prev_membership = membership_of(state, &affected_user);
    let own = affected_user.localpart_is(sender.localpart()) && affected_user.domain_is(
        sender.domain().as_str(),
    );
    let (kick, ban, invite) = match power_levels_of(state) {
        Some(levels) => (levels.kick(), levels.ban(), levels.invite()),
        None => (50, 50, 50),
    };
    decide_membership(
        content.membership,
        own,
        prev_membership,
        sender_membership,
        room_is_public(state),
        power_level_of(state, sender),
        kick,
        ban,
        invite,
    )
}

/// What is decided of an event that changes no membership: the sender must
/// be joined to the room and have the level that the event asks for.
pub open spec fn event_verdict(
    sender: IdParts,
    kind: Seq<char>,
    is_state_event: bool,
    state: Map<Slot, StoredPdu>,
) -> Option<ErrorKindView> {
    if membership_in(state, sender) != Some(Membership::Join) {
        refused(AddEventErrorView::UserNotInRoom)
    } else if user_power(state, sender) < event_threshold(state, kind, is_state_event) {
        refused(AddEventErrorView::InsufficientPowerLevel)
    } else {
        None
    }
}

/// Decides whether `sender` may send an event of type `kind` that changes no
/// membership.
pub fn validate_event(
    sender: &MatrixId,
    kind: &str,
    is_state_event: bool,
    state: &ResolvedState<'_>,
) -> (r: Result<(), ErrorKind>)
    ensures
        match event_verdict(sender@, kind@, is_state_event, state@) {
            None => r is Ok,
            Some(e) => fails_with(r, e),
        },
{
    match membership_of(state, sender) {
        Some(Membership::Join) => {},
        _ => {
            return Err(ErrorKind::AddEvent(AddEventError::UserNotInRoom));
        },
    }
    let needed = match power_levels_of(state) {
        Some(levels) => levels.get_event_level(kind, is_state_event),
        None => 0,
    };
    if power_level_of(state, sender) < needed {
        Err(ErrorKind::AddEvent(AddEventError::InsufficientPowerLevel))
    } else {
        Ok(())
    }
}

/// What is decided of a candidate event: `None` accepts it. A member event
/// goes by the table of membership transitions, a create event is refused in
/// a room that exists, and every other event goes by the sender's membership
/// and power level.
pub open spec fn verdict(event: NewEvent, state: Map<Slot, StoredPdu>) -> Option<ErrorKindView> {
    match event.event_content {
        EventContent::Create(_) => refused(
            AddEventErrorView::InvalidEvent(second_create_message()),
        ),
        EventContent::Member(m) => member_verdict(
            event.sender@,
            opt_text(event.state_key),
            m.membership,
            state,
        ),
        _ => event_verdict(
            event.sender@,
            event.event_content.kind_name(),
            event.state_key is Some,
            state,
        ),
    }
}

/// Decides whether `event` may be added to a room with state `state`.
pub fn authorize(event: &NewEvent, state: &ResolvedState<'_>) -> (r: Result<(), ErrorKind>)
    ensures
        match verdict(*event, state@) {
            None => r is Ok,
            Some(e) => fails_with(r, e),
        },
{
    match &event.event_content {
        EventContent::Create(_) => Err(
            ErrorKind::AddEvent(
                AddEventError::InvalidEvent("a room has exactly one create event".to_owned()),
            ),
        ),
        EventContent::Member(m) => validate_member_event(
            &event.sender,
            &event.state_key,
            m,
            state,
        ),
        _ => validate_event(
            &event.sender,
            event.event_content.event_type(),
            event.state_key.is_some(),
            state,
        ),
    }
}

/// The identifier of the state event at `k`, as a list of one or none.
pub open spec fn id_at(state: Map<Slot, StoredPdu>, k: Slot) -> Seq<Seq<char>> {
    if state.dom().contains(k) {
        seq![state[k].id()]
    } else {
        Seq::empty()
    }
}

/// The events that authorize `event` in a room with state `state`: the
/// create event, the power levels event and the sender's member event, each
/// if the state holds it; for a member event also the target's member event
/// and, where it asks for `Join` or `Invite`, the join rules event.
pub open spec fn auth_ids(event: NewEvent, state: Map<Slot, StoredPdu>) -> Seq<Seq<char>> {
    let always = id_at(state, create_slot()) + id_at(state, levels_slot()) + id_at(
        state,
        member_slot(Id::<64>::text(event.sender@)),
    );
    match event.event_content {
        EventContent::Member(m) => {
            let target = match event.state_key {
                Some(key) => id_at(state, member_slot(key@)),
                None => Seq::empty(),
            };
            let rules = if m.membership == Membership::Join || m.membership == Membership::Invite {
                id_at(state, join_rules_slot())
            } else {
                Seq::empty()
            };
            always + target + rules
        },
        _ => always,
    }
}

fn push_id_at(ids: &mut Vec<String>, state: &ResolvedState<'_>, kind: &str, key: &str)
    ensures
        crate::state::texts(final(ids)@) == crate::state::texts(old(ids)@) + id_at(
            state@,
            (kind@, key@),
        ),
{
    match state.get(kind, key) {
        Some(e) => {
            ids.push(e.event_id().to_owned());
            assert(crate::state::texts(ids@) =~= crate::state::texts(old(ids)@) + id_at(
                state@,
                (kind@, key@),
            ));
        },
        None => {
            assert(crate::state::texts(ids@) =~= crate::state::texts(old(ids)@) + id_at(
                state@,
                (kind@, key@),
            ));
        },
    }
}

/// Lists the identifiers of the events that authorize `event`.
pub fn select_auth_events(event: &NewEvent, state: &ResolvedState<'_>) -> (ids: Vec<String>)
    ensures
        crate::state::texts(ids@) == auth_ids(*event, state@),
{
    proof {
        reveal_strlit("");
        assert(""@ =~= Seq::<char>::empty());
    }
    let mut ids: Vec<String> = Vec::new();
    assert(crate::state::texts(ids@) =~= Seq::<Seq<char>>::empty());
    push_id_at(&mut ids, state, "m.room.create", "");
    push_id_at(&mut ids, state, "m.room.power_levels", "");
    let sender = event.sender.to_string();
    push_id_at(&mut ids, state, "m.room.member", sender.as_str());
    let ghost always = crate::state::texts(ids@);
    assert(always =~= id_at(state@, create_slot()) + id_at(state@, levels_slot()) + id_at(
        state@,
        member_slot(Id::<64>::text(event.sender@)),
    ));
    if let EventContent::Member(content) = &event.event_content {
        if let Some(key) = &event.state_key {
            push_id_at(&mut ids, state, "m.room.member", key.as_str());
        }
        match content.membership {
            Membership::Join | Membership::Invite => {
                push_id_at(&mut ids, state, "m.room.join_rules", "");
            },
            _ => {},
        }
        assert(crate::state::texts(ids@) =~= auth_ids(*event, state@));
    }
    ids
}

/// The events that authorize an event name the room's create event, the
/// power levels event and the sender's member event where the state holds
/// them; those of a member event also name the target's member event and,
/// for a join or an invite, the join rules event.
pub proof fn lemma_auth_events_name_what_authorizes(event: NewEvent, state: Map<Slot, StoredPdu>)
    ensures
        state.dom().contains(create_slot()) ==> auth_ids(event, state).contains(
            state[create_slot()].id(),
        ),
        state.dom().contains(levels_slot()) ==> auth_ids(event, state).contains(
            state[levels_slot()].id(),
        ),
        state.dom().contains(member_slot(Id::<64>::text(event.sender@))) ==> auth_ids(
            event,
            state,
        ).contains(state[member_slot(Id::<64>::text(event.sender@))].id()),
        event.event_content is Member && event.state_key is Some && state.dom().contains(
            member_slot(event.state_key->Some_0@),
        ) ==> auth_ids(event, state).contains(state[member_slot(event.state_key->Some_0@)].id()),
        (event.event_content matches EventContent::Member(m) && (m.membership == Membership::Join
            || m.membership == Membership::Invite)) && state.dom().contains(join_rules_slot())
            ==> auth_ids(event, state).contains(state[join_rules_slot()].id()),
{
    let a = id_at(state, create_slot());
    let b = id_at(state, levels_slot());
    let c = id_at(state, member_slot(Id::<64>::text(event.sender@)));
    let always = a + b + c;
    if state.dom().contains(create_slot()) {
        assert(always[0] == state[create_slot()].id());
    }
    if state.dom().contains(levels_slot()) {
        assert(always[a.len() as int] == state[levels_slot()].id());
    }
    if state.dom().contains(member_slot(Id::<64>::text(event.sender@))) {
        assert(always[(a.len() + b.len()) as int] == state[member_slot(
            Id::<64>::text(event.sender@),
        )].id());
    }
    match event.event_content {
        EventContent::Member(m) => {
            let target = match event.state_key {
                Some(key) => id_at(state, member_slot(key@)),
                None => Seq::empty(),
            };
            let rules = if m.membership == Membership::Join || m.membership == Membership::Invite {
                id_at(state, join_rules_slot())
            } else {
                Seq::empty()
            };
            let all = always + target + rules;
            assert(all == auth_ids(event, state));
            assert forall|i: int| 0 <= i < always.len() implies all.contains(always[i]) by {
                assert(all[i] == always[i]);
            }
            if target.len() > 0 {
                assert(all[always.len() as int] == target[0]);
            }
            if rules.len() > 0 {
                assert(all[(always.len() + target.len()) as int] == rules[0]);
            }
        },
        _ => {},
    }
}

/// The table of membership transitions, row by row.
pub proof fn lemma_membership_table(
    requested: Membership,
    own: bool,
    prior: Option<Membership>,
    sender_membership: Option<Membership>,
    public: bool,
    level: u32,
    kick: u32,
    ban: u32,
    invite: u32,
)
    ensures
        ({
            let decided = member_rule(
                requested,
                own,
                prior,
                sender_membership,
                public,
                level,
                kick,
                ban,
                invite,
            );
            let joined = sender_membership == Some(Membership::Join);
            // Join: only for oneself; at once after a join or an invite,
            // never after a ban, else only into a public room.
            &&& requested == Membership::Join && !own ==> decided == refused(
                AddEventErrorView::InvalidEvent(foreign_join_message()),
            )
            &&& requested == Membership::Join && own && (prior == Some(Membership::Join) || prior
                == Some(Membership::Invite)) ==> decided is None
            &&& requested == Membership::Join && own && prior == Some(Membership::Ban) ==> decided
                == refused(AddEventErrorView::UserBanned)
            &&& requested == Membership::Join && own && (prior is None || prior == Some(
                Membership::Leave,
            ) || prior == Some(Membership::Knock)) ==> decided == if public {
                None
            } else {
                refused(AddEventErrorView::UserNotInvited)
            }
            // Leave, Ban, Invite: only for a sender who has joined.
            &&& (requested == Membership::Leave || requested == Membership::Ban || requested
                == Membership::Invite) && !joined ==> decided == refused(
                AddEventErrorView::UserNotInRoom,
            )
            // Leave: freely for oneself, for others with the level to kick.
            &&& requested == Membership::Leave && joined && own ==> decided is None
            &&& requested == Membership::Leave && joined && !own ==> decided == if level >= kick {
                None
            } else {
                refused(AddEventErrorView::InsufficientPowerLevel)
            }
            // Ban and Invite: with the level that each asks for.
            &&& requested == Membership::Ban && joined ==> decided == if level >= ban {
                None
            } else {
                refused(AddEventErrorView::InsufficientPowerLevel)
            }
            &&& requested == Membership::Invite && joined ==> decided == if level >= invite {
                None
            } else {
                refused(AddEventErrorView::InsufficientPowerLevel)
            }
            // Knock is not supported.
            &&& requested == Membership::Knock ==> decided == Some(ErrorKindView::Unimplemented)
        }),
{
}

/// In a room without a power levels event the creator has level 100 and
/// everyone else level 0, every event can be sent at level 0, and kicking,
/// banning and inviting take level 50.
pub proof fn lemma_levels_without_an_event(
    state: Map<Slot, StoredPdu>,
    user: IdParts,
    kind: Seq<char>,
    is_state_event: bool,
)
    requires
        levels_in(state) is None,
    ensures
        user_power(state, user) == if is_creator(state, user) {
            100u32
        } else {
            0u32
        },
        event_threshold(state, kind, is_state_event) == 0,
        kick_threshold(state) == 50,
        ban_threshold(state) == 50,
        invite_threshold(state) == 50,
{
}

/// In a room whose join rule is not public and that has no power levels
/// event, a user who was never a member cannot join, and can once a member
/// who has joined and has the level to invite has invited them.
pub proof fn lemma_membership_gate(
    sender_membership: Option<Membership>,
    level: u32,
    kick: u32,
    ban: u32,
    invite: u32,
)
    ensures
        member_rule(Membership::Join, true, None, sender_membership, false, level, kick, ban, invite)
            == refused(AddEventErrorView::UserNotInvited),
        level >= invite ==> member_rule(
            Membership::Invite,
            false,
            None,
            Some(Membership::Join),
            false,
            level,
            kick,
            ban,
            invite,
        ) is None,
        member_rule(
            Membership::Join,
            true,
            Some(Membership::Invite),
            sender_membership,
            false,
            level,
            kick,
            ban,
            invite,
        ) is None,
{
}

} // verus!
