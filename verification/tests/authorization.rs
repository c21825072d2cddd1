use homeserver::error::ErrorKind;
use homeserver::events::pdu::StoredPdu;
use homeserver::events::room::{
    Create, JoinRule, JoinRules, Member, Membership, Name, PowerLevels, RoomVersion,
};
use homeserver::events::room_version::{PduV4, VersionedPdu};
use homeserver::events::EventContent;
use homeserver::state::resolve;
use homeserver::util::domain::Domain;
use homeserver::util::mxid::{MatrixId, RoomId};
use homeserver::util::storage::{AddEventError, NewEvent};
use homeserver::util::table::Table;
use homeserver::validate::{
    authorize, creator_of, decide_membership, membership_of, power_level_of, power_levels_of,
    room_is_public, select_auth_events, validate_event, validate_member_event,
};

const ALL: [Membership; 5] = [
    Membership::Invite,
    Membership::Join,
    Membership::Knock,
    Membership::Leave,
    Membership::Ban,
];

fn domain() -> Domain {
    Domain::from_str("example.org").unwrap()
}

fn user(name: &str) -> MatrixId {
    MatrixId::new(name, domain()).unwrap()
}

fn member(membership: Membership) -> Member {
    Member { avatar_url: None, displayname: None, membership, is_direct: None }
}

/// The events of a room, each naming the one before it as its predecessor.
fn chain(contents: Vec<(EventContent, &str, Option<&str>)>) -> Vec<StoredPdu> {
    let mut events: Vec<StoredPdu> = Vec::new();
    for (depth, (content, sender, state_key)) in contents.into_iter().enumerate() {
        let prev = events.last().map(|e| vec![e.event_id().to_owned()]).unwrap_or_default();
        events.push(StoredPdu::new(VersionedPdu::V4(PduV4 {
            event_content: content,
            room_id: RoomId::new("room", domain()).unwrap(),
            sender: user(sender),
            state_key: state_key.map(|k| k.to_owned()),
            unsigned: None,
            redacts: None,
            origin: domain(),
            origin_server_ts: 0,
            prev_events: prev,
            auth_events: Vec::new(),
            depth: depth as i64,
        })));
    }
    events
}

fn frontier(events: &[StoredPdu]) -> Vec<String> {
    events.last().map(|e| vec![e.event_id().to_owned()]).unwrap_or_default()
}

fn create() -> EventContent {
    EventContent::Create(Create {
        creator: user("alice"),
        room_version: Some(RoomVersion::V4),
        predecessor: None,
        extra: Table::new(),
    })
}

fn levels(kick: u32, ban: u32, invite: u32, users: &[(&str, u32)]) -> EventContent {
    let mut table = Table::new();
    for (name, level) in users {
        table.insert(user(name), *level);
    }
    EventContent::PowerLevels(PowerLevels {
        ban: Some(ban),
        invite: Some(invite),
        kick: Some(kick),
        redact: None,
        events: Table::new(),
        events_default: None,
        state_default: None,
        users: table,
        users_default: None,
        notifications: None,
    })
}

fn refusal(r: Result<(), ErrorKind>) -> String {
    match r {
        Ok(()) => "ok".to_owned(),
        Err(ErrorKind::AddEvent(AddEventError::InvalidEvent(_))) => "invalid".to_owned(),
        Err(ErrorKind::AddEvent(e)) => format!("{:?}", e),
        Err(e) => format!("{:?}", e),
    }
}

/// The table of membership transitions, written out independently.
fn expected(
    requested: Membership,
    own: bool,
    prior: Option<Membership>,
    sender: Option<Membership>,
    public: bool,
    level: u32,
    threshold: u32,
) -> &'static str {
    let joined = sender == Some(Membership::Join);
    let by_level = if level >= threshold { "ok" } else { "InsufficientPowerLevel" };
    match requested {
        Membership::Join if !own => "invalid",
        Membership::Join => match prior {
            Some(Membership::Join) | Some(Membership::Invite) => "ok",
            Some(Membership::Ban) => "UserBanned",
            _ if public => "ok",
            _ => "UserNotInvited",
        },
        Membership::Knock => "Unimplemented",
        _ if !joined => "UserNotInRoom",
        Membership::Leave if own => "ok",
        _ => by_level,
    }
}

#[test]
fn membership_matrix_matches_the_table() {
    let mut priors: Vec<Option<Membership>> = vec![None];
    priors.extend(ALL.iter().map(|m| Some(*m)));
    let mut checked = 0;
    for requested in ALL {
        for prior in priors.iter().copied() {
            for sender in priors.iter().copied() {
                for own in [true, false] {
                    for public in [true, false] {
                        for (level, threshold) in [(0, 50), (49, 50), (50, 50), (100, 50), (0, 0)] {
                            let got = decide_membership(
                                requested, own, prior, sender, public, level, threshold,
                                threshold, threshold,
                            );
                            assert_eq!(
                                refusal(got),
                                expected(requested, own, prior, sender, public, level, threshold),
                                "{:?} own={} prior={:?} sender={:?} public={} level={} threshold={}",
                                requested, own, prior, sender, public, level, threshold
                            );
                            checked += 1;
                        }
                    }
                }
            }
        }
    }
    assert_eq!(checked, 5 * 6 * 6 * 2 * 2 * 5);
}

#[test]
fn each_action_has_its_own_threshold() {
    let joined = Some(Membership::Join);
    // kick 10, ban 20, invite 30
    for (level, kick, ban, invite) in
        [(9, false, false, false), (10, true, false, false), (20, true, true, false), (30, true, true, true)]
    {
        let r = decide_membership(Membership::Leave, false, joined, joined, false, level, 10, 20, 30);
        assert_eq!(r.is_ok(), kick);
        let r = decide_membership(Membership::Ban, false, joined, joined, false, level, 10, 20, 30);
        assert_eq!(r.is_ok(), ban);
        let r = decide_membership(Membership::Invite, false, None, joined, false, level, 10, 20, 30);
        assert_eq!(r.is_ok(), invite);
    }
}

#[test]
fn foreign_join_names_its_reason() {
    let r = decide_membership(Membership::Join, false, None, None, true, 100, 0, 0, 0);
    match r {
        Err(ErrorKind::AddEvent(AddEventError::InvalidEvent(reason))) => {
            assert_eq!(reason, "user tried to set someone else's membership to join")
        }
        other => panic!("unexpected {:?}", other),
    }
}

#[test]
fn state_lookups_read_the_resolved_state() {
    let events = chain(vec![
        (create(), "alice", Some("")),
        (EventContent::Member(member(Membership::Join)), "alice", Some("@alice:example.org")),
        (EventContent::JoinRules(JoinRules { join_rule: JoinRule::Public }), "alice", Some("")),
        (EventContent::Member(member(Membership::Invite)), "alice", Some("@bob:example.org")),
        (levels(50, 50, 50, &[("alice", 80), ("bob", 5)]), "alice", Some("")),
    ]);
    let state = resolve(&events, &frontier(&events)).unwrap();
    assert_eq!(membership_of(&state, &user("alice")), Some(Membership::Join));
    assert_eq!(membership_of(&state, &user("bob")), Some(Membership::Invite));
    assert_eq!(membership_of(&state, &user("carol")), None);
    assert!(room_is_public(&state));
    assert_eq!(creator_of(&state), Some(&user("alice")));
    assert!(power_levels_of(&state).is_some());
    assert_eq!(power_level_of(&state, &user("alice")), 80);
    assert_eq!(power_level_of(&state, &user("bob")), 5);
    assert_eq!(power_level_of(&state, &user("carol")), 0);
}

#[test]
fn without_power_levels_the_creator_rules() {
    let events = chain(vec![
        (create(), "alice", Some("")),
        (EventContent::Member(member(Membership::Join)), "alice", Some("@alice:example.org")),
        (EventContent::Member(member(Membership::Join)), "bob", Some("@bob:example.org")),
    ]);
    let state = resolve(&events, &frontier(&events)).unwrap();
    assert!(power_levels_of(&state).is_none());
    assert!(!room_is_public(&state));
    assert_eq!(power_level_of(&state, &user("alice")), 100);
    assert_eq!(power_level_of(&state, &user("bob")), 0);
    // every event can be sent at level 0, state events too
    assert!(validate_event(&user("bob"), "m.room.name", true, &state).is_ok());
    assert!(validate_event(&user("bob"), "m.room.message", false, &state).is_ok());
    // but kicking, banning and inviting take level 50
    let target = Some("@alice:example.org".to_owned());
    for m in [Membership::Leave, Membership::Ban] {
        let r = validate_member_event(&user("bob"), &target, &member(m), &state);
        assert_eq!(refusal(r), "InsufficientPowerLevel");
    }
    let target = Some("@bob:example.org".to_owned());
    for m in [Membership::Leave, Membership::Ban] {
        assert!(validate_member_event(&user("alice"), &target, &member(m), &state).is_ok());
    }
    let target = Some("@carol:example.org".to_owned());
    let r = validate_member_event(&user("bob"), &target, &member(Membership::Invite), &state);
    assert_eq!(refusal(r), "InsufficientPowerLevel");
    let r = validate_member_event(&user("alice"), &target, &member(Membership::Invite), &state);
    assert!(r.is_ok());
}

#[test]
fn explicit_power_levels_gate_events() {
    let mut content = levels(50, 50, 50, &[("alice", 100), ("bob", 25)]);
    if let EventContent::PowerLevels(levels) = &mut content {
        levels.events.insert("m.room.name".to_owned(), 20);
        levels.events.insert("m.room.topic".to_owned(), 30);
        levels.events_default = Some(10);
    }
    let events = chain(vec![
        (create(), "alice", Some("")),
        (EventContent::Member(member(Membership::Join)), "alice", Some("@alice:example.org")),
        (EventContent::Member(member(Membership::Join)), "bob", Some("@bob:example.org")),
        (EventContent::Member(member(Membership::Join)), "carol", Some("@carol:example.org")),
        (EventContent::Member(member(Membership::Leave)), "dave", Some("@dave:example.org")),
        (content, "alice", Some("")),
    ]);
    let state = resolve(&events, &frontier(&events)).unwrap();
    assert!(validate_event(&user("bob"), "m.room.name", true, &state).is_ok());
    assert_eq!(
        refusal(validate_event(&user("bob"), "m.room.topic", true, &state)),
        "InsufficientPowerLevel"
    );
    // the default for state events is 50
    assert_eq!(
        refusal(validate_event(&user("bob"), "m.room.avatar", true, &state)),
        "InsufficientPowerLevel"
    );
    assert!(validate_event(&user("alice"), "m.room.avatar", true, &state).is_ok());
    assert!(validate_event(&user("bob"), "m.room.message", false, &state).is_ok());
    assert_eq!(
        refusal(validate_event(&user("carol"), "m.room.message", false, &state)),
        "InsufficientPowerLevel"
    );
    assert_eq!(
        refusal(validate_event(&user("dave"), "m.room.message", false, &state)),
        "UserNotInRoom"
    );
    assert_eq!(
        refusal(validate_event(&user("erin"), "m.room.message", false, &state)),
        "UserNotInRoom"
    );
}

#[test]
fn member_events_need_a_state_key_that_names_a_user() {
    let events = chain(vec![(create(), "alice", Some(""))]);
    let state = resolve(&events, &frontier(&events)).unwrap();
    let r = validate_member_event(&user("alice"), &None, &member(Membership::Join), &state);
    match r {
        Err(ErrorKind::AddEvent(AddEventError::InvalidEvent(reason))) => {
            assert_eq!(reason, "no state key in m.room.member event")
        }
        other => panic!("unexpected {:?}", other),
    }
    let key = Some("alice".to_owned());
    let r = validate_member_event(&user("alice"), &key, &member(Membership::Join), &state);
    match r {
        Err(ErrorKind::AddEvent(AddEventError::InvalidEvent(reason))) => {
            assert_eq!(reason, "An ID must begin @")
        }
        other => panic!("unexpected {:?}", other),
    }
    let key = Some("@alice:example.org".to_owned());
    let r = validate_member_event(&user("alice"), &key, &member(Membership::Knock), &state);
    assert!(matches!(r, Err(ErrorKind::Unimplemented)));
}

#[test]
fn authorize_goes_by_the_kind_of_event() {
    let events = chain(vec![
        (create(), "alice", Some("")),
        (EventContent::Member(member(Membership::Join)), "alice", Some("@alice:example.org")),
    ]);
    let state = resolve(&events, &frontier(&events)).unwrap();
    let event = |content: EventContent, sender: &str, state_key: Option<&str>| NewEvent {
        event_content: content,
        sender: user(sender),
        state_key: state_key.map(|k| k.to_owned()),
        redacts: None,
        unsigned: None,
    };
    let r = authorize(&event(create(), "alice", Some("")), &state);
    match r {
        Err(ErrorKind::AddEvent(AddEventError::InvalidEvent(reason))) => {
            assert_eq!(reason, "a room has exactly one create event")
        }
        other => panic!("unexpected {:?}", other),
    }
    let name = EventContent::Name(Name { name: Some("n".to_owned()) });
    assert!(authorize(&event(name.clone(), "alice", Some("")), &state).is_ok());
    assert_eq!(refusal(authorize(&event(name, "bob", Some("")), &state)), "UserNotInRoom");
    let join = EventContent::Member(member(Membership::Join));
    assert_eq!(
        refusal(authorize(&event(join, "bob", Some("@bob:example.org")), &state)),
        "UserNotInvited"
    );
}

#[test]
fn auth_events_are_selected_from_the_state() {
    let events = chain(vec![
        (create(), "alice", Some("")),
        (EventContent::Member(member(Membership::Join)), "alice", Some("@alice:example.org")),
        (EventContent::JoinRules(JoinRules { join_rule: JoinRule::Invite }), "alice", Some("")),
        (levels(50, 50, 50, &[("alice", 100)]), "alice", Some("")),
        (EventContent::Member(member(Membership::Invite)), "alice", Some("@bob:example.org")),
    ]);
    let id = |i: usize| events[i].event_id().to_owned();
    let state = resolve(&events, &frontier(&events)).unwrap();
    let event = |content: EventContent, sender: &str, state_key: Option<&str>| NewEvent {
        event_content: content,
        sender: user(sender),
        state_key: state_key.map(|k| k.to_owned()),
        redacts: None,
        unsigned: None,
    };
    let message = EventContent::Unknown {
        event_type: "m.room.message".to_owned(),
        content: serde_json::Value::Null,
    };
    assert_eq!(
        select_auth_events(&event(message.clone(), "alice", None), &state),
        vec![id(0), id(3), id(1)]
    );
    // carol has no member event
    assert_eq!(select_auth_events(&event(message, "carol", None), &state), vec![id(0), id(3)]);
    // bob joins: his own member event is both the sender's and the target's
    let join = EventContent::Member(member(Membership::Join));
    assert_eq!(
        select_auth_events(&event(join, "bob", Some("@bob:example.org")), &state),
        vec![id(0), id(3), id(4), id(4), id(2)]
    );
    let invite = EventContent::Member(member(Membership::Invite));
    assert_eq!(
        select_auth_events(&event(invite, "alice", Some("@carol:example.org")), &state),
        vec![id(0), id(3), id(1), id(2)]
    );
    let ban = EventContent::Member(member(Membership::Ban));
    assert_eq!(
        select_auth_events(&event(ban, "alice", Some("@bob:example.org")), &state),
        vec![id(0), id(3), id(1), id(4)]
    );
}

#[test]
fn refusals_have_their_messages() {
    let cases = [
        (AddEventError::UserNotInRoom, "A user tried to send an event to a room which they are not in."),
        (AddEventError::UserBanned, "A user tried to join a room from which they are banned."),
        (
            AddEventError::UserNotInvited,
            "A user tried to join a private room to which they were not invited.",
        ),
        (AddEventError::RoomNotFound, "A user tried to send an event to a room which does not exist."),
        (
            AddEventError::InsufficientPowerLevel,
            "The user does not have the required power level to send this event.",
        ),
        (AddEventError::InvalidEvent("why".to_owned()), "The event to be added was invalid."),
    ];
    for (error, message) in cases {
        assert_eq!(error.to_string(), message);
    }
}
