use homeserver::events::pdu::StoredPdu;
use homeserver::events::room::{
    Create, GuestAccess, GuestAccessType, HistoryVisibility, HistoryVisibilityType, JoinRule,
    JoinRules, Member, Membership, Name, Notifications, PowerLevels, PreviousRoom, Redactable,
    Redaction, RoomVersion, Topic,
};
use homeserver::events::room_version::{PduV4, VersionedPdu};
use homeserver::events::EventContent;
use homeserver::util::domain::Domain;
use homeserver::util::mxid::{MatrixId, RoomId};
use homeserver::util::table::Table;

fn domain() -> Domain {
    Domain::from_str("example.org").unwrap()
}

fn user(name: &str) -> MatrixId {
    MatrixId::new(name, domain()).unwrap()
}

fn room() -> RoomId {
    RoomId::new("room", domain()).unwrap()
}

fn empty_levels() -> PowerLevels {
    PowerLevels {
        ban: None,
        invite: None,
        kick: None,
        redact: None,
        events: Table::new(),
        events_default: None,
        state_default: None,
        users: Table::new(),
        users_default: None,
        notifications: None,
    }
}

fn pdu(content: EventContent, state_key: Option<&str>, depth: i64, prev: &[&str]) -> PduV4 {
    PduV4 {
        event_content: content,
        room_id: room(),
        sender: user("alice"),
        state_key: state_key.map(|k| k.to_owned()),
        unsigned: None,
        redacts: None,
        origin: domain(),
        origin_server_ts: 1_000,
        prev_events: prev.iter().map(|p| p.to_string()).collect(),
        auth_events: Vec::new(),
        depth,
    }
}

#[test]
fn power_levels_without_an_event() {
    let alice = user("alice");
    let bob = user("bob");
    let levels = PowerLevels::no_event_default_levels(&alice);
    assert_eq!(levels.get_user_level(&alice), 100);
    assert_eq!(levels.get_user_level(&bob), 0);
    assert_eq!(levels.state_default(), 0);
    assert_eq!(levels.events_default(), 0);
    assert_eq!(levels.users_default(), 0);
    assert_eq!(levels.ban(), 50);
    assert_eq!(levels.invite(), 50);
    assert_eq!(levels.kick(), 50);
    assert_eq!(PowerLevels::redact(&levels), 50);
    assert_eq!(levels.get_event_level("m.room.name", true), 0);
    assert_eq!(levels.get_event_level("m.room.message", false), 0);
}

#[test]
fn power_levels_of_an_empty_event() {
    let levels = empty_levels();
    assert_eq!(levels.ban(), 50);
    assert_eq!(levels.invite(), 50);
    assert_eq!(levels.kick(), 50);
    assert_eq!(PowerLevels::redact(&levels), 50);
    assert_eq!(levels.state_default(), 50);
    assert_eq!(levels.events_default(), 0);
    assert_eq!(levels.users_default(), 0);
    assert_eq!(levels.get_user_level(&user("alice")), 0);
    assert_eq!(levels.get_event_level("m.room.name", true), 50);
    assert_eq!(levels.get_event_level("m.room.message", false), 0);
    assert_eq!(levels.notifications(), Notifications { room: 50 });
}

#[test]
fn power_levels_overrides() {
    let mut levels = empty_levels();
    levels.ban = Some(70);
    levels.invite = Some(10);
    levels.kick = Some(60);
    levels.redact = Some(20);
    levels.state_default = Some(30);
    levels.events_default = Some(5);
    levels.users_default = Some(7);
    levels.users.insert(user("alice"), 99);
    levels.events.insert("m.room.name".to_owned(), 42);
    levels.notifications = Some(Notifications { room: 3 });
    assert_eq!(levels.ban(), 70);
    assert_eq!(levels.invite(), 10);
    assert_eq!(levels.kick(), 60);
    assert_eq!(PowerLevels::redact(&levels), 20);
    assert_eq!(levels.state_default(), 30);
    assert_eq!(levels.events_default(), 5);
    assert_eq!(levels.users_default(), 7);
    assert_eq!(levels.get_user_level(&user("alice")), 99);
    assert_eq!(levels.get_user_level(&user("bob")), 7);
    assert_eq!(levels.get_event_level("m.room.name", true), 42);
    assert_eq!(levels.get_event_level("m.room.name", false), 42);
    assert_eq!(levels.get_event_level("m.room.topic", true), 30);
    assert_eq!(levels.get_event_level("m.room.message", false), 5);
    assert_eq!(levels.notifications(), Notifications { room: 3 });
}

#[test]
fn default_power_levels_are_those_of_a_new_room() {
    let levels = PowerLevels::default();
    assert_eq!(levels.ban, Some(50));
    assert_eq!(levels.invite, Some(50));
    assert_eq!(levels.kick, Some(50));
    assert_eq!(levels.redact, Some(50));
    assert_eq!(levels.state_default, Some(50));
    assert_eq!(levels.events_default, Some(0));
    assert_eq!(levels.users_default, Some(50));
    assert_eq!(levels.users.len(), 0);
    assert_eq!(levels.events.len(), 0);
    assert!(levels.notifications.is_none());
    assert_eq!(Notifications::default(), Notifications { room: 50 });
}

#[test]
fn membership_names() {
    for (m, name) in [
        (Membership::Ban, "ban"),
        (Membership::Invite, "invite"),
        (Membership::Join, "join"),
        (Membership::Knock, "knock"),
        (Membership::Leave, "leave"),
    ] {
        assert_eq!(m.to_string(), name);
        assert_eq!(Membership::from_str(name).unwrap(), m);
    }
    let err = Membership::from_str("Join").unwrap_err();
    assert_eq!(err.0, "Join");
    assert!(Membership::from_str("").is_err());
}

#[test]
fn redaction_keeps_what_the_rules_name() {
    let mut extra = Table::new();
    extra.insert("m.federate".to_owned(), serde_json::Value::Bool(true));
    let create = Create {
        creator: user("alice"),
        room_version: Some(RoomVersion::V4),
        predecessor: Some(PreviousRoom { room_id: room(), event_id: "$old".to_owned() }),
        extra,
    };
    let reduced = create.redact();
    assert_eq!(reduced.creator, user("alice"));
    assert!(reduced.room_version.is_none());
    assert!(reduced.predecessor.is_none());
    assert_eq!(reduced.extra.len(), 0);

    let member = Member {
        avatar_url: Some("mxc://a".to_owned()),
        displayname: Some("Alice".to_owned()),
        membership: Membership::Invite,
        is_direct: Some(true),
    };
    let reduced = member.redact();
    assert_eq!(reduced.membership, Membership::Invite);
    assert!(reduced.avatar_url.is_none() && reduced.displayname.is_none());
    assert!(reduced.is_direct.is_none());

    let mut levels = empty_levels();
    levels.ban = Some(1);
    levels.invite = Some(2);
    levels.kick = Some(3);
    levels.redact = Some(4);
    levels.users.insert(user("alice"), 5);
    levels.events.insert("m.room.name".to_owned(), 6);
    levels.notifications = Some(Notifications { room: 7 });
    let reduced = Redactable::redact(levels);
    assert_eq!(reduced.ban, Some(1));
    assert_eq!(reduced.invite, None);
    assert_eq!(reduced.kick, Some(3));
    assert_eq!(reduced.redact, Some(4));
    assert_eq!(reduced.get_user_level(&user("alice")), 5);
    assert_eq!(reduced.get_event_level("m.room.name", true), 6);
    assert!(reduced.notifications.is_none());

    assert_eq!(JoinRules { join_rule: JoinRule::Knock }.redact().join_rule, JoinRule::Knock);
    assert_eq!(
        HistoryVisibility { history_visibility: HistoryVisibilityType::Shared }
            .redact()
            .history_visibility,
        HistoryVisibilityType::Shared
    );
    assert!(GuestAccess { guest_access: Some(GuestAccessType::CanJoin) }
        .redact()
        .guest_access
        .is_none());
    assert!(Name { name: Some("n".to_owned()) }.redact().name.is_none());
    assert!(Topic { topic: Some("t".to_owned()) }.redact().topic.is_none());
    assert!(Redaction { reason: Some("r".to_owned()) }.redact().reason.is_none());
}

#[test]
fn redaction_of_content_keeps_the_type() {
    let content = EventContent::Unknown {
        event_type: "org.example.custom".to_owned(),
        content: serde_json::Value::String("secret".to_owned()),
    };
    match content.redact() {
        EventContent::Unknown { event_type, content } => {
            assert_eq!(event_type, "org.example.custom");
            assert_eq!(content, serde_json::Value::Object(serde_json::Map::new()));
        }
        other => panic!("unexpected content {:?}", other),
    }
    let content = EventContent::Name(Name { name: Some("n".to_owned()) });
    assert!(matches!(content.redact(), EventContent::Name(Name { name: None })));
}

#[test]
fn event_type_names() {
    let cases: Vec<(EventContent, &str)> = vec![
        (
            EventContent::Create(Create {
                creator: user("alice"),
                room_version: None,
                predecessor: None,
                extra: Table::new(),
            }),
            "m.room.create",
        ),
        (EventContent::JoinRules(JoinRules { join_rule: JoinRule::Public }), "m.room.join_rules"),
        (
            EventContent::HistoryVisibility(HistoryVisibility {
                history_visibility: HistoryVisibilityType::Joined,
            }),
            "m.room.history_visibility",
        ),
        (EventContent::GuestAccess(GuestAccess { guest_access: None }), "m.room.guest_access"),
        (EventContent::Name(Name { name: None }), "m.room.name"),
        (EventContent::Topic(Topic { topic: None }), "m.room.topic"),
        (EventContent::PowerLevels(empty_levels()), "m.room.power_levels"),
        (
            EventContent::Member(Member {
                avatar_url: None,
                displayname: None,
                membership: Membership::Join,
                is_direct: None,
            }),
            "m.room.member",
        ),
        (EventContent::Redaction(Redaction { reason: None }), "m.room.redaction"),
        (
            EventContent::Unknown {
                event_type: "m.room.message".to_owned(),
                content: serde_json::Value::Null,
            },
            "m.room.message",
        ),
    ];
    for (content, name) in cases {
        assert_eq!(content.event_type(), name);
        assert!(content.has_type(name));
        assert!(!content.has_type("m.room.other"));
    }
}

#[test]
fn getters_hand_out_the_fields() {
    let mut inner = pdu(EventContent::Name(Name { name: Some("n".to_owned()) }), Some(""), 3, &["$a", "$b"]);
    inner.unsigned = Some(serde_json::Value::Bool(true));
    inner.redacts = Some("$gone".to_owned());
    inner.auth_events = vec!["$c".to_owned()];
    let pdu = VersionedPdu::V4(inner);
    assert!(matches!(pdu.event_content(), EventContent::Name(_)));
    assert_eq!(pdu.room_id(), &room());
    assert_eq!(pdu.sender(), &user("alice"));
    assert_eq!(pdu.state_key(), Some(""));
    assert_eq!(pdu.unsigned(), Some(&serde_json::Value::Bool(true)));
    assert_eq!(pdu.redacts(), Some("$gone"));
    assert_eq!(pdu.origin(), &domain());
    assert_eq!(pdu.origin_server_ts(), 1_000);
    assert_eq!(pdu.prev_events(), &["$a".to_owned(), "$b".to_owned()][..]);
    assert_eq!(pdu.auth_events(), &["$c".to_owned()][..]);
    assert_eq!(pdu.depth(), 3);
}

#[test]
fn event_ids_are_derived_from_the_event() {
    let a = VersionedPdu::V4(pdu(EventContent::Name(Name { name: None }), Some(""), 1, &[]));
    let b = VersionedPdu::V4(pdu(EventContent::Name(Name { name: None }), Some(""), 1, &[]));
    let c = VersionedPdu::V4(pdu(EventContent::Name(Name { name: None }), Some(""), 2, &[]));
    let d = VersionedPdu::V4(pdu(EventContent::Name(Name { name: None }), None, 1, &[]));
    let e = VersionedPdu::V4(pdu(EventContent::Name(Name { name: None }), Some(""), 1, &["$x"]));
    let id = a.event_id();
    assert_eq!(id.len(), 17);
    assert!(id.starts_with('$'));
    assert!(id[1..].chars().all(|c| c.is_ascii_digit() || ('A'..='F').contains(&c)));
    assert_eq!(id, b.event_id());
    assert_ne!(id, c.event_id());
    assert_ne!(id, d.event_id());
    assert_ne!(id, e.event_id());
}

#[test]
fn event_id_is_the_fnv_hash_of_the_identity_text() {
    let inner = pdu(EventContent::Name(Name { name: None }), Some("k"), 1, &["$p"]);
    let text = format!(
        "!room:example.org|@alice:example.org|m.room.name|=k||example.org|{:016X}|{:016X}|$p,||",
        1_000i64, 1i64
    );
    let mut h: u64 = 0xcbf2_9ce4_8422_2325;
    for c in text.chars() {
        h = (h ^ (c as u64)).wrapping_mul(0x100_0000_01b3);
    }
    assert_eq!(inner.compute_rank(), h);
    assert_eq!(inner.event_id(), format!("${:016X}", h));
    let stored = StoredPdu::new(VersionedPdu::V4(inner));
    assert_eq!(stored.event_id(), format!("${:016X}", h));
    assert_eq!(stored.id_rank(), h);
}

fn fnv(text: &str) -> u64 {
    let mut h: u64 = 0xcbf2_9ce4_8422_2325;
    for c in text.chars() {
        h = (h ^ (c as u64)).wrapping_mul(0x100_0000_01b3);
    }
    h
}

#[test]
fn event_ids_cover_what_a_redaction_keeps() {
    let head = format!(
        "!room:example.org|@alice:example.org|{{}}|=||example.org|{:016X}|{:016X}|||",
        1_000i64, 0i64
    );
    let text = |kind: &str, kept: &str| format!("{}{}", head.replace("{}", kind), kept);
    let member = |m: Membership| {
        EventContent::Member(Member { avatar_url: Some("a".to_owned()), displayname: None, membership: m, is_direct: None })
    };
    let rank = |content: EventContent| pdu(content, Some(""), 0, &[]).compute_rank();
    assert_eq!(rank(member(Membership::Join)), fnv(&text("m.room.member", "join")));
    assert_eq!(rank(member(Membership::Ban)), fnv(&text("m.room.member", "ban")));
    assert_ne!(rank(member(Membership::Join)), rank(member(Membership::Leave)));
    let create = EventContent::Create(Create {
        creator: user("bob"),
        room_version: Some(RoomVersion::V4),
        predecessor: None,
        extra: Table::new(),
    });
    assert_eq!(rank(create), fnv(&text("m.room.create", "@bob:example.org")));
    let rules = EventContent::JoinRules(JoinRules { join_rule: JoinRule::Private });
    assert_eq!(rank(rules), fnv(&text("m.room.join_rules", "private")));
    let visibility = EventContent::HistoryVisibility(HistoryVisibility {
        history_visibility: HistoryVisibilityType::WorldReadable,
    });
    assert_eq!(rank(visibility), fnv(&text("m.room.history_visibility", "world_readable")));
    let mut levels = empty_levels();
    assert_eq!(
        rank(EventContent::PowerLevels(empty_levels())),
        fnv(&text("m.room.power_levels", "-,-,-,-,-,-;;"))
    );
    levels.ban = Some(1);
    levels.invite = Some(2);
    levels.kick = Some(3);
    levels.redact = Some(4);
    levels.events_default = Some(5);
    levels.state_default = Some(6);
    levels.users_default = Some(0xabc);
    levels.events.insert("m.room.name".to_owned(), 7);
    levels.events.insert("m.room.topic".to_owned(), 8);
    levels.users.insert(user("carol"), 9);
    let kept = "00000001,00000003,00000004,00000005,00000006,00000ABC;\
                m.room.name=00000007,m.room.topic=00000008,;@carol:example.org=00000009,";
    assert_eq!(rank(EventContent::PowerLevels(levels)), fnv(&text("m.room.power_levels", kept)));
    // nothing is kept of a name or of content that is not interpreted
    let name = |n: &str| EventContent::Name(Name { name: Some(n.to_owned()) });
    assert_eq!(rank(name("a")), rank(name("b")));
    assert_eq!(rank(name("a")), fnv(&text("m.room.name", "")));
}

#[test]
fn redacting_a_pdu_keeps_its_place_in_the_graph() {
    let mut inner = pdu(
        EventContent::Member(Member {
            avatar_url: Some("mxc://a".to_owned()),
            displayname: None,
            membership: Membership::Join,
            is_direct: None,
        }),
        Some("@alice:example.org"),
        4,
        &["$a"],
    );
    inner.auth_events = vec!["$c".to_owned()];
    let before = VersionedPdu::V4(inner);
    let id = before.event_id();
    let after = before.redact();
    assert_eq!(after.event_id(), id);
    assert_eq!(after.depth(), 4);
    assert_eq!(after.prev_events(), &["$a".to_owned()][..]);
    assert_eq!(after.auth_events(), &["$c".to_owned()][..]);
    match after.event_content() {
        EventContent::Member(m) => {
            assert!(m.avatar_url.is_none());
            assert_eq!(m.membership, Membership::Join);
        }
        other => panic!("unexpected content {:?}", other),
    }
}

#[test]
fn client_format_hides_the_graph() {
    let mut inner = pdu(EventContent::Topic(Topic { topic: Some("t".to_owned()) }), Some(""), 2, &["$a"]);
    inner.unsigned = Some(serde_json::Value::String("txn".to_owned()));
    let pdu = VersionedPdu::V4(inner);
    let id = pdu.event_id();
    let stored = StoredPdu::new(pdu.clone());
    let event = pdu.into_client_format();
    assert_eq!(event.event_id, id);
    assert_eq!(event.sender, user("alice"));
    assert_eq!(event.state_key.as_deref(), Some(""));
    assert_eq!(event.origin_server_ts, 1_000);
    assert_eq!(event.unsigned, Some(serde_json::Value::String("txn".to_owned())));
    assert!(matches!(event.event_content, EventContent::Topic(_)));
    assert_eq!(stored.inner().depth(), 2);
    let event = stored.into_client_format();
    assert_eq!(event.event_id, id);
}
