use homeserver::error::ErrorKind;
use homeserver::events::pdu::StoredPdu;
use homeserver::events::room::{Create, Member, Membership, Name, RoomVersion, Topic};
use homeserver::events::room_version::{PduV4, VersionedPdu};
use homeserver::events::EventContent;
use homeserver::state::{mark_reachable, resolve};
use homeserver::util::domain::Domain;
use homeserver::util::mxid::{MatrixId, RoomId};
use homeserver::util::table::Table;

fn domain() -> Domain {
    Domain::from_str("example.org").unwrap()
}

fn user(name: &str) -> MatrixId {
    MatrixId::new(name, domain()).unwrap()
}

fn event(content: EventContent, state_key: Option<&str>, depth: i64, ts: i64, prev: &[&StoredPdu]) -> StoredPdu {
    StoredPdu::new(VersionedPdu::V4(PduV4 {
        event_content: content,
        room_id: RoomId::new("room", domain()).unwrap(),
        sender: user("alice"),
        state_key: state_key.map(|k| k.to_owned()),
        unsigned: None,
        redacts: None,
        origin: domain(),
        origin_server_ts: ts,
        prev_events: prev.iter().map(|p| p.event_id().to_owned()).collect(),
        auth_events: Vec::new(),
        depth,
    }))
}

fn create() -> EventContent {
    EventContent::Create(Create {
        creator: user("alice"),
        room_version: Some(RoomVersion::V4),
        predecessor: None,
        extra: Table::new(),
    })
}

fn name(n: &str) -> EventContent {
    EventContent::Name(Name { name: Some(n.to_owned()) })
}

fn topic(t: &str) -> EventContent {
    EventContent::Topic(Topic { topic: Some(t.to_owned()) })
}

fn ids(events: &[&StoredPdu]) -> Vec<String> {
    events.iter().map(|e| e.event_id().to_owned()).collect()
}

fn name_of(e: &StoredPdu) -> String {
    match e.event_content() {
        EventContent::Name(Name { name: Some(n) }) => n.clone(),
        other => panic!("not a name: {:?}", other),
    }
}

#[test]
fn the_latest_state_event_of_each_kind_wins() {
    let c = event(create(), Some(""), 0, 0, &[]);
    let n1 = event(name("first"), Some(""), 1, 1, &[&c]);
    let t = event(topic("topic"), Some(""), 2, 2, &[&n1]);
    let m = event(
        EventContent::Unknown { event_type: "m.room.message".to_owned(), content: serde_json::Value::Null },
        None,
        3,
        3,
        &[&t],
    );
    let n2 = event(name("second"), Some(""), 4, 4, &[&m]);
    let frontier = ids(&[&n2]);
    let events = vec![c, n1, t, m, n2];
    let state = resolve(&events, &frontier).unwrap();
    assert_eq!(state.len(), 3);
    assert_eq!(name_of(state.get("m.room.name", "").unwrap()), "second");
    assert!(state.get("m.room.topic", "").is_some());
    assert!(state.get("m.room.create", "").is_some());
    assert!(state.get("m.room.message", "").is_none());
    assert!(state.get("m.room.name", "other").is_none());
    assert_eq!(state.events().len(), 3);
}

#[test]
fn state_is_resolved_as_of_the_frontier() {
    let c = event(create(), Some(""), 0, 0, &[]);
    let n1 = event(name("first"), Some(""), 1, 1, &[&c]);
    let n2 = event(name("second"), Some(""), 2, 2, &[&n1]);
    let at_first = ids(&[&n1]);
    let at_second = ids(&[&n2]);
    let at_create = ids(&[&c]);
    let events = vec![c, n1, n2];
    assert_eq!(mark_reachable(&events, &at_second), vec![true, true, true]);
    assert_eq!(mark_reachable(&events, &at_first), vec![true, true, false]);
    assert_eq!(mark_reachable(&events, &at_create), vec![true, false, false]);
    assert_eq!(mark_reachable(&events, &Vec::new()), vec![false, false, false]);
    let state = resolve(&events, &at_first).unwrap();
    assert_eq!(name_of(state.get("m.room.name", "").unwrap()), "first");
    let state = resolve(&events, &at_create).unwrap();
    assert!(state.get("m.room.name", "").is_none());
}

#[test]
fn branches_are_followed_to_their_ends() {
    let c = event(create(), Some(""), 0, 0, &[]);
    let left = event(name("left"), Some(""), 1, 1, &[&c]);
    let right = event(topic("right"), Some(""), 1, 2, &[&c]);
    let merge = event(
        EventContent::Unknown { event_type: "m.room.message".to_owned(), content: serde_json::Value::Null },
        None,
        2,
        3,
        &[&left, &right],
    );
    let merged = ids(&[&merge]);
    let only_left = ids(&[&left]);
    let both = ids(&[&left, &right]);
    let events = vec![c, left, right, merge];
    assert_eq!(mark_reachable(&events, &merged), vec![true, true, true, true]);
    assert_eq!(mark_reachable(&events, &only_left), vec![true, true, false, false]);
    assert_eq!(mark_reachable(&events, &both), vec![true, true, true, false]);
    let state = resolve(&events, &only_left).unwrap();
    assert!(state.get("m.room.topic", "").is_none());
    let state = resolve(&events, &merged).unwrap();
    assert!(state.get("m.room.topic", "").is_some());
    assert!(state.get("m.room.name", "").is_some());
}

#[test]
fn greater_depth_wins_whatever_the_order() {
    let c = event(create(), Some(""), 0, 0, &[]);
    let shallow = event(name("shallow"), Some(""), 1, 1, &[&c]);
    let deep = event(name("deep"), Some(""), 5, 2, &[&c]);
    let frontier = ids(&[&shallow, &deep]);
    let state_of = |events: Vec<StoredPdu>| {
        let state = resolve(&events, &frontier).unwrap();
        name_of(state.get("m.room.name", "").unwrap())
    };
    assert_eq!(state_of(vec![c.clone(), shallow.clone(), deep.clone()]), "deep");
    assert_eq!(state_of(vec![c, deep, shallow]), "deep");
}

#[test]
fn equal_depth_is_decided_by_the_smaller_identifier() {
    let c = event(create(), Some(""), 0, 0, &[]);
    let a = event(name("a"), Some(""), 1, 1, &[&c]);
    let b = event(name("b"), Some(""), 1, 2, &[&c]);
    assert_ne!(a.event_id(), b.event_id());
    let smaller = if a.event_id() < b.event_id() { "a" } else { "b" };
    assert_eq!(a.event_id() < b.event_id(), a.id_rank() < b.id_rank());
    let frontier = ids(&[&a, &b]);
    let state_of = |events: Vec<StoredPdu>| {
        let state = resolve(&events, &frontier).unwrap();
        name_of(state.get("m.room.name", "").unwrap())
    };
    assert_eq!(state_of(vec![c.clone(), a.clone(), b.clone()]), smaller);
    assert_eq!(state_of(vec![c, b, a]), smaller);
}

#[test]
fn resolving_twice_gives_the_same_state() {
    let c = event(create(), Some(""), 0, 0, &[]);
    let a = event(name("a"), Some(""), 1, 1, &[&c]);
    let b = event(name("b"), Some(""), 1, 2, &[&c]);
    let m = event(
        EventContent::Member(Member {
            avatar_url: None,
            displayname: None,
            membership: Membership::Join,
            is_direct: None,
        }),
        Some("@alice:example.org"),
        2,
        3,
        &[&a, &b],
    );
    let frontier = ids(&[&m]);
    let events = vec![c, a, b, m];
    let first: Vec<String> =
        resolve(&events, &frontier).unwrap().events().iter().map(|e| e.event_id().to_owned()).collect();
    let second: Vec<String> =
        resolve(&events, &frontier).unwrap().events().iter().map(|e| e.event_id().to_owned()).collect();
    assert_eq!(first, second);
    assert_eq!(first.len(), 3);
}

#[test]
fn resolution_fails_without_the_create_event() {
    let c = event(create(), Some(""), 0, 0, &[]);
    let orphan = event(name("orphan"), Some(""), 1, 1, &[]);
    let frontier = ids(&[&orphan]);
    let events = vec![c, orphan];
    match resolve(&events, &frontier) {
        Err(ErrorKind::Unknown(message)) => {
            assert_eq!(message, "the room's create event cannot be reached")
        }
        Ok(_) => panic!("resolved without a create event"),
        Err(e) => panic!("unexpected {:?}", e),
    }
    assert!(resolve(&Vec::new(), &Vec::new()).is_err());
    // an event of another kind in the place of the create event does not count
    let fake = event(
        EventContent::Unknown { event_type: "m.room.create".to_owned(), content: serde_json::Value::Null },
        Some(""),
        0,
        0,
        &[],
    );
    let frontier = ids(&[&fake]);
    assert!(resolve(&vec![fake], &frontier).is_err());
}

#[test]
fn members_are_counted_by_membership() {
    let member = |m: Membership| {
        EventContent::Member(Member { avatar_url: None, displayname: None, membership: m, is_direct: None })
    };
    let c = event(create(), Some(""), 0, 0, &[]);
    let a = event(member(Membership::Join), Some("@alice:example.org"), 1, 1, &[&c]);
    let b = event(member(Membership::Invite), Some("@bob:example.org"), 2, 2, &[&a]);
    let b2 = event(member(Membership::Join), Some("@bob:example.org"), 3, 3, &[&b]);
    let d = event(member(Membership::Invite), Some("@dave:example.org"), 4, 4, &[&b2]);
    let e = event(member(Membership::Leave), Some("@erin:example.org"), 5, 5, &[&d]);
    let frontier = ids(&[&e]);
    let events = vec![c, a, b, b2, d, e];
    let state = resolve(&events, &frontier).unwrap();
    assert_eq!(state.count_members(Membership::Join), 2);
    assert_eq!(state.count_members(Membership::Invite), 1);
    assert_eq!(state.count_members(Membership::Leave), 1);
    assert_eq!(state.count_members(Membership::Ban), 0);
}
