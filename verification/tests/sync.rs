use homeserver::error::ErrorKind;
use homeserver::events::pdu::StoredPdu;
use homeserver::events::room::{Member, Membership};
use homeserver::events::room_version::{PduV4, VersionedPdu};
use homeserver::events::EventContent;
use homeserver::storage::mem::MemStorage;
use homeserver::storage::Storage;
use homeserver::sync::{begin_sync, finish_sync, sync, RoomUpdate, SyncAction, SyncPlan};
use homeserver::util::domain::Domain;
use homeserver::util::mxid::{MatrixId, RoomId};
use homeserver::util::storage::NewEvent;

fn domain() -> Domain {
    Domain::from_str("example.org").unwrap()
}

fn user(name: &str) -> MatrixId {
    MatrixId::new(name, domain()).unwrap()
}

fn room(name: &str) -> RoomId {
    RoomId::new(name, domain()).unwrap()
}

fn message(body: &str) -> EventContent {
    EventContent::Unknown {
        event_type: "m.room.message".to_owned(),
        content: serde_json::Value::String(body.to_owned()),
    }
}

fn member(m: Membership) -> EventContent {
    EventContent::Member(Member { avatar_url: None, displayname: None, membership: m, is_direct: None })
}

fn send(store: &mut MemStorage, room_name: &str, content: EventContent, sender: &str, state_key: Option<&str>) {
    let event = NewEvent {
        event_content: content,
        sender: user(sender),
        state_key: state_key.map(|k| k.to_owned()),
        redacts: None,
        unsigned: None,
    };
    store.add_event(&room(room_name), event, domain(), 0).unwrap();
}

fn updates(plan: &SyncPlan) -> Vec<(String, usize, usize, bool)> {
    plan.join
        .iter()
        .map(|u: &RoomUpdate| (u.room_id.localpart().to_owned(), u.from, u.to, u.full_state))
        .collect()
}

fn invites(plan: &SyncPlan) -> Vec<String> {
    plan.invite.iter().map(|r| r.localpart().to_owned()).collect()
}

/// alice has made the rooms a and b; bob is invited to a and c.
fn world() -> MemStorage {
    let mut store = MemStorage::new();
    store.create_room(&room("a"), user("alice"), domain(), 0).unwrap();
    store.create_room(&room("b"), user("alice"), domain(), 0).unwrap();
    store.create_room(&room("c"), user("carol"), domain(), 0).unwrap();
    send(&mut store, "a", member(Membership::Invite), "alice", Some("@bob:example.org"));
    send(&mut store, "c", member(Membership::Invite), "carol", Some("@bob:example.org"));
    send(&mut store, "a", message("hello"), "alice", None);
    store
}

#[test]
fn a_first_sync_delivers_everything() {
    let mut store = world();
    let plan = begin_sync(&mut store, &user("alice"), None, false, 30, "n1".to_owned()).unwrap();
    assert_eq!(plan.action, SyncAction::Respond);
    assert_eq!(plan.next_batch, "n1");
    assert_eq!(plan.timeout, 30);
    assert!(plan.batch.is_none());
    assert_eq!(updates(&plan), vec![("a".to_owned(), 0, 4, false), ("b".to_owned(), 0, 2, false)]);
    assert!(invites(&plan).is_empty());
    for update in &plan.join {
        assert_eq!(Some(update.revision), store.room_revision(&update.room_id));
    }
    let batch = store.get_batch("n1").unwrap();
    assert_eq!(batch.position(&room("a")), 4);
    assert_eq!(batch.position(&room("b")), 2);
    assert_eq!(batch.position(&room("c")), 0);
}

#[test]
fn a_later_sync_delivers_what_is_new() {
    let mut store = world();
    begin_sync(&mut store, &user("alice"), None, false, 30, "n1".to_owned()).unwrap();
    send(&mut store, "b", message("one"), "alice", None);
    send(&mut store, "b", message("two"), "alice", None);
    let plan = begin_sync(&mut store, &user("alice"), Some("n1"), false, 30, "n2".to_owned()).unwrap();
    assert_eq!(plan.action, SyncAction::Respond);
    assert_eq!(updates(&plan), vec![("a".to_owned(), 4, 4, false), ("b".to_owned(), 2, 4, false)]);
    // the cursor n1 is still where it was
    let plan = begin_sync(&mut store, &user("alice"), Some("n1"), false, 30, "n3".to_owned()).unwrap();
    assert_eq!(updates(&plan), vec![("a".to_owned(), 4, 4, false), ("b".to_owned(), 2, 4, false)]);
    // an unknown cursor is read from the beginning
    let plan = begin_sync(&mut store, &user("alice"), Some("zz"), false, 30, "n4".to_owned()).unwrap();
    assert_eq!(updates(&plan), vec![("a".to_owned(), 0, 4, false), ("b".to_owned(), 0, 4, false)]);
}

#[test]
fn with_nothing_new_the_sync_waits() {
    let mut store = world();
    begin_sync(&mut store, &user("alice"), None, false, 30, "n1".to_owned()).unwrap();
    let plan = begin_sync(&mut store, &user("alice"), Some("n1"), false, 70, "n2".to_owned()).unwrap();
    assert_eq!(plan.action, SyncAction::Wait);
    assert_eq!(plan.timeout, 70);
    assert_eq!(updates(&plan), vec![("a".to_owned(), 4, 4, false), ("b".to_owned(), 2, 2, false)]);
    for update in &plan.join {
        assert_eq!(Some(update.revision), store.room_revision(&update.room_id));
    }
    // nothing is stored before the wait is over
    assert!(store.get_batch("n2").is_none());
    assert_eq!(plan.batch.as_ref().unwrap().position(&room("a")), 4);
    // the time runs out
    let plan = finish_sync(&mut store, plan, None);
    assert_eq!(plan.action, SyncAction::Respond);
    assert!(plan.batch.is_none());
    assert_eq!(updates(&plan), vec![("a".to_owned(), 4, 4, false), ("b".to_owned(), 2, 2, false)]);
    assert_eq!(store.get_batch("n2").unwrap().position(&room("b")), 2);
}

#[test]
fn a_write_during_the_wait_is_not_lost() {
    let mut store = world();
    begin_sync(&mut store, &user("alice"), None, false, 30, "n1".to_owned()).unwrap();
    let plan = begin_sync(&mut store, &user("alice"), Some("n1"), false, 70, "n2".to_owned()).unwrap();
    assert_eq!(plan.action, SyncAction::Wait);
    send(&mut store, "b", message("late"), "alice", None);
    let changed: Vec<String> = plan
        .join
        .iter()
        .filter(|u| store.room_revision(&u.room_id) != Some(u.revision))
        .map(|u| u.room_id.localpart().to_owned())
        .collect();
    assert_eq!(changed, vec!["b"]);
    let plan = finish_sync(&mut store, plan, Some(&room("b")));
    assert_eq!(plan.action, SyncAction::Respond);
    assert_eq!(updates(&plan), vec![("a".to_owned(), 4, 4, false), ("b".to_owned(), 2, 3, false)]);
    assert_eq!(plan.join[1].revision, store.room_revision(&room("b")).unwrap());
    let batch = store.get_batch("n2").unwrap();
    assert_eq!(batch.position(&room("a")), 4);
    assert_eq!(batch.position(&room("b")), 3);
    // and the next sync starts after it
    let plan = begin_sync(&mut store, &user("alice"), Some("n2"), false, 70, "n3".to_owned()).unwrap();
    assert_eq!(plan.action, SyncAction::Wait);
}

#[test]
fn finishing_copes_with_rooms_it_does_not_know() {
    let mut store = world();
    begin_sync(&mut store, &user("alice"), None, false, 30, "n1".to_owned()).unwrap();
    let plan = begin_sync(&mut store, &user("alice"), Some("n1"), false, 70, "n2".to_owned()).unwrap();
    // c is no room of the plan, z no room at all
    let plan = finish_sync(&mut store, plan, Some(&room("c")));
    assert_eq!(updates(&plan), vec![("a".to_owned(), 4, 4, false), ("b".to_owned(), 2, 2, false)]);
    assert_eq!(store.get_batch("n2").unwrap().position(&room("c")), 0);
    let plan = begin_sync(&mut store, &user("alice"), Some("n1"), false, 70, "n3".to_owned()).unwrap();
    let plan = finish_sync(&mut store, plan, Some(&room("z")));
    assert_eq!(updates(&plan).len(), 2);
    assert!(store.get_batch("n3").is_some());
    // a plan that was responded with already stays as it is
    let plan = begin_sync(&mut store, &user("alice"), None, false, 70, "n4".to_owned()).unwrap();
    assert_eq!(plan.action, SyncAction::Respond);
    let before = updates(&plan);
    let plan = finish_sync(&mut store, plan, Some(&room("a")));
    assert_eq!(updates(&plan), before);
    assert_eq!(store.get_batch("n4").unwrap().position(&room("a")), 4);
}

#[test]
fn the_full_state_always_counts_as_news() {
    let mut store = world();
    begin_sync(&mut store, &user("alice"), None, false, 30, "n1".to_owned()).unwrap();
    let plan = begin_sync(&mut store, &user("alice"), Some("n1"), true, 30, "n2".to_owned()).unwrap();
    assert_eq!(plan.action, SyncAction::Respond);
    assert_eq!(updates(&plan), vec![("a".to_owned(), 4, 4, true), ("b".to_owned(), 2, 2, true)]);
}

#[test]
fn invites_are_delivered_once() {
    let mut store = world();
    let plan = begin_sync(&mut store, &user("bob"), None, false, 10, "b1".to_owned()).unwrap();
    // bob has joined no room: the invites are handed out, and the caller sleeps
    assert_eq!(plan.action, SyncAction::Sleep);
    assert!(updates(&plan).is_empty());
    assert_eq!(invites(&plan), vec!["a", "c"]);
    let batch = store.get_batch("b1").unwrap();
    assert!(batch.invites.contains_key(&room("a")) && batch.invites.contains_key(&room("c")));
    let plan = begin_sync(&mut store, &user("bob"), Some("b1"), false, 10, "b2".to_owned()).unwrap();
    assert_eq!(plan.action, SyncAction::Sleep);
    assert!(invites(&plan).is_empty());
    // without the cursor they are delivered again
    let plan = begin_sync(&mut store, &user("bob"), None, false, 10, "b3".to_owned()).unwrap();
    assert_eq!(invites(&plan), vec!["a", "c"]);
}

#[test]
fn joining_turns_an_invite_into_a_room() {
    let mut store = world();
    begin_sync(&mut store, &user("bob"), None, false, 10, "b1".to_owned()).unwrap();
    send(&mut store, "a", member(Membership::Join), "bob", Some("@bob:example.org"));
    let plan = begin_sync(&mut store, &user("bob"), Some("b1"), false, 10, "b2".to_owned()).unwrap();
    assert_eq!(plan.action, SyncAction::Respond);
    assert_eq!(updates(&plan), vec![("a".to_owned(), 0, 5, false)]);
    assert!(invites(&plan).is_empty());
    let batch = store.get_batch("b2").unwrap();
    assert!(!batch.invites.contains_key(&room("a")));
    assert!(batch.invites.contains_key(&room("c")));
    assert_eq!(batch.position(&room("a")), 5);
    // after leaving, the room is no longer synced, and a new invite is news again
    send(&mut store, "a", member(Membership::Leave), "bob", Some("@bob:example.org"));
    let plan = begin_sync(&mut store, &user("bob"), Some("b2"), false, 10, "b3".to_owned()).unwrap();
    assert_eq!(plan.action, SyncAction::Sleep);
    assert!(updates(&plan).is_empty() && invites(&plan).is_empty());
    send(&mut store, "a", member(Membership::Invite), "alice", Some("@bob:example.org"));
    let plan = begin_sync(&mut store, &user("bob"), Some("b3"), false, 10, "b4".to_owned()).unwrap();
    assert_eq!(invites(&plan), vec!["a"]);
}

#[test]
fn a_room_that_cannot_be_resolved_fails_the_sync() {
    let store = world();
    let raw = |body: &str, prev: Vec<String>, depth: i64| {
        StoredPdu::new(VersionedPdu::V4(PduV4 {
            event_content: message(body),
            room_id: room("b"),
            sender: user("alice"),
            state_key: None,
            unsigned: None,
            redacts: None,
            origin: domain(),
            origin_server_ts: 0,
            prev_events: prev,
            auth_events: Vec::new(),
            depth,
        }))
    };
    // an event that is appended before the event it names hides the rest of
    // the room: the only event that no event names is the first of the two,
    // and links are followed towards earlier events only
    let create = store.timeline_of(&room("b")).unwrap()[0].clone();
    let second = raw("second", vec![create.event_id().to_owned()], 1);
    let first = raw("first", vec![second.event_id().to_owned()], 2);
    let mut broken = MemStorage::new();
    broken.add_pdus(vec![create, first, second]).unwrap();
    match begin_sync(&mut broken, &user("alice"), None, false, 30, "n1".to_owned()) {
        Err(ErrorKind::Unknown(message)) => {
            assert_eq!(message, "the room's create event cannot be reached")
        }
        other => panic!("unexpected {:?}", other),
    }
    assert!(broken.get_batch("n1").is_none());
    assert!(broken.get_membership(&user("alice"), &room("b")).is_err());
}

#[test]
fn sync_draws_a_token_for_the_next_cursor() {
    let mut store = world();
    let plan = sync(&mut store, &user("alice"), None, false, 30).unwrap();
    assert!(!plan.next_batch.is_empty() && plan.next_batch.len() <= 16);
    assert!(plan.next_batch.chars().all(|c| c.is_ascii_digit() || ('a'..='f').contains(&c)));
    assert!(plan.next_batch == "0" || !plan.next_batch.starts_with('0'));
    assert!(store.get_batch(&plan.next_batch).is_some());
    let again = sync(&mut store, &user("alice"), Some(&plan.next_batch), false, 30).unwrap();
    assert_eq!(again.action, SyncAction::Wait);
}
