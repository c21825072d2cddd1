use homeserver::client_api::auth::{
    login, register, Identifier, LoginRequest, LoginType, RegisterParams, RegisterRequest,
    Registration, UserType,
};
use homeserver::error::ErrorKind;
use homeserver::events::pdu::StoredPdu;
use homeserver::events::room::{Create, JoinRule, JoinRules, Member, Membership, RoomVersion};
use homeserver::events::room_version::{PduV4, VersionedPdu};
use homeserver::events::EventContent;
use homeserver::storage::mem::MemStorage;
use homeserver::storage::Storage;
use homeserver::sync::{sync, SyncAction};
use homeserver::util::domain::Domain;
use homeserver::util::mxid::{MatrixId, RoomId};
use homeserver::util::storage::{AddEventError, NewEvent};
use homeserver::util::table::Table;

fn domain() -> Domain {
    Domain::from_str("example.org").unwrap()
}

fn user(name: &str) -> MatrixId {
    MatrixId::new(name, domain()).unwrap()
}

fn login_request(name: &str, password: &str) -> LoginRequest {
    LoginRequest {
        login_type: LoginType::Password,
        identifier: Identifier::Username { user: name.to_owned() },
        password: Some(password.to_owned()),
        token: None,
        device_id: None,
        initial_device_display_name: String::new(),
    }
}

#[test]
fn registration_and_login() {
    let mut store = MemStorage::new();
    let request = RegisterRequest {
        auth: None,
        username: Some("alice".to_owned()),
        password: Some("password".to_owned()),
        device_id: None,
        initial_device_display_name: None,
        inhibit_login: false,
    };
    let params = RegisterParams { kind: UserType::User };
    let token = match register(&mut store, &domain(), request, &params).unwrap() {
        Registration::LoggedIn { user_id, access_token, device_id } => {
            assert_eq!(user_id.to_string(), "@alice:example.org");
            assert_eq!(device_id.len(), 8);
            access_token
        }
        other => panic!("unexpected {:?}", other),
    };
    let parsed = homeserver::client_api::auth::AccessToken::from_request(
        Some(&format!("Bearer {}", token)),
        None,
    )
    .unwrap();
    assert_eq!(store.try_auth(parsed.0).as_deref(), Some("alice"));

    let response = login(&mut store, &domain(), login_request("alice", "password")).unwrap();
    assert_eq!(response.user_id.to_string(), "@alice:example.org");
    assert_eq!(response.home_server, "example.org");
    assert_ne!(response.access_token, token);
    // the full user id works as well
    assert!(login(&mut store, &domain(), login_request("@alice:example.org", "password")).is_ok());

    let wrong = login(&mut store, &domain(), login_request("alice", "wrong"));
    assert!(matches!(wrong, Err(ErrorKind::Forbidden)));
    let nobody = login(&mut store, &domain(), login_request("bob", "password"));
    assert!(matches!(nobody, Err(ErrorKind::Forbidden)));
}

#[test]
fn membership_gate() {
    let mut store = MemStorage::new();
    let room = RoomId::new("room", domain()).unwrap();
    let raw = |content: EventContent, state_key: &str, depth: i64, prev: Vec<String>| {
        StoredPdu::new(VersionedPdu::V4(PduV4 {
            event_content: content,
            room_id: RoomId::new("room", domain()).unwrap(),
            sender: user("alice"),
            state_key: Some(state_key.to_owned()),
            unsigned: None,
            redacts: None,
            origin: domain(),
            origin_server_ts: 0,
            prev_events: prev,
            auth_events: Vec::new(),
            depth,
        }))
    };
    let member = |m: Membership| {
        EventContent::Member(Member { avatar_url: None, displayname: None, membership: m, is_direct: None })
    };
    let create = raw(
        EventContent::Create(Create {
            creator: user("alice"),
            room_version: Some(RoomVersion::V4),
            predecessor: None,
            extra: Table::new(),
        }),
        "",
        0,
        Vec::new(),
    );
    let join = raw(member(Membership::Join), "@alice:example.org", 1, vec![create.event_id().to_owned()]);
    let rules = raw(
        EventContent::JoinRules(JoinRules { join_rule: JoinRule::Invite }),
        "",
        2,
        vec![join.event_id().to_owned()],
    );
    store.add_pdus(vec![create, join, rules]).unwrap();

    let event = |content: EventContent, sender: &str, target: &str| NewEvent {
        event_content: content,
        sender: user(sender),
        state_key: Some(format!("@{}:example.org", target)),
        redacts: None,
        unsigned: None,
    };
    let refused = store.add_event(&room, event(member(Membership::Join), "bob", "bob"), domain(), 1);
    assert!(matches!(refused, Err(ErrorKind::AddEvent(AddEventError::UserNotInvited))));
    assert_eq!(store.get_membership(&user("bob"), &room).unwrap(), None);
    assert_eq!(store.timeline_of(&room).unwrap().len(), 3);

    // bob cannot invite himself, alice can invite him
    let own = store.add_event(&room, event(member(Membership::Invite), "bob", "bob"), domain(), 2);
    assert!(matches!(own, Err(ErrorKind::AddEvent(AddEventError::UserNotInRoom))));
    store.add_event(&room, event(member(Membership::Invite), "alice", "bob"), domain(), 3).unwrap();
    assert_eq!(store.get_membership(&user("bob"), &room).unwrap(), Some(Membership::Invite));
    assert_eq!(store.get_room_member_counts(&room).unwrap(), (1, 1));

    store.add_event(&room, event(member(Membership::Join), "bob", "bob"), domain(), 4).unwrap();
    assert_eq!(store.get_membership(&user("bob"), &room).unwrap(), Some(Membership::Join));
    assert_eq!(store.get_room_member_counts(&room).unwrap(), (2, 0));

    // alice bans bob; he cannot come back
    store.add_event(&room, event(member(Membership::Ban), "alice", "bob"), domain(), 5).unwrap();
    let banned = store.add_event(&room, event(member(Membership::Join), "bob", "bob"), domain(), 6);
    assert!(matches!(banned, Err(ErrorKind::AddEvent(AddEventError::UserBanned))));
}

#[test]
fn a_public_room_can_be_joined_without_an_invite() {
    let mut store = MemStorage::new();
    let room = RoomId::new("room", domain()).unwrap();
    store.create_room(&room, user("alice"), domain(), 0).unwrap();
    let rules = NewEvent {
        event_content: EventContent::JoinRules(JoinRules { join_rule: JoinRule::Public }),
        sender: user("alice"),
        state_key: Some(String::new()),
        redacts: None,
        unsigned: None,
    };
    store.add_event(&room, rules, domain(), 1).unwrap();
    let join = NewEvent {
        event_content: EventContent::Member(Member {
            avatar_url: None,
            displayname: None,
            membership: Membership::Join,
            is_direct: None,
        }),
        sender: user("bob"),
        state_key: Some("@bob:example.org".to_owned()),
        redacts: None,
        unsigned: None,
    };
    store.add_event(&room, join, domain(), 2).unwrap();
    assert_eq!(store.get_membership(&user("bob"), &room).unwrap(), Some(Membership::Join));
}

#[test]
fn sync_timeout() {
    let mut store = MemStorage::new();
    store.create_user("alice", "password").unwrap();
    let plan = sync(&mut store, &user("alice"), None, false, 50).unwrap();
    // a user in no room is told to sleep for the timeout and then to respond
    assert_eq!(plan.action, SyncAction::Sleep);
    assert_eq!(plan.timeout, 50);
    assert!(plan.join.is_empty());
    assert!(plan.invite.is_empty());
    assert!(plan.batch.is_none());
    // the cursor can be used for the next call
    assert!(store.get_batch(&plan.next_batch).is_some());
    let next = sync(&mut store, &user("alice"), Some(&plan.next_batch), false, 50).unwrap();
    assert_eq!(next.action, SyncAction::Sleep);
    assert!(next.join.is_empty());
}
