//! The mathematical content of a store, and what its operations do to it.

use vstd::prelude::*;
use crate::error::{fails_with, ErrorKind, ErrorKindView};
use crate::util::password::argon2_encoded;
use crate::events::opt_text;
use crate::events::pdu::StoredPdu;
use crate::events::room::{Membership, RoomVersion};
use crate::events::EventContent;
use crate::state::{prev_ids, resolved, texts, Slot};
use crate::storage::{picked, BatchView, UserProfile};
use crate::util::domain::Domain;
use crate::util::mxid::{Id, IdParts, MatrixId};
use crate::util::storage::NewEvent;
use crate::validate::auth_ids;

verus! {

/// The mathematical content of a room.
pub struct RoomView {
    /// The events of the room in the order in which they were appended.
    pub timeline: Seq<StoredPdu>,
    /// The ephemeral data that was set, by type.
    pub ephemeral: Map<Seq<char>, serde_json::Value>,
    /// For each user who said they were typing, the time at which that ends.
    pub typing: Map<IdParts, u64>,
    /// A number that changes with every write to the room.
    pub revision: u64,
}

/// The revision after `revision`.
pub open spec fn next_revision(revision: u64) -> u64 {
    if revision == u64::MAX {
        0
    } else {
        (revision + 1) as u64
    }
}

impl RoomView {
    /// A room without events.
    pub open spec fn empty() -> RoomView {
        RoomView {
            timeline: Seq::empty(),
            ephemeral: Map::empty(),
            typing: Map::empty(),
            revision: 0,
        }
    }

    /// The room after `pdu` was appended to its timeline.
    pub open spec fn appended(self, pdu: StoredPdu) -> RoomView {
        RoomView {
            timeline: self.timeline.push(pdu),
            revision: next_revision(self.revision),
            ..self
        }
    }
}

/// The mathematical content of a user account.
pub struct UserView {
    pub password_hash: Seq<char>,
    pub profile: UserProfile,
    pub account_data: Map<Seq<char>, serde_json::Value>,
}

/// The mathematical content of a store.
pub struct StoreView {
    /// The rooms by their identifier.
    pub rooms: Map<IdParts, RoomView>,
    /// The users by their name.
    pub users: Map<Seq<char>, UserView>,
    /// The name of the user that each access token is bound to.
    pub access_tokens: Map<u128, Seq<char>>,
    /// The sync cursors by their token.
    pub batches: Map<Seq<char>, BatchView>,
    /// The transactions that were recorded under each access token.
    pub txn_ids: Map<u128, Set<Seq<char>>>,
}

impl StoreView {
    /// The room that `pdu` belongs to.
    pub open spec fn room_of(pdu: StoredPdu) -> IdParts {
        pdu.pdu().v4().room_id@
    }

    /// The store after `pdu` was appended to its room. A create event makes
    /// its room if the room does not exist; any other event needs the room.
    pub open spec fn after_adding(self, pdu: StoredPdu) -> Option<StoreView> {
        let room = Self::room_of(pdu);
        if self.rooms.dom().contains(room) {
            Some(StoreView { rooms: self.rooms.insert(room, self.rooms[room].appended(pdu)), ..self })
        } else if pdu.pdu().v4().event_content is Create {
            Some(
                StoreView {
                    rooms: self.rooms.insert(room, RoomView::empty().appended(pdu)),
                    ..self
                },
            )
        } else {
            None
        }
    }

    /// The store after the events of `pdus` were appended one after another:
    /// `Ok` if every one of them found its room, else `Err` with the store
    /// as it was when the first one did not.
    pub open spec fn after_adding_all(self, pdus: Seq<StoredPdu>) -> Result<StoreView, StoreView>
        decreases pdus.len(),
    {
        if pdus.len() == 0 {
            Ok(self)
        } else {
            match self.after_adding_all(pdus.drop_last()) {
                Ok(s) => match s.after_adding(pdus.last()) {
                    Some(t) => Ok(t),
                    None => Err(s),
                },
                Err(s) => Err(s),
            }
        }
    }

    /// The timeline of `room`, empty where the room does not exist.
    pub open spec fn timeline(self, room: IdParts) -> Seq<StoredPdu> {
        if self.rooms.dom().contains(room) {
            self.rooms[room].timeline
        } else {
            Seq::empty()
        }
    }
}

/// Whether no event of `timeline` names the event at `i` as a predecessor.
pub open spec fn is_leaf(timeline: Seq<StoredPdu>, i: int) -> bool {
    forall|j: int|
        0 <= j < timeline.len() ==> !prev_ids(#[trigger] timeline[j]).contains(
            timeline[i].id(),
        )
}

/// [`is_leaf`] as a function of the position.
pub open spec fn leaf_test(timeline: Seq<StoredPdu>) -> spec_fn(int) -> bool {
    |i: int| is_leaf(timeline, i)
}

/// The positions of the events that no event names as a predecessor.
pub open spec fn leaves(timeline: Seq<StoredPdu>) -> Seq<int> {
    picked(leaf_test(timeline), timeline.len() as int)
}

/// The identifiers of the events at the positions `at`.
pub open spec fn ids_at(timeline: Seq<StoredPdu>, at: Seq<int>) -> Seq<Seq<char>> {
    Seq::new(at.len(), |i: int| timeline[at[i]].id())
}

/// The greatest depth among the events at the positions `at`, or -1 where
/// there is none.
pub open spec fn max_depth(timeline: Seq<StoredPdu>, at: Seq<int>) -> i64
    decreases at.len(),
{
    if at.len() == 0 {
        -1i64
    } else {
        let depth = timeline[at.last()].pdu().v4().depth;
        if at.len() == 1 {
            depth
        } else {
            let before = max_depth(timeline, at.drop_last());
            if depth > before {
                depth
            } else {
                before
            }
        }
    }
}

/// The identifiers of the events of `timeline` that no event names as a
/// predecessor: the frontier of the room's graph.
pub open spec fn frontier(timeline: Seq<StoredPdu>) -> Seq<Seq<char>> {
    ids_at(timeline, leaves(timeline))
}

/// The current state of a room with the timeline `timeline`.
pub open spec fn current_state(timeline: Seq<StoredPdu>) -> Map<Slot, StoredPdu> {
    resolved(timeline, frontier(timeline))
}

/// The depth of an event whose deepest predecessor has depth `deepest`.
pub open spec fn next_depth(deepest: i64) -> i64 {
    if deepest < i64::MAX {
        (deepest + 1) as i64
    } else {
        i64::MAX
    }
}

/// Whether `pdu` is the event that the store makes of the candidate `event`
/// for the room `room` with the timeline `timeline`.
pub open spec fn is_made_of(
    pdu: StoredPdu,
    room: IdParts,
    event: NewEvent,
    origin: Domain,
    now: i64,
    timeline: Seq<StoredPdu>,
) -> bool {
    let v4 = pdu.pdu().v4();
    &&& v4.event_content == event.event_content
    &&& v4.room_id@ == room
    &&& v4.sender == event.sender
    &&& v4.state_key == event.state_key
    &&& v4.unsigned == event.unsigned
    &&& v4.redacts == event.redacts
    &&& v4.origin == origin
    &&& v4.origin_server_ts == now
    &&& texts(v4.prev_events@) == frontier(timeline)
    &&& texts(v4.auth_events@) == auth_ids(event, current_state(timeline))
    &&& v4.depth == next_depth(max_depth(timeline, leaves(timeline)))
    &&& pdu.id() == v4.derived_id()
    &&& pdu.rank() == v4.rank()
}

/// Once an event has not found its room, no later event is looked at.
pub proof fn lemma_add_stops(start: StoreView, all: Seq<StoredPdu>, i: int)
    requires
        0 <= i < all.len(),
        start.after_adding_all(all.take(i)) is Ok,
        start.after_adding_all(all.take(i))->Ok_0.after_adding(all[i]) is None,
    ensures
        start.after_adding_all(all) == Err::<StoreView, StoreView>(
            start.after_adding_all(all.take(i))->Ok_0,
        ),
    decreases all.len() - i,
{
    let reached = start.after_adding_all(all.take(i))->Ok_0;
    let next = all.take(i + 1);
    assert(next.drop_last() =~= all.take(i));
    assert(next.last() == all[i]);
    assert(start.after_adding_all(next) == Err::<StoreView, StoreView>(reached));
    lemma_add_stays_stopped(start, all, i + 1, reached);
}

proof fn lemma_add_stays_stopped(start: StoreView, all: Seq<StoredPdu>, m: int, reached: StoreView)
    requires
        0 <= m <= all.len(),
        start.after_adding_all(all.take(m)) == Err::<StoreView, StoreView>(reached),
    ensures
        start.after_adding_all(all) == Err::<StoreView, StoreView>(reached),
    decreases all.len() - m,
{
    if m == all.len() {
        assert(all.take(m) =~= all);
    } else {
        let next = all.take(m + 1);
        assert(next.drop_last() =~= all.take(m));
        lemma_add_stays_stopped(start, all, m + 1, reached);
    }
}

/// The message of the error for a password that cannot be hashed.
pub open spec fn hashing_failed_message() -> Seq<char> {
    "the password could not be hashed"@
}

/// A user who has just been made: nothing is set but the password, of
/// which `hash` is the encoded hash.
pub open spec fn new_user(hash: Seq<char>) -> UserView {
    UserView {
        password_hash: hash,
        profile: UserProfile { avatar_url: None, displayname: None, status: None },
        account_data: Map::empty(),
    }
}

/// The password that the users made for trying the server out are given.
pub open spec fn test_password() -> Seq<char> {
    "$argon2i$v=19$m=4096,t=3,p=1$c2FsdHNhbHQ$llvUdqp69y2RB629dCuG42kR5y+Occ/ziKV5kn3rSOM"@
}

impl StoreView {
    /// What making the user `username` with `password`, hashed with `salt`,
    /// ends in: the store with the new user, or the error. The password is
    /// hashed first, so a password that cannot be hashed is reported even
    /// where the name is taken.
    pub open spec fn after_creating_user(
        self,
        username: Seq<char>,
        password: Seq<u8>,
        salt: Seq<u8>,
    ) -> Result<StoreView, ErrorKindView> {
        match argon2_encoded(password, salt) {
            None => Err(ErrorKindView::Unknown(hashing_failed_message())),
            Some(hash) => if self.users.dom().contains(username) {
                Err(ErrorKindView::UsernameTaken)
            } else {
                Ok(StoreView { users: self.users.insert(username, new_user(hash)), ..self })
            },
        }
    }

    /// Whether `after` and `r` are what making the user `username` of the
    /// store `self` ends in, where the password is hashed with `salt`, a
    /// salt of sixteen bytes.
    pub open spec fn user_created(
        self,
        after: StoreView,
        username: Seq<char>,
        password: Seq<u8>,
        salt: Seq<u8>,
        r: Result<(), ErrorKind>,
    ) -> bool {
        &&& salt.len() == 16
        &&& match self.after_creating_user(username, password, salt) {
            Ok(made) => r is Ok && after == made,
            Err(e) => fails_with(r, e) && after == self,
        }
    }

    /// What making the users `alice`, `bob` and `carol` one after another
    /// ends in, where their passwords are hashed with the salts `first`,
    /// `second` and `third`: the store as it is left, and the error of the
    /// first user that could not be made, if there is one.
    pub open spec fn after_creating_test_users(
        self,
        first: Seq<u8>,
        second: Seq<u8>,
        third: Seq<u8>,
    ) -> (StoreView, Option<ErrorKindView>) {
        let password = vstd::utf8::encode_utf8(test_password());
        match self.after_creating_user("alice"@, password, first) {
            Err(e) => (self, Some(e)),
            Ok(one) => match one.after_creating_user("bob"@, password, second) {
                Err(e) => (one, Some(e)),
                Ok(two) => match two.after_creating_user("carol"@, password, third) {
                    Err(e) => (two, Some(e)),
                    Ok(three) => (three, None),
                },
            },
        }
    }

    /// Whether `after` and `r` are what making the test users of the store
    /// `self` ends in, with the three salts, each of sixteen bytes.
    pub open spec fn test_users_created(
        self,
        after: StoreView,
        first: Seq<u8>,
        second: Seq<u8>,
        third: Seq<u8>,
        r: Result<(), ErrorKind>,
    ) -> bool {
        let (left, error) = self.after_creating_test_users(first, second, third);
        &&& first.len() == 16 && second.len() == 16 && third.len() == 16
        &&& after == left
        &&& match error {
            None => r is Ok,
            Some(e) => fails_with(r, e),
        }
    }

    /// The password hash of `username`, if the user exists.
    pub open spec fn password_hash(self, username: Seq<char>) -> Option<Seq<char>> {
        if self.users.dom().contains(username) {
            Some(self.users[username].password_hash)
        } else {
            None
        }
    }

    /// The transactions recorded under `token`.
    pub open spec fn transactions(self, token: u128) -> Set<Seq<char>> {
        if self.txn_ids.dom().contains(token) {
            self.txn_ids[token]
        } else {
            Set::empty()
        }
    }

    /// The access tokens without those that are bound to `username`.
    pub open spec fn tokens_without(self, username: Seq<char>) -> Map<u128, Seq<char>> {
        Map::new(
            |t: u128| self.access_tokens.dom().contains(t) && self.access_tokens[t] != username,
            |t: u128| self.access_tokens[t],
        )
    }
}

/// The message of the error for setting the typing users as plain data.
pub open spec fn typing_is_computed_message() -> Seq<char> {
    "m.typing should not be set directly"@
}

/// The time at which a user who starts typing at `now` stops, unless they
/// say so again: `timeout` milliseconds later, or at the end of time.
pub open spec fn typing_expiry(now: u64, timeout: u32) -> u64 {
    if now + timeout > u64::MAX {
        u64::MAX
    } else {
        (now + timeout) as u64
    }
}

impl RoomView {
    /// The users who are typing at `now`: those whose typing ends later.
    pub open spec fn typing_at(self, now: u64) -> Set<IdParts> {
        Set::new(|user: IdParts| self.typing.dom().contains(user) && self.typing[user] > now)
    }

    /// The room after ephemeral data of type `kind` was set or, with no
    /// content, removed.
    pub open spec fn with_ephemeral(self, kind: Seq<char>, content: Option<serde_json::Value>) -> RoomView {
        RoomView {
            ephemeral: match content {
                Some(c) => self.ephemeral.insert(kind, c),
                None => self.ephemeral.remove(kind),
            },
            revision: next_revision(self.revision),
            ..self
        }
    }

    /// The room after `user` said at `now` that they are typing, for at most
    /// `timeout` milliseconds, or that they are not.
    pub open spec fn with_typing(self, user: IdParts, is_typing: bool, timeout: u32, now: u64) -> RoomView {
        RoomView {
            typing: if is_typing {
                self.typing.insert(user, typing_expiry(now, timeout))
            } else {
                self.typing.remove(user)
            },
            revision: next_revision(self.revision),
            ..self
        }
    }
}

/// Whether the event at `i` is the first of `timeline` with the identifier
/// `id`.
pub open spec fn is_first_with_id(timeline: Seq<StoredPdu>, id: Seq<char>, i: int) -> bool {
    &&& 0 <= i < timeline.len()
    &&& timeline[i].id() == id
    &&& forall|j: int| 0 <= j < i ==> (#[trigger] timeline[j]).id() != id
}

/// The first event of `timeline` with the identifier `id`.
pub open spec fn event_with_id(timeline: Seq<StoredPdu>, id: Seq<char>) -> Option<StoredPdu> {
    if exists|i: int| is_first_with_id(timeline, id, i) {
        Some(timeline[choose|i: int| is_first_with_id(timeline, id, i)])
    } else {
        None
    }
}

/// The message of the error for an event that no create event authorizes.
pub open spec fn no_create_in_auth_message() -> Seq<char> {
    "event has no create in auth"@
}

/// The power level that the events `auth[i..]` give to `sender`, where
/// `creator` is the creator named by a create event among `auth[..i]`: the
/// level by the first power levels event, else 100 for the creator of the
/// room and 0 for everyone else.
pub open spec fn level_by_auth(
    timeline: Seq<StoredPdu>,
    auth: Seq<Seq<char>>,
    sender: IdParts,
    i: int,
    creator: Option<IdParts>,
) -> Result<u32, ErrorKindView>
    decreases auth.len() - i,
{
    if i < 0 || i >= auth.len() {
        match creator {
            Some(c) => Ok(
                if c == sender {
                    100u32
                } else {
                    0u32
                },
            ),
            None => Err(ErrorKindView::Unknown(no_create_in_auth_message())),
        }
    } else {
        match event_with_id(timeline, auth[i]) {
            None => Err(ErrorKindView::NotFound),
            Some(e) => match e.pdu().v4().event_content {
                EventContent::PowerLevels(levels) => Ok(levels.user_level(sender)),
                EventContent::Create(create) => level_by_auth(
                    timeline,
                    auth,
                    sender,
                    i + 1,
                    Some(create.creator@),
                ),
                _ => level_by_auth(timeline, auth, sender, i + 1, creator),
            },
        }
    }
}

/// Whether `pdu` is the create event that `creator` makes the room `room`
/// with.
pub open spec fn is_create_of(pdu: StoredPdu, room: IdParts, creator: MatrixId, origin: Domain, now: i64) -> bool {
    let v4 = pdu.pdu().v4();
    &&& v4.event_content matches EventContent::Create(create) && create.creator@ == creator@
        && create.room_version == Some(RoomVersion::V4) && create.predecessor is None
        && create.extra@ == Map::<Seq<char>, serde_json::Value>::empty()
    &&& v4.room_id@ == room
    &&& v4.sender@ == creator@
    &&& opt_text(v4.state_key) == Some(Seq::<char>::empty())
    &&& v4.unsigned is None
    &&& v4.redacts is None
    &&& v4.origin == origin
    &&& v4.origin_server_ts == now
    &&& v4.prev_events@.len() == 0
    &&& v4.auth_events@.len() == 0
    &&& v4.depth == 0
    &&& pdu.id() == v4.derived_id()
    &&& pdu.rank() == v4.rank()
}

/// Whether `pdu` is the event by which `creator` joins the room that the
/// create event `create_id` made.
pub open spec fn is_first_join_of(
    pdu: StoredPdu,
    room: IdParts,
    creator: MatrixId,
    origin: Domain,
    now: i64,
    create_id: Seq<char>,
) -> bool {
    let v4 = pdu.pdu().v4();
    &&& v4.event_content matches EventContent::Member(member) && member.membership
        == Membership::Join && member.avatar_url is None && member.displayname is None
        && member.is_direct is None
    &&& v4.room_id@ == room
    &&& v4.sender@ == creator@
    &&& opt_text(v4.state_key) == Some(Id::<64>::text(creator@))
    &&& v4.unsigned is None
    &&& v4.redacts is None
    &&& v4.origin == origin
    &&& v4.origin_server_ts == now
    &&& texts(v4.prev_events@) == seq![create_id]
    &&& texts(v4.auth_events@) == seq![create_id]
    &&& v4.depth == 1
    &&& pdu.id() == v4.derived_id()
    &&& pdu.rank() == v4.rank()
}

/// Adding two events is adding the first and then the second.
pub proof fn lemma_adding_two(store: StoreView, first: StoredPdu, second: StoredPdu)
    ensures
        store.after_adding_all(seq![first, second]) == match store.after_adding(first) {
            Some(s) => match s.after_adding(second) {
                Some(t) => Ok::<StoreView, StoreView>(t),
                None => Err::<StoreView, StoreView>(s),
            },
            None => Err::<StoreView, StoreView>(store),
        },
{
    let both = seq![first, second];
    let one = both.drop_last();
    assert(one =~= seq![first]);
    assert(one.drop_last() =~= Seq::<StoredPdu>::empty());
    assert(both.last() == second);
    assert(one.last() == first);
    assert(store.after_adding_all(one.drop_last()) == Ok::<StoreView, StoreView>(store));
    assert(store.after_adding_all(one) == match store.after_adding(first) {
        Some(s) => Ok::<StoreView, StoreView>(s),
        None => Err::<StoreView, StoreView>(store),
    });
}

} // verus!
