//! The contract of a store, the queries that it answers, and what it holds
//! besides events.

pub mod laws;
pub mod mem;
pub mod model;

use vstd::prelude::*;
use vstd::string::StringSliceAdditionalSpecFns;
use crate::error::{fails_with, ErrorKind, ErrorKindView};
use crate::events::ephemeral::{EphemeralData, Typing};
use crate::events::opt_text;
use crate::events::pdu::{referents, StoredPdu};
use crate::events::presence::Status;
use crate::events::room::{Create, Member, Membership, RoomVersion};
use crate::events::room_version::{PduV4, VersionedPdu};
use crate::events::EventContent;
use crate::state::{
    has_create, is_state, lists, members_with, no_create_message, prev_ids, resolve, resolved,
    same_slot, slot, texts, ResolvedState,
};
use crate::storage::model::{
    StoreView, UserView, current_state, event_with_id, frontier, ids_at, is_create_of,
    is_first_join_of, is_first_with_id, is_leaf, is_made_of, leaf_test, leaves,
    lemma_add_stops, lemma_adding_two, level_by_auth, max_depth, typing_is_computed_message,
};
use crate::util::domain::Domain;
use crate::util::mxid::{IdParts, MatrixId, RoomId};
use crate::util::password::argon2_verifies;
use crate::util::random::random_salt;
use crate::util::storage::{AddEventError, AddEventErrorView, NewEvent};
use crate::util::table::{Key, Table};
use crate::util::text::same_text;
use crate::util::token::fresh_token;
use crate::validate::{authorize, membership_in, membership_of, select_auth_events, verdict};

verus! {

/// What a user shows of themselves.
#[derive(Clone, Debug)]
pub struct UserProfile {
    pub avatar_url: Option<String>,
    pub displayname: Option<String>,
    pub status: Option<Status>,
}

/// The progress of one sync session: for each room the position in its
/// timeline up to which events were delivered, and the rooms whose invite
/// was delivered.
#[derive(Debug)]
pub struct Batch {
    pub rooms: Table<RoomId, usize>,
    pub invites: Table<RoomId, ()>,
}

/// The mathematical content of a [`Batch`].
pub struct BatchView {
    pub rooms: Map<IdParts, usize>,
    pub invites: Set<IdParts>,
}

impl View for Batch {
    type V = BatchView;

    open spec fn view(&self) -> BatchView {
        BatchView { rooms: self.rooms@, invites: self.invites@.dom() }
    }
}

impl Batch {
    /// The position from which a room's events are still to be delivered.
    pub open spec fn cursor(self, room: IdParts) -> usize {
        if self.rooms@.dom().contains(room) {
            self.rooms@[room]
        } else {
            0
        }
    }

    /// The progress of a session that has been sent nothing yet.
    pub fn new() -> (b: Self)
        ensures
            b@.rooms == Map::<IdParts, usize>::empty(),
            b@.invites == Set::<IdParts>::empty(),
    {
        let b = Batch { rooms: Table::new(), invites: Table::new() };
        assert(b@.invites =~= Set::<IdParts>::empty());
        b
    }

    /// The position from which the events of `room` are still to be delivered.
    pub fn position(&self, room: &RoomId) -> (from: usize)
        ensures
            from == self.cursor(room@),
    {
        match self.rooms.get(room) {
            Some(from) => *from,
            None => 0,
        }
    }

    /// A copy of this progress.
    pub fn duplicate(&self) -> (b: Self)
        ensures
            b@ == self@,
    {
        let mut rooms: Table<RoomId, usize> = Table::new();
        let mut invites: Table<RoomId, ()> = Table::new();
        let n = self.rooms.len();
        let mut i: usize = 0;
        proof {
            self.rooms.lemma_contents();
        }
        while i < n
            invariant
                i <= n,
                n == self.rooms.keys().len(),
                n == self.rooms.values().len(),
                self.rooms.keys().no_duplicates(),
                forall|k: IdParts|
                    rooms@.dom().contains(k) <==> exists|j: int|
                        0 <= j < i && self.rooms.keys()[j] == k,
                forall|j: int|
                    0 <= j < i ==> rooms@[#[trigger] self.rooms.keys()[j]] == self.rooms.values()[j],
            decreases n - i,
        {
            let key = self.rooms.key_at(i).duplicate();
            let value = *self.rooms.value_at(i);
            let ghost before = rooms@;
            rooms.insert(key, value);
            proof {
                assert forall|k: IdParts|
                    rooms@.dom().contains(k) <==> exists|j: int|
                        0 <= j < i + 1 && self.rooms.keys()[j] == k by {
                    if rooms@.dom().contains(k) && k != self.rooms.keys()[i as int] {
                        assert(before.dom().contains(k));
                    }
                }
                assert forall|j: int| 0 <= j < i + 1 implies rooms@[#[trigger] self.rooms.keys()[j]]
                    == self.rooms.values()[j] by {
                    if j < i {
                        assert(self.rooms.keys()[j] != self.rooms.keys()[i as int]);
                    }
                }
            }
            i += 1;
        }
        proof {
            self.rooms.lemma_contents();
            assert forall|k: IdParts| rooms@.dom().contains(k) <==> self.rooms@.dom().contains(
                k,
            ) by {
                if self.rooms@.dom().contains(k) {
                    assert(self.rooms.keys().contains(k));
                    let j = choose|j: int| 0 <= j < n && self.rooms.keys()[j] == k;
                    assert(0 <= j < i && self.rooms.keys()[j] == k);
                }
            }
            assert forall|k: IdParts| rooms@.dom().contains(k) implies rooms@[k]
                == self.rooms@[k] by {
                let j = choose|j: int| 0 <= j < i && self.rooms.keys()[j] == k;
                assert(rooms@[self.rooms.keys()[j]] == self.rooms.values()[j]);
            }
            assert(rooms@ =~= self.rooms@);
        }
        let n = self.invites.len();
        let mut i: usize = 0;
        while i < n
            invariant
                i <= n,
                n == self.invites.keys().len(),
                self.invites.keys().no_duplicates(),
                rooms@ == self.rooms@,
                forall|k: IdParts|
                    invites@.dom().contains(k) <==> exists|j: int|
                        0 <= j < i && self.invites.keys()[j] == k,
            decreases n - i,
        {
            let key = self.invites.key_at(i).duplicate();
            let ghost before = invites@;
            invites.insert(key, ());
            proof {
                assert forall|k: IdParts|
                    invites@.dom().contains(k) <==> exists|j: int|
                        0 <= j < i + 1 && self.invites.keys()[j] == k by {
                    if invites@.dom().contains(k) && k != self.invites.keys()[i as int] {
                        assert(before.dom().contains(k));
                    }
                }
            }
            i += 1;
        }
        proof {
            self.invites.lemma_contents();
            assert forall|k: IdParts|
                invites@.dom().contains(k) <==> self.invites@.dom().contains(k) by {
                if self.invites@.dom().contains(k) {
                    assert(self.invites.keys().contains(k));
                    let j = choose|j: int| 0 <= j < n && self.invites.keys()[j] == k;
                    assert(0 <= j < i && self.invites.keys()[j] == k);
                }
            }
            assert(invites@.dom() =~= self.invites@.dom());
        }
        Batch { rooms, invites }
    }
}

/// Which part of a room is asked for.
#[derive(Clone, Copy, Debug)]
pub enum QueryType {
    /// The events at the positions `from..to` of the timeline, where `to`
    /// defaults to the end of the timeline.
    Timeline { from: usize, to: Option<usize> },
    /// The state as of position `at`, by default the end of the timeline:
    /// of the state events before `at` the latest for each type and state key.
    State { at: Option<usize> },
}

impl QueryType {
    pub fn is_timeline(&self) -> (b: bool)
        ensures
            b == (self is Timeline),
    {
        match self {
            QueryType::Timeline { .. } => true,
            QueryType::State { .. } => false,
        }
    }

    pub fn is_state(&self) -> (b: bool)
        ensures
            b == (self is State),
    {
        match self {
            QueryType::Timeline { .. } => false,
            QueryType::State { .. } => true,
        }
    }

    /// The first position that the query looks at.
    pub open spec fn start(self) -> int {
        match self {
            QueryType::Timeline { from, .. } => from as int,
            QueryType::State { .. } => 0,
        }
    }

    /// The position at which the query stops, in a timeline of `len` events.
    pub open spec fn end(self, len: int) -> int {
        match self {
            QueryType::Timeline { to: Some(to), .. } => to as int,
            QueryType::State { at: Some(at) } => at as int,
            _ => len,
        }
    }
}

/// A query for events of one room.
///
/// An empty list of senders or of types admits every sender or type.
pub struct EventQuery<'a> {
    pub room_id: &'a RoomId,
    pub query_type: QueryType,
    pub senders: &'a [MatrixId],
    pub not_senders: &'a [MatrixId],
    pub types: &'a [String],
    pub not_types: &'a [String],
}

/// Whether `list` names the user `who`.
pub open spec fn names_user(list: Seq<MatrixId>, who: IdParts) -> bool {
    exists|i: int| 0 <= i < list.len() && (#[trigger] list[i])@ == who
}

/// Whether `list` names the event type `kind`.
pub open spec fn names_kind(list: Seq<String>, kind: Seq<char>) -> bool {
    exists|i: int| 0 <= i < list.len() && (#[trigger] list[i])@ == kind
}

fn user_is_named(list: &[MatrixId], who: &MatrixId) -> (b: bool)
    ensures
        b == names_user(list@, who@),
{
    let mut i: usize = 0;
    while i < list.len()
        invariant
            i <= list.len(),
            forall|j: int| 0 <= j < i ==> (#[trigger] list@[j])@ != who@,
        decreases list.len() - i,
    {
        if list[i].same(who) {
            return true;
        }
        i += 1;
    }
    false
}

fn kind_is_named(list: &[String], kind: &str) -> (b: bool)
    ensures
        b == names_kind(list@, kind@),
{
    let mut i: usize = 0;
    while i < list.len()
        invariant
            i <= list.len(),
            forall|j: int| 0 <= j < i ==> (#[trigger] list@[j])@ != kind@,
        decreases list.len() - i,
    {
        if same_text(list[i].as_str(), kind) {
            return true;
        }
        i += 1;
    }
    false
}

/// The positions below `n` that `keep` holds of, in ascending order.
pub open spec fn picked(keep: spec_fn(int) -> bool, n: int) -> Seq<int>
    decreases n,
{
    if n <= 0 {
        Seq::empty()
    } else if keep(n - 1) {
        picked(keep, n - 1).push(n - 1)
    } else {
        picked(keep, n - 1)
    }
}

/// The events of `timeline` at the positions `at`.
pub open spec fn events_at(timeline: Seq<StoredPdu>, at: Seq<int>) -> Seq<StoredPdu> {
    Seq::new(at.len(), |i: int| timeline[at[i]])
}

/// Nothing is picked where nothing is kept.
pub proof fn lemma_picked_none(keep: spec_fn(int) -> bool, n: int)
    requires
        forall|i: int| 0 <= i < n ==> !#[trigger] keep(i),
    ensures
        picked(keep, n) == Seq::<int>::empty(),
    decreases n,
{
    if n > 0 {
        lemma_picked_none(keep, n - 1);
    }
}

/// Every position is picked where everything is kept.
pub proof fn lemma_picked_all(keep: spec_fn(int) -> bool, n: int)
    requires
        0 <= n,
        forall|i: int| 0 <= i < n ==> #[trigger] keep(i),
    ensures
        picked(keep, n) == Seq::new(n as nat, |i: int| i),
    decreases n,
{
    if n > 0 {
        lemma_picked_all(keep, n - 1);
        assert(picked(keep, n) =~= Seq::new(n as nat, |i: int| i));
    } else {
        assert(picked(keep, n) =~= Seq::new(n as nat, |i: int| i));
    }
}

/// Positions that are not kept do not count.
pub proof fn lemma_picked_tail(keep: spec_fn(int) -> bool, m: int, n: int)
    requires
        m <= n,
        forall|i: int| m <= i < n ==> !#[trigger] keep(i),
    ensures
        picked(keep, n) == picked(keep, m),
    decreases n - m,
{
    if m < n {
        lemma_picked_tail(keep, m, n - 1);
    }
}

impl<'a> EventQuery<'a> {
    /// Whether the sender and the type of `e` pass the filters of the query.
    pub open spec fn accepts(self, e: StoredPdu) -> bool {
        let sender = e.pdu().v4().sender@;
        let kind = e.pdu().v4().event_content.kind_name();
        &&& self.senders@.len() == 0 || names_user(self.senders@, sender)
        &&& !names_user(self.not_senders@, sender)
        &&& self.types@.len() == 0 || names_kind(self.types@, kind)
        &&& !names_kind(self.not_types@, kind)
    }

    /// Whether the query looks at positions that `timeline` has.
    pub open spec fn in_range(self, len: int) -> bool {
        self.query_type.start() <= self.query_type.end(len) <= len
    }

    /// Whether the event at position `i` is among the results.
    pub open spec fn keeps(self, timeline: Seq<StoredPdu>, i: int) -> bool {
        let end = self.query_type.end(timeline.len() as int);
        &&& self.in_range(timeline.len() as int)
        &&& self.query_type.start() <= i < end
        &&& self.accepts(timeline[i])
        &&& self.query_type is State ==> is_state(timeline[i]) && forall|j: int|
            i < j < end && self.accepts(timeline[j]) && is_state(#[trigger] timeline[j]) ==> slot(
                timeline[j],
            ) != slot(timeline[i])
    }

    /// [`EventQuery::keeps`] as a function of the position.
    pub open spec fn keeper(self, timeline: Seq<StoredPdu>) -> spec_fn(int) -> bool {
        |i: int| self.keeps(timeline, i)
    }

    /// The positions of the results in `timeline`, in ascending order.
    pub open spec fn hits(self, timeline: Seq<StoredPdu>) -> Seq<int> {
        picked(self.keeper(timeline), timeline.len() as int)
    }

    /// The results of the query on `timeline`, in the order of the timeline.
    pub open spec fn results(self, timeline: Seq<StoredPdu>) -> Seq<StoredPdu> {
        events_at(timeline, self.hits(timeline))
    }

    /// Whether the sender and the type of `pdu` pass the filters.
    pub fn matches(&self, pdu: &StoredPdu) -> (b: bool)
        ensures
            b == self.accepts(*pdu),
    {
        let sender = pdu.inner().sender();
        let kind = pdu.event_content().event_type();
        (self.senders.len() == 0 || user_is_named(self.senders, sender)) && !user_is_named(
            self.not_senders,
            sender,
        ) && (self.types.len() == 0 || kind_is_named(self.types, kind)) && !kind_is_named(
            self.not_types,
            kind,
        )
    }
}

/// The events that a query found, and the position at which it stopped.
pub struct EventQueryResult<'a> {
    pub events: Vec<&'a StoredPdu>,
    pub timeline_end: usize,
}

/// How a query that may wait ended.
pub enum QueryOutcome<'a> {
    /// The query has results, or does not wait.
    Ready(EventQueryResult<'a>),
    /// The query found nothing and is to be asked again, for the timeline
    /// from `resume_from` on, once the room's revision is no longer
    /// `revision`.
    Wait { revision: u64, resume_from: usize },
}

/// Whether `e` names the event `id` as a predecessor.
fn names_predecessor(e: &StoredPdu, id: &str) -> (b: bool)
    ensures
        b == prev_ids(*e).contains(id@),
{
    let prev = e.inner().prev_events();
    let ghost ids = prev_ids(*e);
    let mut k: usize = 0;
    while k < prev.len()
        invariant
            k <= prev.len(),
            prev@ == e.pdu().v4().prev_events@,
            ids == prev_ids(*e),
            forall|j: int| 0 <= j < k ==> ids[j] != id@,
        decreases prev.len() - k,
    {
        if crate::util::text::same_text(prev[k].as_str(), id) {
            assert(ids[k as int] == id@);
            return true;
        }
        k += 1;
    }
    false
}

/// Whether no event of `events` names the event at `i` as a predecessor.
fn is_leaf_at(events: &Vec<StoredPdu>, i: usize) -> (b: bool)
    requires
        i < events.len(),
    ensures
        b == is_leaf(events@, i as int),
{
    let id = events[i].event_id();
    let mut j: usize = 0;
    while j < events.len()
        invariant
            j <= events.len(),
            i < events.len(),
            id@ == events@[i as int].id(),
            forall|k: int|
                0 <= k < j ==> !prev_ids(#[trigger] events@[k]).contains(id@),
        decreases events.len() - j,
    {
        if names_predecessor(&events[j], id) {
            return false;
        }
        j += 1;
    }
    true
}

/// Whether the event at `i` is among the results of `query`.
#[verifier::loop_isolation(false)]
fn keeps_at(query: &EventQuery<'_>, events: &Vec<StoredPdu>, i: usize, to: usize) -> (b: bool)
    requires
        query.in_range(events@.len() as int),
        to == query.query_type.end(events@.len() as int),
        query.query_type.start() <= i < to,
    ensures
        b == query.keeps(events@, i as int),
{
    let e = &events[i];
    if !query.matches(e) {
        return false;
    }
    if query.query_type.is_timeline() {
        return true;
    }
    if e.inner().state_key().is_none() {
        return false;
    }
    let mut j: usize = i + 1;
    while j < to
        invariant
            i < j <= to <= events.len(),
            *e == events@[i as int],
            is_state(*e),
            forall|k: int|
                i < k < j && query.accepts(events@[k]) && is_state(#[trigger] events@[k]) ==> slot(
                    events@[k],
                ) != slot(events@[i as int]),
        decreases to - j,
    {
        let later = &events[j];
        if query.matches(later) && later.inner().state_key().is_some() && same_slot(later, e) {
            proof {
                let end = query.query_type.end(events@.len() as int);
                assert(i < j < end && query.accepts(events@[j as int]) && is_state(
                    events@[j as int],
                ) && slot(events@[j as int]) == slot(events@[i as int]));
            }
            return false;
        }
        j += 1;
    }
    true
}

/// The create event of the room `room_id`.
fn create_event(room_id: &RoomId, creator: &MatrixId, origin: &Domain, now: i64) -> (pdu: StoredPdu)
    ensures
        is_create_of(pdu, room_id@, *creator, *origin, now),
{
    let content = EventContent::Create(
        Create {
            creator: creator.duplicate(),
            room_version: Some(RoomVersion::V4),
            predecessor: None,
            extra: Table::new(),
        },
    );
    let pdu = PduV4 {
        event_content: content,
        room_id: room_id.duplicate(),
        sender: creator.duplicate(),
        state_key: Some(String::new()),
        unsigned: None,
        redacts: None,
        origin: origin.clone(),
        origin_server_ts: now,
        prev_events: Vec::new(),
        auth_events: Vec::new(),
        depth: 0,
    };
    StoredPdu::new(VersionedPdu::V4(pdu))
}

/// The event by which the creator of a room joins it.
fn first_join_event(room_id: &RoomId, creator: &MatrixId, origin: &Domain, now: i64, create_id: &str) -> (pdu:
    StoredPdu)
    ensures
        is_first_join_of(pdu, room_id@, *creator, *origin, now, create_id@),
{
    let mut prev_events: Vec<String> = Vec::new();
    prev_events.push(create_id.to_owned());
    let mut auth_events: Vec<String> = Vec::new();
    auth_events.push(create_id.to_owned());
    assert(texts(prev_events@) =~= seq![create_id@]);
    assert(texts(auth_events@) =~= seq![create_id@]);
    let member = EventContent::Member(
        Member { avatar_url: None, displayname: None, membership: Membership::Join, is_direct: None },
    );
    let pdu = PduV4 {
        event_content: member,
        room_id: room_id.duplicate(),
        sender: creator.duplicate(),
        state_key: Some(creator.to_string()),
        unsigned: None,
        redacts: None,
        origin: origin.clone(),
        origin_server_ts: now,
        prev_events,
        auth_events,
        depth: 1,
    };
    StoredPdu::new(VersionedPdu::V4(pdu))
}

/// The contract of a store: what the server asks of whatever keeps its
/// rooms, users, access tokens, sync cursors and transactions.
///
/// The operations without a body are for a store to provide. The others
/// are made of them, and are the same for every store.
pub trait Storage: Sized {
    /// The mathematical content of the store.
    spec fn state(&self) -> StoreView;

    /// The identifiers of the rooms in the order in which [`Storage::get_rooms`]
    /// lists them.
    spec fn room_order(&self) -> Seq<IdParts>;

    /// Appends `pdu` to the timeline of its room. A create event makes its
    /// room if the room does not exist yet.
    fn add_pdu(&mut self, pdu: StoredPdu) -> (r: Result<(), ErrorKind>)
        ensures
            match old(self).state().after_adding(pdu) {
                Some(after) => r is Ok && final(self).state() == after,
                None => fails_with(r, ErrorKindView::RoomNotFound) && final(self).state() == old(self).state(),
            },
    ;

    /// The identifiers of all rooms.
    fn get_rooms(&self) -> (ids: Vec<RoomId>)
        ensures
            ids@.len() == self.room_order().len(),
            forall|i: int| 0 <= i < ids@.len() ==> (#[trigger] ids@[i])@ == self.room_order()[i],
            self.room_order().no_duplicates(),
            forall|k: IdParts| self.room_order().contains(k) <==> self.state().rooms.dom().contains(k),
    ;

    /// The timeline of `room_id`.
    fn timeline_of<'a>(&'a self, room_id: &RoomId) -> (r: Option<&'a Vec<StoredPdu>>)
        ensures
            match r {
                Some(events) => self.state().rooms.dom().contains(room_id@) && events@
                    == self.state().rooms[room_id@].timeline,
                None => !self.state().rooms.dom().contains(room_id@),
            },
    ;

    /// The revision of `room_id`: a number that changes with every write to
    /// the room.
    fn room_revision(&self, room_id: &RoomId) -> (r: Option<u64>)
        ensures
            match r {
                Some(revision) => self.state().rooms.dom().contains(room_id@) && revision
                    == self.state().rooms[room_id@].revision,
                None => !self.state().rooms.dom().contains(room_id@),
            },
    ;

    /// Makes a user with the given password, hashed with `salt`.
    ///
    /// Fails if the password cannot be hashed, and with `UsernameTaken` if a
    /// user of that name exists.
    fn create_user_with_salt(&mut self, username: &str, password: &str, salt: &[u8]) -> (r:
        Result<(), ErrorKind>)
        ensures
            match old(self).state().after_creating_user(
                username@,
                password.spec_bytes(),
                salt@,
            ) {
                Ok(made) => r is Ok && final(self).state() == made,
                Err(e) => fails_with(r, e) && final(self).state() == old(self).state(),
            },
    ;

    /// Whether `password` is the password of `username`. It is not for a
    /// user that does not exist.
    fn verify_password(&self, username: &str, password: &str) -> (ok: bool)
        ensures
            ok == match self.state().password_hash(username@) {
                Some(hash) => argon2_verifies(hash, password.spec_bytes()),
                None => false,
            },
    ;

    /// Binds `token` to `username`.
    fn bind_access_token(&mut self, token: u128, username: &str) -> (r: Result<(), ErrorKind>)
        ensures
            if old(self).state().users.dom().contains(username@) {
                r is Ok && final(self).state() == (StoreView {
                    access_tokens: old(self).state().access_tokens.insert(token, username@),
                    ..old(self).state()
                })
            } else {
                fails_with(r, ErrorKindView::UserNotFound) && final(self).state() == old(self).state()
            },
    ;

    /// Forgets `token`.
    fn delete_access_token(&mut self, token: u128)
        ensures
            final(self).state() == (StoreView {
                access_tokens: old(self).state().access_tokens.remove(token),
                ..old(self).state()
            }),
    ;

    /// Forgets every token of the user that `token` is bound to. Nothing
    /// changes if `token` is not known.
    fn delete_all_access_tokens(&mut self, token: u128)
        ensures
            final(self).state() == if old(self).state().access_tokens.dom().contains(token) {
                StoreView {
                    access_tokens: old(self).state().tokens_without(old(self).state().access_tokens[token]),
                    ..old(self).state()
                }
            } else {
                old(self).state()
            },
    ;

    /// The name of the user that `token` is bound to.
    fn try_auth(&self, token: u128) -> (r: Option<String>)
        ensures
            opt_text(r) == if self.state().access_tokens.dom().contains(token) {
                Some(self.state().access_tokens[token])
            } else {
                None
            },
    ;

    /// Records the transaction `txn_id` under `token` and says whether this
    /// was the first time.
    fn record_txn(&mut self, token: u128, txn_id: String) -> (first: bool)
        ensures
            first == !old(self).state().transactions(token).contains(txn_id@),
            final(self).state() == (StoreView {
                txn_ids: old(self).state().txn_ids.insert(
                    token,
                    old(self).state().transactions(token).insert(txn_id@),
                ),
                ..old(self).state()
            }),
    ;

    /// The sync cursor that was stored under `id`.
    fn get_batch(&self, id: &str) -> (r: Option<&Batch>)
        ensures
            match r {
                Some(batch) => self.state().batches.dom().contains(id@) && batch@ == self.state().batches[id@],
                None => !self.state().batches.dom().contains(id@),
            },
    ;

    /// Stores a sync cursor under `id`.
    fn set_batch(&mut self, id: &str, batch: Batch)
        ensures
            final(self).state() == (StoreView {
                batches: old(self).state().batches.insert(id@, batch@),
                ..old(self).state()
            }),
    ;

    /// The profile of `username`.
    fn get_profile(&self, username: &str) -> (r: Option<&UserProfile>)
        ensures
            match r {
                Some(profile) => self.state().users.dom().contains(username@) && *profile
                    == self.state().users[username@].profile,
                None => !self.state().users.dom().contains(username@),
            },
    ;

    /// Puts `profile` in the place of the profile of `username`.
    fn overwrite_profile(&mut self, username: &str, profile: UserProfile) -> (r: Result<
        (),
        ErrorKind,
    >)
        ensures
            if old(self).state().users.dom().contains(username@) {
                r is Ok && final(self).state() == (StoreView {
                    users: old(self).state().users.insert(
                        username@,
                        UserView { profile, ..old(self).state().users[username@] },
                    ),
                    ..old(self).state()
                })
            } else {
                fails_with(r, ErrorKindView::UserNotFound) && final(self).state() == old(self).state()
            },
    ;

    /// Sets the avatar of `username`.
    fn set_avatar_url(&mut self, username: &str, avatar_url: &str) -> (r: Result<(), ErrorKind>)
        ensures
            if old(self).state().users.dom().contains(username@) {
                let was = old(self).state().users[username@];
                let now = final(self).state().users[username@];
                &&& r is Ok
                &&& final(self).state() == (StoreView {
                    users: old(self).state().users.insert(username@, now),
                    ..old(self).state()
                })
                &&& opt_text(now.profile.avatar_url) == Some(avatar_url@)
                &&& now.profile.displayname == was.profile.displayname
                &&& now.profile.status == was.profile.status
                &&& now.password_hash == was.password_hash
                &&& now.account_data == was.account_data
            } else {
                fails_with(r, ErrorKindView::UserNotFound) && final(self).state() == old(self).state()
            },
    ;

    /// Sets the name that `username` shows.
    fn set_display_name(&mut self, username: &str, display_name: &str) -> (r: Result<
        (),
        ErrorKind,
    >)
        ensures
            if old(self).state().users.dom().contains(username@) {
                let was = old(self).state().users[username@];
                let now = final(self).state().users[username@];
                &&& r is Ok
                &&& final(self).state() == (StoreView {
                    users: old(self).state().users.insert(username@, now),
                    ..old(self).state()
                })
                &&& opt_text(now.profile.displayname) == Some(display_name@)
                &&& now.profile.avatar_url == was.profile.avatar_url
                &&& now.profile.status == was.profile.status
                &&& now.password_hash == was.password_hash
                &&& now.account_data == was.account_data
            } else {
                fails_with(r, ErrorKindView::UserNotFound) && final(self).state() == old(self).state()
            },
    ;

    /// Sets what `username` says of their presence.
    fn set_status(&mut self, username: &str, status: Status) -> (r: Result<(), ErrorKind>)
        ensures
            if old(self).state().users.dom().contains(username@) {
                let was = old(self).state().users[username@];
                r is Ok && final(self).state() == (StoreView {
                    users: old(self).state().users.insert(
                        username@,
                        UserView {
                            profile: UserProfile { status: Some(status), ..was.profile },
                            ..was
                        },
                    ),
                    ..old(self).state()
                })
            } else {
                fails_with(r, ErrorKindView::UserNotFound) && final(self).state() == old(self).state()
            },
    ;

    /// Puts `data` in the place of the account data of `username`.
    fn set_user_account_data(
        &mut self,
        username: &str,
        data: Table<String, serde_json::Value>,
    ) -> (r: Result<(), ErrorKind>)
        ensures
            if old(self).state().users.dom().contains(username@) {
                r is Ok && final(self).state() == (StoreView {
                    users: old(self).state().users.insert(
                        username@,
                        UserView { account_data: data@, ..old(self).state().users[username@] },
                    ),
                    ..old(self).state()
                })
            } else {
                fails_with(r, ErrorKindView::NotFound) && final(self).state() == old(self).state()
            },
    ;

    /// Sets one value of the account data of `username`.
    fn set_user_account_data_value(
        &mut self,
        username: &str,
        key: String,
        value: serde_json::Value,
    ) -> (r: Result<(), ErrorKind>)
        ensures
            if old(self).state().users.dom().contains(username@) {
                let was = old(self).state().users[username@];
                r is Ok && final(self).state() == (StoreView {
                    users: old(self).state().users.insert(
                        username@,
                        UserView { account_data: was.account_data.insert(key@, value), ..was },
                    ),
                    ..old(self).state()
                })
            } else {
                fails_with(r, ErrorKindView::NotFound) && final(self).state() == old(self).state()
            },
    ;

    /// The value of the account data of `username` under `key`.
    fn get_user_account_data_value(&self, username: &str, key: &str) -> (r: Option<
        &serde_json::Value,
    >)
        ensures
            match r {
                Some(value) => self.state().users.dom().contains(username@)
                    && self.state().users[username@].account_data.dom().contains(key@) && *value
                    == self.state().users[username@].account_data[key@],
                None => !self.state().users.dom().contains(username@)
                    || !self.state().users[username@].account_data.dom().contains(key@),
            },
    ;

    /// The account data of `username`, if the user exists.
    fn get_user_account_data(&self, username: &str) -> (r: Option<
        &Table<String, serde_json::Value>,
    >)
        ensures
            match r {
                Some(data) => self.state().users.dom().contains(username@) && data@
                    == self.state().users[username@].account_data,
                None => !self.state().users.dom().contains(username@),
            },
    ;

    /// The ephemeral data that was set for `room_id`, and the users who are
    /// typing in it at `now`.
    fn get_all_ephemeral<'a>(&'a self, room_id: &RoomId, now: u64) -> (r: Result<
        (&'a Table<String, serde_json::Value>, Typing),
        ErrorKind,
    >)
        ensures
            match r {
                Ok((data, typing)) => {
                    let room = self.state().rooms[room_id@];
                    &&& self.state().rooms.dom().contains(room_id@)
                    &&& data@ == room.ephemeral
                    &&& forall|user: IdParts|
                        names_user(typing.user_ids@, user) <==> room.typing_at(now).contains(user)
                    &&& forall|i: int, j: int|
                        0 <= i < j < typing.user_ids@.len() ==> typing.user_ids@[i]@
                            != typing.user_ids@[j]@
                },
                Err(e) => e@ == ErrorKindView::RoomNotFound && !self.state().rooms.dom().contains(
                    room_id@,
                ),
            },
    ;

    /// The ephemeral data of type `kind` of `room_id`. The users who are
    /// typing, under `m.typing`, are those who are at `now`.
    fn get_ephemeral<'a>(&'a self, room_id: &RoomId, kind: &str, now: u64) -> (r: Result<
        Option<EphemeralData<'a>>,
        ErrorKind,
    >)
        ensures
            match r {
                Ok(found) => {
                    let room = self.state().rooms[room_id@];
                    &&& self.state().rooms.dom().contains(room_id@)
                    &&& if kind@ == "m.typing"@ {
                        &&& found matches Some(EphemeralData::Typing(typing))
                        &&& forall|user: IdParts|
                            names_user(typing.user_ids@, user) <==> room.typing_at(now).contains(
                                user,
                            )
                        &&& forall|i: int, j: int|
                            0 <= i < j < typing.user_ids@.len() ==> typing.user_ids@[i]@
                                != typing.user_ids@[j]@
                    } else if room.ephemeral.dom().contains(kind@) {
                        found matches Some(EphemeralData::Data(data)) && *data
                            == room.ephemeral[kind@]
                    } else {
                        found is None
                    }
                },
                Err(e) => e@ == ErrorKindView::RoomNotFound && !self.state().rooms.dom().contains(
                    room_id@,
                ),
            },
    ;

    /// Sets the ephemeral data of type `kind` of `room_id`, or removes it
    /// where `content` is `None`. The users who are typing cannot be set
    /// this way.
    fn set_ephemeral(&mut self, room_id: &RoomId, kind: &str, content: Option<serde_json::Value>) -> (r: Result<(), ErrorKind>)
        ensures
            if kind@ == "m.typing"@ {
                fails_with(r, ErrorKindView::BadJson(typing_is_computed_message())) && final(self).state()
                    == old(self).state()
            } else if !old(self).state().rooms.dom().contains(room_id@) {
                fails_with(r, ErrorKindView::RoomNotFound) && final(self).state() == old(self).state()
            } else {
                r is Ok && final(self).state() == (StoreView {
                    rooms: old(self).state().rooms.insert(
                        room_id@,
                        old(self).state().rooms[room_id@].with_ephemeral(kind@, content),
                    ),
                    ..old(self).state()
                })
            },
    ;

    /// Records that `user` is typing in `room_id` from `now` on, for at most
    /// `timeout` milliseconds, or that they are not typing.
    fn set_typing(&mut self, room_id: &RoomId, user_id: &MatrixId, is_typing: bool, timeout: u32, now: u64) -> (r: Result<(), ErrorKind>)
        ensures
            if !old(self).state().rooms.dom().contains(room_id@) {
                fails_with(r, ErrorKindView::RoomNotFound) && final(self).state() == old(self).state()
            } else {
                r is Ok && final(self).state() == (StoreView {
                    rooms: old(self).state().rooms.insert(
                        room_id@,
                        old(self).state().rooms[room_id@].with_typing(user_id@, is_typing, timeout, now),
                    ),
                    ..old(self).state()
                })
            },
    ;

    /// Appends the events of `pdus` one after another, and stops at the
    /// first that does not find its room.
    #[verifier::loop_isolation(false)]
    fn add_pdus(&mut self, pdus: Vec<StoredPdu>) -> (r: Result<(), ErrorKind>)
        ensures
            match old(self).state().after_adding_all(pdus@) {
                Ok(after) => r is Ok && final(self).state() == after,
                Err(reached) => fails_with(r, ErrorKindView::RoomNotFound) && final(self).state()
                    == reached,
            },
    {
        let ghost all = pdus@;
        let ghost start = self.state();
        assert(all.take(0) =~= Seq::<StoredPdu>::empty());
        for pdu in it: pdus
            invariant
                it.seq() == all,
                start.after_adding_all(all.take(it.index() as int)) == Ok::<StoreView, StoreView>(
                    self.state(),
                ),
        {
            proof {
                let i = it.index() as int;
                let next = all.take(i + 1);
                assert(next.drop_last() =~= all.take(i));
                assert(next.last() == pdu);
            }
            let ghost before = self.state();
            let added = self.add_pdu(pdu);
            match added {
                Ok(()) => {},
                Err(e) => {
                    proof {
                        assert(before.after_adding(pdu) is None);
                        assert(all[it.index() as int] == pdu);
                        lemma_add_stops(start, all, it.index() as int);
                        assert(self.state() == before);
                    }
                    return Err(e);
                },
            }
        }
        assert(all.take(all.len() as int) =~= all);
        Ok(())
    }

    /// The first event of `room_id` with the identifier `event_id`.
    #[verifier::loop_isolation(false)]
    fn get_pdu<'a>(&'a self, room_id: &RoomId, event_id: &str) -> (r: Option<&'a StoredPdu>)
        ensures
            match r {
                Some(e) => {
                    let timeline = self.state().timeline(room_id@);
                    exists|i: int|
                        0 <= i < timeline.len() && timeline[i] == *e && e.id() == event_id@
                            && forall|j: int| 0 <= j < i ==> (#[trigger] timeline[j]).id() != event_id@
                },
                None => forall|j: int|
                    0 <= j < self.state().timeline(room_id@).len() ==> (#[trigger] self.state().timeline(
                        room_id@,
                    )[j]).id() != event_id@,
            },
    {
        let events = match self.timeline_of(room_id) {
            Some(events) => events,
            None => {
                return None;
            },
        };
        let mut i: usize = 0;
        while i < events.len()
            invariant
                i <= events.len(),
                forall|j: int| 0 <= j < i ==> (#[trigger] events@[j]).id() != event_id@,
            decreases events.len() - i,
        {
            if crate::util::text::same_text(events[i].event_id(), event_id) {
                proof {
                    let timeline = self.state().timeline(room_id@);
                    assert(timeline == events@);
                    assert(0 <= i < timeline.len() && timeline[i as int] == events@[i as int]);
                }
                return Some(&events[i]);
            }
            i += 1;
        }
        None
    }

    /// The identifiers of the events of `room_id` that no event names as a
    /// predecessor, in the order of the timeline, and the greatest depth
    /// among them, or -1 where the room has no events.
    fn get_prev_events(&self, room_id: &RoomId) -> (r: Result<(Vec<String>, i64), ErrorKind>)
        ensures
            match r {
                Ok((ids, depth)) => {
                    let timeline = self.state().timeline(room_id@);
                    &&& self.state().rooms.dom().contains(room_id@)
                    &&& texts(ids@) == ids_at(timeline, leaves(timeline))
                    &&& depth == max_depth(timeline, leaves(timeline))
                },
                Err(e) => e@ == ErrorKindView::RoomNotFound && !self.state().rooms.dom().contains(
                    room_id@,
                ),
            },
    {
        let events = match self.timeline_of(room_id) {
            Some(events) => events,
            None => {
                return Err(ErrorKind::RoomNotFound);
            },
        };
        let ghost timeline = events@;
        let ghost test = leaf_test(timeline);
        let mut ids: Vec<String> = Vec::new();
        let mut depth: i64 = -1;
        let mut i: usize = 0;
        assert(texts(ids@) =~= ids_at(timeline, picked(test, 0)));
        while i < events.len()
            invariant
                i <= events.len(),
                timeline == events@,
                test == leaf_test(timeline),
                texts(ids@) == ids_at(timeline, picked(test, i as int)),
                depth == max_depth(timeline, picked(test, i as int)),
            decreases events.len() - i,
        {
            let ghost at = picked(test, i as int);
            if is_leaf_at(events, i) {
                assert(test(i as int));
                let ghost old_ids = texts(ids@);
                ids.push(events[i].event_id().to_owned());
                let d = events[i].inner().depth();
                proof {
                    let more = picked(test, i + 1);
                    assert(more == at.push(i as int));
                    assert(more.drop_last() =~= at);
                    assert(texts(ids@) =~= old_ids.push(timeline[i as int].id()));
                    assert(ids_at(timeline, more) =~= ids_at(timeline, at).push(
                        timeline[i as int].id(),
                    ));
                }
                if ids.len() == 1 || d > depth {
                    depth = d;
                }
            } else {
                assert(!test(i as int));
            }
            i += 1;
        }
        Ok((ids, depth))
    }

    /// Answers `query`. With `wait`, a timeline query that finds nothing is
    /// not answered: the caller is told which revision of the room to wait
    /// past and from where to ask again.
    fn query_pdus<'a>(&'a self, query: &EventQuery<'_>, wait: bool) -> (r: Result<
        QueryOutcome<'a>,
        ErrorKind,
    >)
        ensures
            !self.state().rooms.dom().contains(query.room_id@) ==> fails_with(
                r,
                ErrorKindView::RoomNotFound,
            ),
            self.state().rooms.dom().contains(query.room_id@) ==> ({
                let room = self.state().rooms[query.room_id@];
                let found = query.results(room.timeline);
                let end = query.query_type.end(room.timeline.len() as int);
                if wait && found.len() == 0 && query.query_type is Timeline {
                    r matches Ok(QueryOutcome::Wait { revision, resume_from }) && revision
                        == room.revision && resume_from == end
                } else {
                    r matches Ok(QueryOutcome::Ready(answer)) && referents(answer.events@) == found
                        && answer.timeline_end == end
                }
            }),
    {
        let events = match self.timeline_of(query.room_id) {
            Some(events) => events,
            None => {
                return Err(ErrorKind::RoomNotFound);
            },
        };
        let revision = match self.room_revision(query.room_id) {
            Some(revision) => revision,
            None => 0,
        };
        let n = events.len();
        let (from, to) = match query.query_type {
            QueryType::Timeline { from, to: Some(to) } => (from, to),
            QueryType::Timeline { from, to: None } => (from, n),
            QueryType::State { at: Some(at) } => (0, at),
            QueryType::State { at: None } => (0, n),
        };
        let ghost timeline = events@;
        let ghost keep = query.keeper(timeline);
        let mut found: Vec<&'a StoredPdu> = Vec::new();
        if from <= to && to <= n {
            proof {
                assert forall|k: int| 0 <= k < from implies !#[trigger] keep(k) by {}
                lemma_picked_none(keep, from as int);
                assert(referents(found@) =~= events_at(timeline, picked(keep, from as int)));
            }
            let mut i: usize = from;
            while i < to
                invariant
                    from <= i <= to <= n,
                    n == events.len(),
                    timeline == events@,
                    keep == query.keeper(timeline),
                    query.in_range(n as int),
                    to == query.query_type.end(n as int),
                    from == query.query_type.start(),
                    referents(found@) == events_at(timeline, picked(keep, i as int)),
                decreases to - i,
            {
                let ghost at = picked(keep, i as int);
                if keeps_at(query, events, i, to) {
                    assert(keep(i as int));
                    let ghost old_found = referents(found@);
                    found.push(&events[i]);
                    proof {
                        let more = picked(keep, i + 1);
                        assert(more == at.push(i as int));
                        assert(referents(found@) =~= old_found.push(timeline[i as int]));
                        assert(events_at(timeline, more) =~= events_at(timeline, at).push(
                            timeline[i as int],
                        ));
                    }
                } else {
                    assert(!keep(i as int));
                }
                i += 1;
            }
            proof {
                assert forall|k: int| to <= k < n implies !#[trigger] keep(k) by {}
                lemma_picked_tail(keep, to as int, n as int);
            }
        } else {
            proof {
                assert forall|k: int| 0 <= k < n implies !#[trigger] keep(k) by {}
                lemma_picked_none(keep, n as int);
                assert(referents(found@) =~= events_at(timeline, picked(keep, n as int)));
            }
        }
        if wait && found.len() == 0 && query.query_type.is_timeline() {
            Ok(QueryOutcome::Wait { revision, resume_from: to })
        } else {
            Ok(QueryOutcome::Ready(EventQueryResult { events: found, timeline_end: to }))
        }
    }

    /// Resolves the state of `room_id` as of `frontier`.
    fn resolve_state<'a>(&'a self, room_id: &RoomId, frontier: &Vec<String>) -> (r: Result<
        ResolvedState<'a>,
        ErrorKind,
    >)
        ensures
            match r {
                Ok(state) => self.state().rooms.dom().contains(room_id@) && state@ == resolved(
                    self.state().timeline(room_id@),
                    texts(frontier@),
                ) && has_create(state@),
                Err(e) => if self.state().rooms.dom().contains(room_id@) {
                    e@ == ErrorKindView::Unknown(no_create_message()) && !has_create(
                        resolved(self.state().timeline(room_id@), texts(frontier@)),
                    )
                } else {
                    e@ == ErrorKindView::RoomNotFound
                },
            },
    {
        match self.timeline_of(room_id) {
            Some(events) => resolve(events, frontier),
            None => Err(ErrorKind::RoomNotFound),
        }
    }

    /// Resolves the current state of `room_id`: its state as of the events
    /// that no event names as a predecessor.
    fn get_state<'a>(&'a self, room_id: &RoomId) -> (r: Result<ResolvedState<'a>, ErrorKind>)
        ensures
            match r {
                Ok(state) => self.state().rooms.dom().contains(room_id@) && state@ == current_state(
                    self.state().timeline(room_id@),
                ) && has_create(state@),
                Err(e) => if self.state().rooms.dom().contains(room_id@) {
                    e@ == ErrorKindView::Unknown(no_create_message()) && !has_create(
                        current_state(self.state().timeline(room_id@)),
                    )
                } else {
                    e@ == ErrorKindView::RoomNotFound
                },
            },
    {
        let (frontier, _) = match self.get_prev_events(room_id) {
            Ok(found) => found,
            Err(e) => {
                return Err(e);
            },
        };
        self.resolve_state(room_id, &frontier)
    }

    /// The membership of `user` in `room_id`, by the room's current state.
    fn get_membership(&self, user: &MatrixId, room_id: &RoomId) -> (r: Result<
        Option<Membership>,
        ErrorKind,
    >)
        ensures
            match r {
                Ok(m) => self.state().rooms.dom().contains(room_id@) && m == membership_in(
                    current_state(self.state().timeline(room_id@)),
                    user@,
                ) && has_create(current_state(self.state().timeline(room_id@))),
                Err(e) => if self.state().rooms.dom().contains(room_id@) {
                    e@ == ErrorKindView::Unknown(no_create_message()) && !has_create(
                        current_state(self.state().timeline(room_id@)),
                    )
                } else {
                    e@ == ErrorKindView::RoomNotFound
                },
            },
    {
        match self.get_state(room_id) {
            Ok(state) => Ok(membership_of(&state, user)),
            Err(e) => Err(e),
        }
    }

    /// The state event of type `kind` with state key `key` in the current
    /// state of `room_id`.
    fn get_state_event<'a>(&'a self, room_id: &RoomId, kind: &str, key: &str) -> (r: Result<
        Option<&'a StoredPdu>,
        ErrorKind,
    >)
        ensures
            match r {
                Ok(found) => {
                    let state = current_state(self.state().timeline(room_id@));
                    &&& self.state().rooms.dom().contains(room_id@)
                    &&& has_create(state)
                    &&& match found {
                        Some(e) => state.dom().contains((kind@, key@)) && state[(kind@, key@)] == *e,
                        None => !state.dom().contains((kind@, key@)),
                    }
                },
                Err(e) => if self.state().rooms.dom().contains(room_id@) {
                    e@ == ErrorKindView::Unknown(no_create_message()) && !has_create(
                        current_state(self.state().timeline(room_id@)),
                    )
                } else {
                    e@ == ErrorKindView::RoomNotFound
                },
            },
    {
        match self.get_state(room_id) {
            Ok(state) => Ok(state.get(kind, key)),
            Err(e) => Err(e),
        }
    }

    /// Authorizes `event` against the current state of `room_id`, links it
    /// to the room's graph, appends it to the timeline and returns its
    /// identifier. `origin` is the server that authors the event and `now`
    /// the time of its making.
    fn add_event(&mut self, room_id: &RoomId, event: NewEvent, origin: Domain, now: i64) -> (r:
        Result<String, ErrorKind>)
        ensures
            !old(self).state().rooms.dom().contains(room_id@) ==> fails_with(
                r,
                ErrorKindView::AddEvent(AddEventErrorView::RoomNotFound),
            ) && final(self).state() == old(self).state(),
            old(self).state().rooms.dom().contains(room_id@) ==> ({
                let timeline = old(self).state().rooms[room_id@].timeline;
                let state = current_state(timeline);
                if !has_create(state) {
                    fails_with(r, ErrorKindView::Unknown(no_create_message())) && final(self).state()
                        == old(self).state()
                } else {
                    match verdict(event, state) {
                        Some(e) => fails_with(r, e) && final(self).state() == old(self).state(),
                        None => r matches Ok(id) && exists|pdu: StoredPdu|
                            #![trigger pdu.id()]
                            is_made_of(pdu, room_id@, event, origin, now, timeline) && id@
                                == pdu.id() && Some(final(self).state()) == old(self).state().after_adding(pdu),
                    }
                }
            }),
    {
        let (prev_events, deepest) = match self.get_prev_events(room_id) {
            Ok(found) => found,
            Err(_) => {
                return Err(ErrorKind::AddEvent(AddEventError::RoomNotFound));
            },
        };
        let ghost timeline = self.state().rooms[room_id@].timeline;
        let auth_events = {
            let state = match self.resolve_state(room_id, &prev_events) {
                Ok(state) => state,
                Err(e) => {
                    return Err(e);
                },
            };
            match authorize(&event, &state) {
                Ok(()) => {},
                Err(e) => {
                    return Err(e);
                },
            }
            select_auth_events(&event, &state)
        };
        let depth = if deepest < i64::MAX {
            deepest + 1
        } else {
            i64::MAX
        };
        let pdu = PduV4 {
            event_content: event.event_content,
            room_id: room_id.duplicate(),
            sender: event.sender,
            state_key: event.state_key,
            unsigned: event.unsigned,
            redacts: event.redacts,
            origin,
            origin_server_ts: now,
            prev_events,
            auth_events,
            depth,
        };
        let stored = StoredPdu::new(VersionedPdu::V4(pdu));
        let id = stored.event_id().to_owned();
        proof {
            assert(is_made_of(stored, room_id@, event, origin, now, timeline));
        }
        match self.add_pdu(stored) {
            Ok(()) => Ok(id),
            Err(e) => Err(e),
        }
    }

    /// Makes a user with the given password, hashed with a random salt of
    /// sixteen bytes: what [`Storage::create_user_with_salt`] does with
    /// that salt.
    fn create_user(&mut self, username: &str, password: &str) -> (r: Result<(), ErrorKind>)
        ensures
            exists|salt: Seq<u8>| #[trigger]
                old(self).state().user_created(
                    final(self).state(),
                    username@,
                    password.spec_bytes(),
                    salt,
                    r,
                ),
    {
        let salt = random_salt();
        let r = self.create_user_with_salt(username, password, salt.as_slice());
        assert(old(self).state().user_created(
            self.state(),
            username@,
            password.spec_bytes(),
            salt@,
            r,
        ));
        r
    }

    /// Makes a new random access token and binds it to `username`.
    fn create_access_token(&mut self, username: &str, _device_id: &str) -> (r: Result<
        u128,
        ErrorKind,
    >)
        ensures
            match r {
                Ok(token) => old(self).state().users.dom().contains(username@) && final(self).state()
                    == (StoreView {
                    access_tokens: old(self).state().access_tokens.insert(token, username@),
                    ..old(self).state()
                }),
                Err(e) => e@ == ErrorKindView::UserNotFound && !old(self).state().users.dom().contains(
                    username@,
                ) && final(self).state() == old(self).state(),
            },
    {
        let token = fresh_token();
        match self.bind_access_token(token, username) {
            Ok(()) => Ok(token),
            Err(e) => Err(e),
        }
    }

    /// Makes the users `alice`, `bob` and `carol`, one after another and
    /// each with a random salt, and stops at the first that cannot be made.
    /// Their password is the text of [`crate::storage::model::test_password`].
    fn create_test_users(&mut self) -> (r: Result<(), ErrorKind>)
        ensures
            exists|first: Seq<u8>, second: Seq<u8>, third: Seq<u8>| #[trigger]
                old(self).state().test_users_created(final(self).state(), first, second, third, r),
    {
        let password =
            "$argon2i$v=19$m=4096,t=3,p=1$c2FsdHNhbHQ$llvUdqp69y2RB629dCuG42kR5y+Occ/ziKV5kn3rSOM";
        let ghost bytes = password.spec_bytes();
        let ghost start = self.state();
        let made = self.create_user("alice", password);
        let ghost first = choose|salt: Seq<u8>|
            start.user_created(self.state(), "alice"@, bytes, salt, made);
        let ghost any = first;
        match made {
            Ok(()) => {},
            Err(e) => {
                assert(start.test_users_created(self.state(), first, any, any, Err(e)));
                return Err(e);
            },
        }
        let ghost one = self.state();
        let made = self.create_user("bob", password);
        let ghost second = choose|salt: Seq<u8>|
            one.user_created(self.state(), "bob"@, bytes, salt, made);
        match made {
            Ok(()) => {},
            Err(e) => {
                assert(start.test_users_created(self.state(), first, second, any, Err(e)));
                return Err(e);
            },
        }
        let ghost two = self.state();
        let made = self.create_user("carol", password);
        let ghost third = choose|salt: Seq<u8>|
            two.user_created(self.state(), "carol"@, bytes, salt, made);
        assert(start.test_users_created(self.state(), first, second, third, made));
        made
    }

    /// The state events of the current state of `room_id`, one for each type
    /// and state key.
    fn get_full_state<'a>(&'a self, room_id: &RoomId) -> (r: Result<
        Vec<&'a StoredPdu>,
        ErrorKind,
    >)
        ensures
            match r {
                Ok(list) => self.state().rooms.dom().contains(room_id@) && has_create(
                    current_state(self.state().timeline(room_id@)),
                ) && lists(referents(list@), current_state(self.state().timeline(room_id@))),
                Err(e) => if self.state().rooms.dom().contains(room_id@) {
                    e@ == ErrorKindView::Unknown(no_create_message()) && !has_create(
                        current_state(self.state().timeline(room_id@)),
                    )
                } else {
                    e@ == ErrorKindView::RoomNotFound
                },
            },
    {
        match self.get_state(room_id) {
            Ok(state) => Ok(state.events()),
            Err(e) => Err(e),
        }
    }

    /// The number of users who have joined `room_id`, and the number of
    /// those who are invited to it.
    fn get_room_member_counts(&self, room_id: &RoomId) -> (r: Result<(usize, usize), ErrorKind>)
        ensures
            match r {
                Ok((joined, invited)) => {
                    let state = current_state(self.state().timeline(room_id@));
                    &&& self.state().rooms.dom().contains(room_id@)
                    &&& has_create(state)
                    &&& joined == members_with(state, Membership::Join).len()
                    &&& invited == members_with(state, Membership::Invite).len()
                },
                Err(e) => if self.state().rooms.dom().contains(room_id@) {
                    e@ == ErrorKindView::Unknown(no_create_message()) && !has_create(
                        current_state(self.state().timeline(room_id@)),
                    )
                } else {
                    e@ == ErrorKindView::RoomNotFound
                },
            },
    {
        match self.get_state(room_id) {
            Ok(state) => Ok(
                (state.count_members(Membership::Join), state.count_members(Membership::Invite)),
            ),
            Err(e) => Err(e),
        }
    }

    /// The first event of `room_id` with the identifier `event_id`.
    fn find_pdu<'a>(&'a self, room_id: &RoomId, event_id: &str) -> (r: Option<&'a StoredPdu>)
        ensures
            match r {
                Some(e) => event_with_id(self.state().timeline(room_id@), event_id@) == Some(*e),
                None => event_with_id(self.state().timeline(room_id@), event_id@) is None,
            },
    {
        let found = self.get_pdu(room_id, event_id);
        proof {
            let timeline = self.state().timeline(room_id@);
            match found {
                Some(e) => {
                    let i = choose|i: int|
                        0 <= i < timeline.len() && timeline[i] == *e && e.id() == event_id@
                            && forall|j: int| 0 <= j < i ==> (#[trigger] timeline[j]).id() != event_id@;
                    assert(is_first_with_id(timeline, event_id@, i));
                    let c = choose|c: int| is_first_with_id(timeline, event_id@, c);
                    assert(is_first_with_id(timeline, event_id@, c));
                    if c < i {
                        assert(timeline[c].id() != event_id@);
                    }
                    if i < c {
                        assert(timeline[i].id() != event_id@);
                    }
                },
                None => {
                    assert forall|i: int| !is_first_with_id(timeline, event_id@, i) by {
                        if is_first_with_id(timeline, event_id@, i) {
                            assert(timeline[i].id() != event_id@);
                        }
                    }
                },
            }
        }
        found
    }

    /// The power level that the sender of the event `event_id` had when the
    /// event was made, by the events that authorize it.
    ///
    /// Fails with `NotFound` if the event or one of the events that
    /// authorize it is not in the room.
    #[verifier::loop_isolation(false)]
    fn get_sender_power_level(&self, room_id: &RoomId, event_id: &str) -> (r: Result<
        u32,
        ErrorKind,
    >)
        ensures
            match event_with_id(self.state().timeline(room_id@), event_id@) {
                None => fails_with(r, ErrorKindView::NotFound),
                Some(e) => match level_by_auth(
                    self.state().timeline(room_id@),
                    texts(e.pdu().v4().auth_events@),
                    e.pdu().v4().sender@,
                    0,
                    None,
                ) {
                    Ok(level) => r == Ok::<u32, ErrorKind>(level),
                    Err(e) => fails_with(r, e),
                },
            },
    {
        let event = match self.find_pdu(room_id, event_id) {
            Some(event) => event,
            None => {
                return Err(ErrorKind::NotFound);
            },
        };
        let ghost timeline = self.state().timeline(room_id@);
        let ghost auth = texts(event.pdu().v4().auth_events@);
        let ghost sender = event.pdu().v4().sender@;
        let auth_events = event.inner().auth_events();
        let mut creator: Option<&MatrixId> = None;
        let mut i: usize = 0;
        while i < auth_events.len()
            invariant
                i <= auth_events.len(),
                level_by_auth(
                    timeline,
                    auth,
                    sender,
                    i as int,
                    match creator {
                        Some(c) => Some(c@),
                        None => None,
                    },
                ) == level_by_auth(timeline, auth, sender, 0, None),
            decreases auth_events.len() - i,
        {
            assert(auth[i as int] == auth_events@[i as int]@);
            let auth_event = match self.find_pdu(room_id, auth_events[i].as_str()) {
                Some(found) => found,
                None => {
                    return Err(ErrorKind::NotFound);
                },
            };
            match auth_event.event_content() {
                EventContent::PowerLevels(levels) => {
                    return Ok(levels.get_user_level(event.inner().sender()));
                },
                EventContent::Create(create) => {
                    creator = Some(&create.creator);
                },
                _ => {},
            }
            i += 1;
        }
        // at this point there is no power levels event
        match creator {
            Some(c) => {
                if c.same(event.inner().sender()) {
                    Ok(100)
                } else {
                    Ok(0)
                }
            },
            None => Err(ErrorKind::Unknown("event has no create in auth".to_owned())),
        }
    }

    /// Makes the room `room_id`: appends its create event and the event by
    /// which `creator` joins it, and returns the identifier of the create
    /// event. A room that exists is not made again.
    fn create_room(&mut self, room_id: &RoomId, creator: MatrixId, origin: Domain, now: i64) -> (r:
        Result<String, ErrorKind>)
        ensures
            if old(self).state().rooms.dom().contains(room_id@) {
                fails_with(
                    r,
                    ErrorKindView::AddEvent(
                        AddEventErrorView::InvalidEvent(crate::validate::second_create_message()),
                    ),
                ) && final(self).state() == old(self).state()
            } else {
                r matches Ok(id) && exists|create: StoredPdu, join: StoredPdu|
                    #![trigger create.id(), join.id()]
                    is_create_of(create, room_id@, creator, origin, now) && is_first_join_of(
                        join,
                        room_id@,
                        creator,
                        origin,
                        now,
                        create.id(),
                    ) && id@ == create.id() && old(self).state().after_adding_all(seq![create, join])
                        == Ok::<StoreView, StoreView>(final(self).state())
            },
    {
        if self.timeline_of(room_id).is_some() {
            return Err(
                ErrorKind::AddEvent(
                    AddEventError::InvalidEvent("a room has exactly one create event".to_owned()),
                ),
            );
        }
        let create = create_event(room_id, &creator, &origin, now);
        let id = create.event_id().to_owned();
        let join = first_join_event(room_id, &creator, &origin, now, id.as_str());
        proof {
            lemma_adding_two(self.state(), create, join);
        }
        let _ = self.add_pdu(create);
        let _ = self.add_pdu(join);
        Ok(id)
    }
}

} // verus!
