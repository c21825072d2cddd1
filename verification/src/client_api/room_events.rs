//! Reading and sending the events of a room.

use vstd::prelude::*;
use crate::storage::Storage;
use crate::error::{fails_with, ErrorKind, ErrorKindView};
use crate::events::pdu::{referents, StoredPdu};
use crate::events::room::Membership;
use crate::events::{opt_text, Event, EventContent};
use crate::state::{has_create, is_state, no_create_message, slot, Slot};
use crate::storage::model::{current_state, is_made_of, StoreView};
use crate::storage::{lemma_picked_none, EventQuery, QueryOutcome, QueryType};
use crate::sync::membership_at;
use crate::util::domain::Domain;
use crate::util::mxid::{IdParts, MatrixId, RoomId};
use crate::util::storage::{AddEventErrorView, NewEvent};
use crate::util::text::{decimal, parse_decimal};
use crate::validate::verdict;

verus! {

/// How a sync changes the presence of its caller.
#[derive(Clone, Copy, Debug, PartialEq, Eq, Structural)]
pub enum SetPresence {
    Offline,
    Online,
    Unavailable,
}

/// The presence that a sync sets where the request names none.
pub fn default_set_presence() -> (p: SetPresence)
    ensures
        p == SetPresence::Online,
{
    SetPresence::Online
}

/// What a sync request carries.
#[derive(Clone, Debug)]
pub struct SyncRequest {
    pub filter: Option<String>,
    pub since: Option<String>,
    pub full_state: bool,
    pub set_presence: SetPresence,
    pub timeout: u32,
}

/// The order in which messages are asked for.
#[derive(Clone, Copy, Debug, PartialEq, Eq, Hash, Structural)]
pub enum MessageOrdering {
    Forward,
    Backward,
}

impl Default for MessageOrdering {
    fn default() -> (o: Self)
        ensures
            o == MessageOrdering::Forward,
    {
        MessageOrdering::Forward
    }
}

#[derive(Clone, Debug)]
pub struct MessagesParams {
    pub from: Option<String>,
    pub filter: Option<serde_json::Value>,
    pub limit: Option<i32>,
    pub to: Option<String>,
    pub dir: MessageOrdering,
}

#[derive(Clone, Debug)]
pub struct MessagesResponse {
    pub chunk: Vec<Event>,
    pub start: String,
}

#[derive(Clone, Debug)]
pub struct MembersRequest {
    pub at: String,
    pub membership: Option<Membership>,
    pub not_membership: Option<Membership>,
}

#[derive(Clone, Debug)]
pub struct MembersResponse {
    pub chunk: Vec<Event>,
}

#[derive(Clone, Debug)]
pub struct SendEventResponse {
    pub event_id: String,
}

/// The position that a `from` parameter names: the number it writes, or 0
/// where it writes none or there is no parameter.
pub open spec fn position_named(from: Option<Seq<char>>) -> usize {
    match from {
        Some(text) => match decimal(text, usize::MAX as nat) {
            Some(n) => n as usize,
            None => 0,
        },
        None => 0,
    }
}

/// The events of `timeline` from position `from` on, none where the
/// timeline is shorter.
pub open spec fn events_from(timeline: Seq<StoredPdu>, from: usize) -> Seq<StoredPdu> {
    if from <= timeline.len() {
        timeline.skip(from as int)
    } else {
        Seq::empty()
    }
}

/// The token that stands for the start of a list of messages: the state key
/// of the first of them, or `empty`.
pub open spec fn start_token(found: Seq<StoredPdu>) -> Seq<char> {
    if found.len() > 0 && found[0].pdu().v4().state_key is Some {
        found[0].pdu().v4().state_key->Some_0@
    } else {
        "empty"@
    }
}

/// The events of `room_id` from the position that `params.from` names, in
/// the order that `params.dir` asks for, and the token of their start.
pub fn messages<'a, S: Storage>(store: &'a S, room_id: &RoomId, params: &MessagesParams) -> (r: Result<
    (Vec<&'a StoredPdu>, String),
    ErrorKind,
>)
    ensures
        match r {
            Ok((chunk, start)) => {
                let found = events_from(
                    store.state().timeline(room_id@),
                    position_named(opt_text(params.from)),
                );
                &&& store.state().rooms.dom().contains(room_id@)
                &&& referents(chunk@) == if params.dir == MessageOrdering::Backward {
                    found.reverse()
                } else {
                    found
                }
                &&& start@ == start_token(found)
            },
            Err(e) => e@ == ErrorKindView::RoomNotFound && !store.state().rooms.dom().contains(room_id@),
        },
{
    let from = match &params.from {
        Some(text) => match parse_decimal(text.as_str()) {
            Some(n) => n,
            None => 0,
        },
        None => 0,
    };
    let none: Vec<MatrixId> = Vec::new();
    let no_kinds: Vec<String> = Vec::new();
    let query = EventQuery {
        room_id,
        query_type: QueryType::Timeline { from, to: None },
        senders: none.as_slice(),
        not_senders: none.as_slice(),
        types: no_kinds.as_slice(),
        not_types: no_kinds.as_slice(),
    };
    let found = match store.query_pdus(&query, false) {
        Ok(QueryOutcome::Ready(answer)) => answer.events,
        Ok(QueryOutcome::Wait { .. }) => Vec::new(),
        Err(e) => {
            return Err(e);
        },
    };
    proof {
        let timeline = store.state().timeline(room_id@);
        if from <= timeline.len() {
            crate::storage::laws::lemma_query_from_cursor(query, timeline, from);
        } else {
            let keep = query.keeper(timeline);
            assert forall|i: int| 0 <= i < timeline.len() implies !#[trigger] keep(i) by {}
            lemma_picked_none(keep, timeline.len() as int);
            assert(query.results(timeline) =~= Seq::<StoredPdu>::empty());
        }
    }
    let start = if found.len() > 0 {
        match found[0].inner().state_key() {
            Some(key) => key.to_owned(),
            None => "empty".to_owned(),
        }
    } else {
        "empty".to_owned()
    };
    if params.dir == MessageOrdering::Backward {
        let mut reversed: Vec<&'a StoredPdu> = Vec::new();
        let mut i: usize = found.len();
        while i > 0
            invariant
                i <= found.len(),
                reversed@.len() == found.len() - i,
                forall|k: int|
                    0 <= k < reversed@.len() ==> reversed@[k] == found@[found.len() - 1 - k],
            decreases i,
        {
            i -= 1;
            reversed.push(found[i]);
        }
        assert(referents(reversed@) =~= referents(found@).reverse());
        Ok((reversed, start))
    } else {
        Ok((found, start))
    }
}

/// What reading from a room ends in for a user who is not joined to it, or
/// `None` for one who is.
pub open spec fn reader_error(store: StoreView, user: IdParts, room: IdParts) -> Option<
    ErrorKindView,
> {
    if !store.rooms.dom().contains(room) {
        Some(ErrorKindView::RoomNotFound)
    } else if !has_create(current_state(store.timeline(room))) {
        Some(ErrorKindView::Unknown(no_create_message()))
    } else if membership_at(store, user, room) != Some(Membership::Join) {
        Some(ErrorKindView::Forbidden)
    } else {
        None
    }
}

fn check_reader<S: Storage>(store: &S, user: &MatrixId, room_id: &RoomId) -> (r: Result<
    (),
    ErrorKind,
>)
    ensures
        match reader_error(store.state(), user@, room_id@) {
            Some(e) => fails_with(r, e),
            None => r is Ok,
        },
{
    match store.get_membership(user, room_id) {
        Ok(Some(Membership::Join)) => Ok(()),
        Ok(_) => Err(ErrorKind::Forbidden),
        Err(e) => Err(e),
    }
}

/// The event `event_id` of `room_id`, for a user who has joined the room.
pub fn get_event<'a, S: Storage>(store: &'a S, user: &MatrixId, room_id: &RoomId, event_id: &str) -> (r:
    Result<&'a StoredPdu, ErrorKind>)
    ensures
        match reader_error(store.state(), user@, room_id@) {
            Some(e) => fails_with(r, e),
            None => {
                let timeline = store.state().timeline(room_id@);
                match r {
                    Ok(e) => exists|i: int|
                        0 <= i < timeline.len() && timeline[i] == *e && e.id() == event_id@
                            && forall|j: int| 0 <= j < i ==> (#[trigger] timeline[j]).id() != event_id@,
                    Err(e) => e@ == ErrorKindView::NotFound && forall|j: int|
                        0 <= j < timeline.len() ==> (#[trigger] timeline[j]).id() != event_id@,
                }
            },
        },
{
    match check_reader(store, user, room_id) {
        Ok(()) => {},
        Err(e) => {
            return Err(e);
        },
    }
    match store.get_pdu(room_id, event_id) {
        Some(pdu) => Ok(pdu),
        None => Err(ErrorKind::NotFound),
    }
}

/// The state event of type `kind` with state key `key` of `room_id`, for a
/// user who has joined the room.
pub fn get_state_event_inner<'a, S: Storage>(
    store: &'a S,
    user: &MatrixId,
    room_id: &RoomId,
    kind: &str,
    key: &str,
) -> (r: Result<&'a StoredPdu, ErrorKind>)
    ensures
        match reader_error(store.state(), user@, room_id@) {
            Some(e) => fails_with(r, e),
            None => {
                let state = current_state(store.state().timeline(room_id@));
                if state.dom().contains((kind@, key@)) {
                    r matches Ok(e) && *e == state[(kind@, key@)]
                } else {
                    fails_with(r, ErrorKindView::NotFound)
                }
            },
        },
{
    match check_reader(store, user, room_id) {
        Ok(()) => {},
        Err(e) => {
            return Err(e);
        },
    }
    match store.get_state_event(room_id, kind, key) {
        Ok(Some(event)) => Ok(event),
        Ok(None) => Err(ErrorKind::NotFound),
        Err(e) => Err(e),
    }
}

/// The state event of type `kind` with the empty state key.
pub fn get_state_event_no_key<'a, S: Storage>(
    store: &'a S,
    user: &MatrixId,
    room_id: &RoomId,
    kind: &str,
) -> (r: Result<&'a StoredPdu, ErrorKind>)
    ensures
        match reader_error(store.state(), user@, room_id@) {
            Some(e) => fails_with(r, e),
            None => {
                let state = current_state(store.state().timeline(room_id@));
                if state.dom().contains((kind@, Seq::<char>::empty())) {
                    r matches Ok(e) && *e == state[(kind@, Seq::<char>::empty())]
                } else {
                    fails_with(r, ErrorKindView::NotFound)
                }
            },
        },
{
    proof {
        reveal_strlit("");
        assert(""@ =~= Seq::<char>::empty());
    }
    get_state_event_inner(store, user, room_id, kind, "")
}

/// The state event of type `kind` with state key `key`.
pub fn get_state_event_key<'a, S: Storage>(
    store: &'a S,
    user: &MatrixId,
    room_id: &RoomId,
    kind: &str,
    key: &str,
) -> (r: Result<&'a StoredPdu, ErrorKind>)
    ensures
        match reader_error(store.state(), user@, room_id@) {
            Some(e) => fails_with(r, e),
            None => {
                let state = current_state(store.state().timeline(room_id@));
                if state.dom().contains((kind@, key@)) {
                    r matches Ok(e) && *e == state[(kind@, key@)]
                } else {
                    fails_with(r, ErrorKindView::NotFound)
                }
            },
        },
{
    get_state_event_inner(store, user, room_id, kind, key)
}

/// What reading the state of a room ends in for a user who may not, or
/// `None` for one who has joined the room. Reading as a user who left or
/// was invited is not supported.
pub open spec fn state_reader_error(store: StoreView, user: IdParts, room: IdParts) -> Option<
    ErrorKindView,
> {
    if !store.rooms.dom().contains(room) {
        Some(ErrorKindView::RoomNotFound)
    } else if !has_create(current_state(store.timeline(room))) {
        Some(ErrorKindView::Unknown(no_create_message()))
    } else {
        match membership_at(store, user, room) {
            Some(Membership::Join) => None,
            Some(_) => Some(ErrorKindView::Unimplemented),
            None => Some(ErrorKindView::Forbidden),
        }
    }
}

fn check_state_reader<S: Storage>(store: &S, user: &MatrixId, room_id: &RoomId) -> (r: Result<
    (),
    ErrorKind,
>)
    ensures
        match state_reader_error(store.state(), user@, room_id@) {
            Some(e) => fails_with(r, e),
            None => r is Ok,
        },
{
    match store.get_membership(user, room_id) {
        Ok(Some(Membership::Join)) => Ok(()),
        Ok(Some(_)) => Err(ErrorKind::Unimplemented),
        Ok(None) => Err(ErrorKind::Forbidden),
        Err(e) => Err(e),
    }
}

/// The current state of `room_id`, for a user who has joined the room.
pub fn get_state<'a, S: Storage>(store: &'a S, user: &MatrixId, room_id: &RoomId) -> (r: Result<
    Vec<&'a StoredPdu>,
    ErrorKind,
>)
    ensures
        match state_reader_error(store.state(), user@, room_id@) {
            Some(e) => fails_with(r, e),
            None => r matches Ok(list) && crate::state::lists(
                referents(list@),
                current_state(store.state().timeline(room_id@)),
            ),
        },
{
    match check_state_reader(store, user, room_id) {
        Ok(()) => {},
        Err(e) => {
            return Err(e);
        },
    }
    store.get_full_state(room_id)
}

/// Whether a member event passes the filters of a request for members.
pub open spec fn member_wanted(e: StoredPdu, membership: Option<Membership>, not_membership: Option<Membership>) -> bool {
    match e.pdu().v4().event_content {
        EventContent::Member(content) => (match membership {
            Some(wanted) => content.membership == wanted,
            None => true,
        }) && (match not_membership {
            Some(unwanted) => content.membership != unwanted,
            None => true,
        }),
        _ => false,
    }
}

/// Whether `list` holds the member events of `state` that pass the filters,
/// each once.
pub open spec fn lists_members(
    list: Seq<StoredPdu>,
    state: Map<Slot, StoredPdu>,
    membership: Option<Membership>,
    not_membership: Option<Membership>,
) -> bool {
    &&& forall|p: int|
        0 <= p < list.len() ==> member_wanted(#[trigger] list[p], membership, not_membership)
            && is_state(list[p]) && state.dom().contains(slot(list[p])) && state[slot(list[p])]
            == list[p]
    &&& forall|k: Slot|
        state.dom().contains(k) && member_wanted(#[trigger] state[k], membership, not_membership)
            ==> exists|p: int| 0 <= p < list.len() && #[trigger] list[p] == state[k]
    &&& forall|p: int, q: int|
        0 <= p < list.len() && 0 <= q < list.len() && slot(#[trigger] list[p]) == slot(
            #[trigger] list[q],
        ) ==> p == q
}

/// The member events of the current state of `room_id` that have the
/// membership `req.membership`, if it is set, and do not have the
/// membership `req.not_membership`, if that is set.
#[verifier::loop_isolation(false)]
pub fn get_members<'a, S: Storage>(store: &'a S, user: &MatrixId, room_id: &RoomId, req: &MembersRequest) -> (r:
    Result<Vec<&'a StoredPdu>, ErrorKind>)
    ensures
        match state_reader_error(store.state(), user@, room_id@) {
            Some(e) => fails_with(r, e),
            None => r matches Ok(list) && lists_members(
                referents(list@),
                current_state(store.state().timeline(room_id@)),
                req.membership,
                req.not_membership,
            ),
        },
{
    match check_state_reader(store, user, room_id) {
        Ok(()) => {},
        Err(e) => {
            return Err(e);
        },
    }
    let state = match store.get_full_state(room_id) {
        Ok(state) => state,
        Err(e) => {
            return Err(e);
        },
    };
    let ghost all = referents(state@);
    let ghost want = current_state(store.state().timeline(room_id@));
    let mut members: Vec<&'a StoredPdu> = Vec::new();
    let ghost mut at: Seq<int> = Seq::empty();
    let mut i: usize = 0;
    while i < state.len()
        invariant
            i <= state.len(),
            at.len() == members@.len(),
            forall|k: int|
                0 <= k < at.len() ==> 0 <= (#[trigger] at[k]) < i && *members@[k] == all[at[k]]
                    && member_wanted(all[at[k]], req.membership, req.not_membership),
            forall|k: int, l: int| 0 <= k < l < at.len() ==> at[k] < at[l],
            forall|j: int|
                0 <= j < i && member_wanted(#[trigger] all[j], req.membership, req.not_membership)
                    ==> exists|k: int| 0 <= k < at.len() && #[trigger] at[k] == j,
        decreases state.len() - i,
    {
        let event = state[i];
        assert(*event == all[i as int]);
        let keep = match event.event_content() {
            EventContent::Member(content) => (match req.membership {
                Some(wanted) => content.membership == wanted,
                None => true,
            }) && (match req.not_membership {
                Some(unwanted) => content.membership != unwanted,
                None => true,
            }),
            _ => false,
        };
        if keep {
            members.push(event);
            proof {
                let old_at = at;
                at = at.push(i as int);
                assert forall|j: int|
                    0 <= j < i + 1 && member_wanted(
                        #[trigger] all[j],
                        req.membership,
                        req.not_membership,
                    ) implies exists|k: int| 0 <= k < at.len() && #[trigger] at[k] == j by {
                    if j < i {
                        let k = choose|k: int| 0 <= k < old_at.len() && #[trigger] old_at[k] == j;
                        assert(at[k] == j);
                    } else {
                        assert(at[old_at.len() as int] == j);
                    }
                }
            }
        }
        i += 1;
    }
    proof {
        let list = referents(members@);
        assert forall|p: int| 0 <= p < list.len() implies member_wanted(
            #[trigger] list[p],
            req.membership,
            req.not_membership,
        ) && is_state(list[p]) && want.dom().contains(slot(list[p])) && want[slot(list[p])]
            == list[p] by {
            assert(list[p] == all[at[p]]);
        }
        assert forall|k: Slot|
            want.dom().contains(k) && member_wanted(
                #[trigger] want[k],
                req.membership,
                req.not_membership,
            ) implies exists|p: int| 0 <= p < list.len() && #[trigger] list[p] == want[k] by {
            let j = choose|j: int| 0 <= j < all.len() && #[trigger] all[j] == want[k];
            assert(member_wanted(all[j], req.membership, req.not_membership));
            let p = choose|p: int| 0 <= p < at.len() && #[trigger] at[p] == j;
            assert(list[p] == want[k]);
        }
        assert forall|p: int, q: int|
            0 <= p < list.len() && 0 <= q < list.len() && slot(#[trigger] list[p]) == slot(
                #[trigger] list[q],
            ) implies p == q by {
            assert(list[p] == all[at[p]]);
            assert(list[q] == all[at[q]]);
            assert(at[p] == at[q]);
            if p < q {
                assert(at[p] < at[q]);
            }
            if q < p {
                assert(at[q] < at[p]);
            }
        }
    }
    Ok(members)
}

/// Adds a state event of `sender` to `room_id` and returns its identifier.
pub fn send_state_event<S: Storage>(
    store: &mut S,
    sender: MatrixId,
    room_id: &RoomId,
    event_content: EventContent,
    state_key: String,
    origin: Domain,
    now: i64,
) -> (r: Result<SendEventResponse, ErrorKind>)
    ensures
        !old(store).state().rooms.dom().contains(room_id@) ==> fails_with(
            r,
            ErrorKindView::AddEvent(AddEventErrorView::RoomNotFound),
        ) && final(store).state() == old(store).state(),
        old(store).state().rooms.dom().contains(room_id@) ==> ({
            let event = NewEvent {
                event_content,
                sender,
                state_key: Some(state_key),
                redacts: None,
                unsigned: None,
            };
            let timeline = old(store).state().rooms[room_id@].timeline;
            let state = current_state(timeline);
            if !has_create(state) {
                fails_with(r, ErrorKindView::Unknown(no_create_message())) && final(store).state()
                    == old(store).state()
            } else {
                match verdict(event, state) {
                    Some(e) => fails_with(r, e) && final(store).state() == old(store).state(),
                    None => r matches Ok(response) && exists|pdu: StoredPdu|
                        #![trigger pdu.id()]
                        is_made_of(pdu, room_id@, event, origin, now, timeline)
                            && response.event_id@ == pdu.id() && Some(final(store).state()) == old(store).state().after_adding(pdu),
                }
            }
        }),
{
    let event = NewEvent {
        event_content,
        sender,
        state_key: Some(state_key),
        redacts: None,
        unsigned: None,
    };
    match store.add_event(room_id, event, origin, now) {
        Ok(event_id) => Ok(SendEventResponse { event_id }),
        Err(e) => Err(e),
    }
}

/// The store after the transaction `txn_id` was recorded under `token` and
/// `sender` stopped typing in `room`.
pub open spec fn ready_to_send(store: StoreView, token: u128, txn_id: Seq<char>, sender: IdParts, room: IdParts) -> StoreView {
    let recorded = StoreView {
        txn_ids: store.txn_ids.insert(token, store.transactions(token).insert(txn_id)),
        ..store
    };
    if store.rooms.dom().contains(room) {
        StoreView {
            rooms: store.rooms.insert(room, store.rooms[room].with_typing(sender, false, 0, 0)),
            ..recorded
        }
    } else {
        recorded
    }
}

/// Adds an event of `sender` that is no state event to `room_id`, once for
/// each transaction: a transaction that was recorded under `token` before is
/// refused. Whoever sends stops typing.
pub fn send_event<S: Storage>(
    store: &mut S,
    token: u128,
    sender: MatrixId,
    room_id: &RoomId,
    event_content: EventContent,
    txn_id: String,
    unsigned: Option<serde_json::Value>,
    origin: Domain,
    now: i64,
) -> (r: Result<SendEventResponse, ErrorKind>)
    ensures
        old(store).state().transactions(token).contains(txn_id@) ==> fails_with(
            r,
            ErrorKindView::TxnIdExists,
        ) && final(store).state() == old(store).state(),
        !old(store).state().transactions(token).contains(txn_id@) ==> ({
            let ready = ready_to_send(old(store).state(), token, txn_id@, sender@, room_id@);
            if !old(store).state().rooms.dom().contains(room_id@) {
                fails_with(r, ErrorKindView::RoomNotFound) && final(store).state() == ready
            } else {
                let event = NewEvent {
                    event_content,
                    sender,
                    state_key: None,
                    redacts: None,
                    unsigned,
                };
                let timeline = ready.rooms[room_id@].timeline;
                let state = current_state(timeline);
                if !has_create(state) {
                    fails_with(r, ErrorKindView::Unknown(no_create_message())) && final(store).state()
                        == ready
                } else {
                    match verdict(event, state) {
                        Some(e) => fails_with(r, e) && final(store).state() == ready,
                        None => r matches Ok(response) && exists|pdu: StoredPdu|
                            #![trigger pdu.id()]
                            is_made_of(pdu, room_id@, event, origin, now, timeline)
                                && response.event_id@ == pdu.id() && Some(final(store).state())
                                == ready.after_adding(pdu),
                    }
                }
            }
        }),
{
    let ghost before = store.state();
    if !store.record_txn(token, txn_id) {
        proof {
            let known = before.transactions(token);
            assert(known.insert(txn_id@) =~= known);
            assert(before.txn_ids.dom().contains(token));
            assert(before.txn_ids.insert(token, known) =~= before.txn_ids);
        }
        return Err(ErrorKind::TxnIdExists);
    }
    match store.set_typing(room_id, &sender, false, 0, 0) {
        Ok(()) => {},
        Err(e) => {
            return Err(e);
        },
    }
    let event = NewEvent { event_content, sender, state_key: None, redacts: None, unsigned };
    match store.add_event(room_id, event, origin, now) {
        Ok(event_id) => Ok(SendEventResponse { event_id }),
        Err(e) => Err(e),
    }
}

} // verus!
