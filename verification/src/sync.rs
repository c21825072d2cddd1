//! The decisions of the long-poll sync protocol.
//!
//! A sync call is answered in two steps. [`begin_sync`] works out, under the
//! lock that guards the store, what is new for the caller since their
//! cursor, and says what to do: respond at once, sleep, or wait for one of
//! the joined rooms to change. After a wait, [`finish_sync`] takes up the
//! room that changed, or nothing if the time ran out, and stores the cursor.
//!
//! A waiter learns of a change by the revision of the room, which every
//! write to the room changes. The revisions in the plan are those that the
//! rooms had when the plan was made, so a write that comes after the plan is
//! never missed.

use vstd::prelude::*;
use crate::storage::Storage;
use crate::error::{ErrorKind, ErrorKindView};
use crate::events::room::Membership;
use crate::state::{has_create, no_create_message};
use crate::storage::model::{current_state, StoreView};
use crate::storage::{Batch, BatchView};
use crate::util::mxid::{IdParts, MatrixId, RoomId};
use crate::util::random::random_u64;
use crate::util::table::Key;
use crate::util::text::{hex_lower_short, hex_lower_short_chars, string_from_chars};
use crate::validate::{membership_in, membership_of};

verus! {

/// What is new in one joined room: the events at the positions `from..to`
/// of its timeline, and the whole state if `full_state` is set.
#[derive(Debug)]
pub struct RoomUpdate {
    pub room_id: RoomId,
    pub from: usize,
    pub to: usize,
    pub full_state: bool,
    /// The revision of the room when the update was made.
    pub revision: u64,
}

/// What the caller of a sync is to do next.
#[derive(Clone, Copy, Debug, PartialEq, Eq, Structural)]
pub enum SyncAction {
    /// Respond with the plan as it is.
    Respond,
    /// The user is in no room: wait for the timeout, then respond.
    Sleep,
    /// Nothing is new: wait until the timeout has passed or one of the
    /// joined rooms has a revision other than that in the plan, then
    /// finish the sync.
    Wait,
}

/// The outcome of the first step of a sync.
#[derive(Debug)]
pub struct SyncPlan {
    /// The token of the cursor that the response hands out.
    pub next_batch: String,
    /// The joined rooms.
    pub join: Vec<RoomUpdate>,
    /// The rooms whose invite is delivered with this response.
    pub invite: Vec<RoomId>,
    /// What to do next.
    pub action: SyncAction,
    /// How long to sleep or wait at most, in milliseconds.
    pub timeout: u32,
    /// The cursor that is still to be stored, where the action is `Wait`.
    pub batch: Option<Batch>,
}

/// The token under which a sync without a cursor finds its progress.
pub open spec fn since_key(since: Option<Seq<char>>) -> Seq<char> {
    match since {
        Some(token) => token,
        None => "empty"@,
    }
}

/// The progress of a session that has been sent nothing yet.
pub open spec fn no_progress() -> BatchView {
    BatchView { rooms: Map::empty(), invites: Set::empty() }
}

/// The cursor that a sync starts from: the one stored under `since`, or no
/// progress where none is stored.
pub open spec fn starting_batch(store: StoreView, since: Option<Seq<char>>) -> BatchView {
    if store.batches.dom().contains(since_key(since)) {
        store.batches[since_key(since)]
    } else {
        no_progress()
    }
}

/// The position from which the events of `room` are still to be delivered.
pub open spec fn cursor(batch: BatchView, room: IdParts) -> usize {
    if batch.rooms.dom().contains(room) {
        batch.rooms[room]
    } else {
        0
    }
}

/// The membership of `user` in `room` by the room's current state.
pub open spec fn membership_at(store: StoreView, user: IdParts, room: IdParts) -> Option<
    Membership,
> {
    membership_in(current_state(store.timeline(room)), user)
}

/// Whether `user` has joined `room`.
pub open spec fn is_joined(store: StoreView, user: IdParts, room: IdParts) -> bool {
    store.rooms.dom().contains(room) && membership_at(store, user, room) == Some(Membership::Join)
}

/// Whether `user` is invited to `room`.
pub open spec fn is_invited(store: StoreView, user: IdParts, room: IdParts) -> bool {
    store.rooms.dom().contains(room) && membership_at(store, user, room) == Some(
        Membership::Invite,
    )
}

/// Whether the state of every room can be resolved.
pub open spec fn all_resolve(store: StoreView) -> bool {
    forall|room: IdParts| #[trigger]
        store.rooms.dom().contains(room) ==> has_create(current_state(store.timeline(room)))
}

/// Whether a joined room has something for the caller: events past the
/// cursor, or its state where the full state is asked for.
pub open spec fn has_news(store: StoreView, user: IdParts, batch: BatchView, full_state: bool) -> bool {
    exists|room: IdParts|
        #![trigger is_joined(store, user, room)]
        is_joined(store, user, room) && (full_state || cursor(batch, room) < store.timeline(
            room,
        ).len())
}

/// The cursor after a sync: every joined room is read to the end of its
/// timeline and is no longer an invite, and every room the user is invited
/// to counts as delivered.
pub open spec fn advanced(store: StoreView, user: IdParts, batch: BatchView) -> BatchView {
    BatchView {
        rooms: Map::new(
            |r: IdParts| batch.rooms.dom().contains(r) || is_joined(store, user, r),
            |r: IdParts|
                if is_joined(store, user, r) {
                    store.timeline(r).len() as usize
                } else {
                    batch.rooms[r]
                },
        ),
        invites: Set::new(
            |r: IdParts|
                !is_joined(store, user, r) && (batch.invites.contains(r) || is_invited(
                    store,
                    user,
                    r,
                )),
        ),
    }
}

/// Whether `update` is what is new for the caller in a joined room.
pub open spec fn is_update_of(
    update: RoomUpdate,
    store: StoreView,
    user: IdParts,
    batch: BatchView,
    full_state: bool,
) -> bool {
    let room = update.room_id@;
    &&& is_joined(store, user, room)
    &&& update.from == cursor(batch, room)
    &&& update.to == store.timeline(room).len()
    &&& update.full_state == full_state
    &&& update.revision == store.rooms[room].revision
}

/// Whether `join` holds one update for each joined room and nothing else.
pub open spec fn covers_joined(
    join: Seq<RoomUpdate>,
    store: StoreView,
    user: IdParts,
    batch: BatchView,
    full_state: bool,
) -> bool {
    &&& forall|k: int|
        0 <= k < join.len() ==> is_update_of(#[trigger] join[k], store, user, batch, full_state)
    &&& forall|k: int, l: int|
        0 <= k < l < join.len() ==> (#[trigger] join[k]).room_id@ != (#[trigger] join[l]).room_id@
    &&& forall|room: IdParts|
        #![trigger is_joined(store, user, room)]
        is_joined(store, user, room) ==> exists|k: int|
            0 <= k < join.len() && (#[trigger] join[k]).room_id@ == room
}

/// Whether `invite` holds each room whose invite is still to be delivered,
/// once, and nothing else.
pub open spec fn covers_invited(
    invite: Seq<RoomId>,
    store: StoreView,
    user: IdParts,
    batch: BatchView,
) -> bool {
    &&& forall|k: int|
        0 <= k < invite.len() ==> is_invited(store, user, (#[trigger] invite[k])@)
            && !batch.invites.contains(invite[k]@)
    &&& forall|k: int, l: int|
        0 <= k < l < invite.len() ==> (#[trigger] invite[k])@ != (#[trigger] invite[l])@
    &&& forall|room: IdParts|
        #![trigger is_invited(store, user, room)]
        is_invited(store, user, room) && !batch.invites.contains(room) ==> exists|k: int|
            0 <= k < invite.len() && (#[trigger] invite[k])@ == room
}

/// Whether `room` is among the first `i` of `ids`.
pub open spec fn seen(ids: Seq<RoomId>, i: int, room: IdParts) -> bool {
    exists|j: int| 0 <= j < i && (#[trigger] ids[j])@ == room
}

/// The cursor after the first `i` rooms of `ids` have been looked at.
pub open spec fn advanced_upto(
    store: StoreView,
    user: IdParts,
    batch: BatchView,
    ids: Seq<RoomId>,
    i: int,
) -> BatchView {
    BatchView {
        rooms: Map::new(
            |r: IdParts| batch.rooms.dom().contains(r) || (seen(ids, i, r) && is_joined(store, user, r)),
            |r: IdParts|
                if seen(ids, i, r) && is_joined(store, user, r) {
                    store.timeline(r).len() as usize
                } else {
                    batch.rooms[r]
                },
        ),
        invites: Set::new(
            |r: IdParts|
                !(seen(ids, i, r) && is_joined(store, user, r)) && (batch.invites.contains(r) || (
                seen(ids, i, r) && is_invited(store, user, r))),
        ),
    }
}

/// The first step of a sync for `user`: works out what is new since the
/// cursor `since` and what to do next. `next_batch` is the token of the
/// cursor that the response hands out.
///
/// Fails, and changes nothing, if the state of a room cannot be resolved.
/// Otherwise the plan holds an update for each joined room and each invite
/// that was not delivered yet. If a joined room has something new, the
/// action is `Respond`; if the user has joined no room, it is `Sleep`; in
/// both cases the advanced cursor is stored under `next_batch`. Otherwise
/// the action is `Wait`, the store is unchanged and the plan keeps the
/// advanced cursor.
#[verifier::loop_isolation(false)]
#[verifier::rlimit(60)]
pub fn begin_sync<S: Storage>(
    store: &mut S,
    user: &MatrixId,
    since: Option<&str>,
    full_state: bool,
    timeout: u32,
    next_batch: String,
) -> (r: Result<SyncPlan, ErrorKind>)
    ensures
        r is Ok <==> all_resolve(old(store).state()),
        r matches Err(e) ==> e@ == ErrorKindView::Unknown(no_create_message()) && final(store).state()
            == old(store).state(),
        r matches Ok(plan) ==> ({
            let before = old(store).state();
            let start = starting_batch(before, crate::events::opt_str_text(since));
            let after = advanced(before, user@, start);
            &&& plan.next_batch == next_batch
            &&& plan.timeout == timeout
            &&& covers_joined(plan.join@, before, user@, start, full_state)
            &&& covers_invited(plan.invite@, before, user@, start)
            &&& plan.action == if has_news(before, user@, start, full_state) {
                SyncAction::Respond
            } else if plan.join@.len() == 0 {
                SyncAction::Sleep
            } else {
                SyncAction::Wait
            }
            &&& match plan.batch {
                Some(batch) => plan.action == SyncAction::Wait && batch@ == after && final(store).state()
                    == before,
                None => plan.action != SyncAction::Wait && final(store).state() == (StoreView {
                    batches: before.batches.insert(next_batch@, after),
                    ..before
                }),
            }
        }),
{
    let ghost before = store.state();
    let ghost start = starting_batch(before, crate::events::opt_str_text(since));
    let ghost who = user@;
    let key = match since {
        Some(token) => token,
        None => "empty",
    };
    let mut batch = match store.get_batch(key) {
        Some(found) => found.duplicate(),
        None => Batch::new(),
    };
    assert(batch@.rooms =~= start.rooms);
    assert(batch@.invites =~= start.invites);
    let ids = store.get_rooms();
    let n = ids.len();
    let mut join: Vec<RoomUpdate> = Vec::new();
    let mut invite: Vec<RoomId> = Vec::new();
    let mut news = false;
    let mut i: usize = 0;
    assert(batch@.rooms =~= advanced_upto(before, who, start, ids@, 0).rooms);
    assert(batch@.invites =~= advanced_upto(before, who, start, ids@, 0).invites);
    while i < n
        invariant
            i <= n,
            n == ids@.len(),
            store.state() == before,
            batch@ == advanced_upto(before, who, start, ids@, i as int),
            forall|j: int| 0 <= j < i ==> has_create(
                current_state(before.timeline((#[trigger] ids@[j])@)),
            ),
            forall|k: int|
                0 <= k < join@.len() ==> is_update_of(
                    #[trigger] join@[k],
                    before,
                    who,
                    start,
                    full_state,
                ) && seen(ids@, i as int, join@[k].room_id@),
            forall|k: int, l: int|
                0 <= k < l < join@.len() ==> (#[trigger] join@[k]).room_id@ != (
                #[trigger] join@[l]).room_id@,
            forall|j: int|
                0 <= j < i && is_joined(before, who, (#[trigger] ids@[j])@) ==> exists|k: int|
                    0 <= k < join@.len() && (#[trigger] join@[k]).room_id@ == ids@[j]@,
            forall|k: int|
                0 <= k < invite@.len() ==> is_invited(before, who, (#[trigger] invite@[k])@)
                    && !start.invites.contains(invite@[k]@) && seen(ids@, i as int, invite@[k]@),
            forall|k: int, l: int|
                0 <= k < l < invite@.len() ==> (#[trigger] invite@[k])@ != (
                #[trigger] invite@[l])@,
            forall|j: int|
                0 <= j < i && is_invited(before, who, (#[trigger] ids@[j])@)
                    && !start.invites.contains(ids@[j]@) ==> exists|k: int|
                    0 <= k < invite@.len() && (#[trigger] invite@[k])@ == ids@[j]@,
            news == exists|j: int|
                0 <= j < i && is_joined(before, who, (#[trigger] ids@[j])@) && (full_state
                    || cursor(start, ids@[j]@) < before.timeline(ids@[j]@).len()),
        decreases n - i,
    {
        let room_id = &ids[i];
        let ghost rid = room_id@;
        let ghost old_news = news;
        let ghost old_join = join@;
        let ghost old_invite = invite@;
        proof {
            assert(before.rooms.dom().contains(rid)) by {
                assert(store.room_order()[i as int] == rid);
                assert(store.room_order().contains(rid));
            }
            assert(!seen(ids@, i as int, rid)) by {
                if seen(ids@, i as int, rid) {
                    let j = choose|j: int| 0 <= j < i && (#[trigger] ids@[j])@ == rid;
                    assert(store.room_order()[j] == store.room_order()[i as int]);
                }
            }
        }
        let membership = {
            let state = match store.get_state(room_id) {
                Ok(state) => state,
                Err(e) => {
                    return Err(e);
                },
            };
            membership_of(&state, user)
        };
        assert(membership == membership_at(before, who, rid));
        match membership {
            Some(Membership::Join) => {
                let _ = batch.invites.remove(room_id);
                let from = batch.position(room_id);
                let to = match store.timeline_of(room_id) {
                    Some(events) => events.len(),
                    None => 0,
                };
                let revision = match store.room_revision(room_id) {
                    Some(revision) => revision,
                    None => 0,
                };
                let _ = batch.rooms.insert(room_id.duplicate(), to);
                join.push(RoomUpdate { room_id: room_id.duplicate(), from, to, full_state, revision });
                if full_state || from < to {
                    news = true;
                }
            },
            Some(Membership::Invite) => {
                if !batch.invites.contains_key(room_id) {
                    invite.push(room_id.duplicate());
                    let _ = batch.invites.insert(room_id.duplicate(), ());
                }
            },
            _ => {},
        }
        proof {
            let want = advanced_upto(before, who, start, ids@, i + 1);
            assert(seen(ids@, i + 1, rid));
            assert forall|r: IdParts| r != rid implies seen(ids@, i + 1, r) == seen(
                ids@,
                i as int,
                r,
            ) by {
                if seen(ids@, i + 1, r) {
                    let j = choose|j: int| 0 <= j < i + 1 && (#[trigger] ids@[j])@ == r;
                    assert(0 <= j < i && ids@[j]@ == r);
                }
                if seen(ids@, i as int, r) {
                    let j = choose|j: int| 0 <= j < i && (#[trigger] ids@[j])@ == r;
                    assert(0 <= j < i + 1 && ids@[j]@ == r);
                }
            }
            assert(batch@.rooms =~= want.rooms);
            assert(batch@.invites =~= want.invites);
            assert forall|j: int|
                0 <= j < i + 1 && is_joined(before, who, (#[trigger] ids@[j])@) implies exists|
                k: int,
            | 0 <= k < join@.len() && (#[trigger] join@[k]).room_id@ == ids@[j]@ by {
                if j < i {
                    let k = choose|k: int|
                        0 <= k < old_join.len() && (#[trigger] old_join[k]).room_id@ == ids@[j]@;
                    assert(join@[k] == old_join[k]);
                } else {
                    assert(join@[join@.len() - 1].room_id@ == rid);
                }
            }
            assert forall|j: int|
                0 <= j < i + 1 && is_invited(before, who, (#[trigger] ids@[j])@)
                    && !start.invites.contains(ids@[j]@) implies exists|k: int|
                0 <= k < invite@.len() && (#[trigger] invite@[k])@ == ids@[j]@ by {
                if j < i {
                    let k = choose|k: int|
                        0 <= k < old_invite.len() && (#[trigger] old_invite[k])@ == ids@[j]@;
                    assert(invite@[k] == old_invite[k]);
                } else {
                    assert(invite@[invite@.len() - 1]@ == rid);
                }
            }
            assert forall|k: int| 0 <= k < join@.len() implies seen(
                ids@,
                i + 1,
                (#[trigger] join@[k]).room_id@,
            ) by {
                if join@[k].room_id@ != rid {
                    assert(seen(ids@, i as int, join@[k].room_id@));
                }
            }
            assert forall|k: int| 0 <= k < invite@.len() implies seen(
                ids@,
                i + 1,
                (#[trigger] invite@[k])@,
            ) by {
                if invite@[k]@ != rid {
                    assert(seen(ids@, i as int, invite@[k]@));
                }
            }
            assert(news == exists|j: int|
                0 <= j < i + 1 && is_joined(before, who, (#[trigger] ids@[j])@) && (full_state
                    || cursor(start, ids@[j]@) < before.timeline(ids@[j]@).len())) by {
                if news && !old_news {
                    assert(is_joined(before, who, ids@[i as int]@));
                }
                if old_news {
                    let j = choose|j: int|
                        0 <= j < i && is_joined(before, who, (#[trigger] ids@[j])@) && (full_state
                            || cursor(start, ids@[j]@) < before.timeline(ids@[j]@).len());
                    assert(0 <= j < i + 1 && is_joined(before, who, ids@[j]@));
                }
                if exists|j: int|
                    0 <= j < i + 1 && is_joined(before, who, (#[trigger] ids@[j])@) && (full_state
                        || cursor(start, ids@[j]@) < before.timeline(ids@[j]@).len()) {
                    let j = choose|j: int|
                        0 <= j < i + 1 && is_joined(before, who, (#[trigger] ids@[j])@) && (
                        full_state || cursor(start, ids@[j]@) < before.timeline(ids@[j]@).len());
                    if j < i {
                        assert(old_news);
                    }
                }
            }
        }
        i += 1;
    }
    proof {
        assert forall|r: IdParts| seen(ids@, n as int, r) == before.rooms.dom().contains(r) by {
            if seen(ids@, n as int, r) {
                let j = choose|j: int| 0 <= j < n && (#[trigger] ids@[j])@ == r;
                assert(store.room_order()[j] == r);
                assert(store.room_order().contains(r));
            }
            if before.rooms.dom().contains(r) {
                assert(store.room_order().contains(r));
                let j = choose|j: int| 0 <= j < n && store.room_order()[j] == r;
                assert(ids@[j]@ == r);
            }
        }
        let after = advanced(before, who, start);
        assert(batch@.rooms =~= after.rooms);
        assert(batch@.invites =~= after.invites);
        assert(all_resolve(before)) by {
            assert forall|room: IdParts| #[trigger]
                before.rooms.dom().contains(room) implies has_create(
                current_state(before.timeline(room)),
            ) by {
                assert(seen(ids@, n as int, room));
                let j = choose|j: int| 0 <= j < n && (#[trigger] ids@[j])@ == room;
                assert(has_create(current_state(before.timeline(ids@[j]@))));
            }
        }
        assert(covers_joined(join@, before, who, start, full_state)) by {
            assert forall|room: IdParts|
                #![trigger is_joined(before, who, room)]
                is_joined(before, who, room) implies exists|k: int|
                0 <= k < join@.len() && (#[trigger] join@[k]).room_id@ == room by {
                assert(seen(ids@, n as int, room));
                let j = choose|j: int| 0 <= j < n && (#[trigger] ids@[j])@ == room;
                assert(is_joined(before, who, ids@[j]@));
            }
        }
        assert(covers_invited(invite@, before, who, start)) by {
            assert forall|room: IdParts|
                #![trigger is_invited(before, who, room)]
                is_invited(before, who, room) && !start.invites.contains(room) implies exists|
                k: int,
            |
                0 <= k < invite@.len() && (#[trigger] invite@[k])@ == room by {
                assert(seen(ids@, n as int, room));
                let j = choose|j: int| 0 <= j < n && (#[trigger] ids@[j])@ == room;
                assert(is_invited(before, who, ids@[j]@));
            }
        }
        assert(news == has_news(before, who, start, full_state)) by {
            if news {
                let j = choose|j: int|
                    0 <= j < n && is_joined(before, who, (#[trigger] ids@[j])@) && (full_state
                        || cursor(start, ids@[j]@) < before.timeline(ids@[j]@).len());
                assert(is_joined(before, who, ids@[j]@));
            }
            if has_news(before, who, start, full_state) {
                let room = choose|room: IdParts|
                    #![trigger is_joined(before, who, room)]
                    is_joined(before, who, room) && (full_state || cursor(start, room)
                        < before.timeline(room).len());
                assert(seen(ids@, n as int, room));
                let j = choose|j: int| 0 <= j < n && (#[trigger] ids@[j])@ == room;
                assert(is_joined(before, who, ids@[j]@));
            }
        }
    }
    if news || join.len() == 0 {
        let action = if news {
            SyncAction::Respond
        } else {
            SyncAction::Sleep
        };
        store.set_batch(next_batch.as_str(), batch);
        Ok(SyncPlan { next_batch, join, invite, action, timeout, batch: None })
    } else {
        Ok(SyncPlan { next_batch, join, invite, action: SyncAction::Wait, timeout, batch: Some(batch) })
    }
}

/// The first step of a sync, with a random token for the next cursor: the
/// hexadecimal digits of a random 64-bit number.
pub fn sync<S: Storage>(store: &mut S, user: &MatrixId, since: Option<&str>, full_state: bool, timeout: u32) -> (r: Result<SyncPlan, ErrorKind>)
    ensures
        r is Ok <==> all_resolve(old(store).state()),
        r matches Err(e) ==> e@ == ErrorKindView::Unknown(no_create_message()) && final(store).state()
            == old(store).state(),
        r matches Ok(plan) ==> ({
            let before = old(store).state();
            let start = starting_batch(before, crate::events::opt_str_text(since));
            let after = advanced(before, user@, start);
            &&& exists|seed: u64| plan.next_batch@ == hex_lower_short(seed as nat)
            &&& plan.timeout == timeout
            &&& covers_joined(plan.join@, before, user@, start, full_state)
            &&& covers_invited(plan.invite@, before, user@, start)
            &&& plan.action == if has_news(before, user@, start, full_state) {
                SyncAction::Respond
            } else if plan.join@.len() == 0 {
                SyncAction::Sleep
            } else {
                SyncAction::Wait
            }
            &&& match plan.batch {
                Some(batch) => plan.action == SyncAction::Wait && batch@ == after && final(store).state()
                    == before,
                None => plan.action != SyncAction::Wait && final(store).state() == (StoreView {
                    batches: before.batches.insert(plan.next_batch@, after),
                    ..before
                }),
            }
        }),
{
    let seed = random_u64();
    let digits = hex_lower_short_chars(seed);
    assert(digits@.subrange(0, digits.len() as int) =~= digits@);
    let next_batch = string_from_chars(&digits, 0, digits.len());
    begin_sync(store, user, since, full_state, timeout, next_batch)
}

/// The position of the first update for `room` in `join`.
pub open spec fn update_for(join: Seq<RoomUpdate>, room: IdParts, k: int) -> bool {
    &&& 0 <= k < join.len()
    &&& join[k].room_id@ == room
    &&& forall|j: int| 0 <= j < k ==> (#[trigger] join[j]).room_id@ != room
}

/// Whether a wait ended because `woken` changed: it is a room of the plan
/// that the store holds.
pub open spec fn takes_up(store: StoreView, join: Seq<RoomUpdate>, woken: Option<IdParts>) -> bool {
    match woken {
        Some(room) => store.rooms.dom().contains(room) && exists|k: int| update_for(join, room, k),
        None => false,
    }
}

/// The second step of a sync that waited. `woken` is the room that changed,
/// or `None` if the time ran out.
///
/// The cursor of the plan is stored under the plan's token, so that what
/// was decided before the wait is not lost. If a room of the plan changed,
/// its update is replaced by one for the events since the plan was made,
/// and the cursor is advanced past them. A plan that has no cursor to store
/// is returned as it is. In every case the plan that comes back is to be
/// responded with.
pub fn finish_sync<S: Storage>(store: &mut S, plan: SyncPlan, woken: Option<&RoomId>) -> (r: SyncPlan)
    ensures
        r.next_batch == plan.next_batch,
        r.invite == plan.invite,
        r.timeout == plan.timeout,
        r.batch is None,
        r.action == SyncAction::Respond,
        match plan.batch {
            None => r.join == plan.join && final(store).state() == old(store).state(),
            Some(batch) => {
                let before = old(store).state();
                let room = match woken {
                    Some(id) => Some(id@),
                    None => None,
                };
                if takes_up(before, plan.join@, room) {
                    let k = choose|k: int| update_for(plan.join@, room->Some_0, k);
                    let end = before.timeline(room->Some_0).len() as usize;
                    &&& r.join@.len() == plan.join@.len()
                    &&& forall|j: int|
                        0 <= j < r.join@.len() && j != k ==> r.join@[j] == plan.join@[j]
                    &&& r.join@[k].room_id@ == room->Some_0
                    &&& r.join@[k].from == plan.join@[k].to
                    &&& r.join@[k].to == end
                    &&& !r.join@[k].full_state
                    &&& r.join@[k].revision == before.rooms[room->Some_0].revision
                    &&& final(store).state() == (StoreView {
                        batches: before.batches.insert(
                            plan.next_batch@,
                            BatchView { rooms: batch@.rooms.insert(room->Some_0, end), ..batch@ },
                        ),
                        ..before
                    })
                } else {
                    &&& r.join == plan.join
                    &&& final(store).state() == (StoreView {
                        batches: before.batches.insert(plan.next_batch@, batch@),
                        ..before
                    })
                }
            },
        },
{
    let SyncPlan { next_batch, join, invite, action: _, timeout, batch } = plan;
    let mut join = join;
    let mut batch = match batch {
        Some(batch) => batch,
        None => {
            return SyncPlan {
                next_batch,
                join,
                invite,
                action: SyncAction::Respond,
                timeout,
                batch: None,
            };
        },
    };
    let ghost planned = join@;
    if let Some(room_id) = woken {
        let mut found: Option<usize> = None;
        let mut k: usize = 0;
        while k < join.len() && found.is_none()
            invariant
                k <= join@.len(),
                join@ == planned,
                match found {
                    Some(at) => update_for(planned, room_id@, at as int),
                    None => forall|j: int| 0 <= j < k ==> (#[trigger] planned[j]).room_id@ != room_id@,
                },
            decreases join.len() - k + if found is None { 1nat } else { 0nat },
        {
            if join[k].room_id.same(room_id) {
                found = Some(k);
            } else {
                k += 1;
            }
        }
        let end = match store.timeline_of(room_id) {
            Some(events) => Some(events.len()),
            None => None,
        };
        let revision = store.room_revision(room_id);
        proof {
            if found is None {
                assert forall|k: int| !update_for(planned, room_id@, k) by {}
            }
        }
        match (found, end, revision) {
            (Some(at), Some(end), Some(revision)) => {
                proof {
                    let c = choose|c: int| update_for(planned, room_id@, c);
                    assert(update_for(planned, room_id@, c));
                    assert(c == at);
                }
                let from = join[at].to;
                let old = join.remove(at);
                join.insert(
                    at,
                    RoomUpdate { room_id: old.room_id, from, to: end, full_state: false, revision },
                );
                let _ = batch.rooms.insert(room_id.duplicate(), end);
            },
            _ => {},
        }
    }
    store.set_batch(next_batch.as_str(), batch);
    SyncPlan { next_batch, join, invite, action: SyncAction::Respond, timeout, batch: None }
}

/// No wakeup is lost. If an event is appended to a joined room after the
/// plan for a sync was made, the room's revision is no longer the one in
/// the plan, so whoever waits for the room learns of it, and the events
/// from the position that the plan read to are exactly the new event.
pub proof fn lemma_append_wakes_waiter(
    store: StoreView,
    pdu: crate::events::pdu::StoredPdu,
    update: RoomUpdate,
    user: IdParts,
    batch: BatchView,
    full_state: bool,
)
    requires
        is_update_of(update, store, user, batch, full_state),
        StoreView::room_of(pdu) == update.room_id@,
    ensures
        store.after_adding(pdu) is Some,
        store.after_adding(pdu)->Some_0.rooms[update.room_id@].revision != update.revision,
        store.after_adding(pdu)->Some_0.timeline(update.room_id@).skip(update.to as int) == seq![
            pdu,
        ],
{
    let after = store.after_adding(pdu)->Some_0;
    assert(after.timeline(update.room_id@).skip(update.to as int) =~= seq![pdu]);
}

/// A sync waits only if nothing was there to deliver: where a plan does not
/// say `Respond` at once, the cursor of every joined room stands at the end
/// of the room's timeline or past it.
pub proof fn lemma_wait_means_nothing_to_deliver(
    store: StoreView,
    user: IdParts,
    batch: BatchView,
    full_state: bool,
    room: IdParts,
)
    requires
        !has_news(store, user, batch, full_state),
        is_joined(store, user, room),
    ensures
        !full_state,
        cursor(batch, room) >= store.timeline(room).len(),
{
}

} // verus!
