//! What holds of the store whatever is done with it.

use vstd::prelude::*;
use crate::events::pdu::StoredPdu;
use crate::storage::model::StoreView;
use crate::storage::{
    lemma_picked_all, names_kind, names_user, picked, EventQuery, QueryType,
};
use crate::util::mxid::IdParts;

verus! {

/// The events of `pdus` that belong to `room`, in their order.
pub open spec fn of_room(pdus: Seq<StoredPdu>, room: IdParts) -> Seq<StoredPdu>
    decreases pdus.len(),
{
    if pdus.len() == 0 {
        Seq::empty()
    } else if StoreView::room_of(pdus.last()) == room {
        of_room(pdus.drop_last(), room).push(pdus.last())
    } else {
        of_room(pdus.drop_last(), room)
    }
}

/// Appending an event puts it at the end of its room's timeline and leaves
/// the timeline of every other room as it was.
pub proof fn lemma_append_extends_one_timeline(store: StoreView, pdu: StoredPdu, room: IdParts)
    requires
        store.after_adding(pdu) is Some,
    ensures
        store.after_adding(pdu)->Some_0.timeline(room) == if room == StoreView::room_of(pdu) {
            store.timeline(room).push(pdu)
        } else {
            store.timeline(room)
        },
{
}

/// The timeline is append-only: after any sequence of appends, the timeline
/// of a room is what it was, followed by the events that were appended to
/// that room, in the order of their appending, whatever was appended to
/// other rooms in between.
pub proof fn lemma_timeline_is_append_only(store: StoreView, pdus: Seq<StoredPdu>, room: IdParts)
    requires
        store.after_adding_all(pdus) is Ok,
    ensures
        store.after_adding_all(pdus)->Ok_0.timeline(room) == store.timeline(room) + of_room(
            pdus,
            room,
        ),
    decreases pdus.len(),
{
    if pdus.len() == 0 {
        assert(store.timeline(room) + of_room(pdus, room) =~= store.timeline(room));
    } else {
        let before = store.after_adding_all(pdus.drop_last())->Ok_0;
        lemma_timeline_is_append_only(store, pdus.drop_last(), room);
        lemma_append_extends_one_timeline(before, pdus.last(), room);
        let sofar = of_room(pdus.drop_last(), room);
        if StoreView::room_of(pdus.last()) == room {
            assert((store.timeline(room) + sofar).push(pdus.last()) =~= store.timeline(room)
                + sofar.push(pdus.last()));
        }
    }
}

/// A room is never deleted and its timeline never shortened or reordered:
/// after an append every room is still there, and what its timeline held
/// it still holds, at the same positions.
pub proof fn lemma_rooms_are_kept(store: StoreView, pdu: StoredPdu, room: IdParts)
    requires
        store.after_adding(pdu) is Some,
        store.rooms.dom().contains(room),
    ensures
        store.after_adding(pdu)->Some_0.rooms.dom().contains(room),
        store.timeline(room).is_prefix_of(store.after_adding(pdu)->Some_0.timeline(room)),
{
    lemma_append_extends_one_timeline(store, pdu, room);
}

/// Whether `query` asks for the whole timeline, with no filter.
pub open spec fn asks_for_everything(query: EventQuery<'_>) -> bool {
    &&& query.query_type == (QueryType::Timeline { from: 0, to: None })
    &&& query.senders@.len() == 0
    &&& query.not_senders@.len() == 0
    &&& query.types@.len() == 0
    &&& query.not_types@.len() == 0
}

/// A query for the whole timeline returns every event, in the order of the
/// timeline and with no gaps.
pub proof fn lemma_full_query_returns_the_timeline(query: EventQuery<'_>, timeline: Seq<StoredPdu>)
    requires
        asks_for_everything(query),
    ensures
        query.results(timeline) == timeline,
{
    let keep = query.keeper(timeline);
    assert forall|i: int| 0 <= i < timeline.len() implies #[trigger] keep(i) by {
        let e = timeline[i];
        assert(!names_user(query.not_senders@, e.pdu().v4().sender@));
        assert(!names_kind(query.not_types@, e.pdu().v4().event_content.kind_name()));
        assert(query.keeps(timeline, i));
    }
    lemma_picked_all(keep, timeline.len() as int);
    assert(query.results(timeline) =~= timeline);
}

/// A timeline query from a position returns exactly the events that were
/// appended from that position on: what a sync cursor has not seen yet.
pub proof fn lemma_query_from_cursor(query: EventQuery<'_>, timeline: Seq<StoredPdu>, from: usize)
    requires
        query.query_type == (QueryType::Timeline { from, to: None }),
        query.senders@.len() == 0,
        query.not_senders@.len() == 0,
        query.types@.len() == 0,
        query.not_types@.len() == 0,
        from <= timeline.len(),
    ensures
        query.results(timeline) == timeline.skip(from as int),
    decreases timeline.len(),
{
    let keep = query.keeper(timeline);
    assert forall|i: int| from <= i < timeline.len() implies #[trigger] keep(i) by {
        let e = timeline[i];
        assert(!names_user(query.not_senders@, e.pdu().v4().sender@));
        assert(!names_kind(query.not_types@, e.pdu().v4().event_content.kind_name()));
        assert(query.keeps(timeline, i));
    }
    lemma_picked_from(keep, from as int, timeline.len() as int);
    assert(query.results(timeline) =~= timeline.skip(from as int));
}

/// Where exactly the positions from `m` on are kept, they are what is picked.
pub proof fn lemma_picked_from(keep: spec_fn(int) -> bool, m: int, n: int)
    requires
        0 <= m <= n,
        forall|i: int| 0 <= i < m ==> !#[trigger] keep(i),
        forall|i: int| m <= i < n ==> #[trigger] keep(i),
    ensures
        picked(keep, n) == Seq::new((n - m) as nat, |i: int| m + i),
    decreases n - m,
{
    if m == n {
        crate::storage::lemma_picked_none(keep, n);
        assert(picked(keep, n) =~= Seq::new((n - m) as nat, |i: int| m + i));
    } else {
        lemma_picked_from(keep, m, n - 1);
        assert(picked(keep, n) =~= Seq::new((n - m) as nat, |i: int| m + i));
    }
}

} // verus!
