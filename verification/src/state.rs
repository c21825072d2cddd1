//! State resolution: the current state of a room as of a frontier of its
//! event graph.
//!
//! A room's events are held in the order in which they were appended, and an
//! event names its predecessors by their identifiers. An event is reachable
//! from a frontier if the frontier names it, or if an event that was
//! appended after it and is itself reachable names it as a predecessor.
//! Among the reachable state events with the same type and state key the one
//! with the greatest depth wins; among those of equal depth the one with the
//! smaller identifier, and among those the one appended first.

use vstd::prelude::*;
use crate::error::{ErrorKind, ErrorKindView};
use crate::events::pdu::{referents, StoredPdu};
use crate::events::room::Membership;
use crate::events::EventContent;
use crate::util::text::same_text;

verus! {

/// The type and the state key of a state event.
pub type Slot = (Seq<char>, Seq<char>);

/// The texts of a list of strings.
pub open spec fn texts(ids: Seq<String>) -> Seq<Seq<char>> {
    Seq::new(ids.len(), |i: int| ids[i]@)
}

/// The texts of a list of string slices.
pub open spec fn slice_texts(ids: Seq<&str>) -> Seq<Seq<char>> {
    Seq::new(ids.len(), |i: int| ids[i]@)
}

/// The identifiers that `e` names as its predecessors.
pub open spec fn prev_ids(e: StoredPdu) -> Seq<Seq<char>> {
    texts(e.pdu().v4().prev_events@)
}

/// The identifiers that are wanted once the events from position `from` on
/// have been looked at: those that the frontier names, and the predecessors
/// of every event from `from` on that is itself wanted.
pub open spec fn wanted_ids(events: Seq<StoredPdu>, frontier: Seq<Seq<char>>, from: int) -> Set<
    Seq<char>,
>
    decreases events.len() - from,
{
    if from < 0 || from >= events.len() {
        Set::new(|id: Seq<char>| frontier.contains(id))
    } else {
        let later = wanted_ids(events, frontier, from + 1);
        if later.contains(events[from].id()) {
            later.union(Set::new(|id: Seq<char>| prev_ids(events[from]).contains(id)))
        } else {
            later
        }
    }
}

/// Whether the event at `i` can be reached from the frontier: the frontier
/// names it, or an event that was appended after it and can itself be
/// reached names it as a predecessor.
pub open spec fn reachable(events: Seq<StoredPdu>, frontier: Seq<Seq<char>>, i: int) -> bool {
    0 <= i < events.len() && wanted_ids(events, frontier, i + 1).contains(events[i].id())
}

/// Whether `e` is a state event.
pub open spec fn is_state(e: StoredPdu) -> bool {
    e.pdu().v4().state_key is Some
}

/// The type and state key of the state event `e`.
pub open spec fn slot(e: StoredPdu) -> Slot {
    (e.pdu().v4().event_content.kind_name(), e.pdu().v4().state_key->Some_0@)
}

/// Whether the event at `a` is preferred to the event at `b`: by greater
/// depth, then by smaller identifier, then by earlier position.
pub open spec fn outranks(events: Seq<StoredPdu>, a: int, b: int) -> bool {
    let x = events[a];
    let y = events[b];
    let dx = x.pdu().v4().depth;
    let dy = y.pdu().v4().depth;
    dx > dy || (dx == dy && (x.rank() < y.rank() || (x.rank() == y.rank() && a <= b)))
}

/// Whether the event at `i` is a reachable state event.
pub open spec fn candidate(events: Seq<StoredPdu>, frontier: Seq<Seq<char>>, i: int) -> bool {
    reachable(events, frontier, i) && is_state(events[i])
}

/// Whether the event at `i` is the one that state resolution picks for its
/// type and state key.
pub open spec fn wins(events: Seq<StoredPdu>, frontier: Seq<Seq<char>>, i: int) -> bool {
    &&& candidate(events, frontier, i)
    &&& forall|j: int|
        #![trigger candidate(events, frontier, j)]
        candidate(events, frontier, j) && slot(events[j]) == slot(events[i]) ==> outranks(
            events,
            i,
            j,
        )
}

/// The resolved state of a room as of a frontier: for each type and state
/// key that a reachable state event has, the event that wins.
pub open spec fn resolved(events: Seq<StoredPdu>, frontier: Seq<Seq<char>>) -> Map<
    Slot,
    StoredPdu,
> {
    Map::new(
        |k: Slot| exists|i: int| wins(events, frontier, i) && slot(events[i]) == k,
        |k: Slot| events[choose|i: int| wins(events, frontier, i) && slot(events[i]) == k],
    )
}

/// At most one event wins for a type and state key.
pub proof fn lemma_one_winner(events: Seq<StoredPdu>, frontier: Seq<Seq<char>>, a: int, b: int)
    requires
        wins(events, frontier, a),
        wins(events, frontier, b),
        slot(events[a]) == slot(events[b]),
    ensures
        a == b,
{
    assert(candidate(events, frontier, a));
    assert(candidate(events, frontier, b));
    assert(outranks(events, a, b));
    assert(outranks(events, b, a));
}

/// Resolving from the same frontier twice gives the same state: any two
/// mappings that hold, for each type and state key, the event that wins are
/// equal.
pub proof fn lemma_resolution_is_deterministic(
    events: Seq<StoredPdu>,
    frontier: Seq<Seq<char>>,
    first: Map<Slot, StoredPdu>,
    second: Map<Slot, StoredPdu>,
)
    requires
        forall|k: Slot|
            first.dom().contains(k) <==> exists|i: int|
                wins(events, frontier, i) && slot(events[i]) == k,
        forall|k: Slot|
            second.dom().contains(k) <==> exists|i: int|
                wins(events, frontier, i) && slot(events[i]) == k,
        forall|i: int|
            wins(events, frontier, i) ==> first[slot(events[i])] == events[i] && second[slot(
                events[i],
            )] == events[i],
    ensures
        first == second,
        first == resolved(events, frontier),
{
    let r = resolved(events, frontier);
    assert forall|k: Slot| r.dom().contains(k) implies first[k] == r[k] && second[k] == r[k] by {
        let i = choose|i: int| wins(events, frontier, i) && slot(events[i]) == k;
        assert(wins(events, frontier, i));
    }
    assert(first =~= r);
    assert(second =~= r);
}

fn contains_text(list: &Vec<&str>, id: &str) -> (b: bool)
    ensures
        b == slice_texts(list@).contains(id@),
{
    let mut i: usize = 0;
    while i < list.len()
        invariant
            i <= list.len(),
            forall|j: int| 0 <= j < i ==> slice_texts(list@)[j] != id@,
        decreases list.len() - i,
    {
        if same_text(list[i], id) {
            assert(slice_texts(list@)[i as int] == id@);
            return true;
        }
        i += 1;
    }
    false
}

/// Marks the events that can be reached from the frontier.
pub fn mark_reachable(events: &Vec<StoredPdu>, frontier: &Vec<String>) -> (marks: Vec<bool>)
    ensures
        marks.len() == events.len(),
        forall|i: int|
            0 <= i < events.len() ==> marks[i] == reachable(events@, texts(frontier@), i),
{
    let n = events.len();
    let ghost f = texts(frontier@);
    let mut marks: Vec<bool> = Vec::new();
    let mut wanted: Vec<&str> = Vec::new();
    let mut k: usize = 0;
    while k < n
        invariant
            k <= n,
            marks.len() == k,
        decreases n - k,
    {
        marks.push(false);
        k += 1;
    }
    let mut k: usize = 0;
    while k < frontier.len()
        invariant
            k <= frontier.len(),
            wanted.len() == k,
            forall|j: int| 0 <= j < k ==> (#[trigger] wanted@[j])@ == frontier@[j]@,
        decreases frontier.len() - k,
    {
        wanted.push(frontier[k].as_str());
        k += 1;
    }
    assert(slice_texts(wanted@) =~= f);
    let mut i: usize = n;
    while i > 0
        invariant
            i <= n,
            n == events.len(),
            marks.len() == n,
            f == texts(frontier@),
            forall|j: int| i <= j < n ==> marks[j] == reachable(events@, f, j),
            forall|id: Seq<char>|
                slice_texts(wanted@).contains(id) <==> wanted_ids(events@, f, i as int).contains(
                    id,
                ),
        decreases i,
    {
        i -= 1;
        let id = events[i].event_id();
        let hit = contains_text(&wanted, id);
        marks.set(i, hit);
        let ghost before = slice_texts(wanted@);
        if hit {
            let prev = events[i].inner().prev_events();
            let mut m: usize = 0;
            assert(forall|id: Seq<char>|
                slice_texts(wanted@).contains(id) <==> (before.contains(id) || exists|p: int|
                    0 <= p < m && (#[trigger] prev@[p])@ == id));
            while m < prev.len()
                invariant
                    m <= prev.len(),
                    i < events.len(),
                    prev@ == events@[i as int].pdu().v4().prev_events@,
                    forall|id: Seq<char>|
                        slice_texts(wanted@).contains(id) <==> (before.contains(id) || exists|
                            p: int,
                        |
                            0 <= p < m && (#[trigger] prev@[p])@ == id),
                decreases prev.len() - m,
            {
                let ghost old_wanted = slice_texts(wanted@);
                wanted.push(prev[m].as_str());
                proof {
                    let now = slice_texts(wanted@);
                    assert(now =~= old_wanted.push(prev@[m as int]@));
                    assert forall|id: Seq<char>| now.contains(id) <==> (before.contains(id)
                        || exists|p: int| 0 <= p < m + 1 && (#[trigger] prev@[p])@ == id) by {
                        if now.contains(id) {
                            let w = choose|w: int| 0 <= w < now.len() && now[w] == id;
                            if w < old_wanted.len() {
                                assert(old_wanted[w] == id);
                                assert(old_wanted.contains(id));
                            } else {
                                assert(prev@[m as int]@ == id);
                            }
                        }
                        if before.contains(id) {
                            assert(old_wanted.contains(id));
                            let w = choose|w: int| 0 <= w < old_wanted.len() && old_wanted[w] == id;
                            assert(now[w] == id);
                        }
                        if exists|p: int| 0 <= p < m + 1 && (#[trigger] prev@[p])@ == id {
                            let p = choose|p: int| 0 <= p < m + 1 && (#[trigger] prev@[p])@ == id;
                            if p < m {
                                assert(old_wanted.contains(id));
                                let w = choose|w: int|
                                    0 <= w < old_wanted.len() && old_wanted[w] == id;
                                assert(now[w] == id);
                            } else {
                                assert(now[old_wanted.len() as int] == id);
                            }
                        }
                    }
                }
                m += 1;
            }
        }
        proof {
            let e = events@[i as int];
            let later = wanted_ids(events@, f, i + 1);
            let named = Set::new(|id: Seq<char>| prev_ids(e).contains(id));
            assert(hit == later.contains(e.id()));
            assert(wanted_ids(events@, f, i as int) == if hit {
                later.union(named)
            } else {
                later
            });
            assert forall|id: Seq<char>|
                slice_texts(wanted@).contains(id) <==> wanted_ids(events@, f, i as int).contains(
                    id,
                ) by {
                assert(before.contains(id) <==> later.contains(id));
                let links = prev_ids(e).contains(id);
                assert(named.contains(id) == links);
                assert(links <==> exists|p: int|
                    0 <= p < e.pdu().v4().prev_events@.len() && (
                    #[trigger] e.pdu().v4().prev_events@[p])@ == id) by {
                    if links {
                        let p = choose|p: int| 0 <= p < prev_ids(e).len() && prev_ids(e)[p] == id;
                        assert(e.pdu().v4().prev_events@[p]@ == id);
                    }
                    if exists|p: int|
                        0 <= p < e.pdu().v4().prev_events@.len() && (
                        #[trigger] e.pdu().v4().prev_events@[p])@ == id {
                        let p = choose|p: int|
                            0 <= p < e.pdu().v4().prev_events@.len() && (
                            #[trigger] e.pdu().v4().prev_events@[p])@ == id;
                        assert(prev_ids(e)[p] == id);
                    }
                }
                if hit {
                    assert(slice_texts(wanted@).contains(id) <==> (before.contains(id) || links));
                } else {
                    assert(slice_texts(wanted@) == before);
                }
            }
        }
    }
    marks
}

/// The resolved state of a room: the winning state events.
pub struct ResolvedState<'a> {
    winners: Vec<&'a StoredPdu>,
}

impl<'a> View for ResolvedState<'a> {
    type V = Map<Slot, StoredPdu>;

    closed spec fn view(&self) -> Map<Slot, StoredPdu> {
        Map::new(
            |k: Slot| exists|p: int| self.holds(p, k),
            |k: Slot| *self.winners@[choose|p: int| self.holds(p, k)],
        )
    }
}

/// Whether two state events have the same type and state key.
pub(crate) fn same_slot(a: &StoredPdu, b: &StoredPdu) -> (r: bool)
    requires
        is_state(*a),
        is_state(*b),
    ensures
        r == (slot(*a) == slot(*b)),
{
    let kind = b.event_content().event_type();
    match (a.inner().state_key(), b.inner().state_key()) {
        (Some(x), Some(y)) => a.event_content().has_type(kind) && same_text(x, y),
        _ => false,
    }
}

impl<'a> ResolvedState<'a> {
    /// Whether the event at position `p` is the one for `k`.
    closed spec fn holds(self, p: int, k: Slot) -> bool {
        0 <= p < self.winners@.len() && slot(*self.winners@[p]) == k
    }

    #[verifier::type_invariant]
    spec fn well_formed(self) -> bool {
        &&& forall|p: int| 0 <= p < self.winners@.len() ==> is_state(*#[trigger] self.winners@[p])
        &&& forall|p: int, q: int|
            0 <= p < self.winners@.len() && 0 <= q < self.winners@.len() && slot(
                *self.winners@[p],
            ) == slot(*self.winners@[q]) ==> p == q
    }

    /// The events of the state, each the only one of its type and state key.
    pub closed spec fn listed(self) -> Seq<StoredPdu> {
        Seq::new(self.winners@.len(), |p: int| *self.winners@[p])
    }

    /// The state event of type `kind` with state key `key`.
    pub fn get(&self, kind: &str, key: &str) -> (r: Option<&'a StoredPdu>)
        ensures
            match r {
                Some(e) => self@.dom().contains((kind@, key@)) && self@[(kind@, key@)] == *e,
                None => !self@.dom().contains((kind@, key@)),
            },
    {
        proof {
            use_type_invariant(self);
        }
        let ghost k = (kind@, key@);
        let mut p: usize = 0;
        while p < self.winners.len()
            invariant
                p <= self.winners.len(),
                k == (kind@, key@),
                forall|q: int| 0 <= q < p ==> !self.holds(q, k),
                forall|q: int|
                    0 <= q < self.winners@.len() ==> is_state(*#[trigger] self.winners@[q]),
            decreases self.winners.len() - p,
        {
            let e: &'a StoredPdu = self.winners[p];
            let hit = match e.inner().state_key() {
                Some(state_key) => e.event_content().has_type(kind) && same_text(state_key, key),
                None => false,
            };
            if hit {
                proof {
                    use_type_invariant(self);
                    assert(self.holds(p as int, k));
                    let c = choose|c: int| self.holds(c, k);
                    assert(self.holds(c, k));
                    assert(slot(*self.winners@[c]) == slot(*self.winners@[p as int]));
                    assert(c == p);
                }
                return Some(e);
            }
            p += 1;
        }
        None
    }

    /// The state events, each the only one of its type and state key.
    pub fn events(&self) -> (list: Vec<&'a StoredPdu>)
        ensures
            referents(list@) == self.listed(),
            lists(referents(list@), self@),
    {
        proof {
            use_type_invariant(self);
        }
        let mut list: Vec<&'a StoredPdu> = Vec::new();
        let mut p: usize = 0;
        while p < self.winners.len()
            invariant
                p <= self.winners.len(),
                list@.len() == p,
                forall|q: int| 0 <= q < p ==> *(#[trigger] list@[q]) == *self.winners@[q],
            decreases self.winners.len() - p,
        {
            list.push(self.winners[p]);
            p += 1;
        }
        proof {
            let all = referents(list@);
            assert(all =~= self.listed());
            assert forall|p: int| 0 <= p < all.len() implies is_state(#[trigger] all[p])
                && self@.dom().contains(slot(all[p])) && self@[slot(all[p])] == all[p] by {
                let k = slot(*self.winners@[p]);
                assert(self.holds(p, k));
                let c = choose|c: int| self.holds(c, k);
                assert(self.holds(c, k));
                assert(slot(*self.winners@[c]) == slot(*self.winners@[p]));
            }
            assert forall|k: Slot| self@.dom().contains(k) implies exists|p: int|
                0 <= p < all.len() && #[trigger] all[p] == self@[k] by {
                let c = choose|c: int| self.holds(c, k);
                assert(self.holds(c, k));
                assert(all[c] == self@[k]);
            }
            assert forall|p: int, q: int|
                0 <= p < all.len() && 0 <= q < all.len() && slot(#[trigger] all[p]) == slot(
                    #[trigger] all[q],
                ) implies p == q by {
                assert(slot(*self.winners@[p]) == slot(*self.winners@[q]));
            }
        }
        list
    }

    /// The number of users whose membership is `m`.
    pub fn count_members(&self, m: Membership) -> (n: usize)
        ensures
            n == members_with(self@, m).len(),
            members_with(self@, m).finite(),
    {
        proof {
            use_type_invariant(self);
        }
        let ghost mut hits: Seq<Slot> = Seq::empty();
        let mut n: usize = 0;
        let mut p: usize = 0;
        while p < self.winners.len()
            invariant
                p <= self.winners.len(),
                n == hits.len(),
                n <= p,
                hits.no_duplicates(),
                forall|k: Slot|
                    hits.contains(k) <==> exists|q: int|
                        0 <= q < p && self.holds(q, k) && has_membership(*self.winners@[q], m),
            decreases self.winners.len() - p,
        {
            let e = self.winners[p];
            let is_hit = match e.event_content() {
                EventContent::Member(c) => c.membership == m,
                _ => false,
            };
            proof {
                use_type_invariant(self);
                let k = slot(*e);
                assert(self.holds(p as int, k));
                let old_hits = hits;
                if is_hit {
                    if old_hits.contains(k) {
                        let q = choose|q: int|
                            0 <= q < p && self.holds(q, k) && has_membership(*self.winners@[q], m);
                        assert(slot(*self.winners@[q]) == slot(*self.winners@[p as int]));
                    }
                    hits = old_hits.push(k);
                    assert forall|x: Slot|
                        hits.contains(x) <==> exists|q: int|
                            0 <= q < p + 1 && self.holds(q, x) && has_membership(
                                *self.winners@[q],
                                m,
                            ) by {
                        if hits.contains(x) {
                            let w = choose|w: int| 0 <= w < hits.len() && hits[w] == x;
                            if w < old_hits.len() {
                                assert(old_hits[w] == x);
                                assert(old_hits.contains(x));
                            } else {
                                assert(self.holds(p as int, x));
                            }
                        }
                        if exists|q: int|
                            0 <= q < p + 1 && self.holds(q, x) && has_membership(
                                *self.winners@[q],
                                m,
                            ) {
                            let q = choose|q: int|
                                0 <= q < p + 1 && self.holds(q, x) && has_membership(
                                    *self.winners@[q],
                                    m,
                                );
                            if q < p {
                                assert(old_hits.contains(x));
                                let w = choose|w: int| 0 <= w < old_hits.len() && old_hits[w] == x;
                                assert(hits[w] == x);
                            } else {
                                assert(hits[old_hits.len() as int] == x);
                            }
                        }
                    }
                } else {
                    assert forall|x: Slot|
                        hits.contains(x) <==> exists|q: int|
                            0 <= q < p + 1 && self.holds(q, x) && has_membership(
                                *self.winners@[q],
                                m,
                            ) by {
                        if exists|q: int|
                            0 <= q < p + 1 && self.holds(q, x) && has_membership(
                                *self.winners@[q],
                                m,
                            ) {
                            let q = choose|q: int|
                                0 <= q < p + 1 && self.holds(q, x) && has_membership(
                                    *self.winners@[q],
                                    m,
                                );
                            assert(q < p);
                        }
                    }
                }
            }
            if is_hit {
                n += 1;
            }
            p += 1;
        }
        proof {
            let want = members_with(self@, m);
            assert forall|k: Slot| hits.to_set().contains(k) <==> want.contains(k) by {
                if hits.contains(k) {
                    let q = choose|q: int|
                        0 <= q < p && self.holds(q, k) && has_membership(*self.winners@[q], m);
                    let c = choose|c: int| self.holds(c, k);
                    assert(self.holds(c, k));
                    assert(slot(*self.winners@[c]) == slot(*self.winners@[q]));
                }
                if want.contains(k) {
                    let c = choose|c: int| self.holds(c, k);
                    assert(self.holds(c, k));
                    assert(0 <= c < p && self.holds(c, k) && has_membership(*self.winners@[c], m));
                }
            }
            assert(hits.to_set() =~= want);
            hits.unique_seq_to_set();
        }
        n
    }

    /// The number of state events.
    pub fn len(&self) -> (n: usize)
        ensures
            n == self.listed().len(),
    {
        self.winners.len()
    }
}

/// Whether `list` holds the events of `state`: each event of the list is
/// the state event of its type and state key, every state event is in the
/// list, and none is in it twice.
pub open spec fn lists(list: Seq<StoredPdu>, state: Map<Slot, StoredPdu>) -> bool {
    &&& forall|p: int|
        0 <= p < list.len() ==> is_state(#[trigger] list[p]) && state.dom().contains(
            slot(list[p]),
        ) && state[slot(list[p])] == list[p]
    &&& forall|k: Slot|
        state.dom().contains(k) ==> exists|p: int| 0 <= p < list.len() && #[trigger] list[p] == state[k]
    &&& forall|p: int, q: int|
        0 <= p < list.len() && 0 <= q < list.len() && slot(#[trigger] list[p]) == slot(
            #[trigger] list[q],
        ) ==> p == q
}

/// Whether `e` is a member event with the membership `m`.
pub open spec fn has_membership(e: StoredPdu, m: Membership) -> bool {
    match e.pdu().v4().event_content {
        EventContent::Member(c) => c.membership == m,
        _ => false,
    }
}

/// The member events of `state` with the membership `m`, by their type and
/// state key.
pub open spec fn members_with(state: Map<Slot, StoredPdu>, m: Membership) -> Set<Slot> {
    Set::new(|k: Slot| state.dom().contains(k) && has_membership(state[k], m))
}

/// The type and state key of a room's create event.
pub open spec fn create_slot() -> Slot {
    ("m.room.create"@, Seq::<char>::empty())
}

/// Whether a state holds the create event of its room.
pub open spec fn has_create(state: Map<Slot, StoredPdu>) -> bool {
    state.dom().contains(create_slot()) && state[create_slot()].pdu().v4().event_content is Create
}

/// The message of the error for a graph without a create event.
pub open spec fn no_create_message() -> Seq<char> {
    "the room's create event cannot be reached"@
}

/// Resolves the state of a room as of `frontier`. `events` are the room's
/// events in the order in which they were appended.
///
/// Fails if the room's create event cannot be reached from the frontier.
pub fn resolve<'a>(events: &'a Vec<StoredPdu>, frontier: &Vec<String>) -> (r: Result<
    ResolvedState<'a>,
    ErrorKind,
>)
    ensures
        match r {
            Ok(state) => state@ == resolved(events@, texts(frontier@)) && has_create(state@),
            Err(e) => e@ == ErrorKindView::Unknown(no_create_message()) && !has_create(
                resolved(events@, texts(frontier@)),
            ),
        },
{
    let ghost f = texts(frontier@);
    let marks = mark_reachable(events, frontier);
    let mut winners: Vec<&'a StoredPdu> = Vec::new();
    let mut depths: Vec<(i64, u64)> = Vec::new();
    let ghost mut at: Seq<int> = Seq::empty();
    let mut i: usize = 0;
    while i < events.len()
        invariant
            i <= events.len(),
            marks.len() == events.len(),
            f == texts(frontier@),
            forall|j: int| 0 <= j < events.len() ==> marks[j] == reachable(events@, f, j),
            winners.len() == at.len(),
            forall|p: int|
                #![trigger at[p]]
                0 <= p < at.len() ==> 0 <= at[p] < i && *winners@[p] == events@[at[p]] && candidate(
                    events@,
                    f,
                    at[p],
                ),
            forall|p: int, j: int|
                #![trigger at[p], candidate(events@, f, j)]
                0 <= p < at.len() && 0 <= j < i && candidate(events@, f, j) && slot(events@[j])
                    == slot(events@[at[p]]) ==> outranks(events@, at[p], j),
            forall|j: int|
                #![trigger candidate(events@, f, j)]
                0 <= j < i && candidate(events@, f, j) ==> exists|p: int|
                    0 <= p < at.len() && slot(events@[#[trigger] at[p]]) == slot(events@[j]),
            forall|p: int, q: int|
                #![trigger at[p], at[q]]
                0 <= p < at.len() && 0 <= q < at.len() && slot(events@[at[p]]) == slot(
                    events@[at[q]],
                ) ==> p == q,
        decreases events.len() - i,
    {
        let e: &'a StoredPdu = &events[i];
        if marks[i] && e.inner().state_key().is_some() {
            assert(candidate(events@, f, i as int));
            let mut p: usize = 0;
            let mut found: Option<usize> = None;
            while p < winners.len()
                invariant
                    p <= winners.len(),
                    winners.len() == at.len(),
                    i < events.len(),
                    *e == events@[i as int],
                    is_state(*e),
                    forall|q: int|
                        #![trigger at[q]]
                        0 <= q < at.len() ==> 0 <= at[q] < i && *winners@[q] == events@[at[q]]
                            && candidate(events@, f, at[q]),
                    match found {
                        Some(q) => q < p && slot(events@[at[q as int]]) == slot(*e),
                        None => forall|q: int|
                            #![trigger at[q]]
                            0 <= q < p ==> slot(events@[at[q]]) != slot(*e),
                    },
                decreases winners.len() - p,
            {
                if found.is_none() {
                    assert(candidate(events@, f, at[p as int]));
                    if same_slot(winners[p], e) {
                        found = Some(p);
                    }
                }
                p += 1;
            }
            match found {
                None => {
                    winners.push(e);
                    proof {
                        let old_at = at;
                        at = at.push(i as int);
                        assert forall|j: int|
                            #![trigger candidate(events@, f, j)]
                            0 <= j < i + 1 && candidate(events@, f, j) implies exists|p: int|
                            0 <= p < at.len() && slot(events@[#[trigger] at[p]]) == slot(
                                events@[j],
                            ) by {
                            if j < i {
                                let p = choose|p: int|
                                    0 <= p < old_at.len() && slot(events@[#[trigger] old_at[p]])
                                        == slot(events@[j]);
                                assert(at[p] == old_at[p]);
                            } else {
                                assert(at[old_at.len() as int] == i);
                            }
                        }
                        assert forall|p: int, j: int|
                            #![trigger at[p], candidate(events@, f, j)]
                            0 <= p < at.len() && 0 <= j < i + 1 && candidate(events@, f, j)
                                && slot(events@[j]) == slot(events@[at[p]]) implies outranks(
                            events@,
                            at[p],
                            j,
                        ) by {
                            if p < old_at.len() {
                                assert(at[p] == old_at[p]);
                                if j == i {
                                    assert(slot(events@[old_at[p]]) != slot(*e));
                                }
                            } else {
                                if j < i {
                                    let q = choose|q: int|
                                        0 <= q < old_at.len() && slot(
                                            events@[#[trigger] old_at[q]],
                                        ) == slot(events@[j]);
                                    assert(slot(events@[old_at[q]]) != slot(*e));
                                }
                            }
                        }
                        assert forall|p: int, q: int|
                            #![trigger at[p], at[q]]
                            0 <= p < at.len() && 0 <= q < at.len() && slot(events@[at[p]])
                                == slot(events@[at[q]]) implies p == q by {
                            if p < old_at.len() {
                                assert(at[p] == old_at[p]);
                            }
                            if q < old_at.len() {
                                assert(at[q] == old_at[q]);
                            }
                        }
                    }
                },
                Some(q) => {
                    let held: &'a StoredPdu = winners[q];
                    let better = e.inner().depth() > held.inner().depth() || (e.inner().depth()
                        == held.inner().depth() && e.id_rank() < held.id_rank());
                    proof {
                        assert(*held == events@[at[q as int]]);
                    }
                    if better {
                        winners.set(q, e);
                        proof {
                            let old_at = at;
                            at = at.update(q as int, i as int);
                            assert(outranks(events@, i as int, old_at[q as int]));
                            assert forall|p: int, j: int|
                                #![trigger at[p], candidate(events@, f, j)]
                                0 <= p < at.len() && 0 <= j < i + 1 && candidate(events@, f, j)
                                    && slot(events@[j]) == slot(events@[at[p]]) implies outranks(
                                events@,
                                at[p],
                                j,
                            ) by {
                                if p == q {
                                    if j < i {
                                        assert(outranks(events@, old_at[q as int], j));
                                    }
                                } else {
                                    assert(at[p] == old_at[p]);
                                    if j == i {
                                        assert(slot(events@[old_at[p]]) == slot(
                                            events@[old_at[q as int]],
                                        ));
                                    }
                                }
                            }
                            assert forall|j: int|
                                #![trigger candidate(events@, f, j)]
                                0 <= j < i + 1 && candidate(events@, f, j) implies exists|p: int|
                                0 <= p < at.len() && slot(events@[#[trigger] at[p]]) == slot(
                                    events@[j],
                                ) by {
                                if j < i {
                                    let p = choose|p: int|
                                        0 <= p < old_at.len() && slot(
                                            events@[#[trigger] old_at[p]],
                                        ) == slot(events@[j]);
                                    if p != q {
                                        assert(at[p] == old_at[p]);
                                    } else {
                                        assert(at[q as int] == i);
                                    }
                                } else {
                                    assert(at[q as int] == i);
                                }
                            }
                            assert forall|p: int, r: int|
                                #![trigger at[p], at[r]]
                                0 <= p < at.len() && 0 <= r < at.len() && slot(events@[at[p]])
                                    == slot(events@[at[r]]) implies p == r by {
                                if p != q {
                                    assert(at[p] == old_at[p]);
                                }
                                if r != q {
                                    assert(at[r] == old_at[r]);
                                }
                                assert(slot(events@[old_at[p]]) == slot(events@[old_at[r]]));
                            }
                            assert forall|p: int|
                                #![trigger at[p]]
                                0 <= p < at.len() implies 0 <= at[p] < i + 1 && *winners@[p]
                                == events@[at[p]] && candidate(events@, f, at[p]) by {
                                if p != q {
                                    assert(at[p] == old_at[p]);
                                }
                            }
                        }
                    } else {
                        proof {
                            assert(outranks(events@, at[q as int], i as int));
                            assert forall|p: int, j: int|
                                #![trigger at[p], candidate(events@, f, j)]
                                0 <= p < at.len() && 0 <= j < i + 1 && candidate(events@, f, j)
                                    && slot(events@[j]) == slot(events@[at[p]]) implies outranks(
                                events@,
                                at[p],
                                j,
                            ) by {
                                if j == i {
                                    assert(slot(events@[at[p]]) == slot(events@[at[q as int]]));
                                    assert(p == q);
                                }
                            }
                        }
                    }
                },
            }
        }
        i += 1;
    }
    proof {
        assert forall|p: int| 0 <= p < at.len() implies wins(events@, f, #[trigger] at[p]) by {
            assert forall|j: int|
                #![trigger candidate(events@, f, j)]
                candidate(events@, f, j) && slot(events@[j]) == slot(events@[at[p]])
                implies outranks(events@, at[p], j) by {
                assert(0 <= j < events.len());
            }
        }
    }
    proof {
        assert forall|p: int| 0 <= p < winners@.len() implies is_state(
            *#[trigger] winners@[p],
        ) by {
            assert(candidate(events@, f, at[p]));
        }
        assert forall|p: int, q: int|
            0 <= p < winners@.len() && 0 <= q < winners@.len() && slot(*winners@[p]) == slot(
                *winners@[q],
            ) implies p == q by {
            assert(*winners@[p] == events@[at[p]]);
            assert(*winners@[q] == events@[at[q]]);
        }
    }
    let state = ResolvedState { winners };
    proof {
        let want = resolved(events@, f);
        assert forall|k: Slot| state@.dom().contains(k) <==> want.dom().contains(k) by {
            if state@.dom().contains(k) {
                let p = choose|p: int| state.holds(p, k);
                assert(state.holds(p, k));
                assert(wins(events@, f, at[p]));
            }
            if want.dom().contains(k) {
                let j = choose|j: int| wins(events@, f, j) && slot(events@[j]) == k;
                assert(candidate(events@, f, j));
                let p = choose|p: int|
                    0 <= p < at.len() && slot(events@[#[trigger] at[p]]) == slot(events@[j]);
                assert(state.holds(p, k));
            }
        }
        assert forall|k: Slot| state@.dom().contains(k) implies state@[k] == want[k] by {
            let p = choose|p: int| state.holds(p, k);
            assert(state.holds(p, k));
            assert(wins(events@, f, at[p]));
            let j = choose|j: int| wins(events@, f, j) && slot(events@[j]) == k;
            lemma_one_winner(events@, f, at[p], j);
        }
        assert(state@ =~= want);
    }
    let create = state.get("m.room.create", "");
    proof {
        reveal_strlit("");
        assert(""@ =~= Seq::<char>::empty());
    }
    match create {
        Some(e) => match e.event_content() {
            EventContent::Create(_) => Ok(state),
            _ => Err(ErrorKind::Unknown("the room's create event cannot be reached".to_owned())),
        },
        None => Err(ErrorKind::Unknown("the room's create event cannot be reached".to_owned())),
    }
}

} // verus!
