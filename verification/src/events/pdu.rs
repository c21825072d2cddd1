//! Events as the store holds them: each with its identifier.

use vstd::prelude::*;
use crate::events::room_version::VersionedPdu;
use crate::events::{Event, EventContent};
use crate::util::text::{hex_upper_chars, string_from_chars};

verus! {

/// An event together with the identifier derived from it.
#[derive(Clone, Debug)]
pub struct StoredPdu {
    event_id: String,
    rank: u64,
    pdu: VersionedPdu,
}

/// The events that a list of references points to.
pub open spec fn referents(list: Seq<&StoredPdu>) -> Seq<StoredPdu> {
    Seq::new(list.len(), |i: int| *list[i])
}

impl StoredPdu {
    /// The identifier of the event.
    pub closed spec fn id(self) -> Seq<char> {
        self.event_id@
    }

    /// The number that the identifier is made of.
    pub closed spec fn rank(self) -> u64 {
        self.rank
    }

    /// The event itself.
    pub closed spec fn pdu(self) -> VersionedPdu {
        self.pdu
    }

    /// Derives the identifier of `pdu` and keeps it with the event.
    pub fn new(pdu: VersionedPdu) -> (r: Self)
        ensures
            r.pdu() == pdu,
            r.rank() == pdu.v4().rank(),
            r.id() == pdu.v4().derived_id(),
    {
        let rank = match &pdu {
            VersionedPdu::V4(inner) => inner.compute_rank(),
        };
        let mut v: Vec<char> = Vec::new();
        v.push('$');
        let mut digits = hex_upper_chars(rank, 16);
        v.append(&mut digits);
        assert(v@ =~= pdu.v4().derived_id());
        assert(v@.subrange(0, v.len() as int) =~= v@);
        let event_id = string_from_chars(&v, 0, v.len());
        StoredPdu { event_id, rank, pdu }
    }

    pub fn event_id(&self) -> (id: &str)
        ensures
            id@ == self.id(),
    {
        self.event_id.as_str()
    }

    /// The number that the identifier is made of; events are ordered by it
    /// where their depths are equal.
    pub fn id_rank(&self) -> (r: u64)
        ensures
            r == self.rank(),
    {
        self.rank
    }

    pub fn inner(&self) -> (pdu: &VersionedPdu)
        ensures
            *pdu == self.pdu(),
    {
        &self.pdu
    }

    pub fn into_inner(self) -> (pdu: VersionedPdu)
        ensures
            pdu == self.pdu(),
    {
        self.pdu
    }

    pub fn event_content(&self) -> (r: &EventContent)
        ensures
            *r == self.pdu().v4().event_content,
    {
        self.pdu.event_content()
    }

    pub fn into_client_format(self) -> (e: Event)
        ensures
            e.event_content == self.pdu().v4().event_content,
            e.event_id@ == self.id(),
            e.sender == self.pdu().v4().sender,
            e.state_key == self.pdu().v4().state_key,
            e.origin_server_ts == self.pdu().v4().origin_server_ts,
            e.unsigned == self.pdu().v4().unsigned,
    {
        match self.pdu {
            VersionedPdu::V4(pdu) => Event {
                event_content: pdu.event_content,
                event_id: self.event_id,
                sender: pdu.sender,
                state_key: pdu.state_key,
                origin_server_ts: pdu.origin_server_ts,
                unsigned: pdu.unsigned,
            },
        }
    }
}

} // verus!
