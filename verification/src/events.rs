//! The event model: typed content, redaction and the client-facing shape.

pub mod ephemeral;
pub mod pdu;
pub mod presence;
pub mod room;
pub mod room_version;

use vstd::prelude::*;
use crate::events::room::{
    Create, GuestAccess, HistoryVisibility, JoinRules, Member, Name, PowerLevels, Redactable,
    Redaction, Topic,
};
use crate::json::empty_object;
use crate::util::mxid::MatrixId;
use crate::util::text::same_text;

verus! {

/// The content of an event, by the type of the event.
#[derive(Clone, Debug)]
pub enum EventContent {
    Create(Create),
    JoinRules(JoinRules),
    HistoryVisibility(HistoryVisibility),
    GuestAccess(GuestAccess),
    Name(Name),
    Topic(Topic),
    PowerLevels(PowerLevels),
    Member(Member),
    Redaction(Redaction),
    /// An event of a type that the server does not interpret.
    Unknown { event_type: String, content: serde_json::Value },
}

impl EventContent {
    /// The name of the event type.
    pub open spec fn kind_name(self) -> Seq<char> {
        match self {
            EventContent::Create(_) => "m.room.create"@,
            EventContent::JoinRules(_) => "m.room.join_rules"@,
            EventContent::HistoryVisibility(_) => "m.room.history_visibility"@,
            EventContent::GuestAccess(_) => "m.room.guest_access"@,
            EventContent::Name(_) => "m.room.name"@,
            EventContent::Topic(_) => "m.room.topic"@,
            EventContent::PowerLevels(_) => "m.room.power_levels"@,
            EventContent::Member(_) => "m.room.member"@,
            EventContent::Redaction(_) => "m.room.redaction"@,
            EventContent::Unknown { event_type, .. } => event_type@,
        }
    }

    /// The name of the event type.
    pub fn event_type(&self) -> (name: &str)
        ensures
            name@ == self.kind_name(),
    {
        match self {
            EventContent::Create(_) => "m.room.create",
            EventContent::JoinRules(_) => "m.room.join_rules",
            EventContent::HistoryVisibility(_) => "m.room.history_visibility",
            EventContent::GuestAccess(_) => "m.room.guest_access",
            EventContent::Name(_) => "m.room.name",
            EventContent::Topic(_) => "m.room.topic",
            EventContent::PowerLevels(_) => "m.room.power_levels",
            EventContent::Member(_) => "m.room.member",
            EventContent::Redaction(_) => "m.room.redaction",
            EventContent::Unknown { event_type, .. } => event_type.as_str(),
        }
    }

    /// Whether the event is of type `name`.
    pub fn has_type(&self, name: &str) -> (b: bool)
        ensures
            b == (self.kind_name() == name@),
    {
        same_text(self.event_type(), name)
    }
}

impl Redactable for EventContent {
    /// Typed content is reduced by the rule of its type. Of content that the
    /// server does not interpret only the type is kept.
    open spec fn redacts_to(self, reduced: Self) -> bool {
        match (self, reduced) {
            (EventContent::Create(a), EventContent::Create(b)) => a.redacts_to(b),
            (EventContent::JoinRules(a), EventContent::JoinRules(b)) => a.redacts_to(b),
            (EventContent::HistoryVisibility(a), EventContent::HistoryVisibility(b)) =>
                a.redacts_to(b),
            (EventContent::GuestAccess(a), EventContent::GuestAccess(b)) => a.redacts_to(b),
            (EventContent::Name(a), EventContent::Name(b)) => a.redacts_to(b),
            (EventContent::Topic(a), EventContent::Topic(b)) => a.redacts_to(b),
            (EventContent::PowerLevels(a), EventContent::PowerLevels(b)) => a.redacts_to(b),
            (EventContent::Member(a), EventContent::Member(b)) => a.redacts_to(b),
            (EventContent::Redaction(a), EventContent::Redaction(b)) => a.redacts_to(b),
            (
                EventContent::Unknown { event_type: a, .. },
                EventContent::Unknown { event_type: b, .. },
            ) => a == b,
            _ => false,
        }
    }

    fn redact(self) -> (r: Self) {
        match self {
            EventContent::Create(c) => EventContent::Create(c.redact()),
            EventContent::JoinRules(c) => EventContent::JoinRules(c.redact()),
            EventContent::HistoryVisibility(c) => EventContent::HistoryVisibility(c.redact()),
            EventContent::GuestAccess(c) => EventContent::GuestAccess(c.redact()),
            EventContent::Name(c) => EventContent::Name(c.redact()),
            EventContent::Topic(c) => EventContent::Topic(c.redact()),
            EventContent::PowerLevels(c) => EventContent::PowerLevels(Redactable::redact(c)),
            EventContent::Member(c) => EventContent::Member(c.redact()),
            EventContent::Redaction(c) => EventContent::Redaction(c.redact()),
            EventContent::Unknown { event_type, .. } => EventContent::Unknown {
                event_type,
                content: empty_object(),
            },
        }
    }
}

/// Redaction keeps the type of an event.
pub proof fn lemma_redaction_keeps_the_type(content: EventContent, reduced: EventContent)
    requires
        content.redacts_to(reduced),
    ensures
        reduced.kind_name() == content.kind_name(),
{
}

/// An event as clients see it: without the fields that link it into the
/// room's graph.
#[derive(Clone, Debug)]
pub struct Event {
    pub event_content: EventContent,
    pub event_id: String,
    pub sender: MatrixId,
    pub state_key: Option<String>,
    pub origin_server_ts: i64,
    pub unsigned: Option<serde_json::Value>,
}

/// The text of an optional string.
pub open spec fn opt_text(s: Option<String>) -> Option<Seq<char>> {
    match s {
        Some(text) => Some(text@),
        None => None,
    }
}

/// The text of an optional string slice.
pub open spec fn opt_str_text(s: Option<&str>) -> Option<Seq<char>> {
    match s {
        Some(text) => Some(text@),
        None => None,
    }
}

/// Borrows the text of an optional string.
pub fn as_deref(s: &Option<String>) -> (r: Option<&str>)
    ensures
        opt_str_text(r) == opt_text(*s),
{
    match s {
        Some(text) => Some(text.as_str()),
        None => None,
    }
}

} // verus!
