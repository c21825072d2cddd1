//! Events as they are stored: one representation per room version.

use vstd::prelude::*;
use crate::events::room::{HistoryVisibilityType, JoinRule, PowerLevels, Redactable};
use crate::events::{as_deref, opt_str_text, opt_text, Event, EventContent};
use crate::util::domain::Domain;
use crate::util::mxid::{Id, IdParts, MatrixId, RoomId};
use crate::util::table::Table;
use crate::util::text::{hex_upper, hex_upper_chars, push_chars, string_from_chars};

verus! {

/// An event of a room of version 4.
#[derive(Clone, Debug)]
pub struct PduV4 {
    pub event_content: EventContent,
    pub room_id: RoomId,
    pub sender: MatrixId,
    pub state_key: Option<String>,
    pub unsigned: Option<serde_json::Value>,
    pub redacts: Option<String>,
    pub origin: Domain,
    pub origin_server_ts: i64,
    pub prev_events: Vec<String>,
    pub auth_events: Vec<String>,
    pub depth: i64,
}

/// An event in the representation of its room's version.
#[derive(Clone, Debug)]
pub enum VersionedPdu {
    V4(PduV4),
}

/// One step of the 64-bit FNV-1a hash: the code point is mixed in, and the
/// result is multiplied by the FNV prime, modulo 2^64.
pub open spec fn fingerprint_step(h: u64, c: char) -> u64 {
    vstd::wrapping::u64_specs::wrapping_mul(h ^ (c as u32 as u64), 0x100_0000_01b3)
}

/// The 64-bit FNV-1a hash of the code points of `s`.
pub open spec fn fingerprint(s: Seq<char>) -> u64
    decreases s.len(),
{
    if s.len() == 0 {
        0xcbf2_9ce4_8422_2325
    } else {
        fingerprint_step(fingerprint(s.drop_last()), s.last())
    }
}

/// `s` behind a `=`, or nothing where there is no string.
pub open spec fn marked(s: Option<String>) -> Seq<char> {
    match s {
        Some(text) => seq!['='] + text@,
        None => Seq::empty(),
    }
}

/// The identifiers in `ids`, each followed by a comma.
pub open spec fn listed(ids: Seq<String>) -> Seq<char>
    decreases ids.len(),
{
    if ids.len() == 0 {
        Seq::empty()
    } else {
        listed(ids.drop_last()) + ids.last()@ + seq![',']
    }
}

/// A signed number as the sixteen hexadecimal digits of its 64 bits.
pub open spec fn number_text(n: i64) -> Seq<char> {
    hex_upper((n as u64) as nat, 16)
}

fn push_marked(v: &mut Vec<char>, s: &Option<String>)
    ensures
        final(v)@ == old(v)@ + marked(*s),
{
    match s {
        Some(text) => {
            v.push('=');
            push_chars(v, text.as_str());
            assert(v@ =~= old(v)@ + marked(*s));
        },
        None => {
            assert(v@ =~= old(v)@ + marked(*s));
        },
    }
}

fn push_listed(v: &mut Vec<char>, ids: &Vec<String>)
    ensures
        final(v)@ == old(v)@ + listed(ids@),
{
    let ghost before = v@;
    let mut i: usize = 0;
    assert(ids@.take(0) =~= Seq::<String>::empty());
    assert(v@ =~= before + listed(ids@.take(0)));
    while i < ids.len()
        invariant
            i <= ids.len(),
            v@ == before + listed(ids@.take(i as int)),
        decreases ids.len() - i,
    {
        push_chars(v, ids[i].as_str());
        v.push(',');
        proof {
            let next = ids@.take(i + 1);
            assert(next.drop_last() =~= ids@.take(i as int));
            assert(next.last() == ids@[i as int]);
            assert(v@ =~= before + listed(next));
        }
        i += 1;
    }
    assert(ids@.take(ids.len() as int) =~= ids@);
}

fn push_number(v: &mut Vec<char>, n: i64)
    ensures
        final(v)@ == old(v)@ + number_text(n),
{
    let bits = #[verifier::truncate] (n as u64);
    let mut digits = hex_upper_chars(bits, 16);
    v.append(&mut digits);
}

/// A level as its eight hexadecimal digits, or `-` where none is given.
#[verifier::opaque]
pub open spec fn level_text(level: Option<u32>) -> Seq<char> {
    match level {
        Some(n) => hex_upper(n as nat, 8),
        None => seq!['-'],
    }
}

/// The first `n` of the levels `values` of `keys`, each written as the key,
/// `=`, the level and a comma.
pub open spec fn entries_text(keys: Seq<Seq<char>>, values: Seq<u32>, n: int) -> Seq<char>
    decreases n,
{
    if n <= 0 {
        Seq::empty()
    } else {
        entries_text(keys, values, n - 1) + keys[n - 1] + seq!['='] + hex_upper(
            values[n - 1] as nat,
            8,
        ) + seq![',']
    }
}

/// The users `keys` written out.
pub open spec fn user_texts(keys: Seq<IdParts>) -> Seq<Seq<char>> {
    Seq::new(keys.len(), |i: int| Id::<64>::text(keys[i]))
}

/// The name of a join rule.
pub open spec fn join_rule_name(rule: JoinRule) -> Seq<char> {
    match rule {
        JoinRule::Public => "public"@,
        JoinRule::Knock => "knock"@,
        JoinRule::Invite => "invite"@,
        JoinRule::Private => "private"@,
    }
}

/// The name of a history visibility.
pub open spec fn history_visibility_name(visibility: HistoryVisibilityType) -> Seq<char> {
    match visibility {
        HistoryVisibilityType::Invited => "invited"@,
        HistoryVisibilityType::Joined => "joined"@,
        HistoryVisibilityType::Shared => "shared"@,
        HistoryVisibilityType::WorldReadable => "world_readable"@,
    }
}

/// The power levels that a redaction keeps, written out: the levels to
/// ban, kick and redact, the three defaults, and the levels of the event
/// types and of the users in the order in which they were set.
pub open spec fn kept_levels_text(levels: PowerLevels) -> Seq<char> {
    level_text(levels.ban) + seq![','] + level_text(levels.kick) + seq![','] + level_text(
        levels.redact,
    ) + seq![','] + level_text(levels.events_default) + seq![','] + level_text(
        levels.state_default,
    ) + seq![','] + level_text(levels.users_default) + seq![';'] + entries_text(
        levels.events.keys(),
        levels.events.values(),
        levels.events.keys().len() as int,
    ) + seq![';'] + entries_text(
        user_texts(levels.users.keys()),
        levels.users.values(),
        levels.users.keys().len() as int,
    )
}

/// What a redaction keeps of the content of an event, written out. Nothing
/// is kept of a guest access, a name, a topic, a redaction, or of content
/// that the server does not interpret.
pub open spec fn kept_text(content: EventContent) -> Seq<char> {
    match content {
        EventContent::Create(c) => Id::<64>::text(c.creator@),
        EventContent::JoinRules(c) => join_rule_name(c.join_rule),
        EventContent::HistoryVisibility(c) => history_visibility_name(c.history_visibility),
        EventContent::PowerLevels(c) => kept_levels_text(c),
        EventContent::Member(c) => c.membership.name(),
        _ => Seq::empty(),
    }
}

fn push_level(v: &mut Vec<char>, level: Option<u32>)
    ensures
        final(v)@ == old(v)@ + level_text(level),
{
    reveal(level_text);
    match level {
        Some(n) => {
            let mut digits = hex_upper_chars(n as u64, 8);
            v.append(&mut digits);
        },
        None => {
            v.push('-');
            assert(v@ =~= old(v)@ + level_text(level));
        },
    }
}

fn push_entry(v: &mut Vec<char>, key: &str, level: u32)
    ensures
        final(v)@ == old(v)@ + key@ + seq!['='] + hex_upper(level as nat, 8) + seq![','],
{
    push_chars(v, key);
    v.push('=');
    let mut digits = hex_upper_chars(level as u64, 8);
    v.append(&mut digits);
    v.push(',');
    assert(v@ =~= old(v)@ + key@ + seq!['='] + hex_upper(level as nat, 8) + seq![',']);
}

fn push_event_levels(v: &mut Vec<char>, table: &Table<String, u32>)
    ensures
        final(v)@ == old(v)@ + entries_text(
            table.keys(),
            table.values(),
            table.keys().len() as int,
        ),
{
    let ghost before = v@;
    let n = table.len();
    let mut i: usize = 0;
    assert(v@ =~= before + entries_text(table.keys(), table.values(), 0));
    while i < n
        invariant
            i <= n,
            n == table.keys().len(),
            n == table.values().len(),
            v@ == before + entries_text(table.keys(), table.values(), i as int),
        decreases n - i,
    {
        push_entry(v, table.key_at(i).as_str(), *table.value_at(i));
        assert(v@ =~= before + entries_text(table.keys(), table.values(), i + 1));
        i += 1;
    }
}

fn push_user_levels(v: &mut Vec<char>, table: &Table<MatrixId, u32>)
    ensures
        final(v)@ == old(v)@ + entries_text(
            user_texts(table.keys()),
            table.values(),
            table.keys().len() as int,
        ),
{
    let ghost before = v@;
    let ghost keys = user_texts(table.keys());
    let n = table.len();
    let mut i: usize = 0;
    assert(v@ =~= before + entries_text(keys, table.values(), 0));
    while i < n
        invariant
            i <= n,
            n == table.keys().len(),
            n == table.values().len(),
            keys == user_texts(table.keys()),
            v@ == before + entries_text(keys, table.values(), i as int),
        decreases n - i,
    {
        let user = table.key_at(i).to_string();
        push_entry(v, user.as_str(), *table.value_at(i));
        assert(v@ =~= before + entries_text(keys, table.values(), i + 1));
        i += 1;
    }
}

/// The six levels of `levels` that stand alone.
spec fn thresholds_text(levels: PowerLevels) -> Seq<char> {
    level_text(levels.ban) + seq![','] + level_text(levels.kick) + seq![','] + level_text(
        levels.redact,
    ) + seq![','] + level_text(levels.events_default) + seq![','] + level_text(
        levels.state_default,
    ) + seq![','] + level_text(levels.users_default)
}

fn push_thresholds(v: &mut Vec<char>, levels: &PowerLevels)
    ensures
        final(v)@ == old(v)@ + thresholds_text(*levels),
{
    push_level(v, levels.ban);
    v.push(',');
    push_level(v, levels.kick);
    v.push(',');
    push_level(v, levels.redact);
    v.push(',');
    push_level(v, levels.events_default);
    v.push(',');
    push_level(v, levels.state_default);
    v.push(',');
    push_level(v, levels.users_default);
    assert(v@ =~= old(v)@ + thresholds_text(*levels));
}

fn push_kept_levels(v: &mut Vec<char>, levels: &PowerLevels)
    ensures
        final(v)@ == old(v)@ + kept_levels_text(*levels),
{
    let ghost a = v@;
    push_thresholds(v, levels);
    v.push(';');
    push_event_levels(v, &levels.events);
    v.push(';');
    push_user_levels(v, &levels.users);
    assert(v@ =~= a + kept_levels_text(*levels));
}

fn push_kept(v: &mut Vec<char>, content: &EventContent)
    ensures
        final(v)@ == old(v)@ + kept_text(*content),
{
    match content {
        EventContent::Create(c) => {
            let creator = c.creator.to_string();
            push_chars(v, creator.as_str());
        },
        EventContent::JoinRules(c) => {
            let name = match c.join_rule {
                JoinRule::Public => "public",
                JoinRule::Knock => "knock",
                JoinRule::Invite => "invite",
                JoinRule::Private => "private",
            };
            push_chars(v, name);
        },
        EventContent::HistoryVisibility(c) => {
            let name = match c.history_visibility {
                HistoryVisibilityType::Invited => "invited",
                HistoryVisibilityType::Joined => "joined",
                HistoryVisibilityType::Shared => "shared",
                HistoryVisibilityType::WorldReadable => "world_readable",
            };
            push_chars(v, name);
        },
        EventContent::PowerLevels(c) => {
            push_kept_levels(v, c);
        },
        EventContent::Member(c) => {
            let name = c.membership.to_string();
            push_chars(v, name.as_str());
        },
        _ => {
            assert(v@ =~= old(v)@ + kept_text(*content));
        },
    }
}

fn fingerprint_of(v: &Vec<char>) -> (h: u64)
    ensures
        h == fingerprint(v@),
{
    let mut h: u64 = 0xcbf2_9ce4_8422_2325;
    let mut i: usize = 0;
    assert(v@.take(0) =~= Seq::<char>::empty());
    while i < v.len()
        invariant
            i <= v.len(),
            h == fingerprint(v@.take(i as int)),
        decreases v.len() - i,
    {
        let c = v[i];
        proof {
            let next = v@.take(i + 1);
            assert(next.drop_last() =~= v@.take(i as int));
            assert(next.last() == c);
        }
        h = (h ^ (c as u32 as u64)).wrapping_mul(0x100_0000_01b3);
        i += 1;
    }
    assert(v@.take(v.len() as int) =~= v@);
    h
}

impl PduV4 {
    /// What identifies the event, written out one part after another: room,
    /// sender, type, state key, redacted event, origin, time, depth,
    /// predecessors, authorizing events, and what a redaction keeps of the
    /// content.
    pub open spec fn identity_text(self) -> Seq<char> {
        Id::<33>::text(self.room_id@) + seq!['|'] + Id::<64>::text(self.sender@) + seq!['|']
            + self.event_content.kind_name() + seq!['|'] + marked(self.state_key) + seq!['|']
            + marked(self.redacts) + seq!['|'] + self.origin@ + seq!['|'] + number_text(
            self.origin_server_ts,
        ) + seq!['|'] + number_text(self.depth) + seq!['|'] + listed(self.prev_events@) + seq!['|']
            + listed(self.auth_events@) + seq!['|'] + kept_text(self.event_content)
    }

    /// The number that the event's identifier is made of.
    pub open spec fn rank(self) -> u64 {
        fingerprint(self.identity_text())
    }

    /// The identifier of the event: `$` and the sixteen hexadecimal digits
    /// of the hash of [`PduV4::identity_text`].
    pub open spec fn derived_id(self) -> Seq<char> {
        seq!['$'] + hex_upper(self.rank() as nat, 16)
    }

    /// Computes [`PduV4::rank`].
    pub fn compute_rank(&self) -> (h: u64)
        ensures
            h == self.rank(),
    {
        let mut v: Vec<char> = Vec::new();
        let room = self.room_id.to_string();
        push_chars(&mut v, room.as_str());
        v.push('|');
        let sender = self.sender.to_string();
        push_chars(&mut v, sender.as_str());
        v.push('|');
        push_chars(&mut v, self.event_content.event_type());
        v.push('|');
        push_marked(&mut v, &self.state_key);
        v.push('|');
        push_marked(&mut v, &self.redacts);
        v.push('|');
        push_chars(&mut v, self.origin.as_str());
        v.push('|');
        push_number(&mut v, self.origin_server_ts);
        v.push('|');
        push_number(&mut v, self.depth);
        v.push('|');
        push_listed(&mut v, &self.prev_events);
        v.push('|');
        push_listed(&mut v, &self.auth_events);
        v.push('|');
        push_kept(&mut v, &self.event_content);
        assert(v@ =~= self.identity_text());
        fingerprint_of(&v)
    }

    pub fn event_id(&self) -> (id: String)
        ensures
            id@ == self.derived_id(),
    {
        let mut v: Vec<char> = Vec::new();
        v.push('$');
        let mut digits = hex_upper_chars(self.compute_rank(), 16);
        v.append(&mut digits);
        assert(v@ =~= self.derived_id());
        assert(v@.subrange(0, v.len() as int) =~= v@);
        string_from_chars(&v, 0, v.len())
    }

    /// What is left of the event after a redaction: its content is reduced,
    /// everything else stays.
    pub open spec fn redacts_to(self, reduced: Self) -> bool {
        &&& self.event_content.redacts_to(reduced.event_content)
        &&& reduced.room_id == self.room_id
        &&& reduced.sender == self.sender
        &&& reduced.state_key == self.state_key
        &&& reduced.unsigned == self.unsigned
        &&& reduced.redacts == self.redacts
        &&& reduced.origin == self.origin
        &&& reduced.origin_server_ts == self.origin_server_ts
        &&& reduced.prev_events == self.prev_events
        &&& reduced.auth_events == self.auth_events
        &&& reduced.depth == self.depth
    }

    pub fn redact(self) -> (r: Self)
        ensures
            self.redacts_to(r),
    {
        PduV4 {
            event_content: self.event_content.redact(),
            room_id: self.room_id,
            sender: self.sender,
            state_key: self.state_key,
            unsigned: self.unsigned,
            redacts: self.redacts,
            origin: self.origin,
            origin_server_ts: self.origin_server_ts,
            prev_events: self.prev_events,
            auth_events: self.auth_events,
            depth: self.depth,
        }
    }

    pub fn into_client_format(self) -> (e: Event)
        ensures
            e.event_content == self.event_content,
            e.event_id@ == self.derived_id(),
            e.sender == self.sender,
            e.state_key == self.state_key,
            e.origin_server_ts == self.origin_server_ts,
            e.unsigned == self.unsigned,
    {
        let event_id = self.event_id();
        Event {
            event_content: self.event_content,
            event_id,
            sender: self.sender,
            state_key: self.state_key,
            origin_server_ts: self.origin_server_ts,
            unsigned: self.unsigned,
        }
    }
}

/// A redaction keeps the identifier of an event: the identifier is made of
/// nothing that a redaction takes away.
pub proof fn lemma_redaction_keeps_the_identifier(pdu: PduV4, reduced: PduV4)
    requires
        pdu.redacts_to(reduced),
    ensures
        reduced.identity_text() == pdu.identity_text(),
        reduced.rank() == pdu.rank(),
        reduced.derived_id() == pdu.derived_id(),
{
    assert(kept_text(reduced.event_content) == kept_text(pdu.event_content));
    assert(reduced.event_content.kind_name() == pdu.event_content.kind_name());
}

/// Getter functions for all non-version-specific fields
impl VersionedPdu {
    /// The event in the representation of version 4.
    pub open spec fn v4(self) -> PduV4 {
        match self {
            VersionedPdu::V4(pdu) => pdu,
        }
    }

    pub fn event_content(&self) -> (r: &EventContent)
        ensures
            *r == self.v4().event_content,
    {
        match self {
            VersionedPdu::V4(pdu) => &pdu.event_content,
        }
    }

    pub fn room_id(&self) -> (r: &RoomId)
        ensures
            *r == self.v4().room_id,
    {
        match self {
            VersionedPdu::V4(pdu) => &pdu.room_id,
        }
    }

    pub fn sender(&self) -> (r: &MatrixId)
        ensures
            *r == self.v4().sender,
    {
        match self {
            VersionedPdu::V4(pdu) => &pdu.sender,
        }
    }

    pub fn state_key(&self) -> (r: Option<&str>)
        ensures
            opt_str_text(r) == opt_text(self.v4().state_key),
    {
        match self {
            VersionedPdu::V4(pdu) => as_deref(&pdu.state_key),
        }
    }

    pub fn unsigned(&self) -> (r: Option<&serde_json::Value>)
        ensures
            match r {
                Some(v) => self.v4().unsigned == Some(*v),
                None => self.v4().unsigned is None,
            },
    {
        match self {
            VersionedPdu::V4(pdu) => pdu.unsigned.as_ref(),
        }
    }

    pub fn redacts(&self) -> (r: Option<&str>)
        ensures
            opt_str_text(r) == opt_text(self.v4().redacts),
    {
        match self {
            VersionedPdu::V4(pdu) => as_deref(&pdu.redacts),
        }
    }

    pub fn origin(&self) -> (r: &Domain)
        ensures
            *r == self.v4().origin,
    {
        match self {
            VersionedPdu::V4(pdu) => &pdu.origin,
        }
    }

    pub fn origin_server_ts(&self) -> (r: i64)
        ensures
            r == self.v4().origin_server_ts,
    {
        match self {
            VersionedPdu::V4(pdu) => pdu.origin_server_ts,
        }
    }

    pub fn prev_events(&self) -> (r: &[String])
        ensures
            r@ == self.v4().prev_events@,
    {
        match self {
            VersionedPdu::V4(pdu) => pdu.prev_events.as_slice(),
        }
    }

    pub fn auth_events(&self) -> (r: &[String])
        ensures
            r@ == self.v4().auth_events@,
    {
        match self {
            VersionedPdu::V4(pdu) => pdu.auth_events.as_slice(),
        }
    }

    pub fn depth(&self) -> (r: i64)
        ensures
            r == self.v4().depth,
    {
        match self {
            VersionedPdu::V4(pdu) => pdu.depth,
        }
    }

    pub fn redact(self) -> (r: Self)
        ensures
            self.v4().redacts_to(r.v4()),
    {
        match self {
            VersionedPdu::V4(pdu) => VersionedPdu::V4(pdu.redact()),
        }
    }

    /// The identifier of the event, derived from the fields that place it in
    /// the room's graph.
    pub fn event_id(&self) -> (id: String)
        ensures
            id@ == self.v4().derived_id(),
    {
        match self {
            VersionedPdu::V4(pdu) => pdu.event_id(),
        }
    }
}

/// Delegations to version-specific functionality
impl VersionedPdu {
    pub fn into_client_format(self) -> (e: Event)
        ensures
            e.event_content == self.v4().event_content,
            e.event_id@ == self.v4().derived_id(),
            e.sender == self.v4().sender,
            e.state_key == self.v4().state_key,
            e.origin_server_ts == self.v4().origin_server_ts,
            e.unsigned == self.v4().unsigned,
    {
        match self {
            VersionedPdu::V4(pdu) => pdu.into_client_format(),
        }
    }
}

} // verus!
