//! The in-memory store: rooms with their timelines, users, access tokens,
//! sync cursors and the ledger of transactions.
//!
//! The store is a plain value. Whoever shares it between requests guards it
//! with a lock, hands in the time where an operation needs it, and watches
//! the revision of a room to learn of changes: every write to a room gives
//! it a new revision.

use vstd::prelude::*;
use crate::error::ErrorKind;
use crate::events::ephemeral::{EphemeralData, Typing};
use crate::events::pdu::StoredPdu;
use crate::events::presence::Status;
use crate::events::EventContent;
use crate::state::texts;
use crate::storage::model::{new_user, next_revision, RoomView, StoreView, UserView};
use crate::storage::{names_user, Batch, BatchView, Storage, UserProfile};
use crate::util::mxid::{IdParts, MatrixId, RoomId};
use crate::util::password::Credential;
use crate::util::table::{Key, Table};
use crate::util::text::same_text;

verus! {

/// A room: its timeline, what is known of it for the moment, and the number
/// of writes it has seen.
#[derive(Debug)]
pub struct Room {
    events: Vec<StoredPdu>,
    ephemeral: Table<String, serde_json::Value>,
    typing: Table<MatrixId, u64>,
    revision: u64,
}

impl View for Room {
    type V = RoomView;

    closed spec fn view(&self) -> RoomView {
        RoomView {
            timeline: self.events@,
            ephemeral: self.ephemeral@,
            typing: self.typing@,
            revision: self.revision,
        }
    }
}

impl Room {
    fn new() -> (r: Self)
        ensures
            r@ == RoomView::empty(),
    {
        Room { events: Vec::new(), ephemeral: Table::new(), typing: Table::new(), revision: 0 }
    }

    fn touch(&mut self)
        ensures
            final(self)@ == (RoomView { revision: next_revision(old(self)@.revision), ..old(self)@ }),
    {
        self.revision = if self.revision == u64::MAX {
            0
        } else {
            self.revision + 1
        };
    }
}

/// A user account.
#[derive(Debug)]
pub struct User {
    username: String,
    password_hash: Credential,
    profile: UserProfile,
    account_data: Table<String, serde_json::Value>,
}

impl View for User {
    type V = UserView;

    closed spec fn view(&self) -> UserView {
        UserView {
            password_hash: self.password_hash@,
            profile: self.profile,
            account_data: self.account_data@,
        }
    }
}

/// Everything the server remembers.
#[derive(Debug)]
pub struct MemStorage {
    rooms: Table<RoomId, Room>,
    users: Table<String, User>,
    access_tokens: Table<u128, String>,
    batches: Table<String, Batch>,
    txn_ids: Table<u128, Vec<String>>,
}

impl View for MemStorage {
    type V = StoreView;

    closed spec fn view(&self) -> StoreView {
        StoreView {
            rooms: Map::new(
                |k: IdParts| self.rooms@.dom().contains(k),
                |k: IdParts| self.rooms@[k]@,
            ),
            users: Map::new(
                |k: Seq<char>| self.users@.dom().contains(k),
                |k: Seq<char>| self.users@[k]@,
            ),
            access_tokens: Map::new(
                |k: u128| self.access_tokens@.dom().contains(k),
                |k: u128| self.access_tokens@[k]@,
            ),
            batches: Map::new(
                |k: Seq<char>| self.batches@.dom().contains(k),
                |k: Seq<char>| self.batches@[k]@,
            ),
            txn_ids: Map::new(
                |k: u128| self.txn_ids@.dom().contains(k),
                |k: u128| texts(self.txn_ids@[k]@).to_set(),
            ),
        }
    }
}

impl User {
    /// A user with nothing set, not even a password: what stands in the
    /// place of a user while that user is being changed.
    fn blank() -> (u: Self)
        ensures
            u@ == new_user(Seq::<char>::empty()),
    {
        User {
            username: String::new(),
            password_hash: Credential::blank(),
            profile: UserProfile { avatar_url: None, displayname: None, status: None },
            account_data: Table::new(),
        }
    }
}

impl Room {
    /// The users who are typing at `now`.
    fn typing_at(&self, now: u64) -> (typing: Typing)
        ensures
            forall|user: IdParts|
                names_user(typing.user_ids@, user) <==> self@.typing_at(now).contains(user),
            forall|i: int, j: int|
                0 <= i < j < typing.user_ids@.len() ==> typing.user_ids@[i]@
                    != typing.user_ids@[j]@,
    {
        let n = self.typing.len();
        proof {
            self.typing.lemma_contents();
        }
        let mut user_ids: Vec<MatrixId> = Vec::new();
        let ghost mut at: Seq<int> = Seq::empty();
        let mut i: usize = 0;
        while i < n
            invariant
                i <= n,
                n == self.typing.keys().len(),
                n == self.typing.values().len(),
                self.typing.keys().no_duplicates(),
                at.len() == user_ids@.len(),
                forall|k: int|
                    0 <= k < at.len() ==> 0 <= (#[trigger] at[k]) < i && user_ids@[k]@
                        == self.typing.keys()[at[k]] && self.typing.values()[at[k]] > now,
                forall|k: int, l: int| 0 <= k < l < at.len() ==> at[k] < at[l],
                forall|j: int|
                    0 <= j < i && self.typing.values()[j] > now ==> exists|k: int|
                        0 <= k < at.len() && #[trigger] at[k] == j,
            decreases n - i,
        {
            if *self.typing.value_at(i) > now {
                user_ids.push(self.typing.key_at(i).duplicate());
                proof {
                    let old_at = at;
                    at = at.push(i as int);
                    assert forall|j: int|
                        0 <= j < i + 1 && self.typing.values()[j] > now implies exists|k: int|
                        0 <= k < at.len() && #[trigger] at[k] == j by {
                        if j < i {
                            let k = choose|k: int| 0 <= k < old_at.len() && #[trigger] old_at[k] == j;
                            assert(at[k] == j);
                        } else {
                            assert(at[old_at.len() as int] == j);
                        }
                    }
                }
            }
            i += 1;
        }
        proof {
            assert forall|user: IdParts|
                names_user(user_ids@, user) <==> self@.typing_at(now).contains(user) by {
                if names_user(user_ids@, user) {
                    let k = choose|k: int| 0 <= k < user_ids@.len() && (#[trigger] user_ids@[k])@ == user;
                    assert(0 <= at[k] < n);
                    assert(self.typing@.dom().contains(self.typing.keys()[at[k]]));
                    assert(self.typing@[self.typing.keys()[at[k]]] == self.typing.values()[at[k]]);
                }
                if self@.typing_at(now).contains(user) {
                    assert(self.typing.keys().contains(user));
                    let j = choose|j: int| 0 <= j < n && self.typing.keys()[j] == user;
                    assert(self.typing@[self.typing.keys()[j]] == self.typing.values()[j]);
                    let k = choose|k: int| 0 <= k < at.len() && #[trigger] at[k] == j;
                    assert(user_ids@[k]@ == user);
                }
            }
            assert forall|i: int, j: int| 0 <= i < j < user_ids@.len() implies user_ids@[i]@
                != user_ids@[j]@ by {
                assert(at[i] < at[j]);
            }
        }
        Typing { user_ids }
    }
}

impl MemStorage {
    /// The identifiers of the rooms in the order in which they were made.
    pub closed spec fn room_ids(self) -> Seq<IdParts> {
        self.rooms.keys()
    }

    /// An empty store.
    pub fn new() -> (s: Self)
        ensures
            s@.rooms == Map::<IdParts, RoomView>::empty(),
            s@.users == Map::<Seq<char>, UserView>::empty(),
            s@.access_tokens == Map::<u128, Seq<char>>::empty(),
            s@.batches == Map::<Seq<char>, BatchView>::empty(),
            s@.txn_ids == Map::<u128, Set<Seq<char>>>::empty(),
            s.room_ids() == Seq::<IdParts>::empty(),
    {
        let s = MemStorage {
            rooms: Table::new(),
            users: Table::new(),
            access_tokens: Table::new(),
            batches: Table::new(),
            txn_ids: Table::new(),
        };
        assert(s@.rooms =~= Map::<IdParts, RoomView>::empty());
        assert(s@.users =~= Map::<Seq<char>, UserView>::empty());
        assert(s@.access_tokens =~= Map::<u128, Seq<char>>::empty());
        assert(s@.batches =~= Map::<Seq<char>, BatchView>::empty());
        assert(s@.txn_ids =~= Map::<u128, Set<Seq<char>>>::empty());
        s
    }

    /// Puts `room` in the place of the room at position `i`.
    fn put_room(&mut self, i: usize, room: Room)
        requires
            i < old(self).rooms.keys().len(),
        ensures
            final(self)@ == (StoreView {
                rooms: old(self)@.rooms.insert(old(self).rooms.keys()[i as int], room@),
                ..old(self)@
            }),
            final(self).rooms.keys() == old(self).rooms.keys(),
    {
        let ghost key = self.rooms.keys()[i as int];
        let _ = self.rooms.swap_value(i, room);
        assert(self@.rooms =~= old(self)@.rooms.insert(key, room@));
    }

    /// Takes the room at position `i` out, leaving an empty room in its place.
    fn take_room(&mut self, i: usize) -> (room: Room)
        requires
            i < old(self).rooms.keys().len(),
            old(self).rooms.keys().no_duplicates(),
        ensures
            room@ == old(self)@.rooms[old(self).rooms.keys()[i as int]],
            old(self)@.rooms.dom().contains(old(self).rooms.keys()[i as int]),
            final(self).rooms.keys() == old(self).rooms.keys(),
            final(self).users == old(self).users,
            final(self).access_tokens == old(self).access_tokens,
            final(self).batches == old(self).batches,
            final(self).txn_ids == old(self).txn_ids,
            forall|k: IdParts|
                #![trigger final(self).rooms@.dom().contains(k)]
                k != old(self).rooms.keys()[i as int] ==> final(self).rooms@.dom().contains(k)
                    == old(self).rooms@.dom().contains(k),
            forall|k: IdParts|
                #![trigger final(self).rooms@[k]]
                k != old(self).rooms.keys()[i as int] ==> final(self).rooms@[k] == old(self).rooms@[k],
            final(self).rooms@.dom().contains(old(self).rooms.keys()[i as int]),
    {
        proof {
            self.rooms.lemma_contents();
        }
        self.rooms.swap_value(i, Room::new())
    }

    /// Takes the user at position `i` out, leaving a blank user in its place.
    fn take_user(&mut self, i: usize) -> (user: User)
        requires
            i < old(self).users.keys().len(),
            old(self).users.keys().no_duplicates(),
        ensures
            user == old(self).users@[old(self).users.keys()[i as int]],
            old(self).users@.dom().contains(old(self).users.keys()[i as int]),
            final(self).users.keys() == old(self).users.keys(),
            final(self).rooms == old(self).rooms,
            final(self).access_tokens == old(self).access_tokens,
            final(self).batches == old(self).batches,
            final(self).txn_ids == old(self).txn_ids,
            forall|k: Seq<char>|
                #![trigger final(self).users@.dom().contains(k)]
                k != old(self).users.keys()[i as int] ==> final(self).users@.dom().contains(k)
                    == old(self).users@.dom().contains(k),
            forall|k: Seq<char>|
                #![trigger final(self).users@[k]]
                k != old(self).users.keys()[i as int] ==> final(self).users@[k] == old(self).users@[k],
            final(self).users@.dom().contains(old(self).users.keys()[i as int]),
    {
        proof {
            self.users.lemma_contents();
        }
        self.users.swap_value(i, User::blank())
    }

    /// Puts `user` in the place of the user at position `i`, where `before`
    /// is the store as it was when that user was taken out.
    fn put_user(&mut self, i: usize, user: User, Ghost(before): Ghost<MemStorage>)
        requires
            i < old(self).users.keys().len(),
            before.users.keys() == old(self).users.keys(),
            before.users.keys().no_duplicates(),
            before.rooms == old(self).rooms,
            before.access_tokens == old(self).access_tokens,
            before.batches == old(self).batches,
            before.txn_ids == old(self).txn_ids,
            forall|k: Seq<char>|
                #![trigger old(self).users@.dom().contains(k)]
                k != before.users.keys()[i as int] ==> old(self).users@.dom().contains(k)
                    == before.users@.dom().contains(k),
            forall|k: Seq<char>|
                #![trigger old(self).users@[k]]
                k != before.users.keys()[i as int] ==> old(self).users@[k] == before.users@[k],
            before.users@.dom().contains(before.users.keys()[i as int]),
        ensures
            final(self)@ == (StoreView {
                users: before@.users.insert(before.users.keys()[i as int], user@),
                ..before@
            }),
    {
        let ghost key = before.users.keys()[i as int];
        let _ = self.users.swap_value(i, user);
        proof {
            let want = before@.users.insert(key, user@);
            assert forall|k: Seq<char>| self@.users.dom().contains(k) <==> want.dom().contains(
                k,
            ) by {
                if k != key {
                    assert(old(self).users@.dom().contains(k) == before.users@.dom().contains(k));
                }
            }
            assert forall|k: Seq<char>| want.dom().contains(k) implies #[trigger] self@.users[k]
                == want[k] by {
                if k != key {
                    assert(old(self).users@[k] == before.users@[k]);
                }
            }
            assert(self@.users =~= want);
            assert(self@.rooms =~= before@.rooms);
            assert(self@.access_tokens =~= before@.access_tokens);
            assert(self@.batches =~= before@.batches);
            assert(self@.txn_ids =~= before@.txn_ids);
        }
    }
}

impl Storage for MemStorage {
    open spec fn state(&self) -> StoreView {
        self@
    }

    open spec fn room_order(&self) -> Seq<IdParts> {
        self.room_ids()
    }

    fn add_pdu(&mut self, pdu: StoredPdu) -> (r: Result<(), ErrorKind>)
    {
        let ghost room_id = StoreView::room_of(pdu);
        let found = self.rooms.position(pdu.inner().room_id());
        match found {
            Some(i) => {
                let _ = self.rooms.len();
                let mut room = self.take_room(i);
                let ghost mid = *self;
                let ghost taken = room@;
                room.events.push(pdu);
                room.touch();
                let ghost made = room@;
                self.put_room(i, room);
                proof {
                    let after = old(self)@.after_adding(pdu)->Some_0;
                    assert(old(self).rooms.keys()[i as int] == room_id);
                    assert(taken == old(self)@.rooms[room_id]);
                    assert(made == taken.appended(pdu));
                    assert(self@.rooms == mid@.rooms.insert(room_id, made));
                    assert forall|k: IdParts| after.rooms.dom().contains(k) implies #[trigger] self@.rooms[k]
                        == after.rooms[k] by {
                        if k != room_id {
                            assert(mid.rooms@[k] == old(self).rooms@[k]);
                        }
                    }
                    assert forall|k: IdParts|
                        self@.rooms.dom().contains(k) <==> after.rooms.dom().contains(k) by {
                        if k != room_id {
                            assert(mid.rooms@.dom().contains(k) == old(self).rooms@.dom().contains(
                                k,
                            ));
                            assert(mid@.rooms.dom().contains(k) == mid.rooms@.dom().contains(k));
                            assert(old(self)@.rooms.dom().contains(k) == old(self).rooms@.dom().contains(k));
                        }
                    }
                    assert(self@.rooms =~= after.rooms);
                    assert(self@.users =~= after.users);
                    assert(self@.access_tokens =~= after.access_tokens);
                    assert(self@.batches =~= after.batches);
                    assert(self@.txn_ids =~= after.txn_ids);
                }
                Ok(())
            },
            None => {
                let is_create = match pdu.event_content() {
                    EventContent::Create(_) => true,
                    _ => false,
                };
                if !is_create {
                    return Err(ErrorKind::RoomNotFound);
                }
                let key = pdu.inner().room_id().duplicate();
                let mut room = Room::new();
                room.events.push(pdu);
                room.touch();
                let ghost made = room@;
                self.rooms.insert(key, room);
                proof {
                    let after = old(self)@.after_adding(pdu)->Some_0;
                    assert(made == RoomView::empty().appended(pdu));
                    assert(self@.rooms =~= after.rooms);
                    assert(self@.users =~= after.users);
                    assert(self@.access_tokens =~= after.access_tokens);
                    assert(self@.batches =~= after.batches);
                    assert(self@.txn_ids =~= after.txn_ids);
                }
                Ok(())
            },
        }
    }

    fn get_rooms(&self) -> (ids: Vec<RoomId>)
    {
        let n = self.rooms.len();
        proof {
            self.rooms.lemma_contents();
        }
        let mut ids: Vec<RoomId> = Vec::new();
        let mut i: usize = 0;
        while i < n
            invariant
                i <= n,
                n == self.rooms.keys().len(),
                ids@.len() == i,
                forall|j: int| 0 <= j < i ==> (#[trigger] ids@[j])@ == self.rooms.keys()[j],
            decreases n - i,
        {
            ids.push(self.rooms.key_at(i).duplicate());
            i += 1;
        }
        ids
    }

    fn timeline_of<'a>(&'a self, room_id: &RoomId) -> (r: Option<&'a Vec<StoredPdu>>)
    {
        match self.rooms.get(room_id) {
            Some(room) => Some(&room.events),
            None => None,
        }
    }

    fn room_revision(&self, room_id: &RoomId) -> (r: Option<u64>)
    {
        match self.rooms.get(room_id) {
            Some(room) => Some(room.revision),
            None => None,
        }
    }

    fn create_user_with_salt(&mut self, username: &str, password: &str, salt: &[u8]) -> (r:
        Result<(), ErrorKind>)
    {
        let password_hash = match Credential::new(password, salt) {
            Some(hash) => hash,
            None => {
                return Err(ErrorKind::Unknown("the password could not be hashed".to_owned()));
            },
        };
        if self.users.position_of_text(username).is_some() {
            return Err(ErrorKind::UsernameTaken);
        }
        let user = User {
            username: username.to_owned(),
            password_hash,
            profile: UserProfile { avatar_url: None, displayname: None, status: None },
            account_data: Table::new(),
        };
        self.users.insert(username.to_owned(), user);
        proof {
            assert(user@ == new_user(password_hash@));
            let want = old(self)@.users.insert(username@, user@);
            assert(self@.users =~= want);
            assert(self@.rooms =~= old(self)@.rooms);
            assert(self@.access_tokens =~= old(self)@.access_tokens);
            assert(self@.batches =~= old(self)@.batches);
            assert(self@.txn_ids =~= old(self)@.txn_ids);
        }
        Ok(())
    }

    fn verify_password(&self, username: &str, password: &str) -> (ok: bool)
    {
        match self.users.get_text(username) {
            Some(user) => user.password_hash.verifies(password),
            None => false,
        }
    }

    fn bind_access_token(&mut self, token: u128, username: &str) -> (r: Result<(), ErrorKind>)
    {
        if self.users.position_of_text(username).is_none() {
            return Err(ErrorKind::UserNotFound);
        }
        self.access_tokens.insert(token, username.to_owned());
        proof {
            assert(self@.access_tokens =~= old(self)@.access_tokens.insert(token, username@));
            assert(self@.rooms =~= old(self)@.rooms);
            assert(self@.users =~= old(self)@.users);
            assert(self@.batches =~= old(self)@.batches);
            assert(self@.txn_ids =~= old(self)@.txn_ids);
        }
        Ok(())
    }

    fn delete_access_token(&mut self, token: u128)
    {
        let _ = self.access_tokens.remove(&token);
        proof {
            assert(self@.access_tokens =~= old(self)@.access_tokens.remove(token));
            assert(self@.rooms =~= old(self)@.rooms);
            assert(self@.users =~= old(self)@.users);
            assert(self@.batches =~= old(self)@.batches);
            assert(self@.txn_ids =~= old(self)@.txn_ids);
        }
    }

    fn delete_all_access_tokens(&mut self, token: u128)
    {
        let username = match self.access_tokens.get(&token) {
            Some(name) => name.clone(),
            None => {
                return ;
            },
        };
        let n = self.access_tokens.len();
        proof {
            self.access_tokens.lemma_contents();
        }
        let mut kept: Table<u128, String> = Table::new();
        let mut i: usize = 0;
        while i < n
            invariant
                i <= n,
                n == self.access_tokens.keys().len(),
                n == self.access_tokens.values().len(),
                self.access_tokens.keys().no_duplicates(),
                forall|j: int|
                    0 <= j < n ==> self.access_tokens@.dom().contains(
                        #[trigger] self.access_tokens.keys()[j],
                    ) && self.access_tokens@[self.access_tokens.keys()[j]]
                        == self.access_tokens.values()[j],
                forall|k: u128|
                    kept@.dom().contains(k) <==> exists|j: int|
                        0 <= j < i && self.access_tokens.keys()[j] == k
                            && self.access_tokens.values()[j]@ != username@,
                forall|k: u128|
                    kept@.dom().contains(k) ==> (#[trigger] kept@[k])@ == self.access_tokens@[k]@,
            decreases n - i,
        {
            let name = self.access_tokens.value_at(i);
            let ghost before = kept@;
            if !same_text(name.as_str(), username.as_str()) {
                let key = *self.access_tokens.key_at(i);
                kept.insert(key, name.clone());
                proof {
                    assert forall|k: u128|
                        kept@.dom().contains(k) <==> exists|j: int|
                            0 <= j < i + 1 && self.access_tokens.keys()[j] == k
                                && self.access_tokens.values()[j]@ != username@ by {
                        if kept@.dom().contains(k) && k != key {
                            assert(before.dom().contains(k));
                        }
                    }
                }
            }
            i += 1;
        }
        proof {
            let want = old(self)@.tokens_without(username@);
            assert forall|k: u128| kept@.dom().contains(k) <==> want.dom().contains(k) by {
                if want.dom().contains(k) {
                    assert(self.access_tokens.keys().contains(k));
                    let j = choose|j: int| 0 <= j < n && self.access_tokens.keys()[j] == k;
                    assert(self.access_tokens@[self.access_tokens.keys()[j]]
                        == self.access_tokens.values()[j]);
                }
                if kept@.dom().contains(k) {
                    let j = choose|j: int|
                        0 <= j < i && self.access_tokens.keys()[j] == k
                            && self.access_tokens.values()[j]@ != username@;
                    assert(self.access_tokens@[self.access_tokens.keys()[j]]
                        == self.access_tokens.values()[j]);
                }
            }
        }
        self.access_tokens = kept;
        proof {
            let want = old(self)@.tokens_without(username@);
            assert(self@.access_tokens =~= want);
            assert(self@.rooms =~= old(self)@.rooms);
            assert(self@.users =~= old(self)@.users);
            assert(self@.batches =~= old(self)@.batches);
            assert(self@.txn_ids =~= old(self)@.txn_ids);
        }
    }

    fn try_auth(&self, token: u128) -> (r: Option<String>)
    {
        match self.access_tokens.get(&token) {
            Some(name) => Some(name.clone()),
            None => None,
        }
    }

    fn record_txn(&mut self, token: u128, txn_id: String) -> (first: bool)
    {
        let ghost id = txn_id@;
        let found = self.txn_ids.position(&token);
        let _ = self.txn_ids.len();
        proof {
            self.txn_ids.lemma_contents();
        }
        let mut seen = match found {
            Some(i) => self.txn_ids.swap_value(i, Vec::new()),
            None => Vec::new(),
        };
        let ghost before = texts(seen@);
        assert(before.to_set() =~= old(self)@.transactions(token)) by {
            if found is None {
                assert(before =~= Seq::<Seq<char>>::empty());
            }
        }
        let mut known = false;
        let mut j: usize = 0;
        while j < seen.len()
            invariant
                j <= seen.len(),
                before == texts(seen@),
                known == exists|k: int| 0 <= k < j && before[k] == id,
                id == txn_id@,
            decreases seen.len() - j,
        {
            let ghost was = known;
            if same_text(seen[j].as_str(), txn_id.as_str()) {
                known = true;
            }
            proof {
                assert(before[j as int] == seen@[j as int]@);
                if known && !was {
                    assert(0 <= j < j + 1 && before[j as int] == id);
                }
                if exists|k: int| 0 <= k < j + 1 && before[k] == id {
                    let k = choose|k: int| 0 <= k < j + 1 && before[k] == id;
                    if k < j {
                        assert(was);
                    }
                }
            }
            j += 1;
        }
        assert(known == before.to_set().contains(id)) by {
            if before.to_set().contains(id) {
                assert(before.contains(id));
            }
            if known {
                let k = choose|k: int| 0 <= k < j && before[k] == id;
                assert(before.contains(id));
            }
        }
        if !known {
            seen.push(txn_id);
        }
        proof {
            let after = texts(seen@);
            assert(after.to_set() =~= before.to_set().insert(id)) by {
                assert forall|t: Seq<char>| after.to_set().contains(t) <==> before.to_set().insert(
                    id,
                ).contains(t) by {
                    if after.contains(t) {
                        let k = choose|k: int| 0 <= k < after.len() && after[k] == t;
                        if k < before.len() {
                            assert(before[k] == t);
                            assert(before.contains(t));
                        }
                    }
                    if before.contains(t) {
                        let k = choose|k: int| 0 <= k < before.len() && before[k] == t;
                        assert(after[k] == t);
                    }
                    if t == id && !known {
                        assert(after[after.len() - 1] == t);
                    }
                }
            }
        }
        let ghost recorded = texts(seen@).to_set();
        match found {
            Some(i) => {
                let _ = self.txn_ids.swap_value(i, seen);
            },
            None => {
                let _ = self.txn_ids.insert(token, seen);
            },
        }
        proof {
            assert(self@.txn_ids =~= old(self)@.txn_ids.insert(token, recorded));
            assert(self@.rooms =~= old(self)@.rooms);
            assert(self@.users =~= old(self)@.users);
            assert(self@.batches =~= old(self)@.batches);
            assert(self@.access_tokens =~= old(self)@.access_tokens);
        }
        !known
    }

    fn get_batch(&self, id: &str) -> (r: Option<&Batch>)
    {
        self.batches.get_text(id)
    }

    fn set_batch(&mut self, id: &str, batch: Batch)
    {
        let _ = self.batches.insert(id.to_owned(), batch);
        proof {
            assert(self@.batches =~= old(self)@.batches.insert(id@, batch@));
            assert(self@.rooms =~= old(self)@.rooms);
            assert(self@.users =~= old(self)@.users);
            assert(self@.txn_ids =~= old(self)@.txn_ids);
            assert(self@.access_tokens =~= old(self)@.access_tokens);
        }
    }

    fn get_profile(&self, username: &str) -> (r: Option<&UserProfile>)
    {
        match self.users.get_text(username) {
            Some(user) => Some(&user.profile),
            None => None,
        }
    }

    fn overwrite_profile(&mut self, username: &str, profile: UserProfile) -> (r: Result<
        (),
        ErrorKind,
    >)
    {
        let i = match self.users.position_of_text(username) {
            Some(i) => i,
            None => {
                return Err(ErrorKind::UserNotFound);
            },
        };
        let _ = self.users.len();
        let ghost before = *self;
        let mut user = self.take_user(i);
        user.profile = profile;
        self.put_user(i, user, Ghost(before));
        Ok(())
    }

    fn set_avatar_url(&mut self, username: &str, avatar_url: &str) -> (r: Result<(), ErrorKind>)
    {
        let i = match self.users.position_of_text(username) {
            Some(i) => i,
            None => {
                return Err(ErrorKind::UserNotFound);
            },
        };
        let _ = self.users.len();
        let ghost before = *self;
        let mut user = self.take_user(i);
        user.profile.avatar_url = Some(avatar_url.to_owned());
        self.put_user(i, user, Ghost(before));
        Ok(())
    }

    fn set_display_name(&mut self, username: &str, display_name: &str) -> (r: Result<
        (),
        ErrorKind,
    >)
    {
        let i = match self.users.position_of_text(username) {
            Some(i) => i,
            None => {
                return Err(ErrorKind::UserNotFound);
            },
        };
        let _ = self.users.len();
        let ghost before = *self;
        let mut user = self.take_user(i);
        user.profile.displayname = Some(display_name.to_owned());
        self.put_user(i, user, Ghost(before));
        Ok(())
    }

    fn set_status(&mut self, username: &str, status: Status) -> (r: Result<(), ErrorKind>)
    {
        let i = match self.users.position_of_text(username) {
            Some(i) => i,
            None => {
                return Err(ErrorKind::UserNotFound);
            },
        };
        let _ = self.users.len();
        let ghost before = *self;
        let mut user = self.take_user(i);
        user.profile.status = Some(status);
        self.put_user(i, user, Ghost(before));
        Ok(())
    }

    fn set_user_account_data(
        &mut self,
        username: &str,
        data: Table<String, serde_json::Value>,
    ) -> (r: Result<(), ErrorKind>)
    {
        let i = match self.users.position_of_text(username) {
            Some(i) => i,
            None => {
                return Err(ErrorKind::NotFound);
            },
        };
        let _ = self.users.len();
        let ghost before = *self;
        let mut user = self.take_user(i);
        user.account_data = data;
        self.put_user(i, user, Ghost(before));
        Ok(())
    }

    fn set_user_account_data_value(
        &mut self,
        username: &str,
        key: String,
        value: serde_json::Value,
    ) -> (r: Result<(), ErrorKind>)
    {
        let i = match self.users.position_of_text(username) {
            Some(i) => i,
            None => {
                return Err(ErrorKind::NotFound);
            },
        };
        let _ = self.users.len();
        let ghost before = *self;
        let mut user = self.take_user(i);
        let _ = user.account_data.insert(key, value);
        self.put_user(i, user, Ghost(before));
        Ok(())
    }

    fn get_user_account_data_value(&self, username: &str, key: &str) -> (r: Option<
        &serde_json::Value,
    >)
    {
        match self.users.get_text(username) {
            Some(user) => user.account_data.get_text(key),
            None => None,
        }
    }

    fn get_user_account_data(&self, username: &str) -> (r: Option<
        &Table<String, serde_json::Value>,
    >)
    {
        match self.users.get_text(username) {
            Some(user) => Some(&user.account_data),
            None => None,
        }
    }

    fn get_all_ephemeral<'a>(&'a self, room_id: &RoomId, now: u64) -> (r: Result<
        (&'a Table<String, serde_json::Value>, Typing),
        ErrorKind,
    >)
    {
        match self.rooms.get(room_id) {
            Some(room) => Ok((&room.ephemeral, room.typing_at(now))),
            None => Err(ErrorKind::RoomNotFound),
        }
    }

    fn get_ephemeral<'a>(&'a self, room_id: &RoomId, kind: &str, now: u64) -> (r: Result<
        Option<EphemeralData<'a>>,
        ErrorKind,
    >)
    {
        let room = match self.rooms.get(room_id) {
            Some(room) => room,
            None => {
                return Err(ErrorKind::RoomNotFound);
            },
        };
        if same_text(kind, "m.typing") {
            return Ok(Some(EphemeralData::Typing(room.typing_at(now))));
        }
        match room.ephemeral.get_text(kind) {
            Some(data) => Ok(Some(EphemeralData::Data(data))),
            None => Ok(None),
        }
    }

    fn set_ephemeral(&mut self, room_id: &RoomId, kind: &str, content: Option<serde_json::Value>) -> (r: Result<(), ErrorKind>)
    {
        if same_text(kind, "m.typing") {
            return Err(ErrorKind::BadJson("m.typing should not be set directly".to_owned()));
        }
        let i = match self.rooms.position(room_id) {
            Some(i) => i,
            None => {
                return Err(ErrorKind::RoomNotFound);
            },
        };
        let _ = self.rooms.len();
        let mut room = self.take_room(i);
        let ghost mid = *self;
        match content {
            Some(c) => {
                let _ = room.ephemeral.insert(kind.to_owned(), c);
            },
            None => {
                let _ = room.ephemeral.remove(&kind.to_owned());
            },
        }
        room.touch();
        let ghost made = room@;
        self.put_room(i, room);
        proof {
            let want = old(self)@.rooms.insert(room_id@, made);
            assert forall|k: IdParts| self@.rooms.dom().contains(k) <==> want.dom().contains(k) by {
                if k != room_id@ {
                    assert(mid.rooms@.dom().contains(k) == old(self).rooms@.dom().contains(k));
                }
            }
            assert forall|k: IdParts| want.dom().contains(k) implies #[trigger] self@.rooms[k]
                == want[k] by {
                if k != room_id@ {
                    assert(mid.rooms@[k] == old(self).rooms@[k]);
                }
            }
            assert(self@.rooms =~= want);
            assert(self@.users =~= old(self)@.users);
            assert(self@.access_tokens =~= old(self)@.access_tokens);
            assert(self@.batches =~= old(self)@.batches);
            assert(self@.txn_ids =~= old(self)@.txn_ids);
        }
        Ok(())
    }

    fn set_typing(&mut self, room_id: &RoomId, user_id: &MatrixId, is_typing: bool, timeout: u32, now: u64) -> (r: Result<(), ErrorKind>)
    {
        let i = match self.rooms.position(room_id) {
            Some(i) => i,
            None => {
                return Err(ErrorKind::RoomNotFound);
            },
        };
        let _ = self.rooms.len();
        let mut room = self.take_room(i);
        let ghost mid = *self;
        if is_typing {
            let expiry = if now > u64::MAX - (timeout as u64) {
                u64::MAX
            } else {
                now + timeout as u64
            };
            let _ = room.typing.insert(user_id.duplicate(), expiry);
        } else {
            let _ = room.typing.remove(user_id);
        }
        room.touch();
        let ghost made = room@;
        self.put_room(i, room);
        proof {
            let want = old(self)@.rooms.insert(room_id@, made);
            assert forall|k: IdParts| self@.rooms.dom().contains(k) <==> want.dom().contains(k) by {
                if k != room_id@ {
                    assert(mid.rooms@.dom().contains(k) == old(self).rooms@.dom().contains(k));
                }
            }
            assert forall|k: IdParts| want.dom().contains(k) implies #[trigger] self@.rooms[k]
                == want[k] by {
                if k != room_id@ {
                    assert(mid.rooms@[k] == old(self).rooms@[k]);
                }
            }
            assert(self@.rooms =~= want);
            assert(self@.users =~= old(self)@.users);
            assert(self@.access_tokens =~= old(self)@.access_tokens);
            assert(self@.batches =~= old(self)@.batches);
            assert(self@.txn_ids =~= old(self)@.txn_ids);
        }
        Ok(())
    }
}

} // verus!
