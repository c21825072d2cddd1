//! Typing notifications.

use vstd::prelude::*;
use crate::storage::Storage;
use crate::error::{fails_with, ErrorKind, ErrorKindView};
use crate::storage::model::StoreView;
use crate::util::domain::Domain;
use crate::util::mxid::{MatrixId, RoomId};

verus! {

#[derive(Clone, Copy, Debug)]
pub struct TypingRequest {
    pub typing: bool,
    pub timeout: u32,
}

/// Records at `now` that `user_id` is or is not typing in `room_id`. Only
/// the user `username` of this server who made the request can say so of
/// themselves.
pub fn typing<S: Storage>(
    store: &mut S,
    domain: &Domain,
    username: &str,
    room_id: &RoomId,
    user_id: &MatrixId,
    req: &TypingRequest,
    now: u64,
) -> (r: Result<(), ErrorKind>)
    ensures
        if user_id@.localpart != username@ || user_id@.domain != domain@ {
            fails_with(r, ErrorKindView::Forbidden) && final(store).state() == old(store).state()
        } else if !old(store).state().rooms.dom().contains(room_id@) {
            fails_with(r, ErrorKindView::RoomNotFound) && final(store).state() == old(store).state()
        } else {
            r is Ok && final(store).state() == (StoreView {
                rooms: old(store).state().rooms.insert(
                    room_id@,
                    old(store).state().rooms[room_id@].with_typing(user_id@, req.typing, req.timeout, now),
                ),
                ..old(store).state()
            })
        },
{
    if !user_id.localpart_is(username) || !user_id.domain_is(domain.as_str()) {
        return Err(ErrorKind::Forbidden);
    }
    store.set_typing(room_id, user_id, req.typing, req.timeout, now)
}

} // verus!
