//! Candidate events and the reasons for refusing one.

use vstd::prelude::*;
use crate::events::EventContent;
use crate::util::mxid::MatrixId;

verus! {

/// An event that a client asks to have added to a room.
#[derive(Debug)]
pub struct NewEvent {
    pub event_content: EventContent,
    pub sender: MatrixId,
    pub state_key: Option<String>,
    pub redacts: Option<String>,
    pub unsigned: Option<serde_json::Value>,
}

/// Why an event may not be added to a room.
#[derive(Debug)]
pub enum AddEventError {
    /// A user tried to send an event to a room which they are not in.
    UserNotInRoom,
    /// A user tried to join a room from which they are banned.
    UserBanned,
    /// A user tried to join a private room to which they were not invited.
    UserNotInvited,
    /// A user tried to send an event to a room which does not exist.
    RoomNotFound,
    /// The user does not have the required power level to send this event.
    InsufficientPowerLevel,
    /// The event to be added was invalid.
    InvalidEvent(String),
}

/// An [`AddEventError`] with its text as a sequence of characters.
pub enum AddEventErrorView {
    UserNotInRoom,
    UserBanned,
    UserNotInvited,
    RoomNotFound,
    InsufficientPowerLevel,
    InvalidEvent(Seq<char>),
}

impl View for AddEventError {
    type V = AddEventErrorView;

    open spec fn view(&self) -> AddEventErrorView {
        match self {
            AddEventError::UserNotInRoom => AddEventErrorView::UserNotInRoom,
            AddEventError::UserBanned => AddEventErrorView::UserBanned,
            AddEventError::UserNotInvited => AddEventErrorView::UserNotInvited,
            AddEventError::RoomNotFound => AddEventErrorView::RoomNotFound,
            AddEventError::InsufficientPowerLevel => AddEventErrorView::InsufficientPowerLevel,
            AddEventError::InvalidEvent(reason) => AddEventErrorView::InvalidEvent(reason@),
        }
    }
}

impl AddEventErrorView {
    /// The message shown for the error.
    pub open spec fn message(self) -> Seq<char> {
        match self {
            AddEventErrorView::UserNotInRoom =>
                "A user tried to send an event to a room which they are not in."@,
            AddEventErrorView::UserBanned =>
                "A user tried to join a room from which they are banned."@,
            AddEventErrorView::UserNotInvited =>
                "A user tried to join a private room to which they were not invited."@,
            AddEventErrorView::RoomNotFound =>
                "A user tried to send an event to a room which does not exist."@,
            AddEventErrorView::InsufficientPowerLevel =>
                "The user does not have the required power level to send this event."@,
            AddEventErrorView::InvalidEvent(reason) => "The event to be added was invalid."@,
        }
    }
}

impl AddEventError {
    pub fn to_string(&self) -> (s: String)
        ensures
            s@ == self@.message(),
    {
        match self {
            AddEventError::UserNotInRoom =>
                "A user tried to send an event to a room which they are not in.".to_owned(),
            AddEventError::UserBanned =>
                "A user tried to join a room from which they are banned.".to_owned(),
            AddEventError::UserNotInvited =>
                "A user tried to join a private room to which they were not invited.".to_owned(),
            AddEventError::RoomNotFound =>
                "A user tried to send an event to a room which does not exist.".to_owned(),
            AddEventError::InsufficientPowerLevel =>
                "The user does not have the required power level to send this event.".to_owned(),
            AddEventError::InvalidEvent(_) => "The event to be added was invalid.".to_owned(),
        }
    }
}

} // verus!
