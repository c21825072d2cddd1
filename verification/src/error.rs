//! The errors that the library reports.

use vstd::prelude::*;
use crate::util::storage::{AddEventError, AddEventErrorView};

verus! {

/// Every kind of failure that a request can end in.
#[derive(Debug)]
pub enum ErrorKind {
    /// The room does not exist.
    RoomNotFound,
    /// The user does not exist.
    UserNotFound,
    /// A user of that name exists already.
    UsernameTaken,
    /// A profile field, a state event or an account data key is missing.
    NotFound,
    /// The transaction was submitted before.
    TxnIdExists,
    /// The request carries no access token.
    MissingToken,
    /// The access token is not known.
    UnknownToken,
    /// The caller is known but may not do this.
    Forbidden,
    /// The request is malformed.
    BadJson(String),
    /// The feature is part of the protocol but not supported.
    Unimplemented,
    /// The event may not be added to the room.
    AddEvent(AddEventError),
    /// Any other failure.
    Unknown(String),
}

/// An [`ErrorKind`] with its texts as sequences of characters.
pub enum ErrorKindView {
    RoomNotFound,
    UserNotFound,
    UsernameTaken,
    NotFound,
    TxnIdExists,
    MissingToken,
    UnknownToken,
    Forbidden,
    BadJson(Seq<char>),
    Unimplemented,
    AddEvent(AddEventErrorView),
    Unknown(Seq<char>),
}

impl View for ErrorKind {
    type V = ErrorKindView;

    open spec fn view(&self) -> ErrorKindView {
        match self {
            ErrorKind::RoomNotFound => ErrorKindView::RoomNotFound,
            ErrorKind::UserNotFound => ErrorKindView::UserNotFound,
            ErrorKind::UsernameTaken => ErrorKindView::UsernameTaken,
            ErrorKind::NotFound => ErrorKindView::NotFound,
            ErrorKind::TxnIdExists => ErrorKindView::TxnIdExists,
            ErrorKind::MissingToken => ErrorKindView::MissingToken,
            ErrorKind::UnknownToken => ErrorKindView::UnknownToken,
            ErrorKind::Forbidden => ErrorKindView::Forbidden,
            ErrorKind::BadJson(detail) => ErrorKindView::BadJson(detail@),
            ErrorKind::Unimplemented => ErrorKindView::Unimplemented,
            ErrorKind::AddEvent(e) => ErrorKindView::AddEvent(e@),
            ErrorKind::Unknown(detail) => ErrorKindView::Unknown(detail@),
        }
    }
}

/// Whether `r` failed with an error that reads `expected`.
pub open spec fn fails_with<T>(r: Result<T, ErrorKind>, expected: ErrorKindView) -> bool {
    r matches Err(e) && e@ == expected
}

} // verus!
