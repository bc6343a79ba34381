//! What can go wrong with a subscription.

use crate::api::error::{message_of, ErrorView};
use vstd::prelude::*;

verus! {

/// The errors of the supervisor.
#[derive(Debug)]
pub enum Error {
    /// The client failed.
    RchanApi(crate::api::error::Error),
    /// The board has a worker already.
    AlreadySubscribed(String),
    /// The boards listing has no board of that name.
    BoardNotFound(String),
    InvalidResponse,
}

/// An `Error` as a mathematical value.
pub ghost enum StreamErrorView {
    RchanApi(ErrorView),
    AlreadySubscribed(Seq<char>),
    BoardNotFound(Seq<char>),
    InvalidResponse,
}

impl View for Error {
    type V = StreamErrorView;

    open spec fn view(&self) -> StreamErrorView {
        match self {
            Error::RchanApi(e) => StreamErrorView::RchanApi(e@),
            Error::AlreadySubscribed(text) => StreamErrorView::AlreadySubscribed(text@),
            Error::BoardNotFound(text) => StreamErrorView::BoardNotFound(text@),
            Error::InvalidResponse => StreamErrorView::InvalidResponse,
        }
    }
}

/// The text that describes an error.
pub open spec fn stream_message_of(error: StreamErrorView) -> Seq<char> {
    match error {
        StreamErrorView::RchanApi(e) => "Rchan API error: "@ + message_of(e),
        StreamErrorView::AlreadySubscribed(text) => "Already subscribed to board: "@ + text,
        StreamErrorView::BoardNotFound(text) => "Board not found: "@ + text,
        StreamErrorView::InvalidResponse => "Invalid Response"@,
    }
}

impl Error {
    /// The error for a board that has a worker already.
    pub fn already_subscribed() -> (r: Error)
        ensures
            r@ == StreamErrorView::AlreadySubscribed("Board already subscribed"@),
    {
        Error::AlreadySubscribed(String::from_str("Board already subscribed"))
    }

    /// The error for a board that the listing does not hold.
    pub fn board_not_found() -> (r: Error)
        ensures
            r@ == StreamErrorView::BoardNotFound("Board not found"@),
    {
        Error::BoardNotFound(String::from_str("Board not found"))
    }

    /// A failure of the client as a failure of the supervisor.
    pub fn from_api(error: crate::api::error::Error) -> (r: Error)
        ensures
            r == Error::RchanApi(error),
    {
        Error::RchanApi(error)
    }

    /// The text that describes the error.
    pub fn to_string(&self) -> (r: String)
        ensures
            r@ == stream_message_of(self@),
    {
        match self {
            Error::RchanApi(e) => {
                let inner = e.to_string();
                String::from_str("Rchan API error: ").concat(inner.as_str())
            },
            Error::AlreadySubscribed(text) => String::from_str(
                "Already subscribed to board: ",
            ).concat(text.as_str()),
            Error::BoardNotFound(text) => String::from_str("Board not found: ").concat(
                text.as_str(),
            ),
            Error::InvalidResponse => String::from_str("Invalid Response"),
        }
    }
}

} // verus!
