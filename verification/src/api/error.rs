//! What can go wrong with a request.

use crate::api::endpoint::{append_decimal, decimal_of};
use vstd::prelude::*;

verus! {

/// The errors of the client.
#[derive(Debug)]
pub enum Error {
    /// The transport failed; the text is the transport's own.
    Transport(String),
    /// A body could not be decoded; the text is the decoder's own.
    Decode(String),
    /// The retry cap was hit.
    MaxRetriesExceeded(String),
    /// The upstream answered with a status other than 200 and 304; the text
    /// is the status in decimal.
    StatusCode(String),
    /// An event could not be handed on.
    Stream(String),
    /// The body did not have the shape of its endpoint, or a 304 arrived
    /// for which nothing is cached.
    InvalidResponse,
    /// Nothing is cached for the endpoint.
    NoCachedResponse,
}

/// An `Error` as a mathematical value.
pub ghost enum ErrorView {
    Transport(Seq<char>),
    Decode(Seq<char>),
    MaxRetriesExceeded(Seq<char>),
    StatusCode(Seq<char>),
    Stream(Seq<char>),
    InvalidResponse,
    NoCachedResponse,
}

impl View for Error {
    type V = ErrorView;

    open spec fn view(&self) -> ErrorView {
        match self {
            Error::Transport(text) => ErrorView::Transport(text@),
            Error::Decode(text) => ErrorView::Decode(text@),
            Error::MaxRetriesExceeded(text) => ErrorView::MaxRetriesExceeded(text@),
            Error::StatusCode(code) => ErrorView::StatusCode(code@),
            Error::Stream(text) => ErrorView::Stream(text@),
            Error::InvalidResponse => ErrorView::InvalidResponse,
            Error::NoCachedResponse => ErrorView::NoCachedResponse,
        }
    }
}

/// The text that describes an error.
pub open spec fn message_of(error: ErrorView) -> Seq<char> {
    match error {
        ErrorView::Transport(text) => "Transport error: "@ + text,
        ErrorView::Decode(text) => "Decode error: "@ + text,
        ErrorView::MaxRetriesExceeded(text) => "Max retries exceeded: "@ + text,
        ErrorView::StatusCode(code) => "Status code: "@ + code,
        ErrorView::Stream(text) => "Stream error: "@ + text,
        ErrorView::InvalidResponse => "Invalid response"@,
        ErrorView::NoCachedResponse => "No cached response"@,
    }
}

impl Error {
    /// The error for a status that is neither 200 nor 304.
    pub fn status(code: u16) -> (r: Error)
        ensures
            r@ == ErrorView::StatusCode(decimal_of(code as int)),
    {
        let mut text = String::new();
        append_decimal(&mut text, code as i32);
        assert(text@ =~= decimal_of(code as int));
        Error::StatusCode(text)
    }

    /// Whether the error is the status 404, which no retry can mend.
    pub open spec fn spec_is_not_found(&self) -> bool {
        self@ == ErrorView::StatusCode("404"@)
    }

    /// Whether the error is the status 404, which no retry can mend.
    pub fn is_not_found(&self) -> (r: bool)
        ensures
            r == self.spec_is_not_found(),
    {
        match self {
            Error::StatusCode(code) => {
                let not_found = String::from_str("404");
                *code == not_found
            },
            _ => false,
        }
    }

    /// Whether the error is a body that could not be decoded, which ends
    /// the worker that meets it.
    pub fn is_decode(&self) -> (r: bool)
        ensures
            r == (self is Decode),
    {
        match self {
            Error::Decode(_) => true,
            _ => false,
        }
    }

    /// The text that describes the error.
    pub fn to_string(&self) -> (r: String)
        ensures
            r@ == message_of(self@),
    {
        match self {
            Error::Transport(text) => String::from_str("Transport error: ").concat(text.as_str()),
            Error::Decode(text) => String::from_str("Decode error: ").concat(text.as_str()),
            Error::MaxRetriesExceeded(text) => String::from_str("Max retries exceeded: ").concat(
                text.as_str(),
            ),
            Error::StatusCode(code) => String::from_str("Status code: ").concat(code.as_str()),
            Error::Stream(text) => String::from_str("Stream error: ").concat(text.as_str()),
            Error::InvalidResponse => String::from_str("Invalid response"),
            Error::NoCachedResponse => String::from_str("No cached response"),
        }
    }
}

impl Clone for Error {
    fn clone(&self) -> (r: Self)
        ensures
            r@ == self@,
    {
        match self {
            Error::Transport(text) => Error::Transport(text.clone()),
            Error::Decode(text) => Error::Decode(text.clone()),
            Error::MaxRetriesExceeded(text) => Error::MaxRetriesExceeded(text.clone()),
            Error::StatusCode(code) => Error::StatusCode(code.clone()),
            Error::Stream(text) => Error::Stream(text.clone()),
            Error::InvalidResponse => Error::InvalidResponse,
            Error::NoCachedResponse => Error::NoCachedResponse,
        }
    }
}

} // verus!
