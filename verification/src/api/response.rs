//! Decoded responses, one variant for each shape of body.

use crate::api::endpoint::{Endpoint, EndpointView};
use crate::api::error::Error;
use crate::types::board::Board;
use crate::types::catalog::CatalogPage;
use crate::types::index::Index;
use crate::types::post::{Thread, ThreadPage};
use std::sync::Arc;
use vstd::prelude::*;

verus! {

/// A decoded body. The payloads are shared, never changed: a copy of a
/// response is a second handle on the same payload.
#[derive(Debug)]
pub enum ClientResponse {
    Boards(Arc<Vec<Board>>),
    Threads(Arc<Vec<ThreadPage>>),
    Catalog(Arc<Vec<CatalogPage>>),
    Archive(Arc<Vec<i32>>),
    Index(Arc<Index>),
    Thread(Arc<Thread>),
    NotModified,
}

/// Calls `Arc::clone`. Trusted: the new handle is a handle on the same
/// value.
#[verifier::external_body]
fn share<T>(value: &Arc<T>) -> (r: Arc<T>)
    ensures
        r == *value,
{
    Arc::clone(value)
}

impl Clone for ClientResponse {
    /// A second handle on the same payload.
    fn clone(&self) -> (r: Self)
        ensures
            r == *self,
    {
        match self {
            ClientResponse::Boards(boards) => ClientResponse::Boards(share(boards)),
            ClientResponse::Threads(pages) => ClientResponse::Threads(share(pages)),
            ClientResponse::Catalog(pages) => ClientResponse::Catalog(share(pages)),
            ClientResponse::Archive(nos) => ClientResponse::Archive(share(nos)),
            ClientResponse::Index(index) => ClientResponse::Index(share(index)),
            ClientResponse::Thread(thread) => ClientResponse::Thread(share(thread)),
            ClientResponse::NotModified => ClientResponse::NotModified,
        }
    }
}

impl ClientResponse {
    /// Whether the response has the shape that `endpoint` answers with.
    pub open spec fn fits(&self, endpoint: EndpointView) -> bool {
        match (self, endpoint) {
            (ClientResponse::Boards(_), EndpointView::Boards) => true,
            (ClientResponse::Threads(_), EndpointView::Threads(_)) => true,
            (ClientResponse::Catalog(_), EndpointView::Catalog(_)) => true,
            (ClientResponse::Archive(_), EndpointView::Archive(_)) => true,
            (ClientResponse::Index(_), EndpointView::Index(_, _)) => true,
            (ClientResponse::Thread(_), EndpointView::Thread(_, _)) => true,
            _ => false,
        }
    }

    /// Whether the response has the shape that `endpoint` answers with.
    pub fn matches_endpoint(&self, endpoint: &Endpoint) -> (r: bool)
        ensures
            r == self.fits(endpoint@),
    {
        match self {
            ClientResponse::Boards(_) => match endpoint {
                Endpoint::Boards => true,
                _ => false,
            },
            ClientResponse::Threads(_) => match endpoint {
                Endpoint::Threads(_) => true,
                _ => false,
            },
            ClientResponse::Catalog(_) => match endpoint {
                Endpoint::Catalog(_) => true,
                _ => false,
            },
            ClientResponse::Archive(_) => match endpoint {
                Endpoint::Archive(_) => true,
                _ => false,
            },
            ClientResponse::Index(_) => match endpoint {
                Endpoint::Index(_, _) => true,
                _ => false,
            },
            ClientResponse::Thread(_) => match endpoint {
                Endpoint::Thread(_, _) => true,
                _ => false,
            },
            ClientResponse::NotModified => false,
        }
    }

    /// The boards of a boards listing; any other shape is an invalid
    /// response.
    pub fn into_boards(self) -> (r: Result<Arc<Vec<Board>>, Error>)
        ensures
            match r {
                Ok(boards) => self == ClientResponse::Boards(boards),
                Err(e) => !(self is Boards) && e == Error::InvalidResponse,
            },
    {
        match self {
            ClientResponse::Boards(boards) => Ok(boards),
            _ => Err(Error::InvalidResponse),
        }
    }

    /// The pages of a threads summary; any other shape is an invalid
    /// response.
    pub fn into_threads(self) -> (r: Result<Arc<Vec<ThreadPage>>, Error>)
        ensures
            match r {
                Ok(pages) => self == ClientResponse::Threads(pages),
                Err(e) => !(self is Threads) && e == Error::InvalidResponse,
            },
    {
        match self {
            ClientResponse::Threads(pages) => Ok(pages),
            _ => Err(Error::InvalidResponse),
        }
    }

    /// The pages of a catalog; any other shape is an invalid response.
    pub fn into_catalog(self) -> (r: Result<Arc<Vec<CatalogPage>>, Error>)
        ensures
            match r {
                Ok(pages) => self == ClientResponse::Catalog(pages),
                Err(e) => !(self is Catalog) && e == Error::InvalidResponse,
            },
    {
        match self {
            ClientResponse::Catalog(pages) => Ok(pages),
            _ => Err(Error::InvalidResponse),
        }
    }

    /// The thread numbers of an archive; any other shape is an invalid
    /// response.
    pub fn into_archive(self) -> (r: Result<Arc<Vec<i32>>, Error>)
        ensures
            match r {
                Ok(nos) => self == ClientResponse::Archive(nos),
                Err(e) => !(self is Archive) && e == Error::InvalidResponse,
            },
    {
        match self {
            ClientResponse::Archive(nos) => Ok(nos),
            _ => Err(Error::InvalidResponse),
        }
    }

    /// An index page; any other shape is an invalid response.
    pub fn into_index(self) -> (r: Result<Arc<Index>, Error>)
        ensures
            match r {
                Ok(index) => self == ClientResponse::Index(index),
                Err(e) => !(self is Index) && e == Error::InvalidResponse,
            },
    {
        match self {
            ClientResponse::Index(index) => Ok(index),
            _ => Err(Error::InvalidResponse),
        }
    }

    /// A full thread; any other shape is an invalid response.
    pub fn into_thread(self) -> (r: Result<Arc<Thread>, Error>)
        ensures
            match r {
                Ok(thread) => self == ClientResponse::Thread(thread),
                Err(e) => !(self is Thread) && e == Error::InvalidResponse,
            },
    {
        match self {
            ClientResponse::Thread(thread) => Ok(thread),
            _ => Err(Error::InvalidResponse),
        }
    }
}

} // verus!
