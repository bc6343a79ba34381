//! One page of a board's index.

use crate::types::post::Post;
use vstd::prelude::*;

verus! {

/// A thread as an index page shows it: the opening post and the latest
/// replies.
#[derive(Clone, Debug)]
pub struct IndexThread {
    pub posts: Vec<Post>,
}

/// An index page.
#[derive(Clone, Debug)]
pub struct Index {
    pub threads: Vec<IndexThread>,
}

} // verus!
