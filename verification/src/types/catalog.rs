//! The pages of a board's catalog.

use crate::types::post::Post;
use vstd::prelude::*;

verus! {

/// One page of a catalog: opening posts with their latest replies.
#[derive(Clone, Debug)]
pub struct CatalogPage {
    pub page: i32,
    pub threads: Vec<Post>,
}

} // verus!
