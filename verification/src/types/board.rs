//! Boards as the boards listing describes them.

use std::collections::HashMap;
use vstd::prelude::*;

verus! {

/// The waiting times, in seconds, that a board imposes on posting.
#[derive(Debug, Clone)]
pub struct Cooldowns {
    pub threads: i32,
    pub replies: i32,
    pub images: i32,
}

/// One board of the boards listing.
#[derive(Debug, Clone)]
pub struct Board {
    pub board: String,
    pub title: String,
    pub ws_board: i32,
    pub per_page: i32,
    pub pages: i32,
    pub max_filesize: i32,
    pub max_webm_filesize: i32,
    pub max_comment_chars: i32,
    pub max_webm_duration: i32,
    pub bump_limit: i32,
    pub image_limit: i32,
    pub cooldowns: Cooldowns,
    pub meta_description: String,
    pub spoilers: Option<i32>,
    pub custom_spoilers: Option<i32>,
    pub is_archived: Option<i32>,
    pub forced_anon: Option<i32>,
    pub board_flags: Option<HashMap<String, String>>,
}

/// The body of the boards listing: a wrapper object around the boards.
#[derive(Debug, Clone)]
pub struct BoardsResponse {
    pub boards: Vec<Board>,
}

impl Board {
    /// The number of threads that the board shows at most: its pages times
    /// the threads on each.
    pub open spec fn spec_thread_limit(&self) -> int {
        self.pages * self.per_page
    }

    /// The board's short name, as it stands in URLs.
    pub fn name(&self) -> (r: &str)
        ensures
            r@ == self.board@,
    {
        self.board.as_str()
    }

    pub fn thread_limit(&self) -> (r: i64)
        ensures
            r == self.spec_thread_limit(),
    {
        let pages: i64 = self.pages as i64;
        let per_page: i64 = self.per_page as i64;
        assert(-0x8000_0000 * 0x8000_0000 <= pages * per_page <= 0x8000_0000 * 0x8000_0000)
            by (nonlinear_arith)
            requires
                -0x8000_0000 <= pages < 0x8000_0000,
                -0x8000_0000 <= per_page < 0x8000_0000,
        ;
        pages * per_page
    }
}

} // verus!
