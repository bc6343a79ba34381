//! A fixed selection of boards: the configuration of a supervisor that
//! watches the same boards for as long as it runs.

use crate::stream::client::DEFAULT_REFRESH_RATE_MS;
use crate::types::board::Board;
use vstd::prelude::*;

verus! {

/// One board to watch, and how often to poll it.
#[derive(Debug)]
pub struct BoardConfig {
    pub name: String,
    pub refresh_rate_ms: i64,
}

impl BoardConfig {
    /// The configuration of the board `name`; without a rate the default
    /// of ten seconds holds.
    pub fn new(name: String, refresh_rate_ms: Option<i64>) -> (r: BoardConfig)
        ensures
            r.name == name,
            r.refresh_rate_ms == (match refresh_rate_ms {
                Some(ms) => ms,
                None => DEFAULT_REFRESH_RATE_MS,
            }),
    {
        BoardConfig {
            name,
            refresh_rate_ms: match refresh_rate_ms {
                Some(ms) => ms,
                None => DEFAULT_REFRESH_RATE_MS,
            },
        }
    }
}

impl Clone for BoardConfig {
    fn clone(&self) -> (r: Self)
        ensures
            r.name@ == self.name@,
            r.refresh_rate_ms == self.refresh_rate_ms,
    {
        BoardConfig { name: self.name.clone(), refresh_rate_ms: self.refresh_rate_ms }
    }
}

/// The boards to watch.
#[derive(Debug)]
pub struct Config {
    pub boards: Vec<BoardConfig>,
}

/// Whether a selection names the board `name`.
pub open spec fn selects(boards: Seq<BoardConfig>, name: Seq<char>) -> bool {
    exists|i: int| 0 <= i < boards.len() && (#[trigger] boards[i]).name@ == name
}

/// The first entry of a selection that names the board `name`.
pub open spec fn first_selecting(boards: Seq<BoardConfig>, name: Seq<char>) -> int {
    choose|i: int|
        0 <= i < boards.len() && (#[trigger] boards[i]).name@ == name && forall|k: int|
            0 <= k < i ==> (#[trigger] boards[k]).name@ != name
}

/// The indices of the listed boards that a selection names, in the order
/// of the listing.
pub open spec fn selected(selection: Seq<BoardConfig>, listing: Seq<Board>) -> Seq<usize>
    decreases listing.len(),
{
    if listing.len() == 0 {
        Seq::empty()
    } else {
        let before = selected(selection, listing.drop_last());
        if selects(selection, listing.last().board@) {
            before.push((listing.len() - 1) as usize)
        } else {
            before
        }
    }
}

/// Whether two names consist of the same characters.
fn same_name(a: &String, b: &String) -> (r: bool)
    ensures
        r == (a@ == b@),
{
    *a == *b
}

impl Config {
    /// The entry for a board: the first that has the board's name.
    pub fn get_config_for_board(&self, board: &Board) -> (r: Option<&BoardConfig>)
        ensures
            match r {
                Some(entry) => selects(self.boards@, board.board@) && *entry
                    == self.boards@[first_selecting(self.boards@, board.board@)],
                None => !selects(self.boards@, board.board@),
            },
    {
        let mut i: usize = 0;
        while i < self.boards.len()
            invariant
                i <= self.boards.len(),
                forall|k: int| 0 <= k < i ==> (#[trigger] self.boards@[k]).name@ != board.board@,
            decreases self.boards.len() - i,
        {
            if same_name(&self.boards[i].name, &board.board) {
                proof {
                    let entries = self.boards@;
                    assert(entries[i as int].name@ == board.board@);
                    let at = first_selecting(entries, board.board@);
                    if at < i {
                        assert(entries[at].name@ != board.board@);
                    } else if i < at {
                        assert(entries[i as int].name@ != board.board@);
                    }
                }
                return Some(&self.boards[i]);
            }
            i = i + 1;
        }
        None
    }

    /// Of the boards that the upstream lists, those that the selection
    /// names: their indices in the listing, in its order.
    pub fn select(&self, listing: &Vec<Board>) -> (r: Vec<usize>)
        ensures
            r@ == selected(self.boards@, listing@),
    {
        let mut chosen: Vec<usize> = Vec::new();
        let mut i: usize = 0;
        proof {
            assert(listing@.take(0) =~= Seq::<Board>::empty());
        }
        while i < listing.len()
            invariant
                i <= listing.len(),
                chosen@ == selected(self.boards@, listing@.take(i as int)),
            decreases listing.len() - i,
        {
            proof {
                assert(listing@.take(i + 1).drop_last() =~= listing@.take(i as int));
                assert(listing@.take(i + 1).last() == listing@[i as int]);
            }
            if self.get_config_for_board(&listing[i]).is_some() {
                chosen.push(i);
            }
            i = i + 1;
        }
        proof {
            assert(listing@.take(i as int) =~= listing@);
        }
        chosen
    }
}

} // verus!
