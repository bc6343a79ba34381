//! Subscriptions, and the supervisor's registry of boards and workers.

use crate::stream::error::{Error, StreamErrorView};
use crate::types::board::Board;
use vstd::prelude::*;

verus! {

/// The polling interval of a subscription that names none, in
/// milliseconds.
pub const DEFAULT_REFRESH_RATE_MS: i64 = 10000;

/// A request to watch one board.
#[derive(Debug)]
pub struct Subscription {
    pub board_name: String,
    pub refresh_rate_ms: i64,
}

impl Subscription {
    /// A subscription to the board `name`. The interval is taken as it is
    /// given: the upstream asks for ten seconds or more, and the rate
    /// limiter holds whatever is asked for.
    pub fn new(name: String, refresh_rate_ms: Option<i64>) -> (r: Subscription)
        ensures
            r.board_name == name,
            r.refresh_rate_ms == (match refresh_rate_ms {
                Some(ms) => ms,
                None => DEFAULT_REFRESH_RATE_MS,
            }),
    {
        Subscription {
            board_name: name,
            refresh_rate_ms: match refresh_rate_ms {
                Some(ms) => ms,
                None => DEFAULT_REFRESH_RATE_MS,
            },
        }
    }
}

impl Clone for Subscription {
    fn clone(&self) -> (r: Self)
        ensures
            r.board_name@ == self.board_name@,
            r.refresh_rate_ms == self.refresh_rate_ms,
    {
        Subscription { board_name: self.board_name.clone(), refresh_rate_ms: self.refresh_rate_ms }
    }
}

/// Whether two names consist of the same characters.
fn same_name(a: &String, b: &String) -> (r: bool)
    ensures
        r == (a@ == b@),
{
    *a == *b
}

/// The first board of a listing that has the name `name`, if there is one.
pub open spec fn board_named(boards: Seq<Board>, name: Seq<char>) -> Option<int> {
    if exists|i: int| 0 <= i < boards.len() && (#[trigger] boards[i]).board@ == name {
        Some(first_named(boards, name))
    } else {
        None
    }
}

/// The least index of a board with the name `name`.
pub open spec fn first_named(boards: Seq<Board>, name: Seq<char>) -> int {
    choose|i: int|
        0 <= i < boards.len() && (#[trigger] boards[i]).board@ == name && forall|k: int|
            0 <= k < i ==> (#[trigger] boards[k]).board@ != name
}

/// What the supervisor does next with a subscription that it accepts.
#[derive(Debug, Clone, Copy, PartialEq, Eq, Structural)]
pub enum Admission {
    /// The boards listing is not known yet: fetch it, hand it over, and ask
    /// again.
    FetchBoards,
    /// Start a worker for the board at this index of the listing.
    Start(usize),
}

/// What the supervisor decides of a subscription to `name`: a board that
/// has a worker is refused; as long as no listing was taken over, the
/// listing is fetched first; a board that the listing lacks is refused, be
/// the listing empty or not; any other gets a worker.
pub open spec fn admission_of(
    listed: bool,
    boards: Seq<Board>,
    subscribed: Set<Seq<char>>,
    name: Seq<char>,
) -> Result<Admission, StreamErrorView> {
    if subscribed.contains(name) {
        Err(StreamErrorView::AlreadySubscribed("Board already subscribed"@))
    } else if !listed {
        Ok(Admission::FetchBoards)
    } else {
        match board_named(boards, name) {
            Some(i) => Ok(Admission::Start(i as usize)),
            None => Err(StreamErrorView::BoardNotFound("Board not found"@)),
        }
    }
}

/// The supervisor's registry: the boards listing, once it was fetched, and
/// for each subscribed board the handle that cancels its worker.
pub struct Stream<H> {
    listed: bool,
    boards: Vec<Board>,
    names: Vec<String>,
    handles: Vec<H>,
}

spec fn name_views(names: Seq<String>) -> Seq<Seq<char>> {
    names.map_values(|n: String| n@)
}

impl<H> Stream<H> {
    /// Whether a boards listing was taken over.
    pub closed spec fn listed(&self) -> bool {
        self.listed
    }

    /// The boards listing as far as it is known.
    pub closed spec fn boards(&self) -> Seq<Board> {
        self.boards@
    }

    /// The cancel handles of the workers, by the name of their board.
    pub closed spec fn workers(&self) -> Map<Seq<char>, H> {
        Map::new(
            |name: Seq<char>| name_views(self.names@).contains(name),
            |name: Seq<char>| self.handles@[name_views(self.names@).index_of(name)],
        )
    }

    /// The names of the boards that have a worker.
    pub open spec fn subscribed(&self) -> Set<Seq<char>> {
        self.workers().dom()
    }

    /// Every worker has one handle, and no board two workers.
    pub closed spec fn wf(&self) -> bool {
        &&& self.names@.len() == self.handles@.len()
        &&& name_views(self.names@).no_duplicates()
    }

    /// A registry without boards and without workers.
    pub fn new() -> (r: Stream<H>)
        ensures
            !r.listed(),
            r.boards() == Seq::<Board>::empty(),
            r.workers() == Map::<Seq<char>, H>::empty(),
            r.wf(),
    {
        let r = Stream {
            listed: false,
            boards: Vec::new(),
            names: Vec::new(),
            handles: Vec::new(),
        };
        assert(r.workers() =~= Map::<Seq<char>, H>::empty());
        r
    }

    /// Where the worker of the board `name` stands, if there is one.
    fn position(&self, name: &str) -> (r: Option<usize>)
        requires
            self.wf(),
        ensures
            match r {
                Some(i) => {
                    &&& i < self.names@.len()
                    &&& self.names@[i as int]@ == name@
                    &&& name_views(self.names@).contains(name@)
                    &&& name_views(self.names@).index_of(name@) == i
                },
                None => !name_views(self.names@).contains(name@),
            },
    {
        let ghost views = name_views(self.names@);
        let wanted = String::from_str(name);
        let mut i: usize = 0;
        while i < self.names.len()
            invariant
                i <= self.names.len(),
                wanted@ == name@,
                views == name_views(self.names@),
                views.no_duplicates(),
                forall|k: int| 0 <= k < i ==> (#[trigger] views[k]) != name@,
            decreases self.names.len() - i,
        {
            let same = same_name(&self.names[i], &wanted);
            proof {
                assert(views[i as int] == self.names@[i as int]@);
            }
            if same {
                proof {
                    assert(views[i as int] == name@);
                    assert(views.contains(name@));
                    let at = views.index_of(name@);
                    assert(0 <= at < views.len() && views[at] == name@);
                    if at != i {
                        assert(views[at] != views[i as int]);
                    }
                }
                return Some(i);
            }
            i = i + 1;
        }
        None
    }

    /// Whether the board `name` has a worker.
    pub fn is_subscribed(&self, name: &str) -> (r: bool)
        requires
            self.wf(),
        ensures
            r == self.subscribed().contains(name@),
    {
        self.position(name).is_some()
    }

    /// The number of workers.
    pub fn worker_count(&self) -> (r: usize)
        requires
            self.wf(),
        ensures
            r == self.subscribed().len(),
            self.subscribed().finite(),
    {
        proof {
            let views = name_views(self.names@);
            views.unique_seq_to_set();
            assert(self.subscribed() =~= views.to_set());
        }
        self.names.len()
    }

    /// Whether the boards listing still has to be fetched: it is fetched
    /// once.
    pub fn needs_boards(&self) -> (r: bool)
        ensures
            r == !self.listed(),
    {
        !self.listed
    }

    /// Takes over the boards listing, be it empty or not.
    pub fn set_boards(&mut self, boards: Vec<Board>)
        ensures
            final(self).listed(),
            final(self).boards() == boards@,
            final(self).workers() == old(self).workers(),
            final(self).wf() == old(self).wf(),
    {
        self.boards = boards;
        self.listed = true;
    }

    /// The listing's entry for the board `name`: the first of that name.
    pub fn get_board_data(&self, name: &str) -> (r: Option<usize>)
        ensures
            match r {
                Some(i) => board_named(self.boards(), name@) == Some(i as int),
                None => board_named(self.boards(), name@) is None,
            },
    {
        let wanted = String::from_str(name);
        let mut i: usize = 0;
        while i < self.boards.len()
            invariant
                i <= self.boards.len(),
                wanted@ == name@,
                forall|k: int| 0 <= k < i ==> (#[trigger] self.boards@[k]).board@ != name@,
            decreases self.boards.len() - i,
        {
            if same_name(&self.boards[i].board, &wanted) {
                proof {
                    let boards = self.boards@;
                    let at = first_named(boards, name@);
                    assert(boards[i as int].board@ == name@);
                    if at < i {
                        assert(boards[at].board@ != name@);
                    } else if i < at {
                        assert(boards[i as int].board@ != name@);
                    }
                }
                return Some(i);
            }
            i = i + 1;
        }
        None
    }

    /// The board at an index of the listing.
    pub fn board(&self, index: usize) -> (r: &Board)
        requires
            index < self.boards().len(),
        ensures
            *r == self.boards()[index as int],
    {
        &self.boards[index]
    }

    /// Decides what to do with a subscription. The worker that the
    /// decision asks for is entered with `register` once it runs.
    pub fn subscribe(&self, sub: &Subscription) -> (r: Result<Admission, Error>)
        requires
            self.wf(),
        ensures
            match r {
                Ok(step) => admission_of(
                    self.listed(),
                    self.boards(),
                    self.subscribed(),
                    sub.board_name@,
                )
                    == Ok::<Admission, StreamErrorView>(step),
                Err(e) => admission_of(
                    self.listed(),
                    self.boards(),
                    self.subscribed(),
                    sub.board_name@,
                )
                    == Err::<Admission, StreamErrorView>(e@),
            },
    {
        let name = sub.board_name.as_str();
        if self.is_subscribed(name) {
            Err(Error::already_subscribed())
        } else if self.needs_boards() {
            Ok(Admission::FetchBoards)
        } else {
            match self.get_board_data(name) {
                Some(i) => Ok(Admission::Start(i)),
                None => Err(Error::board_not_found()),
            }
        }
    }

    /// Registers the worker of the board `name` under its cancel handle. A
    /// board that has a worker keeps it, and the handle comes back.
    pub fn register(&mut self, name: String, handle: H) -> (r: Option<H>)
        requires
            old(self).wf(),
        ensures
            final(self).wf(),
            final(self).listed() == old(self).listed(),
            final(self).boards() == old(self).boards(),
            match r {
                None => {
                    &&& !old(self).subscribed().contains(name@)
                    &&& final(self).workers() == old(self).workers().insert(name@, handle)
                },
                Some(back) => {
                    &&& old(self).subscribed().contains(name@)
                    &&& back == handle
                    &&& final(self).workers() == old(self).workers()
                },
            },
    {
        if self.is_subscribed(name.as_str()) {
            return Some(handle);
        }
        let ghost before = name_views(self.names@);
        let ghost handles_before = self.handles@;
        self.names.push(name);
        self.handles.push(handle);
        proof {
            let after = name_views(self.names@);
            assert(after =~= before.push(name@));
            assert(after.no_duplicates()) by {
                assert forall|i: int, j: int|
                    0 <= i < after.len() && 0 <= j < after.len() && i != j implies after[i]
                    != after[j] by {
                    if i < before.len() && j < before.len() {
                        assert(before[i] != before[j]);
                    } else if i < before.len() {
                        assert(before.contains(before[i]));
                    } else {
                        assert(before.contains(before[j]));
                    }
                }
            }
            let goal = old(self).workers().insert(name@, handle);
            assert forall|n: Seq<char>| self.workers().contains_key(n) <==> goal.contains_key(
                n,
            ) by {
                if after.contains(n) {
                    let i = after.index_of(n);
                    if i < before.len() {
                        assert(before[i] == n);
                    }
                }
                if before.contains(n) {
                    let i = before.index_of(n);
                    assert(after[i] == n);
                }
                if n == name@ {
                    assert(after[before.len() as int] == n);
                }
            }
            assert forall|n: Seq<char>| self.workers().contains_key(n) implies self.workers()[n]
                == goal[n] by {
                let i = after.index_of(n);
                assert(after[i] == n);
                if n == name@ {
                    assert(after[before.len() as int] == n);
                    assert(i == before.len());
                } else {
                    assert(i < before.len());
                    assert(before[i] == n);
                    let k = before.index_of(n);
                    assert(before.contains(n));
                    assert(before[k] == n);
                    assert(k == i);
                }
            }
            assert(self.workers() =~= goal);
        }
        None
    }

    /// Takes the worker of the board `name` out of the registry and returns
    /// its cancel handle for the caller to signal. A board without a worker
    /// changes nothing.
    pub fn kill_worker(&mut self, name: &str) -> (r: Option<H>)
        requires
            old(self).wf(),
        ensures
            final(self).wf(),
            final(self).listed() == old(self).listed(),
            final(self).boards() == old(self).boards(),
            final(self).workers() == old(self).workers().remove(name@),
            r == (if old(self).subscribed().contains(name@) {
                Some(old(self).workers()[name@])
            } else {
                None
            }),
    {
        match self.position(name) {
            None => {
                assert(self.workers().remove(name@) =~= self.workers());
                None
            },
            Some(at) => {
                let ghost before = name_views(self.names@);
                let ghost handles_before = self.handles@;
                assert(old(self).workers()[name@] == handles_before[at as int]);
                let _ = self.names.remove(at);
                let handle = self.handles.remove(at);
                proof {
                    let after = name_views(self.names@);
                    assert(after =~= before.remove(at as int));
                    assert(after.no_duplicates()) by {
                        assert forall|i: int, j: int|
                            0 <= i < after.len() && 0 <= j < after.len() && i != j implies after[i]
                            != after[j] by {
                            let a = if i < at {
                                i
                            } else {
                                i + 1
                            };
                            let b = if j < at {
                                j
                            } else {
                                j + 1
                            };
                            assert(before[a] != before[b]);
                        }
                    }
                    let goal = old(self).workers().remove(name@);
                    assert forall|n: Seq<char>| self.workers().contains_key(n)
                        <==> goal.contains_key(n) by {
                        if after.contains(n) {
                            let i = after.index_of(n);
                            let a = if i < at {
                                i
                            } else {
                                i + 1
                            };
                            assert(before[a] == n);
                            assert(before[a] != before[at as int]);
                        }
                        if before.contains(n) && n != name@ {
                            let a = before.index_of(n);
                            let i = if a < at {
                                a
                            } else {
                                a - 1
                            };
                            assert(after[i] == n);
                        }
                    }
                    assert forall|n: Seq<char>| self.workers().contains_key(n) implies self.workers()[n]
                        == goal[n] by {
                        let i = after.index_of(n);
                        assert(after[i] == n);
                        let a = if i < at {
                            i
                        } else {
                            i + 1
                        };
                        assert(before[a] == n);
                        let k = before.index_of(n);
                        assert(before.contains(n));
                        assert(before[k] == n);
                        assert(k == a);
                    }
                    assert(self.workers() =~= goal);
                }
                Some(handle)
            },
        }
    }

    /// Ends the subscription to the board `name`: see `kill_worker`.
    pub fn unsubscribe(&mut self, name: &str) -> (r: Option<H>)
        requires
            old(self).wf(),
        ensures
            final(self).wf(),
            final(self).listed() == old(self).listed(),
            final(self).boards() == old(self).boards(),
            final(self).workers() == old(self).workers().remove(name@),
            r == (if old(self).subscribed().contains(name@) {
                Some(old(self).workers()[name@])
            } else {
                None
            }),
    {
        self.kill_worker(name)
    }
}

} // verus!
