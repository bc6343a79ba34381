//! The polling cycle of one board: committing a threads summary, planning
//! the thread fetches, selecting the new posts of a fetched thread, rolling a
//! watermark back where a fetch failed, and the life of the worker around
//! it.

use crate::api::error::Error;
use crate::stream::client::Subscription;
use crate::stream::watermark::{
    after_summary, current, diff_lines, evicted, in_fetch_order, lemma_after_summary_dom,
    lemma_diff_lines_frame, lemma_diff_lines_wf, lemma_in_fetch_order, lemma_marked_lines_named,
    lemma_summary_nos_push, marked_lines, marks_wf, modified_lines, rolled_back, rolled_back_all,
    snapshot, sort_for_fetch, summarize, summary_nos, summary_of, ThreadCache, ThreadSummary,
};
use crate::types::board::Board;
use crate::types::post::{Post, Thread, ThreadPage};
use std::collections::HashMap;
use vstd::prelude::*;

verus! {

broadcast use vstd::std_specs::hash::group_hash_axioms;

/// Whether a post counts as new for a task that captured `since`: it has a
/// creation time, and that time is strictly later.
pub open spec fn is_new(post: Post, since: i64) -> bool {
    post.time is Some && post.time->0 > since
}

/// The new posts among `posts`, in the order in which the thread holds them.
pub open spec fn new_posts_of(posts: Seq<Post>, since: i64) -> Seq<Post>
    decreases posts.len(),
{
    if posts.len() == 0 {
        Seq::empty()
    } else {
        let before = new_posts_of(posts.drop_last(), since);
        if is_new(posts.last(), since) {
            before.push(posts.last())
        } else {
            before
        }
    }
}

/// The thread numbers of the tasks whose fetch failed, in the plan's order.
pub open spec fn failed_nos(plan: Seq<ThreadCache>, fetched: Seq<Option<Thread>>) -> Seq<i32>
    recommends
        plan.len() == fetched.len(),
    decreases plan.len(),
{
    if plan.len() == 0 || fetched.len() == 0 {
        Seq::empty()
    } else {
        let before = failed_nos(plan.drop_last(), fetched.drop_last());
        if fetched.last() is None {
            before.push(plan.last().no)
        } else {
            before
        }
    }
}

/// The posts that a joined cycle publishes: for every task whose fetch
/// succeeded, in the plan's order, the posts of its thread that are newer
/// than the displaced watermark which the task captured.
pub open spec fn published(plan: Seq<ThreadCache>, fetched: Seq<Option<Thread>>) -> Seq<Post>
    recommends
        plan.len() == fetched.len(),
    decreases plan.len(),
{
    if plan.len() == 0 || fetched.len() == 0 {
        Seq::empty()
    } else {
        let before = published(plan.drop_last(), fetched.drop_last());
        match fetched.last() {
            Some(thread) => before + new_posts_of(thread.posts@, plan.last().prev_last_modified),
            None => before,
        }
    }
}

/// A post together with the board on which it was seen.
#[derive(Debug)]
pub struct PostEvent {
    pub board: String,
    pub post: Post,
}

/// What a worker publishes for a freshly seen post.
#[derive(Debug)]
pub enum Event {
    NewThread(PostEvent),
    NewPost(PostEvent),
}

impl Event {
    /// The event's board and post, whatever its variant.
    pub open spec fn payload(&self) -> PostEvent {
        match self {
            Event::NewThread(e) => *e,
            Event::NewPost(e) => *e,
        }
    }

    /// Whether the event announces `post` on `board`: the variant follows
    /// from whether the post opens a thread, and the event carries a copy of
    /// the post.
    pub open spec fn announces(&self, board: Seq<char>, post: Post) -> bool {
        &&& (self is NewThread) == post.spec_is_op()
        &&& self.payload().board@ == board
        &&& post.mirrors(self.payload().post)
    }

    /// The event for a post seen on `board`: `NewThread` for an opening
    /// post, `NewPost` for a reply.
    pub fn new(board: String, post: Post) -> (r: Event)
        ensures
            (r is NewThread) == post.spec_is_op(),
            r.payload() == (PostEvent { board, post }),
    {
        if post.is_op() {
            Event::NewThread(PostEvent { board, post })
        } else {
            Event::NewPost(PostEvent { board, post })
        }
    }

    pub fn board(&self) -> (r: &String)
        ensures
            *r == self.payload().board,
    {
        match self {
            Event::NewThread(e) => &e.board,
            Event::NewPost(e) => &e.board,
        }
    }

    pub fn post(&self) -> (r: &Post)
        ensures
            *r == self.payload().post,
    {
        match self {
            Event::NewThread(e) => &e.post,
            Event::NewPost(e) => &e.post,
        }
    }
}

/// The posts of a fetched thread that are newer than `since`, in the
/// thread's order.
pub fn new_posts<'a>(thread: &'a Thread, since: i64) -> (r: Vec<&'a Post>)
    ensures
        r@.map_values(|p: &Post| *p) == new_posts_of(thread.posts@, since),
{
    let mut found: Vec<&'a Post> = Vec::new();
    let mut i: usize = 0;
    proof {
        assert(thread.posts@.take(0) =~= Seq::<Post>::empty());
        assert(found@.map_values(|p: &Post| *p) =~= Seq::<Post>::empty());
    }
    while i < thread.posts.len()
        invariant
            i <= thread.posts.len(),
            found@.map_values(|p: &Post| *p) == new_posts_of(thread.posts@.take(i as int), since),
        decreases thread.posts.len() - i,
    {
        let post = &thread.posts[i];
        let ghost before = found@;
        proof {
            assert(thread.posts@.take(i + 1).drop_last() =~= thread.posts@.take(i as int));
            assert(thread.posts@.take(i + 1).last() == *post);
        }
        let fresh = match post.time {
            Some(time) => time > since,
            None => false,
        };
        if fresh {
            found.push(post);
            proof {
                assert(found@.map_values(|p: &Post| *p) =~= before.map_values(|p: &Post| *p).push(
                    *post,
                ));
            }
        }
        i = i + 1;
    }
    proof {
        assert(thread.posts@.take(i as int) =~= thread.posts@);
    }
    found
}

/// Whether `events` announce exactly `posts` on `board`, one event for each
/// post, in their order.
pub open spec fn announce_all(events: Seq<Event>, board: Seq<char>, posts: Seq<Post>) -> bool {
    &&& events.len() == posts.len()
    &&& forall|i: int| 0 <= i < events.len() ==> (#[trigger] events[i]).announces(board, posts[i])
}

/// The events for a fetched thread: one for each post that is newer than
/// `since`, in the thread's order.
pub fn events_for(board: &str, thread: &Thread, since: i64) -> (r: Vec<Event>)
    ensures
        announce_all(r@, board@, new_posts_of(thread.posts@, since)),
{
    let mut events: Vec<Event> = Vec::new();
    append_events(&mut events, board, thread, since);
    proof {
        assert(events@.skip(0) =~= events@);
    }
    events
}

/// Adds to `events` the events for a fetched thread.
fn append_events(events: &mut Vec<Event>, board: &str, thread: &Thread, since: i64)
    ensures
        final(events)@.len() == old(events)@.len() + new_posts_of(thread.posts@, since).len(),
        final(events)@.take(old(events)@.len() as int) == old(events)@,
        announce_all(
            final(events)@.skip(old(events)@.len() as int),
            board@,
            new_posts_of(thread.posts@, since),
        ),
{
    let fresh = new_posts(thread, since);
    let ghost start = events@;
    let ghost posts = new_posts_of(thread.posts@, since);
    let mut i: usize = 0;
    proof {
        assert(fresh@.map_values(|p: &Post| *p).len() == fresh@.len());
    }
    while i < fresh.len()
        invariant
            i <= fresh.len(),
            fresh@.len() == posts.len(),
            fresh@.map_values(|p: &Post| *p) == posts,
            events@.len() == start.len() + i,
            events@.take(start.len() as int) == start,
            forall|k: int|
                0 <= k < i ==> (#[trigger] events@[start.len() + k]).announces(board@, posts[k]),
        decreases fresh.len() - i,
    {
        let post = fresh[i];
        proof {
            assert(fresh@.map_values(|p: &Post| *p)[i as int] == *post);
        }
        let ghost before = events@;
        let event = Event::new(String::from_str(board), post.clone());
        events.push(event);
        proof {
            assert(events@.take(start.len() as int) =~= before.take(start.len() as int));
            assert forall|k: int| 0 <= k < i + 1 implies (#[trigger] events@[start.len()
                + k]).announces(board@, posts[k]) by {
                if k < i {
                    assert(events@[start.len() + k] == before[start.len() + k]);
                }
            }
        }
        i = i + 1;
    }
    proof {
        let tail = events@.skip(start.len() as int);
        assert forall|k: int| 0 <= k < tail.len() implies (#[trigger] tail[k]).announces(
            board@,
            posts[k],
        ) by {
            assert(tail[k] == events@[start.len() + k]);
        }
    }
}

/// The state of one board's worker: when the board was last polled, and the
/// watermark of every thread that the last summary named.
pub struct BoardCache {
    last_update_sec: i64,
    threads: HashMap<i32, ThreadCache>,
}

impl BoardCache {
    /// The watermarks, by thread number.
    pub closed spec fn watermarks(&self) -> Map<i32, ThreadCache> {
        self.threads@
    }

    /// The time, in seconds, at which the last cycle was closed.
    pub closed spec fn last_update(&self) -> i64 {
        self.last_update_sec
    }

    pub open spec fn wf(&self) -> bool {
        marks_wf(self.watermarks())
    }

    /// An empty state with room for `thread_limit` threads.
    pub fn new(thread_limit: usize) -> (r: BoardCache)
        ensures
            r.watermarks() == Map::<i32, ThreadCache>::empty(),
            r.last_update() == 0,
            r.wf(),
    {
        BoardCache { last_update_sec: 0, threads: HashMap::with_capacity(thread_limit) }
    }

    /// An empty state whose last poll counts as made at `time`.
    pub fn new_at(time: i64) -> (r: BoardCache)
        ensures
            r.watermarks() == Map::<i32, ThreadCache>::empty(),
            r.last_update() == time,
            r.wf(),
    {
        BoardCache { last_update_sec: time, threads: HashMap::new() }
    }

    pub fn last_update_sec(&self) -> (r: i64)
        ensures
            r == self.last_update(),
    {
        self.last_update_sec
    }

    /// The watermark of thread `no`, if the table knows the thread.
    pub fn watermark(&self, no: i32) -> (r: Option<ThreadCache>)
        ensures
            r == (if self.watermarks().contains_key(no) {
                Some(self.watermarks()[no])
            } else {
                None
            }),
    {
        match self.threads.get(&no) {
            Some(mark) => Some(*mark),
            None => None,
        }
    }

    /// The number of threads that the table knows.
    pub fn thread_count(&self) -> (r: usize)
        ensures
            r == self.watermarks().len(),
    {
        self.threads.len()
    }

    /// Holds a threads summary against the watermarks and commits the
    /// result: threads that the summary no longer names are evicted, unknown
    /// threads get a fresh watermark, and a newer modification time displaces
    /// the current one. Returns the lines that marked their thread as
    /// modified, oldest modification first.
    pub fn update_cache(&mut self, pages: &[ThreadPage]) -> (modified: Vec<ThreadSummary>)
        requires
            old(self).wf(),
        ensures
            final(self).watermarks() == after_summary(
                old(self).watermarks(),
                summary_of(pages@),
            ),
            final(self).watermarks().dom() == summary_nos(summary_of(pages@)),
            modified@ == in_fetch_order(
                modified_lines(old(self).watermarks(), summary_of(pages@)),
            ),
            final(self).last_update() == old(self).last_update(),
            final(self).wf(),
    {
        let summary = summarize(pages);
        let ghost base = evicted(self.threads@, summary@);
        let mut kept: HashMap<i32, ThreadCache> = HashMap::with_capacity(summary.len());
        let mut marked: Vec<ThreadSummary> = Vec::new();
        let mut i: usize = 0;
        proof {
            assert(summary@.take(0) =~= Seq::<ThreadSummary>::empty());
            assert(summary_nos(summary@.take(0)) =~= Set::<i32>::empty());
            assert(kept@ =~= diff_lines(base, summary@.take(0)).restrict(
                summary_nos(summary@.take(0)),
            ));
        }
        while i < summary.len()
            invariant
                i <= summary.len(),
                base == evicted(self.threads@, summary@),
                kept@ == diff_lines(base, summary@.take(i as int)).restrict(
                    summary_nos(summary@.take(i as int)),
                ),
                marked@ == marked_lines(base, summary@.take(i as int)),
            decreases summary.len() - i,
        {
            let line = summary[i];
            let ghost seen = summary@.take(i as int);
            let ghost so_far = diff_lines(base, seen);
            proof {
                lemma_diff_lines_frame(base, seen);
                assert(summary@[i as int].no == line.no);
                assert(summary_nos(summary@).contains(line.no));
                assert(summary@.take(i + 1).drop_last() =~= seen);
                assert(summary@.take(i + 1).last() == line);
                assert(summary@.take(i + 1) =~= seen.push(line));
                lemma_summary_nos_push(seen, line);
            }
            let (known, mark) = match kept.get(&line.no) {
                Some(mark) => (true, *mark),
                None => match self.threads.get(&line.no) {
                    Some(mark) => (true, *mark),
                    None => (false, ThreadCache { no: line.no, last_modified: 0, prev_last_modified: 0 }),
                },
            };
            proof {
                if kept@.contains_key(line.no) {
                    assert(summary_nos(seen).contains(line.no));
                    assert(so_far[line.no] == kept@[line.no]);
                } else {
                    assert(so_far.dom().contains(line.no) ==> summary_nos(seen).contains(
                        line.no,
                    ) || base.dom().contains(line.no));
                    assert(!summary_nos(seen).contains(line.no));
                    assert(base.contains_key(line.no) == self.threads@.contains_key(line.no));
                    if base.contains_key(line.no) {
                        assert(so_far[line.no] == base[line.no]);
                        assert(base[line.no] == self.threads@[line.no]);
                    }
                }
                assert(known == so_far.contains_key(line.no));
                assert(mark == current(so_far, line.no));
            }
            if !known || mark.last_modified < line.last_modified {
                marked.push(line);
            }
            let next = if mark.last_modified < line.last_modified {
                ThreadCache {
                    no: mark.no,
                    last_modified: line.last_modified,
                    prev_last_modified: mark.last_modified,
                }
            } else {
                mark
            };
            kept.insert(line.no, next);
            proof {
                assert(kept@ =~= diff_lines(base, summary@.take(i + 1)).restrict(
                    summary_nos(summary@.take(i + 1)),
                ));
            }
            i = i + 1;
        }
        proof {
            assert(summary@.take(i as int) =~= summary@);
            lemma_diff_lines_frame(base, summary@);
            lemma_after_summary_dom(self.threads@, summary@);
            assert(kept@ =~= after_summary(self.threads@, summary@));
            assert(marks_wf(base));
            lemma_diff_lines_wf(base, summary@);
        }
        self.threads = kept;
        sort_for_fetch(&marked)
    }

    /// The tasks for the threads that a summary marked as modified, in the
    /// order of `modified`: each takes along a copy of its thread's
    /// watermark, whose displaced value decides which posts are new.
    pub fn fetch_plan(&self, modified: &Vec<ThreadSummary>) -> (plan: Vec<ThreadCache>)
        ensures
            plan@.len() == modified@.len(),
            forall|i: int|
                0 <= i < plan@.len() ==> (#[trigger] plan@[i]) == snapshot(
                    self.watermarks(),
                    self.last_update(),
                    modified@[i].no,
                ),
    {
        let mut plan: Vec<ThreadCache> = Vec::new();
        let mut i: usize = 0;
        while i < modified.len()
            invariant
                i <= modified.len(),
                plan@.len() == i,
                forall|k: int|
                    0 <= k < i ==> (#[trigger] plan@[k]) == snapshot(
                        self.watermarks(),
                        self.last_update(),
                        modified@[k].no,
                    ),
            decreases modified.len() - i,
        {
            let no = modified[i].no;
            let task = match self.threads.get(&no) {
                Some(mark) => *mark,
                None => ThreadCache::new(no, self.last_update_sec),
            };
            plan.push(task);
            i = i + 1;
        }
        plan
    }

    /// Takes a first summary as the baseline: the watermarks are committed
    /// as in any cycle, nothing is planned or published, and the board counts
    /// as polled at `now`.
    pub fn init(&mut self, pages: &[ThreadPage], now: i64)
        requires
            old(self).wf(),
        ensures
            final(self).watermarks() == after_summary(
                old(self).watermarks(),
                summary_of(pages@),
            ),
            final(self).watermarks().dom() == summary_nos(summary_of(pages@)),
            final(self).last_update() == now,
            final(self).wf(),
    {
        let _ = self.update_cache(pages);
        self.last_update_sec = now;
    }

    /// Opens a cycle on a fetched summary: commits the watermarks and
    /// returns the fetch tasks, oldest modification first.
    pub fn begin_cycle(&mut self, pages: &[ThreadPage]) -> (plan: Vec<ThreadCache>)
        requires
            old(self).wf(),
        ensures
            final(self).watermarks() == after_summary(
                old(self).watermarks(),
                summary_of(pages@),
            ),
            final(self).watermarks().dom() == summary_nos(summary_of(pages@)),
            final(self).last_update() == old(self).last_update(),
            final(self).wf(),
            plan@ == in_fetch_order(
                modified_lines(old(self).watermarks(), summary_of(pages@)),
            ).map_values(|line: ThreadSummary| final(self).watermarks()[line.no]),
    {
        let modified = self.update_cache(pages);
        let plan = self.fetch_plan(&modified);
        proof {
            let marks = old(self).watermarks();
            let summary = summary_of(pages@);
            lemma_marked_lines_named(evicted(marks, summary), summary);
            lemma_in_fetch_order(modified_lines(marks, summary));
            assert forall|i: int| 0 <= i < modified@.len() implies self.watermarks().contains_key(
                (#[trigger] modified@[i]).no,
            ) by {
                assert(modified@.to_multiset().count(modified@[i]) > 0) by {
                    broadcast use vstd::seq_lib::group_to_multiset_ensures;

                }
                assert(modified_lines(marks, summary).to_multiset().count(modified@[i]) > 0);
                assert(modified_lines(marks, summary).contains(modified@[i])) by {
                    broadcast use vstd::seq_lib::group_to_multiset_ensures;

                }
            }
            assert(plan@ =~= modified@.map_values(
                |line: ThreadSummary| self.watermarks()[line.no],
            ));
        }
        plan
    }

    /// Restores the displaced watermark of thread `no` after its fetch
    /// failed, so that the next summary marks the thread again.
    pub fn rollback(&mut self, no: i32)
        requires
            old(self).wf(),
        ensures
            final(self).watermarks() == rolled_back(old(self).watermarks(), no),
            final(self).last_update() == old(self).last_update(),
            final(self).wf(),
    {
        let found = match self.threads.get(&no) {
            Some(mark) => Some(*mark),
            None => None,
        };
        if let Some(mark) = found {
            self.threads.insert(
                no,
                ThreadCache {
                    no: mark.no,
                    last_modified: mark.prev_last_modified,
                    prev_last_modified: mark.prev_last_modified,
                },
            );
        }
    }

    /// Closes a cycle: rolls back every thread whose fetch failed, then
    /// takes `now` as the time of the last poll. With no failed thread this
    /// is all that a skipped cycle does.
    pub fn finish_cycle(&mut self, failed: &Vec<i32>, now: i64)
        requires
            old(self).wf(),
        ensures
            final(self).watermarks() == rolled_back_all(old(self).watermarks(), failed@),
            final(self).last_update() == now,
            final(self).wf(),
    {
        let mut i: usize = 0;
        proof {
            assert(failed@.take(0) =~= Seq::<i32>::empty());
        }
        while i < failed.len()
            invariant
                i <= failed.len(),
                self.wf(),
                self.watermarks() == rolled_back_all(
                    old(self).watermarks(),
                    failed@.take(i as int),
                ),
            decreases failed.len() - i,
        {
            proof {
                assert(failed@.take(i + 1).drop_last() =~= failed@.take(i as int));
                assert(failed@.take(i + 1).last() == failed@[i as int]);
            }
            self.rollback(failed[i]);
            i = i + 1;
        }
        proof {
            assert(failed@.take(i as int) =~= failed@);
        }
        self.last_update_sec = now;
    }

    /// Joins the fetches of a cycle. `fetched` holds, for each task of
    /// `plan`, the thread that came back, or nothing where the fetch failed.
    /// A fetched thread publishes its posts that are newer than the
    /// displaced watermark which its task captured; a failed fetch publishes
    /// nothing and has its thread rolled back. The board then counts as
    /// polled at `now`.
    pub fn complete_cycle(
        &mut self,
        board: &str,
        plan: &Vec<ThreadCache>,
        fetched: &Vec<Option<Thread>>,
        now: i64,
    ) -> (events: Vec<Event>)
        requires
            old(self).wf(),
            plan@.len() == fetched@.len(),
        ensures
            announce_all(events@, board@, published(plan@, fetched@)),
            final(self).watermarks() == rolled_back_all(
                old(self).watermarks(),
                failed_nos(plan@, fetched@),
            ),
            final(self).last_update() == now,
            final(self).wf(),
    {
        let mut events: Vec<Event> = Vec::new();
        let mut failed: Vec<i32> = Vec::new();
        let mut i: usize = 0;
        proof {
            assert(plan@.take(0) =~= Seq::<ThreadCache>::empty());
        }
        while i < plan.len()
            invariant
                i <= plan.len(),
                plan@.len() == fetched@.len(),
                failed@ == failed_nos(plan@.take(i as int), fetched@.take(i as int)),
                announce_all(
                    events@,
                    board@,
                    published(plan@.take(i as int), fetched@.take(i as int)),
                ),
            decreases plan.len() - i,
        {
            let ghost before = events@;
            let ghost posts_before = published(plan@.take(i as int), fetched@.take(i as int));
            proof {
                assert(plan@.take(i + 1).drop_last() =~= plan@.take(i as int));
                assert(fetched@.take(i + 1).drop_last() =~= fetched@.take(i as int));
                assert(plan@.take(i + 1).last() == plan@[i as int]);
                assert(fetched@.take(i + 1).last() == fetched@[i as int]);
            }
            match &fetched[i] {
                Some(thread) => {
                    append_events(&mut events, board, thread, plan[i].prev_last_modified);
                    proof {
                        let added = new_posts_of(thread.posts@, plan@[i as int].prev_last_modified);
                        let posts = posts_before + added;
                        assert(published(plan@.take(i + 1), fetched@.take(i + 1)) == posts);
                        assert forall|k: int| 0 <= k < events@.len() implies (
                        #[trigger] events@[k]).announces(board@, posts[k]) by {
                            if k < before.len() {
                                assert(events@[k] == events@.take(before.len() as int)[k]);
                            } else {
                                assert(events@[k] == events@.skip(before.len() as int)[k
                                    - before.len()]);
                            }
                        }
                    }
                },
                None => {
                    failed.push(plan[i].no);
                },
            }
            i = i + 1;
        }
        proof {
            assert(plan@.take(i as int) =~= plan@);
            assert(fetched@.take(i as int) =~= fetched@);
        }
        self.finish_cycle(&failed, now);
        events
    }
}

/// Where a worker stands in its life.
#[derive(Debug, Clone, Copy, PartialEq, Eq, Structural)]
pub enum WorkerState {
    /// The baseline summary has not been taken yet.
    Initializing,
    /// At the head of the loop, or within a cycle.
    Polling,
    /// Between two cycles.
    Sleeping,
    /// Cancelled, or stopped by an error that no later cycle can mend.
    Terminated,
}

/// What a look at the cancel handle showed.
#[derive(Debug, Clone, Copy, PartialEq, Eq, Structural)]
pub enum KillSignal {
    /// Nothing was sent.
    Empty,
    /// The signal was sent.
    Received,
    /// The sender is gone.
    Closed,
}

/// The milliseconds that a worker sleeps for a refresh rate: the rate
/// itself, read as an unsigned number of 64 bits.
pub open spec fn sleep_of(refresh_rate_ms: i64) -> u64 {
    if refresh_rate_ms >= 0 {
        refresh_rate_ms as u64
    } else {
        (refresh_rate_ms + 0x1_0000_0000_0000_0000) as u64
    }
}

/// The worker of one board: its subscription, the board's description, its
/// watermarks, and where it stands in its life.
pub struct BoardWorker {
    cfg: Subscription,
    board: Board,
    cache: BoardCache,
    state: WorkerState,
}

impl BoardWorker {
    pub closed spec fn state(&self) -> WorkerState {
        self.state
    }

    /// The worker's watermarks and time of last poll.
    pub closed spec fn cache(&self) -> BoardCache {
        self.cache
    }

    /// The board's short name.
    pub closed spec fn board_name(&self) -> Seq<char> {
        self.board.board@
    }

    /// The subscription's refresh rate.
    pub closed spec fn refresh_rate_ms(&self) -> i64 {
        self.cfg.refresh_rate_ms
    }

    pub open spec fn wf(&self) -> bool {
        self.cache().wf()
    }

    /// A worker that has not taken its baseline yet.
    pub fn new(cfg: Subscription, board: Board) -> (r: BoardWorker)
        ensures
            r.state() == WorkerState::Initializing,
            r.cache().watermarks() == Map::<i32, ThreadCache>::empty(),
            r.cache().last_update() == 0,
            r.board_name() == board.board@,
            r.refresh_rate_ms() == cfg.refresh_rate_ms,
            r.wf(),
    {
        let limit = board.thread_limit();
        let hint: usize = if 0 <= limit && limit <= 0xffff {
            limit as usize
        } else {
            0
        };
        BoardWorker { cfg, board, cache: BoardCache::new(hint), state: WorkerState::Initializing }
    }

    pub fn current_state(&self) -> (r: WorkerState)
        ensures
            r == self.state(),
    {
        self.state
    }

    /// The board's short name.
    pub fn name(&self) -> (r: &str)
        ensures
            r@ == self.board_name(),
    {
        self.board.name()
    }

    /// The worker's watermarks.
    pub fn board_cache(&self) -> (r: &BoardCache)
        ensures
            *r == self.cache(),
    {
        &self.cache
    }

    /// How long the worker sleeps between two cycles, in milliseconds.
    pub fn sleep_ms(&self) -> (r: u64)
        ensures
            r == sleep_of(self.refresh_rate_ms()),
    {
        let rate = self.cfg.refresh_rate_ms;
        if rate >= 0 {
            rate as u64
        } else {
            u64::MAX - ((-(rate + 1)) as u64)
        }
    }

    /// Takes the first summary as the baseline and begins to poll. Nothing
    /// is published for the baseline.
    pub fn init(&mut self, pages: &[ThreadPage], now: i64)
        requires
            old(self).wf(),
            old(self).state() == WorkerState::Initializing,
        ensures
            final(self).state() == WorkerState::Polling,
            final(self).cache().watermarks() == after_summary(
                old(self).cache().watermarks(),
                summary_of(pages@),
            ),
            final(self).cache().watermarks().dom() == summary_nos(summary_of(pages@)),
            final(self).cache().last_update() == now,
            final(self).board_name() == old(self).board_name(),
            final(self).refresh_rate_ms() == old(self).refresh_rate_ms(),
            final(self).wf(),
    {
        self.cache.init(pages, now);
        self.state = WorkerState::Polling;
    }

    /// Ends the worker: its first summary could not be fetched, or a body
    /// could not be decoded.
    pub fn fail(&mut self)
        ensures
            final(self).state() == WorkerState::Terminated,
            final(self).cache() == old(self).cache(),
            final(self).board_name() == old(self).board_name(),
            final(self).refresh_rate_ms() == old(self).refresh_rate_ms(),
    {
        self.state = WorkerState::Terminated;
    }

    /// The check at the head of the loop: a signal that was sent, or a
    /// sender that is gone, ends the worker; otherwise it goes on. Returns
    /// whether the worker goes on.
    pub fn check_kill(&mut self, signal: KillSignal) -> (r: bool)
        requires
            old(self).state() == WorkerState::Polling,
        ensures
            r == (signal == KillSignal::Empty),
            final(self).state() == (if signal == KillSignal::Empty {
                WorkerState::Polling
            } else {
                WorkerState::Terminated
            }),
            final(self).cache() == old(self).cache(),
            final(self).board_name() == old(self).board_name(),
            final(self).refresh_rate_ms() == old(self).refresh_rate_ms(),
    {
        match signal {
            KillSignal::Empty => true,
            _ => {
                self.state = WorkerState::Terminated;
                false
            },
        }
    }

    /// Opens a cycle on the summary that was fetched: commits the
    /// watermarks and returns the fetch tasks, oldest modification first.
    pub fn update_board(&mut self, pages: &[ThreadPage]) -> (plan: Vec<ThreadCache>)
        requires
            old(self).wf(),
            old(self).state() == WorkerState::Polling,
        ensures
            final(self).state() == WorkerState::Polling,
            final(self).cache().watermarks() == after_summary(
                old(self).cache().watermarks(),
                summary_of(pages@),
            ),
            final(self).cache().watermarks().dom() == summary_nos(summary_of(pages@)),
            final(self).cache().last_update() == old(self).cache().last_update(),
            final(self).board_name() == old(self).board_name(),
            final(self).refresh_rate_ms() == old(self).refresh_rate_ms(),
            final(self).wf(),
            plan@ == in_fetch_order(
                modified_lines(old(self).cache().watermarks(), summary_of(pages@)),
            ).map_values(|line: ThreadSummary| final(self).cache().watermarks()[line.no]),
    {
        self.cache.begin_cycle(pages)
    }

    /// Joins the fetches of the cycle and goes to sleep: see
    /// `BoardCache::complete_cycle`.
    pub fn join(&mut self, plan: &Vec<ThreadCache>, fetched: &Vec<Option<Thread>>, now: i64) -> (events:
        Vec<Event>)
        requires
            old(self).wf(),
            old(self).state() == WorkerState::Polling,
            plan@.len() == fetched@.len(),
        ensures
            final(self).state() == WorkerState::Sleeping,
            announce_all(events@, old(self).board_name(), published(plan@, fetched@)),
            final(self).cache().watermarks() == rolled_back_all(
                old(self).cache().watermarks(),
                failed_nos(plan@, fetched@),
            ),
            final(self).cache().last_update() == now,
            final(self).board_name() == old(self).board_name(),
            final(self).refresh_rate_ms() == old(self).refresh_rate_ms(),
            final(self).wf(),
    {
        let events = self.cache.complete_cycle(self.board.name(), plan, fetched, now);
        self.state = WorkerState::Sleeping;
        events
    }

    /// Closes a cycle whose summary could not be fetched. A body that could
    /// not be decoded ends the worker; any other error skips the cycle: the
    /// watermarks stay, the board counts as polled at `now`, and the worker
    /// goes to sleep.
    pub fn skip_cycle(&mut self, error: &Error, now: i64)
        requires
            old(self).wf(),
            old(self).state() == WorkerState::Polling,
        ensures
            final(self).state() == (if error is Decode {
                WorkerState::Terminated
            } else {
                WorkerState::Sleeping
            }),
            final(self).cache().watermarks() == old(self).cache().watermarks(),
            final(self).cache().last_update() == (if error is Decode {
                old(self).cache().last_update()
            } else {
                now
            }),
            final(self).board_name() == old(self).board_name(),
            final(self).refresh_rate_ms() == old(self).refresh_rate_ms(),
            final(self).wf(),
    {
        if error.is_decode() {
            self.state = WorkerState::Terminated;
        } else {
            let none: Vec<i32> = Vec::new();
            self.cache.finish_cycle(&none, now);
            self.state = WorkerState::Sleeping;
        }
    }

    /// Wakes the worker for its next cycle.
    pub fn wake(&mut self)
        requires
            old(self).state() == WorkerState::Sleeping,
        ensures
            final(self).state() == WorkerState::Polling,
            final(self).cache() == old(self).cache(),
            final(self).board_name() == old(self).board_name(),
            final(self).refresh_rate_ms() == old(self).refresh_rate_ms(),
    {
        self.state = WorkerState::Polling;
    }
}

} // verus!
