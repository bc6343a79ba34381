//! The watermarks of a board's threads and how a threads summary moves
//! them: the diff of a summary against the watermarks, the eviction of
//! threads that fell off the board, and the order of the fetches.

use crate::types::post::{Post, ThreadPage};
use vstd::prelude::*;

verus! {

/// The watermark of one thread. `last_modified` is the newest modification
/// time taken over from a summary; `prev_last_modified` is the value that the
/// most recent advance displaced.
#[derive(Debug, Clone, Copy, PartialEq, Eq, Structural)]
pub struct ThreadCache {
    pub no: i32,
    pub last_modified: i64,
    pub prev_last_modified: i64,
}

impl ThreadCache {
    pub fn new(no: i32, last_modified: i64) -> (r: ThreadCache)
        ensures
            r == (ThreadCache { no, last_modified, prev_last_modified: 0 }),
    {
        ThreadCache { no, last_modified, prev_last_modified: 0 }
    }

    /// The watermark that a thread gets when it is first seen.
    pub open spec fn fresh(no: i32) -> ThreadCache {
        ThreadCache { no, last_modified: 0, prev_last_modified: 0 }
    }

    /// This watermark after a summary reported `last_modified` for its
    /// thread: a strictly newer time displaces the current one, anything
    /// else leaves the watermark as it is.
    pub open spec fn advanced(self, last_modified: i64) -> ThreadCache {
        if self.last_modified < last_modified {
            ThreadCache { no: self.no, last_modified, prev_last_modified: self.last_modified }
        } else {
            self
        }
    }

    /// This watermark after its thread's fetch failed: the displaced value
    /// is current again.
    pub open spec fn rolled_back(self) -> ThreadCache {
        ThreadCache {
            no: self.no,
            last_modified: self.prev_last_modified,
            prev_last_modified: self.prev_last_modified,
        }
    }
}

/// What a threads summary says of one thread.
#[derive(Debug, Clone, Copy, PartialEq, Eq, Structural)]
pub struct ThreadSummary {
    pub no: i32,
    pub last_modified: i64,
}

/// The summary line of a post; a missing modification time counts as zero.
pub open spec fn summary_line(post: Post) -> ThreadSummary {
    ThreadSummary {
        no: post.no,
        last_modified: match post.last_modified {
            Some(t) => t,
            None => 0,
        },
    }
}

/// The summary lines of all pages, page after page, each page in its order.
pub open spec fn summary_of(pages: Seq<ThreadPage>) -> Seq<ThreadSummary>
    decreases pages.len(),
{
    if pages.len() == 0 {
        Seq::empty()
    } else {
        summary_of(pages.drop_last()) + pages.last().threads@.map_values(|p: Post| summary_line(p))
    }
}

/// The thread numbers that a summary names.
pub open spec fn summary_nos(summary: Seq<ThreadSummary>) -> Set<i32> {
    Set::new(|no: i32| exists|i: int| 0 <= i < summary.len() && (#[trigger] summary[i]).no == no)
}

/// The watermark that a summary line is held against: the thread's own, or a
/// fresh one where the thread is unknown.
pub open spec fn current(marks: Map<i32, ThreadCache>, no: i32) -> ThreadCache {
    if marks.contains_key(no) {
        marks[no]
    } else {
        ThreadCache::fresh(no)
    }
}

/// Whether a summary line marks its thread as modified: the thread is
/// unknown, or the line reports a newer time than the watermark holds.
pub open spec fn is_modified(marks: Map<i32, ThreadCache>, line: ThreadSummary) -> bool {
    !marks.contains_key(line.no) || marks[line.no].last_modified < line.last_modified
}

/// The watermarks after one summary line was held against them.
pub open spec fn diff_line(marks: Map<i32, ThreadCache>, line: ThreadSummary) -> Map<
    i32,
    ThreadCache,
> {
    marks.insert(line.no, current(marks, line.no).advanced(line.last_modified))
}

/// The watermarks after the lines of a summary were held against them one
/// after the other.
pub open spec fn diff_lines(marks: Map<i32, ThreadCache>, summary: Seq<ThreadSummary>) -> Map<
    i32,
    ThreadCache,
>
    decreases summary.len(),
{
    if summary.len() == 0 {
        marks
    } else {
        diff_line(diff_lines(marks, summary.drop_last()), summary.last())
    }
}

/// The lines of a summary that marked their thread as modified, in the
/// summary's order. Each line is judged against the watermarks as the lines
/// before it left them.
pub open spec fn marked_lines(marks: Map<i32, ThreadCache>, summary: Seq<ThreadSummary>) -> Seq<
    ThreadSummary,
>
    decreases summary.len(),
{
    if summary.len() == 0 {
        Seq::empty()
    } else {
        let before = marked_lines(marks, summary.drop_last());
        if is_modified(diff_lines(marks, summary.drop_last()), summary.last()) {
            before.push(summary.last())
        } else {
            before
        }
    }
}

/// The watermarks without those whose thread the summary no longer names.
pub open spec fn evicted(marks: Map<i32, ThreadCache>, summary: Seq<ThreadSummary>) -> Map<
    i32,
    ThreadCache,
> {
    marks.restrict(summary_nos(summary))
}

/// The watermarks after a whole summary: threads that fell off the board are
/// evicted, then every line is held against what is left.
pub open spec fn after_summary(marks: Map<i32, ThreadCache>, summary: Seq<ThreadSummary>) -> Map<
    i32,
    ThreadCache,
> {
    diff_lines(evicted(marks, summary), summary)
}

/// The lines that a whole summary marks as modified, in the summary's order.
pub open spec fn modified_lines(marks: Map<i32, ThreadCache>, summary: Seq<ThreadSummary>) -> Seq<
    ThreadSummary,
> {
    marked_lines(evicted(marks, summary), summary)
}

/// What a fetch task takes along for thread `no`: a copy of the thread's
/// watermark, or, where the table does not know the thread, one that
/// carries the time of the last poll.
pub open spec fn snapshot(marks: Map<i32, ThreadCache>, last_update: i64, no: i32) -> ThreadCache {
    if marks.contains_key(no) {
        marks[no]
    } else {
        ThreadCache { no, last_modified: last_update, prev_last_modified: 0 }
    }
}

/// The watermarks after the fetch of thread `no` failed. A thread that the
/// table does not know leaves it unchanged.
pub open spec fn rolled_back(marks: Map<i32, ThreadCache>, no: i32) -> Map<i32, ThreadCache> {
    if marks.contains_key(no) {
        marks.insert(no, marks[no].rolled_back())
    } else {
        marks
    }
}

/// The watermarks after the fetches of all `failed` threads were rolled
/// back, one after the other.
pub open spec fn rolled_back_all(marks: Map<i32, ThreadCache>, failed: Seq<i32>) -> Map<
    i32,
    ThreadCache,
>
    decreases failed.len(),
{
    if failed.len() == 0 {
        marks
    } else {
        rolled_back(rolled_back_all(marks, failed.drop_last()), failed.last())
    }
}

/// What holds of every watermark table that a board worker keeps: each
/// watermark stands under its own thread number, and the displaced value is
/// neither negative nor newer than the current one.
pub open spec fn marks_wf(marks: Map<i32, ThreadCache>) -> bool {
    forall|no: i32| #[trigger]
        marks.contains_key(no) ==> {
            &&& marks[no].no == no
            &&& 0 <= marks[no].prev_last_modified <= marks[no].last_modified
        }
}

/// Naming one more line adds its thread number to the numbers named.
pub proof fn lemma_summary_nos_push(summary: Seq<ThreadSummary>, line: ThreadSummary)
    ensures
        summary_nos(summary.push(line)) == summary_nos(summary).insert(line.no),
{
    let longer = summary.push(line);
    assert forall|no: i32| summary_nos(longer).contains(no) <==> summary_nos(summary).insert(
        line.no,
    ).contains(no) by {
        if summary_nos(longer).contains(no) {
            let i = choose|i: int| 0 <= i < longer.len() && (#[trigger] longer[i]).no == no;
            if i < summary.len() {
                assert(summary[i].no == no);
            }
        }
        if summary_nos(summary).contains(no) {
            let i = choose|i: int| 0 <= i < summary.len() && (#[trigger] summary[i]).no == no;
            assert(longer[i].no == no);
        }
        if no == line.no {
            assert(longer[summary.len() as int].no == no);
        }
    }
    assert(summary_nos(longer) =~= summary_nos(summary).insert(line.no));
}

/// A diff pass touches only the threads that the summary names: it knows
/// these afterwards, and leaves every other thread as it was.
pub proof fn lemma_diff_lines_frame(marks: Map<i32, ThreadCache>, summary: Seq<ThreadSummary>)
    ensures
        diff_lines(marks, summary).dom() == marks.dom().union(summary_nos(summary)),
        forall|no: i32|
            !summary_nos(summary).contains(no) && marks.contains_key(no) ==> (
            #[trigger] diff_lines(marks, summary)[no]) == marks[no],
    decreases summary.len(),
{
    if summary.len() == 0 {
        assert(summary_nos(summary) =~= Set::empty());
        assert(marks.dom().union(summary_nos(summary)) =~= marks.dom());
    } else {
        let rest = summary.drop_last();
        let line = summary.last();
        lemma_diff_lines_frame(marks, rest);
        lemma_summary_nos_push(rest, line);
        assert(rest.push(line) =~= summary);
        assert(diff_lines(marks, summary).dom() =~= marks.dom().union(summary_nos(summary)));
    }
}

/// A diff pass keeps a well-formed table well formed.
pub proof fn lemma_diff_lines_wf(marks: Map<i32, ThreadCache>, summary: Seq<ThreadSummary>)
    requires
        marks_wf(marks),
    ensures
        marks_wf(diff_lines(marks, summary)),
    decreases summary.len(),
{
    if summary.len() > 0 {
        lemma_diff_lines_wf(marks, summary.drop_last());
    }
}

/// After a whole summary the table knows exactly the threads that the
/// summary names.
pub proof fn lemma_after_summary_dom(marks: Map<i32, ThreadCache>, summary: Seq<ThreadSummary>)
    ensures
        after_summary(marks, summary).dom() == summary_nos(summary),
{
    lemma_diff_lines_frame(evicted(marks, summary), summary);
    assert(after_summary(marks, summary).dom() =~= summary_nos(summary));
}

/// Every line that a diff pass marks is a line of the summary.
pub proof fn lemma_marked_lines_named(marks: Map<i32, ThreadCache>, summary: Seq<ThreadSummary>)
    ensures
        forall|line: ThreadSummary| #[trigger]
            marked_lines(marks, summary).contains(line) ==> summary.contains(line)
                && summary_nos(summary).contains(line.no),
    decreases summary.len(),
{
    if summary.len() > 0 {
        let rest = summary.drop_last();
        lemma_marked_lines_named(marks, rest);
        assert forall|line: ThreadSummary| #[trigger]
            marked_lines(marks, summary).contains(line) implies summary.contains(line)
            && summary_nos(summary).contains(line.no) by {
            let all = marked_lines(marks, summary);
            let i = choose|i: int| 0 <= i < all.len() && all[i] == line;
            if i < marked_lines(marks, rest).len() {
                assert(marked_lines(marks, rest)[i] == line);
                assert(marked_lines(marks, rest).contains(line));
                let k = choose|k: int| 0 <= k < rest.len() && rest[k] == line;
                assert(summary[k] == line);
            } else {
                assert(line == summary.last());
                assert(summary[summary.len() - 1] == line);
            }
        }
    }
}

/// The summary lines of the pages of a threads summary.
pub fn summarize(pages: &[ThreadPage]) -> (r: Vec<ThreadSummary>)
    ensures
        r@ == summary_of(pages@),
{
    let mut lines: Vec<ThreadSummary> = Vec::new();
    let mut p: usize = 0;
    while p < pages.len()
        invariant
            p <= pages.len(),
            lines@ == summary_of(pages@.take(p as int)),
        decreases pages.len() - p,
    {
        let page = &pages[p];
        let ghost before = lines@;
        let mut t: usize = 0;
        while t < page.threads.len()
            invariant
                t <= page.threads.len(),
                lines@ == before + page.threads@.take(t as int).map_values(
                    |q: Post| summary_line(q),
                ),
            decreases page.threads.len() - t,
        {
            let post = &page.threads[t];
            let last_modified = match post.last_modified {
                Some(time) => time,
                None => 0,
            };
            lines.push(ThreadSummary { no: post.no, last_modified });
            proof {
                let f = |q: Post| summary_line(q);
                assert(page.threads@.take(t + 1).map_values(f) =~= page.threads@.take(
                    t as int,
                ).map_values(f).push(summary_line(*post)));
            }
            t = t + 1;
        }
        proof {
            assert(page.threads@.take(t as int) =~= page.threads@);
            assert(pages@.take(p + 1).drop_last() =~= pages@.take(p as int));
            assert(pages@.take(p + 1).last() == *page);
        }
        p = p + 1;
    }
    proof {
        assert(pages@.take(p as int) =~= pages@);
    }
    lines
}

/// A line put into a list that is in fetch order: behind every line that is
/// not newer than it, before every line that is.
pub open spec fn placed(ordered: Seq<ThreadSummary>, line: ThreadSummary) -> Seq<ThreadSummary>
    decreases ordered.len(),
{
    if ordered.len() == 0 {
        seq![line]
    } else if ordered.last().last_modified <= line.last_modified {
        ordered.push(line)
    } else {
        placed(ordered.drop_last(), line).push(ordered.last())
    }
}

/// The lines in fetch order: by modification time, oldest first, lines of
/// one time in the order in which they came.
pub open spec fn in_fetch_order(lines: Seq<ThreadSummary>) -> Seq<ThreadSummary>
    decreases lines.len(),
{
    if lines.len() == 0 {
        Seq::empty()
    } else {
        placed(in_fetch_order(lines.drop_last()), lines.last())
    }
}

/// Whether modification times never fall along the list.
pub open spec fn ascending(lines: Seq<ThreadSummary>) -> bool {
    forall|i: int, j: int|
        0 <= i <= j < lines.len() ==> (#[trigger] lines[i]).last_modified <= (
        #[trigger] lines[j]).last_modified
}

/// Placing a line is inserting it at the index behind which every line is
/// newer and before which, if anything is there, the nearest line is not.
proof fn lemma_placed_is_insert(ordered: Seq<ThreadSummary>, line: ThreadSummary, at: int)
    requires
        0 <= at <= ordered.len(),
        forall|k: int| at <= k < ordered.len() ==> line.last_modified < (
        #[trigger] ordered[k]).last_modified,
        at > 0 ==> ordered[at - 1].last_modified <= line.last_modified,
    ensures
        placed(ordered, line) == ordered.insert(at, line),
    decreases ordered.len(),
{
    if ordered.len() == 0 {
        assert(ordered.insert(at, line) =~= seq![line]);
    } else if at == ordered.len() {
        assert(ordered.insert(at, line) =~= ordered.push(line));
    } else {
        assert(line.last_modified < ordered[ordered.len() - 1].last_modified);
        lemma_placed_is_insert(ordered.drop_last(), line, at);
        assert(ordered.insert(at, line) =~= ordered.drop_last().insert(at, line).push(
            ordered.last(),
        ));
    }
}

/// Placing a line keeps an ascending list ascending and adds exactly that
/// line.
pub proof fn lemma_placed(ordered: Seq<ThreadSummary>, line: ThreadSummary)
    requires
        ascending(ordered),
    ensures
        ascending(placed(ordered, line)),
        placed(ordered, line).to_multiset() == ordered.to_multiset().insert(line),
        placed(ordered, line).len() == ordered.len() + 1,
    decreases ordered.len(),
{
    broadcast use vstd::seq_lib::group_to_multiset_ensures;

    if ordered.len() == 0 {
        assert(ordered =~= Seq::empty());
        assert(seq![line] =~= Seq::<ThreadSummary>::empty().push(line));
    } else if ordered.last().last_modified <= line.last_modified {
        let longer = ordered.push(line);
        assert forall|i: int, j: int| 0 <= i <= j < longer.len() implies (
        #[trigger] longer[i]).last_modified <= (#[trigger] longer[j]).last_modified by {
            if j == ordered.len() && i < ordered.len() {
                assert(ordered[i].last_modified <= ordered[ordered.len() - 1].last_modified);
            }
        }
    } else {
        let rest = ordered.drop_last();
        let top = ordered.last();
        assert forall|i: int, j: int| 0 <= i <= j < rest.len() implies (
        #[trigger] rest[i]).last_modified <= (#[trigger] rest[j]).last_modified by {
            assert(rest[i] == ordered[i] && rest[j] == ordered[j]);
        }
        lemma_placed(rest, line);
        let inner = placed(rest, line);
        let longer = inner.push(top);
        assert(rest.push(top) =~= ordered);
        assert(inner.to_multiset().insert(top) =~= rest.to_multiset().insert(top).insert(line));
        assert forall|i: int, j: int| 0 <= i <= j < longer.len() implies (
        #[trigger] longer[i]).last_modified <= (#[trigger] longer[j]).last_modified by {
            if j == inner.len() && i < inner.len() {
                assert(inner.to_multiset().count(inner[i]) > 0);
                if inner[i] != line {
                    assert(rest.to_multiset().count(inner[i]) > 0);
                    let k = choose|k: int| 0 <= k < rest.len() && rest[k] == inner[i];
                    assert(ordered[k].last_modified <= ordered[ordered.len() - 1].last_modified);
                }
            }
        }
    }
}

/// The fetch order is ascending and holds the same lines, each as often as
/// it was marked.
pub proof fn lemma_in_fetch_order(lines: Seq<ThreadSummary>)
    ensures
        ascending(in_fetch_order(lines)),
        in_fetch_order(lines).to_multiset() == lines.to_multiset(),
        in_fetch_order(lines).len() == lines.len(),
    decreases lines.len(),
{
    broadcast use vstd::seq_lib::group_to_multiset_ensures;

    if lines.len() == 0 {
        assert(lines =~= Seq::empty());
    } else {
        lemma_in_fetch_order(lines.drop_last());
        lemma_placed(in_fetch_order(lines.drop_last()), lines.last());
        assert(lines.drop_last().push(lines.last()) =~= lines);
    }
}

/// Puts marked lines into fetch order.
pub fn sort_for_fetch(lines: &Vec<ThreadSummary>) -> (r: Vec<ThreadSummary>)
    ensures
        r@ == in_fetch_order(lines@),
        ascending(r@),
        r@.to_multiset() == lines@.to_multiset(),
{
    let mut ordered: Vec<ThreadSummary> = Vec::new();
    let mut i: usize = 0;
    proof {
        assert(lines@.take(0) =~= Seq::<ThreadSummary>::empty());
    }
    while i < lines.len()
        invariant
            i <= lines.len(),
            ordered@ == in_fetch_order(lines@.take(i as int)),
        decreases lines.len() - i,
    {
        let line = lines[i];
        proof {
            lemma_in_fetch_order(lines@.take(i as int));
        }
        let mut at: usize = ordered.len();
        while at > 0 && ordered[at - 1].last_modified > line.last_modified
            invariant
                at <= ordered.len(),
                forall|k: int| at <= k < ordered.len() ==> line.last_modified < (
                #[trigger] ordered@[k]).last_modified,
            decreases at,
        {
            at = at - 1;
        }
        proof {
            lemma_placed_is_insert(ordered@, line, at as int);
            assert(lines@.take(i + 1).drop_last() =~= lines@.take(i as int));
            assert(lines@.take(i + 1).last() == line);
        }
        ordered.insert(at, line);
        i = i + 1;
    }
    proof {
        assert(lines@.take(i as int) =~= lines@);
        lemma_in_fetch_order(lines@);
    }
    ordered
}

} // verus!
