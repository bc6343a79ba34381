//! What holds of every polling cycle: watermarks rise where the fetch
//! succeeded, and to which value; a rolled-back thread is detected again;
//! the table knows exactly the threads of the last summary; and a fetched
//! thread publishes its new posts, each once and in its order, while a
//! failed fetch publishes nothing.

use crate::stream::watermark::{
    after_summary, current, diff_lines, evicted, is_modified, lemma_after_summary_dom,
    lemma_diff_lines_frame, lemma_diff_lines_wf, lemma_marked_lines_named, marked_lines, marks_wf,
    modified_lines, rolled_back_all, summary_nos, ThreadCache, ThreadSummary,
};
use crate::stream::worker::{is_new, new_posts_of, published};
use crate::types::post::{Post, Thread};
use vstd::prelude::*;

verus! {

/// Whether a list of lines holds one for thread `no`.
pub open spec fn names_thread(lines: Seq<ThreadSummary>, no: i32) -> bool {
    exists|i: int| 0 <= i < lines.len() && (#[trigger] lines[i]).no == no
}

/// Whether the table knows thread `no` with a displaced value that is
/// strictly older than the current one.
pub open spec fn holds_advance(marks: Map<i32, ThreadCache>, no: i32) -> bool {
    marks.contains_key(no) && marks[no].prev_last_modified < marks[no].last_modified
}

/// Rolling threads back changes no thread number, leaves the threads that
/// did not fail as they were, and gives each failed thread its displaced
/// value.
pub proof fn lemma_rolled_back_all(marks: Map<i32, ThreadCache>, failed: Seq<i32>)
    requires
        marks_wf(marks),
    ensures
        marks_wf(rolled_back_all(marks, failed)),
        rolled_back_all(marks, failed).dom() == marks.dom(),
        forall|no: i32|
            marks.contains_key(no) && !failed.contains(no) ==> (#[trigger] rolled_back_all(
                marks,
                failed,
            )[no]) == marks[no],
        forall|no: i32|
            marks.contains_key(no) && failed.contains(no) ==> (#[trigger] rolled_back_all(
                marks,
                failed,
            )[no]) == marks[no].rolled_back(),
    decreases failed.len(),
{
    if failed.len() > 0 {
        let rest = failed.drop_last();
        let before = rolled_back_all(marks, rest);
        let after = rolled_back_all(marks, failed);
        lemma_rolled_back_all(marks, rest);
        assert(after.dom() =~= marks.dom());
        assert forall|no: i32| marks.contains_key(no) && !failed.contains(no) implies (
        #[trigger] after[no]) == marks[no] by {
            assert(failed[failed.len() - 1] != no);
            if rest.contains(no) {
                let i = choose|i: int| 0 <= i < rest.len() && rest[i] == no;
                assert(failed[i] == no);
            }
        }
        assert forall|no: i32| marks.contains_key(no) && failed.contains(no) implies (
        #[trigger] after[no]) == marks[no].rolled_back() by {
            let i = choose|i: int| 0 <= i < failed.len() && failed[i] == no;
            if i < rest.len() {
                assert(rest[i] == no);
                assert(rest.contains(no));
            }
            if no != failed.last() {
                assert(rest.contains(no));
            }
        }
    } else {
        assert(forall|no: i32| !failed.contains(no));
    }
}

/// A diff pass never lowers the current value of a thread that the table
/// knew before.
pub proof fn lemma_diff_lines_rising(
    marks: Map<i32, ThreadCache>,
    summary: Seq<ThreadSummary>,
    no: i32,
)
    requires
        marks.contains_key(no),
    ensures
        diff_lines(marks, summary).contains_key(no),
        diff_lines(marks, summary)[no].last_modified >= marks[no].last_modified,
    decreases summary.len(),
{
    if summary.len() > 0 {
        lemma_diff_lines_rising(marks, summary.drop_last(), no);
    }
}

/// Where a diff pass raised the current value of a known thread, the
/// summary holds a line for the thread that is newer than the value before.
proof fn lemma_raised_by_line(marks: Map<i32, ThreadCache>, summary: Seq<ThreadSummary>, no: i32)
    requires
        marks.contains_key(no),
        diff_lines(marks, summary)[no].last_modified > marks[no].last_modified,
    ensures
        exists|i: int|
            0 <= i < summary.len() && (#[trigger] summary[i]).no == no
                && summary[i].last_modified > marks[no].last_modified,
    decreases summary.len(),
{
    if summary.len() > 0 {
        let rest = summary.drop_last();
        let line = summary.last();
        lemma_diff_lines_rising(marks, rest, no);
        if diff_lines(marks, rest)[no].last_modified > marks[no].last_modified {
            lemma_raised_by_line(marks, rest, no);
            let i = choose|i: int|
                0 <= i < rest.len() && (#[trigger] rest[i]).no == no && rest[i].last_modified
                    > marks[no].last_modified;
            assert(summary[i] == rest[i]);
        } else {
            assert(line.no == no);
            assert(summary[summary.len() - 1] == line);
        }
    }
}

/// A known thread for which the summary holds a line newer than its
/// watermark is marked as modified.
pub proof fn lemma_newer_line_is_marked(
    marks: Map<i32, ThreadCache>,
    summary: Seq<ThreadSummary>,
    no: i32,
)
    requires
        marks.contains_key(no),
        exists|i: int|
            0 <= i < summary.len() && (#[trigger] summary[i]).no == no
                && summary[i].last_modified > marks[no].last_modified,
    ensures
        names_thread(marked_lines(marks, summary), no),
    decreases summary.len(),
{
    let i = choose|i: int|
        0 <= i < summary.len() && (#[trigger] summary[i]).no == no && summary[i].last_modified
            > marks[no].last_modified;
    let rest = summary.drop_last();
    let line = summary.last();
    let before = diff_lines(marks, rest);
    let all = marked_lines(marks, summary);
    lemma_diff_lines_rising(marks, rest, no);
    if i < rest.len() || before[no].last_modified > marks[no].last_modified {
        if i < rest.len() {
            assert(rest[i] == summary[i]);
        } else {
            lemma_raised_by_line(marks, rest, no);
        }
        lemma_newer_line_is_marked(marks, rest, no);
        let k = choose|k: int|
            0 <= k < marked_lines(marks, rest).len() && (#[trigger] marked_lines(
                marks,
                rest,
            )[k]).no == no;
        assert(all[k] == marked_lines(marks, rest)[k]);
    } else {
        assert(is_modified(before, line));
        assert(all[all.len() - 1].no == no);
    }
}

/// Where a diff pass marked a thread that the table knew before, or whose
/// current value is positive afterwards, the thread's displaced value is
/// strictly older than its current one afterwards.
pub proof fn lemma_marked_holds_advance(
    marks: Map<i32, ThreadCache>,
    summary: Seq<ThreadSummary>,
    no: i32,
)
    requires
        marks_wf(marks),
        names_thread(marked_lines(marks, summary), no),
        marks.contains_key(no) || current(diff_lines(marks, summary), no).last_modified > 0,
    ensures
        holds_advance(diff_lines(marks, summary), no),
    decreases summary.len(),
{
    if summary.len() > 0 {
        let rest = summary.drop_last();
        let line = summary.last();
        let before = diff_lines(marks, rest);
        let all = marked_lines(marks, summary);
        lemma_diff_lines_wf(marks, rest);
        lemma_diff_lines_frame(marks, rest);
        let k = choose|k: int| 0 <= k < all.len() && (#[trigger] all[k]).no == no;
        if k < marked_lines(marks, rest).len() {
            assert(marked_lines(marks, rest)[k].no == no);
            lemma_marked_lines_named(marks, rest);
            assert(marked_lines(marks, rest).contains(marked_lines(marks, rest)[k]));
            assert(before.contains_key(no));
            if marks.contains_key(no) || before[no].last_modified > 0 {
                lemma_marked_holds_advance(marks, rest, no);
            }
        } else {
            assert(line.no == no && is_modified(before, line));
        }
    }
}

/// A thread whose fetch did not fail comes out of a cycle with a current
/// value that is not older than the one it went in with, where the table
/// knew it before and the summary still names it.
pub proof fn lemma_watermark_rises_on_success(
    marks: Map<i32, ThreadCache>,
    summary: Seq<ThreadSummary>,
    failed: Seq<i32>,
    no: i32,
)
    requires
        marks_wf(marks),
        marks.contains_key(no),
        summary_nos(summary).contains(no),
        !failed.contains(no),
    ensures
        rolled_back_all(after_summary(marks, summary), failed).contains_key(no),
        rolled_back_all(after_summary(marks, summary), failed)[no].last_modified
            >= marks[no].last_modified,
{
    let base = evicted(marks, summary);
    assert(marks_wf(base));
    lemma_diff_lines_wf(base, summary);
    lemma_diff_lines_rising(base, summary, no);
    lemma_rolled_back_all(after_summary(marks, summary), failed);
}

/// A thread that a cycle marked as modified and whose fetch then failed
/// stands in the table with its displaced value as the current one, and the
/// next cycle marks it again whenever the next summary reports for it a time
/// above that value.
pub proof fn lemma_rollback_is_detected_again(
    marks: Map<i32, ThreadCache>,
    summary: Seq<ThreadSummary>,
    failed: Seq<i32>,
    next_summary: Seq<ThreadSummary>,
    no: i32,
)
    requires
        marks_wf(marks),
        names_thread(modified_lines(marks, summary), no),
        failed.contains(no),
        exists|i: int|
            0 <= i < next_summary.len() && (#[trigger] next_summary[i]).no == no
                && next_summary[i].last_modified > current(
                rolled_back_all(after_summary(marks, summary), failed),
                no,
            ).last_modified,
    ensures
        rolled_back_all(after_summary(marks, summary), failed).contains_key(no),
        rolled_back_all(after_summary(marks, summary), failed)[no] == after_summary(
            marks,
            summary,
        )[no].rolled_back(),
        names_thread(
            modified_lines(
                rolled_back_all(after_summary(marks, summary), failed),
                next_summary,
            ),
            no,
        ),
{
    let base = evicted(marks, summary);
    let committed = after_summary(marks, summary);
    let rolled = rolled_back_all(committed, failed);
    assert(marks_wf(base));
    lemma_diff_lines_wf(base, summary);
    lemma_marked_lines_named(base, summary);
    lemma_after_summary_dom(marks, summary);
    let k = choose|k: int|
        0 <= k < modified_lines(marks, summary).len() && (#[trigger] modified_lines(
            marks,
            summary,
        )[k]).no == no;
    assert(modified_lines(marks, summary).contains(modified_lines(marks, summary)[k]));
    assert(summary_nos(summary).contains(no));
    assert(committed.contains_key(no));
    lemma_rolled_back_all(committed, failed);
    let i = choose|i: int|
        0 <= i < next_summary.len() && (#[trigger] next_summary[i]).no == no
            && next_summary[i].last_modified > current(rolled, no).last_modified;
    assert(summary_nos(next_summary).contains(no));
    let next_base = evicted(rolled, next_summary);
    assert(next_base.contains_key(no) && next_base[no] == rolled[no]);
    lemma_newer_line_is_marked(next_base, next_summary, no);
}

/// The value that a failed fetch rolls back to is strictly older than the
/// time the cycle had advanced the watermark to, so that a summary which
/// still reports that time has the thread marked again. Left out is a thread
/// that the table did not know and for which the summary reported no
/// positive time: its watermark was never advanced.
pub proof fn lemma_rolled_back_value_is_older(
    marks: Map<i32, ThreadCache>,
    summary: Seq<ThreadSummary>,
    failed: Seq<i32>,
    no: i32,
)
    requires
        marks_wf(marks),
        names_thread(modified_lines(marks, summary), no),
        failed.contains(no),
        marks.contains_key(no) || current(after_summary(marks, summary), no).last_modified > 0,
    ensures
        rolled_back_all(after_summary(marks, summary), failed).contains_key(no),
        rolled_back_all(after_summary(marks, summary), failed)[no].last_modified < after_summary(
            marks,
            summary,
        )[no].last_modified,
{
    let base = evicted(marks, summary);
    let committed = after_summary(marks, summary);
    assert(marks_wf(base));
    lemma_diff_lines_wf(base, summary);
    lemma_marked_lines_named(base, summary);
    let k = choose|k: int|
        0 <= k < modified_lines(marks, summary).len() && (#[trigger] modified_lines(
            marks,
            summary,
        )[k]).no == no;
    assert(modified_lines(marks, summary).contains(modified_lines(marks, summary)[k]));
    assert(summary_nos(summary).contains(no));
    assert(marks.contains_key(no) ==> base.contains_key(no));
    lemma_marked_holds_advance(base, summary, no);
    lemma_rolled_back_all(committed, failed);
}

/// After a cycle, whatever fetches failed, the table knows exactly the
/// threads that the cycle's summary named.
pub proof fn lemma_cycle_keeps_summary_threads(
    marks: Map<i32, ThreadCache>,
    summary: Seq<ThreadSummary>,
    failed: Seq<i32>,
)
    requires
        marks_wf(marks),
    ensures
        rolled_back_all(after_summary(marks, summary), failed).dom() == summary_nos(summary),
{
    assert(marks_wf(evicted(marks, summary)));
    lemma_diff_lines_wf(evicted(marks, summary), summary);
    lemma_after_summary_dom(marks, summary);
    lemma_rolled_back_all(after_summary(marks, summary), failed);
}

/// The new posts among `posts` hold every post of the list that is new.
pub proof fn lemma_new_posts_of_holds(posts: Seq<Post>, since: i64, at: int)
    requires
        0 <= at < posts.len(),
        is_new(posts[at], since),
    ensures
        new_posts_of(posts, since).contains(posts[at]),
    decreases posts.len(),
{
    let found = new_posts_of(posts, since);
    if at == posts.len() - 1 {
        assert(found[found.len() - 1] == posts[at]);
    } else {
        let rest = posts.drop_last();
        lemma_new_posts_of_holds(rest, since, at);
        let before = new_posts_of(rest, since);
        let k = choose|k: int| 0 <= k < before.len() && before[k] == rest[at];
        assert(found[k] == posts[at]);
    }
}

/// No new post is lost where its thread was fetched: a joined cycle
/// publishes every post of a fetched thread that is newer than the displaced
/// watermark which the thread's task captured. Where the fetch failed, the
/// rollback has the thread marked again: see
/// `lemma_rollback_is_detected_again`.
pub proof fn lemma_new_posts_are_published(
    plan: Seq<ThreadCache>,
    fetched: Seq<Option<Thread>>,
    task: int,
    at: int,
)
    requires
        plan.len() == fetched.len(),
        0 <= task < plan.len(),
        fetched[task] is Some,
        0 <= at < fetched[task]->0.posts@.len(),
        is_new(fetched[task]->0.posts@[at], plan[task].prev_last_modified),
    ensures
        published(plan, fetched).contains(fetched[task]->0.posts@[at]),
    decreases plan.len(),
{
    let post = fetched[task]->0.posts@[at];
    let all = published(plan, fetched);
    let before = published(plan.drop_last(), fetched.drop_last());
    if task == plan.len() - 1 {
        let fresh = new_posts_of(fetched[task]->0.posts@, plan[task].prev_last_modified);
        lemma_new_posts_of_holds(fetched[task]->0.posts@, plan[task].prev_last_modified, at);
        let k = choose|k: int| 0 <= k < fresh.len() && fresh[k] == post;
        assert(all == before + fresh);
        assert(all[before.len() + k] == post);
    } else {
        lemma_new_posts_are_published(plan.drop_last(), fetched.drop_last(), task, at);
        let k = choose|k: int| 0 <= k < before.len() && before[k] == post;
        assert(all[k] == post);
    }
}

/// The newest of `floor` and the times that a summary reports for thread
/// `no`.
pub open spec fn newest_for(summary: Seq<ThreadSummary>, no: i32, floor: i64) -> i64
    decreases summary.len(),
{
    if summary.len() == 0 {
        floor
    } else {
        let before = newest_for(summary.drop_last(), no, floor);
        if summary.last().no == no && summary.last().last_modified > before {
            summary.last().last_modified
        } else {
            before
        }
    }
}

/// Whether a summary names thread `no` in the line at `at` and in no
/// other.
pub open spec fn named_once(summary: Seq<ThreadSummary>, no: i32, at: int) -> bool {
    &&& 0 <= at < summary.len()
    &&& summary[at].no == no
    &&& forall|j: int| 0 <= j < summary.len() && j != at ==> (#[trigger] summary[j]).no != no
}

/// The newest time is never older than the floor.
pub proof fn lemma_newest_for_floor(summary: Seq<ThreadSummary>, no: i32, floor: i64)
    ensures
        newest_for(summary, no, floor) >= floor,
    decreases summary.len(),
{
    if summary.len() > 0 {
        lemma_newest_for_floor(summary.drop_last(), no, floor);
    }
}

/// A diff pass leaves every thread with the newest of the value it had and
/// the times that the summary reports for it; a thread that the table did
/// not know counts as having had the value zero.
pub proof fn lemma_diff_lines_takes_newest(
    marks: Map<i32, ThreadCache>,
    summary: Seq<ThreadSummary>,
    no: i32,
)
    ensures
        current(diff_lines(marks, summary), no).last_modified == newest_for(
            summary,
            no,
            current(marks, no).last_modified,
        ),
    decreases summary.len(),
{
    if summary.len() > 0 {
        lemma_diff_lines_takes_newest(marks, summary.drop_last(), no);
    }
}

/// The value of a watermark after a cycle in which its thread's fetch did
/// not fail: the newest of the value before the cycle and the times that
/// the summary reports for the thread. It is therefore never older than the
/// value before.
pub proof fn lemma_watermark_after_success(
    marks: Map<i32, ThreadCache>,
    summary: Seq<ThreadSummary>,
    failed: Seq<i32>,
    no: i32,
)
    requires
        marks_wf(marks),
        summary_nos(summary).contains(no),
        !failed.contains(no),
    ensures
        rolled_back_all(after_summary(marks, summary), failed).contains_key(no),
        rolled_back_all(after_summary(marks, summary), failed)[no].last_modified == newest_for(
            summary,
            no,
            current(marks, no).last_modified,
        ),
        rolled_back_all(after_summary(marks, summary), failed)[no].last_modified >= current(
            marks,
            no,
        ).last_modified,
{
    let base = evicted(marks, summary);
    assert(marks_wf(base));
    assert(current(base, no) == current(marks, no));
    lemma_diff_lines_wf(base, summary);
    lemma_after_summary_dom(marks, summary);
    lemma_diff_lines_takes_newest(base, summary, no);
    lemma_newest_for_floor(summary, no, current(marks, no).last_modified);
    lemma_rolled_back_all(after_summary(marks, summary), failed);
}

/// A diff pass over a summary that names a thread once holds that one line
/// against the thread's watermark: the watermark is advanced by the line's
/// time, and the thread is marked exactly if the line marks it.
proof fn lemma_diff_lines_named_once(
    marks: Map<i32, ThreadCache>,
    summary: Seq<ThreadSummary>,
    no: i32,
    at: int,
)
    requires
        named_once(summary, no, at),
    ensures
        diff_lines(marks, summary).contains_key(no),
        diff_lines(marks, summary)[no] == current(marks, no).advanced(summary[at].last_modified),
        names_thread(marked_lines(marks, summary), no) == is_modified(marks, summary[at]),
    decreases summary.len(),
{
    let rest = summary.drop_last();
    let line = summary.last();
    let before = diff_lines(marks, rest);
    let marked_before = marked_lines(marks, rest);
    let marked = marked_lines(marks, summary);
    if at == summary.len() - 1 {
        assert(!summary_nos(rest).contains(no)) by {
            if summary_nos(rest).contains(no) {
                let j = choose|j: int| 0 <= j < rest.len() && (#[trigger] rest[j]).no == no;
                assert(summary[j].no != no);
            }
        }
        lemma_diff_lines_frame(marks, rest);
        assert(before.contains_key(no) == marks.contains_key(no));
        assert(current(before, no) == current(marks, no));
        lemma_marked_lines_named(marks, rest);
        assert(!names_thread(marked_before, no)) by {
            if names_thread(marked_before, no) {
                let k = choose|k: int|
                    0 <= k < marked_before.len() && (#[trigger] marked_before[k]).no == no;
                assert(marked_before.contains(marked_before[k]));
            }
        }
        if is_modified(before, line) {
            assert(marked[marked.len() - 1].no == no);
        } else {
            assert(marked == marked_before);
        }
    } else {
        assert(line.no != no) by {
            assert(summary[summary.len() - 1].no != no);
        }
        assert(named_once(rest, no, at)) by {
            assert forall|j: int| 0 <= j < rest.len() && j != at implies (#[trigger] rest[j]).no
                != no by {
                assert(summary[j].no != no);
            }
        }
        lemma_diff_lines_named_once(marks, rest, no, at);
        if names_thread(marked, no) {
            let k = choose|k: int| 0 <= k < marked.len() && (#[trigger] marked[k]).no == no;
            assert(k < marked_before.len());
            assert(marked_before[k].no == no);
        }
        if names_thread(marked_before, no) {
            let k = choose|k: int|
                0 <= k < marked_before.len() && (#[trigger] marked_before[k]).no == no;
            assert(marked[k].no == no);
        }
    }
}

/// A cycle over a summary that names a thread once, in a line with the
/// time `S`, where the thread's watermark holds `L` (zero for a thread that
/// the table does not know): the thread is marked exactly if it is unknown
/// or `L < S`; its watermark afterwards holds the newer of `L` and `S`; and
/// where the time was advanced, the displaced value is `L`, which a task
/// for the thread therefore captures.
pub proof fn lemma_thread_named_once(
    marks: Map<i32, ThreadCache>,
    summary: Seq<ThreadSummary>,
    no: i32,
    at: int,
)
    requires
        named_once(summary, no, at),
    ensures
        after_summary(marks, summary).contains_key(no),
        after_summary(marks, summary)[no] == current(marks, no).advanced(
            summary[at].last_modified,
        ),
        names_thread(modified_lines(marks, summary), no) == is_modified(marks, summary[at]),
        is_modified(marks, summary[at]) ==> after_summary(marks, summary)[no].prev_last_modified
            == current(marks, no).last_modified,
{
    let base = evicted(marks, summary);
    assert(summary_nos(summary).contains(no));
    assert(current(base, no) == current(marks, no));
    assert(is_modified(base, summary[at]) == is_modified(marks, summary[at]));
    lemma_diff_lines_named_once(base, summary, no, at);
}

/// A failed fetch restores the value from before the cycle. Where a summary
/// names a thread once and marks it, and the thread's fetch fails, the
/// watermark afterwards holds what it held before the cycle (zero for a
/// thread that the table did not know); so the same summary marks the thread
/// again in the next cycle wherever its time is above that value.
pub proof fn lemma_failed_fetch_restores(
    marks: Map<i32, ThreadCache>,
    summary: Seq<ThreadSummary>,
    failed: Seq<i32>,
    no: i32,
    at: int,
)
    requires
        marks_wf(marks),
        named_once(summary, no, at),
        is_modified(marks, summary[at]),
        failed.contains(no),
    ensures
        rolled_back_all(after_summary(marks, summary), failed).contains_key(no),
        rolled_back_all(after_summary(marks, summary), failed)[no].last_modified == current(
            marks,
            no,
        ).last_modified,
        current(marks, no).last_modified < summary[at].last_modified ==> names_thread(
            modified_lines(rolled_back_all(after_summary(marks, summary), failed), summary),
            no,
        ),
{
    let committed = after_summary(marks, summary);
    let rolled = rolled_back_all(committed, failed);
    lemma_thread_named_once(marks, summary, no, at);
    assert(marks_wf(evicted(marks, summary)));
    lemma_diff_lines_wf(evicted(marks, summary), summary);
    lemma_rolled_back_all(committed, failed);
    lemma_thread_named_once(rolled, summary, no, at);
}

/// The posts that one task adds to what a joined cycle publishes: the new
/// posts of its thread where the fetch succeeded, none where it failed.
pub open spec fn posts_of_task(task: ThreadCache, outcome: Option<Thread>) -> Seq<Post> {
    match outcome {
        Some(thread) => new_posts_of(thread.posts@, task.prev_last_modified),
        None => Seq::empty(),
    }
}

/// What a joined cycle publishes is, task by task in the plan's order, what
/// each task adds: before the posts of a task stand those of the tasks before
/// it, behind them those of the tasks after it. A failed fetch adds nothing.
pub proof fn lemma_published_by_task(
    plan: Seq<ThreadCache>,
    fetched: Seq<Option<Thread>>,
    task: int,
)
    requires
        plan.len() == fetched.len(),
        0 <= task < plan.len(),
    ensures
        published(plan, fetched) == published(plan.take(task), fetched.take(task))
            + posts_of_task(plan[task], fetched[task]) + published(
            plan.skip(task + 1),
            fetched.skip(task + 1),
        ),
    decreases plan.len(),
{
    let last = plan.len() - 1;
    let mine = posts_of_task(plan[task], fetched[task]);
    if task == last {
        assert(plan.take(task) =~= plan.drop_last());
        assert(fetched.take(task) =~= fetched.drop_last());
        assert(plan.skip(task + 1) =~= Seq::<ThreadCache>::empty());
        assert(published(plan.skip(task + 1), fetched.skip(task + 1)) =~= Seq::<Post>::empty());
        assert(published(plan, fetched) =~= published(plan.drop_last(), fetched.drop_last())
            + mine);
        assert(published(plan, fetched) =~= published(plan.take(task), fetched.take(task)) + mine
            + Seq::<Post>::empty());
    } else {
        let head = published(plan.take(task), fetched.take(task));
        let tail = published(plan.skip(task + 1), fetched.skip(task + 1));
        let closing = posts_of_task(plan[last], fetched[last]);
        lemma_published_by_task(plan.drop_last(), fetched.drop_last(), task);
        assert(plan.drop_last().take(task) =~= plan.take(task));
        assert(fetched.drop_last().take(task) =~= fetched.take(task));
        assert(plan.drop_last().skip(task + 1) =~= plan.skip(task + 1).drop_last());
        assert(fetched.drop_last().skip(task + 1) =~= fetched.skip(task + 1).drop_last());
        assert(plan.skip(task + 1).last() == plan[last]);
        assert(fetched.skip(task + 1).last() == fetched[last]);
        let inner = published(plan.skip(task + 1).drop_last(), fetched.skip(task + 1).drop_last());
        assert(tail =~= inner + closing);
        assert(published(plan, fetched) =~= published(plan.drop_last(), fetched.drop_last())
            + closing);
        assert(published(plan, fetched) =~= head + mine + tail);
    }
}

/// The new posts of a thread are its posts filtered by being new: each new
/// post once, in the thread's order, and no other post.
pub proof fn lemma_new_posts_of_is_filter(posts: Seq<Post>, since: i64)
    ensures
        new_posts_of(posts, since) == posts.filter(|p: Post| is_new(p, since)),
    decreases posts.len(),
{
    reveal(Seq::filter);
    if posts.len() > 0 {
        lemma_new_posts_of_is_filter(posts.drop_last(), since);
    }
}

} // verus!
