use rchan::api::error::Error;
use rchan::stream::client::Subscription;
use rchan::stream::watermark::{sort_for_fetch, summarize, ThreadCache, ThreadSummary};
use rchan::stream::worker::{
    events_for, new_posts, BoardCache, BoardWorker, Event, KillSignal, WorkerState,
};
use rchan::types::board::{Board, Cooldowns};
use rchan::types::post::{Post, Thread, ThreadPage};

fn post(no: i32, resto: Option<i32>, time: Option<i64>, last_modified: Option<i64>) -> Post {
    Post {
        no,
        sticky: None,
        closed: None,
        now: None,
        name: None,
        sub: None,
        com: None,
        filename: None,
        ext: None,
        w: None,
        h: None,
        tn_w: None,
        tn_h: None,
        tim: None,
        time,
        md5: None,
        fsize: None,
        resto,
        capcode: None,
        semantic_url: None,
        replies: None,
        images: None,
        unique_ips: None,
        omitted_posts: None,
        omitted_images: None,
        last_replies: None,
        last_modified,
    }
}

fn summary(lines: &[(i32, i64)]) -> Vec<ThreadPage> {
    vec![ThreadPage {
        page: 1,
        threads: lines.iter().map(|(no, lm)| post(*no, None, None, Some(*lm))).collect(),
    }]
}

fn thread(no: i32, times: &[i64]) -> Thread {
    Thread {
        posts: times
            .iter()
            .enumerate()
            .map(|(i, t)| {
                if i == 0 {
                    post(no, Some(0), Some(*t), None)
                } else {
                    post(no + i as i32, Some(no), Some(*t), None)
                }
            })
            .collect(),
    }
}

fn board() -> Board {
    Board {
        board: "g".to_string(),
        title: "Technology".to_string(),
        ws_board: 1,
        per_page: 15,
        pages: 10,
        max_filesize: 4194304,
        max_webm_filesize: 3145728,
        max_comment_chars: 2000,
        max_webm_duration: 120,
        bump_limit: 500,
        image_limit: 250,
        cooldowns: Cooldowns { threads: 600, replies: 60, images: 60 },
        meta_description: "Technology".to_string(),
        spoilers: None,
        custom_spoilers: None,
        is_archived: None,
        forced_anon: None,
        board_flags: None,
    }
}

fn times_of(events: &[Event]) -> Vec<i64> {
    events.iter().map(|e| e.post().time.unwrap()).collect()
}

#[test]
fn new_posts_are_those_after_the_displaced_watermark() {
    let mut cache = BoardCache::new(150);
    cache.init(&summary(&[(1, 1000)]), 1);
    assert_eq!(
        cache.watermark(1),
        Some(ThreadCache { no: 1, last_modified: 1000, prev_last_modified: 0 })
    );
    assert_eq!(cache.last_update_sec(), 1);

    let plan = cache.begin_cycle(&summary(&[(1, 1005)]));
    assert_eq!(plan, vec![ThreadCache { no: 1, last_modified: 1005, prev_last_modified: 1000 }]);
    let fetched = vec![Some(thread(1, &[999, 1002, 1004]))];
    let events = cache.complete_cycle("g", &plan, &fetched, 2);
    assert_eq!(times_of(&events), vec![1002, 1004]);
    assert!(events.iter().all(|e| matches!(e, Event::NewPost(_))));
    assert!(events.iter().all(|e| e.board() == "g"));
    assert_eq!(cache.last_update_sec(), 2);
    assert_eq!(
        cache.watermark(1),
        Some(ThreadCache { no: 1, last_modified: 1005, prev_last_modified: 1000 })
    );
}

#[test]
fn a_failed_fetch_rolls_the_watermark_back() {
    let mut cache = BoardCache::new(150);
    cache.init(&summary(&[(1, 1000)]), 1);

    let plan = cache.begin_cycle(&summary(&[(1, 2000)]));
    assert_eq!(plan.len(), 1);
    assert_eq!(cache.watermark(1).unwrap().last_modified, 2000);
    let events = cache.complete_cycle("g", &plan, &vec![None], 2);
    assert!(events.is_empty());
    assert_eq!(cache.watermark(1).unwrap().last_modified, 1000);

    let plan = cache.begin_cycle(&summary(&[(1, 2000)]));
    assert_eq!(plan, vec![ThreadCache { no: 1, last_modified: 2000, prev_last_modified: 1000 }]);
    let events = cache.complete_cycle("g", &plan, &vec![Some(thread(1, &[900, 1500]))], 3);
    assert_eq!(times_of(&events), vec![1500]);
    assert_eq!(cache.watermark(1).unwrap().last_modified, 2000);

    let plan = cache.begin_cycle(&summary(&[(1, 2000)]));
    assert!(plan.is_empty());
}

#[test]
fn a_thread_that_left_the_summary_is_evicted() {
    let mut cache = BoardCache::new(150);
    cache.init(&summary(&[(1, 10), (2, 20)]), 1);
    assert_eq!(cache.thread_count(), 2);
    let plan = cache.begin_cycle(&summary(&[(1, 10)]));
    assert!(plan.is_empty());
    let events = cache.complete_cycle("g", &plan, &vec![], 2);
    assert!(events.is_empty());
    assert_eq!(cache.thread_count(), 1);
    assert!(cache.watermark(1).is_some());
    assert!(cache.watermark(2).is_none());
}

#[test]
fn a_thread_that_is_new_publishes_all_its_posts() {
    let mut cache = BoardCache::new(150);
    cache.init(&summary(&[(1, 10)]), 1);
    let plan = cache.begin_cycle(&summary(&[(1, 10), (5, 40)]));
    assert_eq!(plan, vec![ThreadCache { no: 5, last_modified: 40, prev_last_modified: 0 }]);
    let events = cache.complete_cycle("g", &plan, &vec![Some(thread(5, &[30, 35, 40]))], 2);
    assert_eq!(times_of(&events), vec![30, 35, 40]);
    assert!(matches!(events[0], Event::NewThread(_)));
    assert!(matches!(events[1], Event::NewPost(_)));
    assert!(matches!(events[2], Event::NewPost(_)));
}

#[test]
fn an_unknown_thread_is_marked_whatever_its_time() {
    let mut cache = BoardCache::new(150);
    let modified = cache.update_cache(&summary(&[(3, 0), (4, -7)]));
    assert_eq!(
        modified,
        vec![ThreadSummary { no: 4, last_modified: -7 }, ThreadSummary { no: 3, last_modified: 0 }]
    );
    assert_eq!(cache.watermark(3), Some(ThreadCache { no: 3, last_modified: 0, prev_last_modified: 0 }));
    assert_eq!(cache.watermark(4), Some(ThreadCache { no: 4, last_modified: 0, prev_last_modified: 0 }));
    let again = cache.update_cache(&summary(&[(3, 0), (4, -7)]));
    assert!(again.is_empty());
}

#[test]
fn a_missing_modification_time_counts_as_zero() {
    let pages = vec![ThreadPage { page: 1, threads: vec![post(8, None, None, None)] }];
    assert_eq!(summarize(&pages), vec![ThreadSummary { no: 8, last_modified: 0 }]);
}

#[test]
fn modified_threads_come_oldest_first() {
    let mut cache = BoardCache::new(150);
    let pages = vec![
        ThreadPage {
            page: 1,
            threads: vec![post(1, None, None, Some(300)), post(2, None, None, Some(100))],
        },
        ThreadPage {
            page: 2,
            threads: vec![post(3, None, None, Some(200)), post(4, None, None, Some(100))],
        },
    ];
    let modified = cache.update_cache(&pages);
    let nos: Vec<i32> = modified.iter().map(|m| m.no).collect();
    assert_eq!(nos, vec![2, 4, 3, 1]);
    assert_eq!(cache.thread_count(), 4);
    let sorted = sort_for_fetch(&vec![
        ThreadSummary { no: 1, last_modified: 5 },
        ThreadSummary { no: 2, last_modified: 5 },
        ThreadSummary { no: 3, last_modified: 1 },
    ]);
    let nos: Vec<i32> = sorted.iter().map(|m| m.no).collect();
    assert_eq!(nos, vec![3, 1, 2]);
}

#[test]
fn a_thread_named_twice_is_diffed_line_by_line() {
    let mut cache = BoardCache::new(150);
    let modified = cache.update_cache(&summary(&[(1, 5), (1, 7), (1, 6)]));
    assert_eq!(
        modified,
        vec![ThreadSummary { no: 1, last_modified: 5 }, ThreadSummary { no: 1, last_modified: 7 }]
    );
    assert_eq!(cache.watermark(1), Some(ThreadCache { no: 1, last_modified: 7, prev_last_modified: 5 }));
    assert_eq!(cache.thread_count(), 1);
}

#[test]
fn only_failed_threads_are_rolled_back() {
    let mut cache = BoardCache::new(150);
    cache.init(&summary(&[(1, 10), (2, 10), (3, 10)]), 1);
    let plan = cache.begin_cycle(&summary(&[(1, 30), (2, 20), (3, 10)]));
    let nos: Vec<i32> = plan.iter().map(|t| t.no).collect();
    assert_eq!(nos, vec![2, 1]);
    let events =
        cache.complete_cycle("g", &plan, &vec![None, Some(thread(1, &[5, 15, 25]))], 9);
    assert_eq!(times_of(&events), vec![15, 25]);
    assert_eq!(cache.watermark(1).unwrap().last_modified, 30);
    assert_eq!(cache.watermark(2).unwrap().last_modified, 10);
    assert_eq!(cache.watermark(3).unwrap().last_modified, 10);
    cache.rollback(77);
    cache.rollback(3);
    assert_eq!(cache.watermark(3), Some(ThreadCache { no: 3, last_modified: 0, prev_last_modified: 0 }));
    assert_eq!(cache.thread_count(), 3);
    cache.finish_cycle(&vec![1, 1, 99], 12);
    assert_eq!(cache.watermark(1).unwrap().last_modified, 10);
    assert_eq!(cache.last_update_sec(), 12);
}

#[test]
fn a_post_without_time_is_never_new() {
    let t = Thread {
        posts: vec![
            post(1, None, None, None),
            post(2, Some(1), Some(5), None),
            post(3, Some(1), Some(6), None),
        ],
    };
    let found: Vec<i32> = new_posts(&t, 5).iter().map(|p| p.no).collect();
    assert_eq!(found, vec![3]);
    let found: Vec<i32> = new_posts(&t, i64::MIN).iter().map(|p| p.no).collect();
    assert_eq!(found, vec![2, 3]);
    assert!(new_posts(&t, 6).is_empty());
    let events = events_for("g", &t, 0);
    assert_eq!(events.len(), 2);
    assert_eq!(events[0].post().no, 2);
    assert_eq!(events[1].post().no, 3);
}

#[test]
fn events_follow_the_parent_reference() {
    assert!(matches!(Event::new("g".to_string(), post(1, None, None, None)), Event::NewThread(_)));
    assert!(matches!(Event::new("g".to_string(), post(1, Some(0), None, None)), Event::NewThread(_)));
    let e = Event::new("pol".to_string(), post(2, Some(1), None, None));
    assert!(matches!(e, Event::NewPost(_)));
    assert_eq!(e.board(), "pol");
    assert_eq!(e.post().no, 2);
}

#[test]
fn a_watermark_never_falls_where_the_fetch_succeeded() {
    let mut cache = BoardCache::new(150);
    cache.init(&summary(&[(1, 50), (2, 50), (3, 50)]), 1);
    let plan = cache.begin_cycle(&summary(&[(1, 40), (2, 60), (3, 70)]));
    let nos: Vec<i32> = plan.iter().map(|t| t.no).collect();
    assert_eq!(nos, vec![2, 3]);
    let _ = cache.complete_cycle("g", &plan, &vec![Some(thread(2, &[55])), None], 2);
    assert_eq!(cache.watermark(1).unwrap().last_modified, 50);
    assert_eq!(cache.watermark(2).unwrap().last_modified, 60);
    assert_eq!(cache.watermark(3).unwrap().last_modified, 50);
}

#[test]
fn caches_start_empty() {
    let cache = BoardCache::new(10);
    assert_eq!(cache.last_update_sec(), 0);
    assert_eq!(cache.thread_count(), 0);
    let cache = BoardCache::new_at(77);
    assert_eq!(cache.last_update_sec(), 77);
    assert_eq!(cache.thread_count(), 0);
    assert_eq!(
        ThreadCache::new(4, 9),
        ThreadCache { no: 4, last_modified: 9, prev_last_modified: 0 }
    );
    let plan = cache.fetch_plan(&vec![ThreadSummary { no: 4, last_modified: 9 }]);
    assert_eq!(plan, vec![ThreadCache { no: 4, last_modified: 77, prev_last_modified: 0 }]);
}

#[test]
fn test_kill() {
    let mut worker = BoardWorker::new(Subscription::new("pol".to_string(), Some(10000)), board());
    assert_eq!(worker.current_state(), WorkerState::Initializing);
    assert_eq!(worker.name(), "g");
    worker.init(&summary(&[(1, 10)]), 1);
    assert_eq!(worker.current_state(), WorkerState::Polling);
    assert!(worker.check_kill(KillSignal::Empty));
    assert_eq!(worker.current_state(), WorkerState::Polling);
    assert!(!worker.check_kill(KillSignal::Received));
    assert_eq!(worker.current_state(), WorkerState::Terminated);

    let mut worker = BoardWorker::new(Subscription::new("g".to_string(), None), board());
    worker.init(&summary(&[]), 1);
    assert!(!worker.check_kill(KillSignal::Closed));
    assert_eq!(worker.current_state(), WorkerState::Terminated);
}

#[test]
fn a_worker_polls_sleeps_and_wakes() {
    let mut worker = BoardWorker::new(Subscription::new("g".to_string(), None), board());
    assert_eq!(worker.sleep_ms(), 10000);
    worker.init(&summary(&[(1, 1000)]), 1);
    assert!(worker.check_kill(KillSignal::Empty));
    let plan = worker.update_board(&summary(&[(1, 1005)]));
    let events = worker.join(&plan, &vec![Some(thread(1, &[999, 1002, 1004]))], 2);
    assert_eq!(times_of(&events), vec![1002, 1004]);
    assert!(events.iter().all(|e| e.board() == "g"));
    assert_eq!(worker.current_state(), WorkerState::Sleeping);
    assert_eq!(worker.board_cache().last_update_sec(), 2);
    worker.wake();
    assert_eq!(worker.current_state(), WorkerState::Polling);
    worker.skip_cycle(&Error::StatusCode("500".to_string()), 3);
    assert_eq!(worker.current_state(), WorkerState::Sleeping);
    assert_eq!(worker.board_cache().last_update_sec(), 3);
    assert_eq!(worker.board_cache().watermark(1).unwrap().last_modified, 1005);
    worker.wake();
    worker.skip_cycle(&Error::InvalidResponse, 4);
    assert_eq!(worker.current_state(), WorkerState::Sleeping);
    worker.wake();
    worker.skip_cycle(&Error::Decode("eof".to_string()), 5);
    assert_eq!(worker.current_state(), WorkerState::Terminated);
    assert_eq!(worker.board_cache().last_update_sec(), 4);
}

#[test]
fn a_worker_that_cannot_start_ends() {
    let mut worker = BoardWorker::new(Subscription::new("g".to_string(), Some(-1)), board());
    assert_eq!(worker.sleep_ms(), u64::MAX);
    worker.fail();
    assert_eq!(worker.current_state(), WorkerState::Terminated);
    let worker = BoardWorker::new(Subscription::new("g".to_string(), Some(i64::MIN)), board());
    assert_eq!(worker.sleep_ms(), 1u64 << 63);
    let worker = BoardWorker::new(Subscription::new("g".to_string(), Some(0)), board());
    assert_eq!(worker.sleep_ms(), 0);
}

#[test]
fn a_board_knows_its_thread_limit() {
    let mut b = board();
    assert_eq!(b.thread_limit(), 150);
    assert_eq!(b.name(), "g");
    b.pages = i32::MIN;
    b.per_page = i32::MIN;
    assert_eq!(b.thread_limit(), 1i64 << 62);
    b.per_page = -1;
    b.pages = 3;
    assert_eq!(b.thread_limit(), -3);
    let worker = BoardWorker::new(Subscription::new("g".to_string(), None), b);
    assert_eq!(worker.board_cache().thread_count(), 0);
}
