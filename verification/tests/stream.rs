use rchan::stream::client::{Admission, Stream, Subscription, DEFAULT_REFRESH_RATE_MS};
use rchan::stream::error::Error;
use rchan::stream::stream::{BoardConfig, Config};
use rchan::types::board::{Board, Cooldowns};

fn board(name: &str, pages: i32) -> Board {
    Board {
        board: name.to_string(),
        title: name.to_string(),
        ws_board: 1,
        per_page: 15,
        pages,
        max_filesize: 0,
        max_webm_filesize: 0,
        max_comment_chars: 0,
        max_webm_duration: 0,
        bump_limit: 0,
        image_limit: 0,
        cooldowns: Cooldowns { threads: 0, replies: 0, images: 0 },
        meta_description: String::new(),
        spoilers: None,
        custom_spoilers: None,
        is_archived: None,
        forced_anon: None,
        board_flags: None,
    }
}

#[test]
fn a_subscription_has_a_default_rate() {
    let sub = Subscription::new("g".to_string(), None);
    assert_eq!(sub.board_name, "g");
    assert_eq!(sub.refresh_rate_ms, 10000);
    assert_eq!(DEFAULT_REFRESH_RATE_MS, 10000);
    let sub = Subscription::new("g".to_string(), Some(100));
    assert_eq!(sub.refresh_rate_ms, 100);
    let copy = sub.clone();
    assert_eq!(copy.board_name, "g");
    assert_eq!(copy.refresh_rate_ms, 100);
}

#[test]
fn test_subscribe() {
    let mut stream: Stream<u32> = Stream::new();
    let g = Subscription::new("g".to_string(), None);
    let v = Subscription::new("v".to_string(), None);
    assert!(stream.needs_boards());
    assert!(matches!(stream.subscribe(&g), Ok(Admission::FetchBoards)));
    stream.set_boards(vec![board("a", 10), board("g", 10), board("v", 10)]);
    assert!(!stream.needs_boards());
    assert!(matches!(stream.subscribe(&g), Ok(Admission::Start(1))));
    assert_eq!(stream.board(1).board, "g");
    assert!(stream.register("g".to_string(), 100).is_none());
    assert!(matches!(stream.subscribe(&v), Ok(Admission::Start(2))));
    assert!(stream.register("v".to_string(), 200).is_none());
    assert_eq!(stream.worker_count(), 2);
    assert!(stream.is_subscribed("g"));
    assert!(stream.is_subscribed("v"));
    assert!(!stream.is_subscribed("a"));
}

#[test]
fn a_board_is_subscribed_once() {
    let mut stream: Stream<u32> = Stream::new();
    stream.set_boards(vec![board("g", 10)]);
    let g = Subscription::new("g".to_string(), None);
    assert!(stream.register("g".to_string(), 1).is_none());
    match stream.subscribe(&g) {
        Err(Error::AlreadySubscribed(text)) => assert_eq!(text, "Board already subscribed"),
        _ => panic!("a second subscription was accepted"),
    }
    assert_eq!(stream.register("g".to_string(), 2), Some(2));
    assert_eq!(stream.worker_count(), 1);
    assert_eq!(stream.kill_worker("g"), Some(1));
}

#[test]
fn an_unknown_board_is_refused() {
    let mut stream: Stream<u32> = Stream::new();
    stream.set_boards(vec![board("g", 10)]);
    match stream.subscribe(&Subscription::new("nope".to_string(), None)) {
        Err(Error::BoardNotFound(text)) => assert_eq!(text, "Board not found"),
        _ => panic!("an unknown board was accepted"),
    }
    assert_eq!(stream.get_board_data("g"), Some(0));
    assert_eq!(stream.get_board_data("G"), None);
}

#[test]
fn an_empty_listing_is_fetched_once() {
    let mut stream: Stream<u32> = Stream::new();
    let g = Subscription::new("g".to_string(), None);
    assert!(stream.needs_boards());
    assert!(matches!(stream.subscribe(&g), Ok(Admission::FetchBoards)));
    stream.set_boards(vec![]);
    assert!(!stream.needs_boards());
    assert!(matches!(stream.subscribe(&g), Err(Error::BoardNotFound(_))));
    assert_eq!(stream.get_board_data("g"), None);
}

#[test]
fn the_first_board_of_a_name_is_taken() {
    let mut stream: Stream<u32> = Stream::new();
    stream.set_boards(vec![board("a", 1), board("g", 2), board("g", 3)]);
    assert_eq!(stream.get_board_data("g"), Some(1));
    assert_eq!(stream.board(1).pages, 2);
}

#[test]
fn unsubscribing_frees_the_board() {
    let mut stream: Stream<&'static str> = Stream::new();
    stream.set_boards(vec![board("g", 10), board("v", 10)]);
    let g = Subscription::new("g".to_string(), None);
    assert!(matches!(stream.subscribe(&g), Ok(Admission::Start(0))));
    assert!(stream.register("g".to_string(), "cancel g").is_none());
    assert!(stream.register("v".to_string(), "cancel v").is_none());
    assert!(matches!(stream.subscribe(&g), Err(Error::AlreadySubscribed(_))));
    assert_eq!(stream.unsubscribe("g"), Some("cancel g"));
    assert!(!stream.is_subscribed("g"));
    assert!(stream.is_subscribed("v"));
    assert_eq!(stream.unsubscribe("g"), None);
    assert_eq!(stream.worker_count(), 1);
    assert!(matches!(stream.subscribe(&g), Ok(Admission::Start(0))));
    assert!(stream.register("g".to_string(), "cancel g again").is_none());
    assert_eq!(stream.kill_worker("v"), Some("cancel v"));
    assert_eq!(stream.kill_worker("g"), Some("cancel g again"));
    assert_eq!(stream.worker_count(), 0);
}

#[test]
fn stream_errors_describe_themselves() {
    assert_eq!(
        Error::already_subscribed().to_string(),
        "Already subscribed to board: Board already subscribed"
    );
    assert_eq!(Error::board_not_found().to_string(), "Board not found: Board not found");
    assert_eq!(Error::InvalidResponse.to_string(), "Invalid Response");
    assert_eq!(
        Error::from_api(rchan::api::error::Error::status(500)).to_string(),
        "Rchan API error: Status code: 500"
    );
}

#[test]
fn a_fixed_selection_picks_the_listed_boards_that_it_names() {
    let config = Config {
        boards: vec![
            BoardConfig::new("v".to_string(), Some(20000)),
            BoardConfig::new("g".to_string(), None),
            BoardConfig::new("g".to_string(), Some(5)),
        ],
    };
    let listing = vec![board("a", 1), board("g", 2), board("pol", 3), board("v", 4)];
    assert_eq!(config.select(&listing), vec![1, 3]);
    assert_eq!(config.select(&vec![]), Vec::<usize>::new());
    let entry = config.get_config_for_board(&listing[1]).unwrap();
    assert_eq!(entry.name, "g");
    assert_eq!(entry.refresh_rate_ms, 10000);
    let entry = config.get_config_for_board(&listing[3]).unwrap();
    assert_eq!(entry.refresh_rate_ms, 20000);
    assert!(config.get_config_for_board(&listing[0]).is_none());
    let copy = entry.clone();
    assert_eq!(copy.name, "v");
    assert_eq!(copy.refresh_rate_ms, 20000);
}
