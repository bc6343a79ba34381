use rchan::api::client::{
    classify_status, if_modified_since, wait_before, Client, Config, Disposition, RetryStep,
    DEFAULT_MAX_RETRIES,
};
use rchan::api::endpoint::Endpoint;
use rchan::api::error::Error;
use rchan::api::response::ClientResponse;
use std::sync::Arc;

#[test]
fn dummy_test() {
    assert_eq!(1, 1);
}

#[test]
fn the_configuration_has_defaults() {
    let cfg = Config::default();
    assert!(!cfg.use_https());
    assert_eq!(cfg.max_retries(), DEFAULT_MAX_RETRIES);
    assert_eq!(cfg.max_retries(), 5);
    let cfg = Config::new(Some(true), Some(2));
    assert!(cfg.use_https());
    assert_eq!(cfg.max_retries(), 2);
    let client = Client::new(None);
    assert!(!client.use_https());
    assert_eq!(client.max_retries(), 5);
    let client = Client::new(Some(cfg));
    assert!(client.use_https());
    assert_eq!(client.max_retries(), 2);
}

#[test]
fn the_header_is_an_rfc_2822_date() {
    assert_eq!(if_modified_since(0), Some("Thu, 1 Jan 1970 00:00:00 +0000".to_string()));
    assert_eq!(
        if_modified_since(1700000000),
        Some("Tue, 14 Nov 2023 22:13:20 +0000".to_string())
    );
    assert_eq!(
        if_modified_since(253402300799),
        Some("Fri, 31 Dec 9999 23:59:59 +0000".to_string())
    );
    assert_eq!(if_modified_since(253402300800), None);
    assert_eq!(if_modified_since(i64::MAX), None);
    assert_eq!(if_modified_since(-1), Some("Wed, 31 Dec 1969 23:59:59 +0000".to_string()));
    assert_eq!(
        if_modified_since(-62167219200),
        Some("Sat, 1 Jan 0000 00:00:00 +0000".to_string())
    );
    assert_eq!(if_modified_since(-62167219201), None);
    assert_eq!(if_modified_since(i64::MIN), None);
}

#[test]
fn test_if_modified_since() {
    let endpoint = Endpoint::Boards;
    let mut client = Client::new(None);
    let first = client.new_request(&endpoint, false, 1700000000);
    assert_eq!(first.url, "http://a.4cdn.org/boards.json");
    assert_eq!(first.if_modified_since, None);
    let payload = ClientResponse::Boards(Arc::new(vec![]));
    let resp = client.handle_response(&endpoint, 200, Some(payload), 1700000000).unwrap();
    assert!(matches!(resp, ClientResponse::Boards(_)));
    let second = client.new_request(&endpoint, false, 1700000001);
    assert_eq!(second.if_modified_since, Some("Tue, 14 Nov 2023 22:13:20 +0000".to_string()));
    let resp = client.handle_response(&endpoint, 304, None, 1700000001).unwrap();
    assert!(matches!(resp, ClientResponse::Boards(_)));
}

#[test]
fn a_304_replays_the_cached_payload() {
    let endpoint = Endpoint::Archive("g".to_string());
    let mut client = Client::new(None);
    let payload = Arc::new(vec![11, 22, 33]);
    let first = client
        .handle_response(&endpoint, 200, Some(ClientResponse::Archive(payload.clone())), 10)
        .unwrap();
    let second = client.handle_response(&endpoint, 304, None, 11).unwrap();
    match (first, second) {
        (ClientResponse::Archive(a), ClientResponse::Archive(b)) => {
            assert!(Arc::ptr_eq(&a, &b));
            assert!(Arc::ptr_eq(&a, &payload));
            assert_eq!(*b, vec![11, 22, 33]);
        }
        _ => panic!("the replay has another shape"),
    }
}

#[test]
fn a_304_without_a_cached_payload_is_invalid() {
    let mut client = Client::new(None);
    let r = client.handle_response(&Endpoint::Boards, 304, None, 5);
    assert!(matches!(r, Err(Error::InvalidResponse)));
    let _ = client
        .handle_response(
            &Endpoint::Threads("g".to_string()),
            200,
            Some(ClientResponse::Threads(Arc::new(vec![]))),
            5,
        )
        .unwrap();
    let r = client.handle_response(&Endpoint::Threads("v".to_string()), 304, None, 6);
    assert!(matches!(r, Err(Error::InvalidResponse)));
}

#[test]
fn a_body_of_another_shape_is_invalid_and_not_cached() {
    let endpoint = Endpoint::Boards;
    let mut client = Client::new(None);
    let r = client.handle_response(&endpoint, 200, Some(ClientResponse::Archive(Arc::new(vec![]))), 5);
    assert!(matches!(r, Err(Error::InvalidResponse)));
    let r = client.handle_response(&endpoint, 200, Some(ClientResponse::NotModified), 5);
    assert!(matches!(r, Err(Error::InvalidResponse)));
    let r = client.handle_response(&endpoint, 200, None, 5);
    assert!(matches!(r, Err(Error::InvalidResponse)));
    assert_eq!(client.new_request(&endpoint, false, 6).if_modified_since, None);
}

#[test]
fn other_statuses_come_back_as_errors() {
    let mut client = Client::new(None);
    match client.handle_response(&Endpoint::Boards, 404, None, 5) {
        Err(Error::StatusCode(code)) => assert_eq!(code, "404"),
        _ => panic!("a 404 is an error"),
    }
    match client.handle_response(&Endpoint::Boards, 500, None, 5) {
        Err(Error::StatusCode(code)) => assert_eq!(code, "500"),
        _ => panic!("a 500 is an error"),
    }
    match client.handle_response(&Endpoint::Boards, 0, None, 5) {
        Err(Error::StatusCode(code)) => assert_eq!(code, "0"),
        _ => panic!("a 0 is an error"),
    }
    assert_eq!(classify_status(200), Disposition::Decode);
    assert_eq!(classify_status(304), Disposition::Replay);
    assert_eq!(classify_status(201), Disposition::Fail);
    assert_eq!(classify_status(404), Disposition::Fail);
}

#[test]
fn retries_back_off_and_stop_at_the_cap() {
    let client = Client::new(Some(Config::new(None, Some(2))));
    let error = Error::StatusCode("500".to_string());
    assert_eq!(client.after_failure(0, &error), RetryStep::Retry { retries: 1, wait_secs: 1 });
    assert_eq!(client.after_failure(1, &error), RetryStep::Retry { retries: 2, wait_secs: 2 });
    assert_eq!(client.after_failure(2, &error), RetryStep::GiveUp);
    assert_eq!(client.after_failure(usize::MAX, &error), RetryStep::GiveUp);
    assert_eq!(wait_before(0), 0);
    assert_eq!(wait_before(3), 3);
}

#[test]
fn a_404_is_not_tried_again() {
    let client = Client::new(None);
    assert_eq!(client.after_failure(0, &Error::StatusCode("404".to_string())), RetryStep::GiveUp);
    assert_eq!(
        client.after_failure(0, &Error::Transport("reset".to_string())),
        RetryStep::Retry { retries: 1, wait_secs: 1 }
    );
    assert_eq!(
        client.after_failure(0, &Error::InvalidResponse),
        RetryStep::Retry { retries: 1, wait_secs: 1 }
    );
    let never = Client::new(Some(Config::new(None, Some(0))));
    assert_eq!(never.after_failure(0, &Error::InvalidResponse), RetryStep::GiveUp);
}

#[test]
fn responses_give_up_their_payload_by_shape() {
    let boards = ClientResponse::Boards(Arc::new(vec![]));
    assert!(boards.matches_endpoint(&Endpoint::Boards));
    assert!(!boards.matches_endpoint(&Endpoint::Threads("g".to_string())));
    assert!(boards.clone().into_boards().is_ok());
    assert!(matches!(boards.clone().into_threads(), Err(Error::InvalidResponse)));
    assert!(matches!(boards.clone().into_catalog(), Err(Error::InvalidResponse)));
    assert!(matches!(boards.clone().into_index(), Err(Error::InvalidResponse)));
    assert!(matches!(boards.clone().into_thread(), Err(Error::InvalidResponse)));
    let archive = ClientResponse::Archive(Arc::new(vec![5]));
    assert!(archive.matches_endpoint(&Endpoint::Archive("g".to_string())));
    assert_eq!(*archive.clone().into_archive().unwrap(), vec![5]);
    assert!(matches!(archive.into_boards(), Err(Error::InvalidResponse)));
    let threads = ClientResponse::Threads(Arc::new(vec![]));
    assert!(threads.matches_endpoint(&Endpoint::Threads("g".to_string())));
    assert!(threads.into_threads().is_ok());
    let catalog = ClientResponse::Catalog(Arc::new(vec![]));
    assert!(catalog.matches_endpoint(&Endpoint::Catalog("g".to_string())));
    assert!(catalog.into_catalog().is_ok());
    assert!(!ClientResponse::NotModified.matches_endpoint(&Endpoint::Boards));
}

#[test]
fn errors_describe_themselves() {
    assert_eq!(Error::Transport("reset".to_string()).to_string(), "Transport error: reset");
    assert_eq!(Error::Decode("eof".to_string()).to_string(), "Decode error: eof");
    assert_eq!(Error::MaxRetriesExceeded("3".to_string()).to_string(), "Max retries exceeded: 3");
    assert_eq!(Error::StatusCode("404".to_string()).to_string(), "Status code: 404");
    assert_eq!(Error::Stream("closed".to_string()).to_string(), "Stream error: closed");
    assert_eq!(Error::InvalidResponse.to_string(), "Invalid response");
    assert_eq!(Error::NoCachedResponse.to_string(), "No cached response");
    assert_eq!(Error::status(503).to_string(), "Status code: 503");
    assert!(Error::status(404).is_not_found());
    assert!(!Error::status(403).is_not_found());
    assert!(!Error::InvalidResponse.is_not_found());
    assert!(Error::Decode("x".to_string()).is_decode());
    assert!(!Error::Transport("x".to_string()).is_decode());
    assert_eq!(Error::status(7).clone().to_string(), "Status code: 7");
}
