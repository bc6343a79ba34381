use rchan::api::cache::{
    CacheInner, CacheRequest, CacheResponse, ClientCache, CLEANUP_INTERVAL, MAX_CACHE_TIME_S,
};
use rchan::api::endpoint::Endpoint;
use rchan::api::response::ClientResponse;
use std::sync::Arc;

#[test]
fn cache_test_cache() {
    let endpoint = Endpoint::Boards;
    let mut cache = ClientCache::new();
    let response = cache.serve(CacheRequest::LastCalled(endpoint.clone()), 100).unwrap();
    assert!(matches!(response, CacheResponse::Missing));

    let resp = ClientResponse::Boards(Arc::new(vec![]));
    let update_request = CacheRequest::Update(endpoint.clone(), resp.clone());
    assert!(cache.serve(update_request, 101).is_none());

    let response = cache.serve(CacheRequest::LastCalled(endpoint.clone()), 102).unwrap();
    assert!(matches!(response, CacheResponse::LastCalled(101)));

    let response = cache.serve(CacheRequest::LastResponse(endpoint.clone()), 103).unwrap();
    assert!(matches!(response, CacheResponse::LastResponse(ClientResponse::Boards(_))));
}

#[test]
fn an_update_overwrites_time_and_payload() {
    let e = Endpoint::Archive("g".to_string());
    let mut inner = CacheInner::new();
    assert_eq!(inner.len(), 0);
    inner.handle_update(&e, ClientResponse::Archive(Arc::new(vec![1])), 10);
    inner.handle_update(&Endpoint::Boards, ClientResponse::Boards(Arc::new(vec![])), 11);
    assert_eq!(inner.len(), 2);
    inner.handle_update(&e, ClientResponse::Archive(Arc::new(vec![2, 3])), 20);
    assert_eq!(inner.len(), 2);
    assert!(matches!(inner.handle_last_called(&e), CacheResponse::LastCalled(20)));
    match inner.handle_last_response(&e) {
        CacheResponse::LastResponse(ClientResponse::Archive(nos)) => assert_eq!(*nos, vec![2, 3]),
        _ => panic!("the payload was not overwritten"),
    }
    assert!(matches!(inner.handle_last_called(&Endpoint::Boards), CacheResponse::LastCalled(11)));
    assert!(matches!(
        inner.handle_last_called(&Endpoint::Archive("v".to_string())),
        CacheResponse::Missing
    ));
    assert!(matches!(
        inner.handle_last_response(&Endpoint::Threads("g".to_string())),
        CacheResponse::Missing
    ));
}

#[test]
fn a_sweep_removes_what_is_older_than_an_hour() {
    let mut inner = CacheInner::new();
    let old = Endpoint::Threads("a".to_string());
    let edge = Endpoint::Threads("b".to_string());
    let fresh = Endpoint::Threads("c".to_string());
    inner.handle_update(&old, ClientResponse::Threads(Arc::new(vec![])), 0);
    inner.handle_update(&edge, ClientResponse::Threads(Arc::new(vec![])), 1);
    inner.handle_update(&fresh, ClientResponse::Threads(Arc::new(vec![])), 3000);
    inner.cleanup(MAX_CACHE_TIME_S + 1);
    assert_eq!(inner.len(), 2);
    assert!(matches!(inner.handle_last_called(&old), CacheResponse::Missing));
    assert!(matches!(inner.handle_last_response(&old), CacheResponse::Missing));
    assert!(matches!(inner.handle_last_called(&edge), CacheResponse::LastCalled(1)));
    assert!(matches!(inner.handle_last_called(&fresh), CacheResponse::LastCalled(3000)));
    inner.cleanup(i64::MAX);
    assert_eq!(inner.len(), 0);
    inner.handle_update(&old, ClientResponse::Threads(Arc::new(vec![])), i64::MAX);
    inner.cleanup(i64::MIN);
    assert_eq!(inner.len(), 1);
}

#[test]
fn the_hundredth_request_is_followed_by_a_sweep() {
    let mut cache = ClientCache::new();
    let e = Endpoint::Boards;
    cache.update(e.clone(), ClientResponse::Boards(Arc::new(vec![])), 0);
    let late = 2 * MAX_CACHE_TIME_S;
    for _ in 1..(CLEANUP_INTERVAL - 1) {
        assert_eq!(cache.last_called(e.clone(), late), Some(0));
    }
    assert_eq!(cache.peek_last_called(&e), Some(0));
    assert_eq!(cache.last_called(e.clone(), late), Some(0));
    assert_eq!(cache.peek_last_called(&e), None);
    assert_eq!(cache.last_called(e.clone(), late), None);
    assert!(cache.last_response(e.clone(), late).is_none());
}

#[test]
fn an_entry_within_the_hour_outlives_the_sweep() {
    let mut cache = ClientCache::new();
    let e = Endpoint::Boards;
    cache.update(e.clone(), ClientResponse::Boards(Arc::new(vec![])), 50);
    for i in 0..250 {
        assert_eq!(cache.last_called(e.clone(), 50 + (i % 7) * 500), Some(50));
    }
    assert_eq!(cache.last_called(e.clone(), 50 + MAX_CACHE_TIME_S), Some(50));
    assert!(cache.last_response(e, 50 + MAX_CACHE_TIME_S).is_some());
}

#[test]
fn requests_are_answered_from_the_state_before() {
    let mut inner = CacheInner::new();
    let e = Endpoint::Index("g".to_string(), 2);
    assert!(matches!(
        inner.handle_request(CacheRequest::LastResponse(e.clone()), 1),
        Some(CacheResponse::Missing)
    ));
    assert!(inner
        .handle_request(CacheRequest::Update(e.clone(), ClientResponse::NotModified), 2)
        .is_none());
    assert!(matches!(
        inner.handle_request(CacheRequest::LastCalled(e.clone()), 3),
        Some(CacheResponse::LastCalled(2))
    ));
    assert!(matches!(
        inner.handle_request(CacheRequest::LastResponse(e), 3),
        Some(CacheResponse::LastResponse(ClientResponse::NotModified))
    ));
}
