use rchan::api::rate_limit::RateLimiter;

#[test]
fn rate_limit_test_rate_limiter() {
    let rate_limit_per_interval = 1;
    let interval_duration_ms = 1000;
    let n: u128 = 3;

    let mut rate_limiter = RateLimiter::new(rate_limit_per_interval, interval_duration_ms);
    let start: u128 = 5000;
    let mut now = start;
    for _ in 0..n {
        let wait = rate_limiter.rate_limit(now);
        now += wait;
    }
    assert!(now - start >= (n - 1) / rate_limit_per_interval as u128 * interval_duration_ms);
    assert_eq!(now - start, 2000);
}

#[test]
fn callers_that_ask_at_one_instant_wait_for_the_oldest_expiry() {
    let mut limiter = RateLimiter::new(1, 1000);
    let mut waits = Vec::new();
    for _ in 0..10 {
        assert!(limiter.can_acquire_at(0));
        waits.push(limiter.rate_limit(0));
    }
    assert_eq!(waits, vec![0, 1000, 1000, 1000, 1000, 1000, 1000, 1000, 1000, 1000]);
}

#[test]
fn test_client_rate_limit() {
    let mut limiter = RateLimiter::new(1, 1000);
    let mut now: u128 = 0;
    let mut departures = Vec::new();
    for _ in 0..10 {
        let wait = limiter.rate_limit(now);
        now += wait;
        departures.push(now);
    }
    assert_eq!(departures, vec![0, 1000, 2000, 3000, 4000, 5000, 6000, 7000, 8000, 9000]);
    assert!(now >= 9000);
}

#[test]
fn a_free_permit_lets_the_caller_leave_at_once() {
    let mut limiter = RateLimiter::new(2, 1000);
    assert_eq!(limiter.rate_limit(10), 0);
    assert_eq!(limiter.pending(), 1);
    assert_eq!(limiter.rate_limit(10), 0);
    assert_eq!(limiter.pending(), 2);
    assert_eq!(limiter.rate_limit(10), 1000);
    assert_eq!(limiter.pending(), 3);
}

#[test]
fn expiries_that_are_not_ahead_are_dropped() {
    let mut limiter = RateLimiter::new(1, 1000);
    assert_eq!(limiter.rate_limit(0), 0);
    assert_eq!(limiter.rate_limit(1000), 0);
    assert_eq!(limiter.pending(), 1);
    assert_eq!(limiter.rate_limit(1999), 1);
    assert_eq!(limiter.pending(), 2);
    assert_eq!(limiter.rate_limit(5000), 0);
    assert_eq!(limiter.pending(), 1);
}

#[test]
fn the_rate_bound_holds_of_a_run() {
    let permits = 3usize;
    let window = 250u128;
    let mut limiter = RateLimiter::new(permits, window);
    let mut now: u128 = 0;
    let mut departures: Vec<u128> = Vec::new();
    for i in 0..200u128 {
        let wait = limiter.rate_limit(now);
        now += wait;
        departures.push(now);
        if i % 17 == 0 {
            now += 40;
        }
    }
    for span in [250u128, 251, 600, 1000] {
        let covered = (span + window - 1) / window;
        for first in 0..departures.len() {
            let inside = departures[first..]
                .iter()
                .filter(|d| **d < departures[first] + span)
                .count() as u128;
            assert!(inside <= covered * permits as u128 + permits as u128);
        }
    }
}

#[test]
fn the_clock_can_run_out() {
    let mut limiter = RateLimiter::new(1, 1000);
    assert!(limiter.can_acquire_at(u128::MAX - 1000));
    assert!(!limiter.can_acquire_at(u128::MAX - 999));
    assert_eq!(limiter.try_rate_limit(u128::MAX - 999), None);
    assert_eq!(limiter.pending(), 0);
    assert_eq!(limiter.try_rate_limit(u128::MAX - 1000), Some(0));
    assert_eq!(limiter.pending(), 1);
    assert!(!limiter.can_acquire_at(0));
    assert_eq!(limiter.try_rate_limit(0), None);
    assert_eq!(limiter.pending(), 1);
}
