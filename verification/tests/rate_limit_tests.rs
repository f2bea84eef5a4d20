use ruclei::rate_limit::RateLimiter;
use ruclei::time::TimeSpan;
use std::time::{Duration, Instant};

/// Busy-waits for `d`.
fn pause(d: Duration) {
    let until = Instant::now() + d;
    while Instant::now() < until {
        std::hint::spin_loop();
    }
}

/// Waits as the scanner does before a request, then records it.
fn wait_if_needed(limiter: &mut RateLimiter) {
    let now = limiter.now();
    let wait = limiter.plan_wait_at(now);
    if !wait.is_zero() {
        pause(Duration::from_nanos(wait.as_nanos() as u64));
    }
    let extra = limiter.min_delay_remaining_at(now);
    if !extra.is_zero() {
        pause(Duration::from_nanos(extra.as_nanos() as u64));
    }
    let at = limiter.now();
    limiter.record_request_at(at);
}

#[test]
fn test_min_delay_enforcement() {
    let mut limiter = RateLimiter::with_delay(TimeSpan::from_millis(100));

    let start = Instant::now();
    wait_if_needed(&mut limiter); // First request - no wait

    let first_elapsed = start.elapsed();
    assert!(first_elapsed < Duration::from_millis(50)); // Should be immediate

    wait_if_needed(&mut limiter); // Second request - should wait
    let second_elapsed = start.elapsed();
    assert!(second_elapsed >= Duration::from_millis(100)); // Should have waited
}

#[test]
fn test_can_make_request() {
    let mut limiter = RateLimiter::per_minute(2, TimeSpan::from_millis(100));

    assert!(limiter.can_make_request());
    wait_if_needed(&mut limiter);

    // After minimum delay, should be able to make another request
    pause(Duration::from_millis(150));
    assert!(limiter.can_make_request());
    wait_if_needed(&mut limiter);
}

#[test]
fn test_stats() {
    let mut limiter = RateLimiter::per_minute(10, TimeSpan::from_millis(50));

    let stats = limiter.stats();
    assert_eq!(stats.requests_in_window, 0);
    assert_eq!(stats.max_requests, 10);
    assert!(stats.can_make_request);
    assert_eq!(stats.requests_remaining(), 10);

    wait_if_needed(&mut limiter);
    let stats = limiter.stats();
    assert_eq!(stats.requests_in_window, 1);
    assert_eq!(stats.requests_remaining(), 9);
}

#[test]
fn test_reset() {
    let mut limiter = RateLimiter::per_minute(1, TimeSpan::from_millis(50));

    wait_if_needed(&mut limiter);
    assert_eq!(limiter.stats().requests_in_window, 1);

    limiter.reset();
    assert_eq!(limiter.stats().requests_in_window, 0);
    assert!(limiter.can_make_request());
}

#[test]
fn test_acquire_spaces_requests_by_min_delay() {
    let mut limiter = RateLimiter::per_minute(100, TimeSpan::from_millis(100));
    assert_eq!(limiter.acquire_at(0).as_nanos(), 0);
    assert_eq!(limiter.acquire_at(30_000_000).as_nanos(), 70_000_000);
    assert_eq!(limiter.estimated_wait_time_at(100_000_000).as_nanos(), 100_000_000);
}

#[test]
fn test_acquire_waits_for_window_when_full() {
    let mut limiter = RateLimiter::per_minute(1, TimeSpan::from_millis(0));
    assert_eq!(limiter.acquire_at(1_000).as_nanos(), 0);
    // The window (one minute) is full until the first slot leaves it.
    assert_eq!(limiter.acquire_at(2_000).as_nanos(), 60_000_000_000 - 1_000);
}

#[test]
fn test_rate_limiter_creation() {
    let limiter = RateLimiter::per_minute(30, TimeSpan::from_millis(100));
    assert_eq!(limiter.stats().max_requests, 30);
}

#[test]
fn sends_stay_a_min_delay_apart_when_taken_early() {
    let mut limiter = RateLimiter::with_delay(TimeSpan::from_millis(100));
    let mut sends = Vec::new();
    for t in [0u128, 1_000_000, 2_000_000] {
        let w = limiter.acquire_at(t).as_nanos();
        sends.push(t + w);
    }
    assert_eq!(sends, vec![0, 100_000_000, 200_000_000]);
}

#[test]
fn first_request_after_reset_does_not_wait() {
    let mut limiter = RateLimiter::with_delay(TimeSpan::from_millis(100));
    assert!(limiter.acquire_at(5).is_zero());
    assert!(!limiter.acquire_at(6).is_zero());
    limiter.reset();
    assert!(limiter.acquire_at(7).is_zero());
}
