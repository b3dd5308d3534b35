use api_gateway::rate_limiter::RateLimiter;

#[test]
fn test_allows_requests_within_limit() {
    let mut limiter = RateLimiter::new(60, 10);
    for _ in 0..10 {
        let result = limiter.allow_request("client-1");
        assert!(result.allowed);
    }
}

#[test]
fn test_blocks_requests_over_burst() {
    let mut limiter = RateLimiter::new(60, 5);
    for _ in 0..5 {
        limiter.allow_request("client-1");
    }
    let result = limiter.allow_request("client-1");
    assert!(!result.allowed);
}

#[test]
fn test_different_clients_independent() {
    let mut limiter = RateLimiter::new(60, 2);
    limiter.allow_request("client-1");
    limiter.allow_request("client-1");
    let result = limiter.allow_request("client-2");
    assert!(result.allowed);
}

#[test]
fn test_remaining_tokens_reported() {
    let mut limiter = RateLimiter::new(60, 10);
    let result = limiter.allow_request("client-1");
    assert!(result.remaining <= 10);
}

#[test]
fn test_client_count() {
    let mut limiter = RateLimiter::new(60, 10);
    limiter.allow_request("client-1");
    limiter.allow_request("client-2");
    assert_eq!(limiter.client_count(), 2);
}

#[test]
fn test_cleanup_removes_old_entries() {
    let mut limiter = RateLimiter::new(60, 10);
    limiter.allow_request("client-1");
    limiter.cleanup(0);
    assert_eq!(limiter.client_count(), 0);
}

#[test]
fn burst_then_denied_at_one_instant() {
    let mut limiter = RateLimiter::new(60, 3);
    for expected_remaining in [2u32, 1, 0] {
        let r = limiter.allow_request_at("c", 1_000);
        assert!(r.allowed);
        assert_eq!(r.remaining, expected_remaining);
        assert_eq!(r.limit, 60);
        assert_eq!(r.reset_seconds, 1);
    }
    let denied = limiter.allow_request_at("c", 1_000);
    assert!(!denied.allowed);
    assert_eq!(denied.remaining, 0);
    assert_eq!(denied.reset_seconds, 1);
}

#[test]
fn one_token_returns_after_sixty_over_rate_seconds() {
    let mut limiter = RateLimiter::new(30, 2);
    assert!(limiter.allow_request_at("c", 0).allowed);
    assert!(limiter.allow_request_at("c", 0).allowed);
    assert!(!limiter.allow_request_at("c", 0).allowed);
    assert!(!limiter.allow_request_at("c", 1_999_999).allowed);
    assert!(limiter.allow_request_at("c", 2_000_000).allowed);
    assert!(!limiter.allow_request_at("c", 2_000_000).allowed);
}

#[test]
fn refill_is_capped_at_burst() {
    let mut limiter = RateLimiter::new(60, 2);
    assert!(limiter.allow_request_at("c", 0).allowed);
    let r = limiter.allow_request_at("c", 3_600_000_000);
    assert!(r.allowed);
    assert_eq!(r.remaining, 1);
}

#[test]
fn exhausting_one_client_leaves_another_untouched() {
    let mut limiter = RateLimiter::new(60, 1);
    assert!(limiter.allow_request_at("a", 5).allowed);
    assert!(!limiter.allow_request_at("a", 5).allowed);
    let b = limiter.allow_request_at("b", 5);
    assert!(b.allowed);
    assert_eq!(b.remaining, 0);
}

#[test]
fn reset_hint_with_zero_rate_and_sweep_by_age() {
    let mut limiter = RateLimiter::new(0, 0);
    let r = limiter.allow_request_at("c", 10);
    assert!(!r.allowed);
    assert_eq!(r.reset_seconds, 60);
    let mut aged = RateLimiter::new(60, 5);
    aged.allow_request_at("old", 0);
    aged.allow_request_at("new", 900);
    aged.cleanup_at(500, 1_000);
    assert_eq!(aged.client_count(), 1);
    aged.cleanup_at(0, 1_000);
    assert_eq!(aged.client_count(), 0);
}

#[test]
fn reset_hint_is_sixty_over_rate_even_when_allowed() {
    let mut limiter = RateLimiter::new(1, 1);
    let r = limiter.allow_request("fresh");
    assert!(r.allowed);
    assert_eq!(r.reset_seconds, 60);
    assert_eq!(r.remaining, 0);
    let mut fast = RateLimiter::new(7, 1);
    assert_eq!(fast.allow_request_at("c", 0).reset_seconds, 8);
}

#[test]
fn clock_never_runs_backward() {
    let mut limiter = RateLimiter::new(60, 1);
    assert!(limiter.allow_request_at("a", 10_000_000).allowed);
    assert!(limiter.allow_request_at("b", 20_000_000).allowed);
    // Far ahead of the real clock: the sweep still measures age from it.
    limiter.cleanup(5_000_000);
    assert_eq!(limiter.client_count(), 1);
    assert!(!limiter.allow_request_at("b", 20_000_000).allowed);
    // A reading earlier than one already seen does not refill.
    let mut l2 = RateLimiter::new(60, 1);
    assert!(l2.allow_request_at("c", 5_000_000).allowed);
    assert!(!l2.allow_request_at("c", 0).allowed);
    assert!(!l2.allow_request("c").allowed);
}
