use upload_server::rate_limit::{RateLimitConfig, RateLimiter, TOKEN_COST};

fn config(per_second: u64, burst: u64) -> RateLimitConfig {
    RateLimitConfig { per_second, burst, idle_ms: 60_000 }
}

#[test]
fn new_client_starts_with_full_bucket() {
    let mut limiter = RateLimiter::new(config(1, 3));
    assert!(limiter.check(7, 1_000));
    assert_eq!(limiter.client_count(), 1);
}

#[test]
fn quota_exceeded_within_one_second_is_denied() {
    let mut limiter = RateLimiter::new(config(2, 3));
    let mut admitted = 0;
    for t in 0..10u64 {
        if limiter.check(1, 5_000 + t * 50) {
            admitted += 1;
        }
    }
    // burst of 3, plus 2 tokens per second over 450 ms: 0.9 of a token more.
    assert_eq!(admitted, 3);
    assert!(!limiter.check(1, 5_499));
}

#[test]
fn bucket_refills_over_time() {
    let mut limiter = RateLimiter::new(config(1, 1));
    assert!(limiter.check(1, 0));
    assert!(!limiter.check(1, 999));
    assert!(limiter.check(1, 2_000));
}

#[test]
fn refill_is_capped_at_burst() {
    let mut limiter = RateLimiter::new(config(10, 2));
    assert!(limiter.check(1, 0));
    assert!(limiter.check(1, 0));
    // A long pause refills at most the burst.
    assert!(limiter.check(1, 1_000_000));
    assert!(limiter.check(1, 1_000_000));
    assert!(!limiter.check(1, 1_000_000));
}

#[test]
fn clients_have_separate_buckets() {
    let mut limiter = RateLimiter::new(config(0, 1));
    assert!(limiter.check(1, 0));
    assert!(!limiter.check(1, 0));
    assert!(limiter.check(2, 0));
    assert_eq!(limiter.client_count(), 2);
}

#[test]
fn clock_going_back_adds_nothing() {
    let mut limiter = RateLimiter::new(config(1000, 1));
    assert!(limiter.check(1, 10_000));
    assert!(!limiter.check(1, 5_000));
}

#[test]
fn sweep_evicts_idle_buckets_only() {
    let mut limiter = RateLimiter::new(RateLimitConfig { per_second: 1, burst: 1, idle_ms: 100 });
    assert!(limiter.check(1, 0));
    assert!(limiter.check(2, 150));
    limiter.sweep(200);
    assert_eq!(limiter.client_count(), 1);
    // Client 1 was swept and comes back with a full bucket.
    assert!(limiter.check(1, 200));
    assert!(!limiter.check(2, 200));
}

#[test]
fn token_cost_is_one_thousand_milli_tokens() {
    assert_eq!(TOKEN_COST, 1000);
    assert_eq!(limiter_config_roundtrip().burst, 5);
}

fn limiter_config_roundtrip() -> RateLimitConfig {
    RateLimiter::new(config(1, 5)).config_of()
}
