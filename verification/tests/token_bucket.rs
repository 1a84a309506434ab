//! Credit pools.

use shared_rate_limiter::token_bucket::TokenBucketState;
use shared_rate_limiter::Cost;
use std::time::Duration;

#[test]
fn basic_burst_then_deny() {
    let mut s = TokenBucketState::new(Duration::from_secs(0), 10);
    for _ in 0..10 {
        s.try_reserve(10, 1, Cost::one(), Duration::from_secs(0))
            .unwrap();
        s.commit(Cost::one());
    }
    let d = s
        .try_reserve(10, 1, Cost::one(), Duration::from_secs(0))
        .unwrap_err();
    assert!(d.retry_after > Duration::ZERO);
}

#[test]
fn refill_adds_credits_up_to_capacity() {
    let mut s = TokenBucketState::new(Duration::from_secs(0), 10);
    s.try_reserve(10, 10, Cost::new(10).unwrap(), Duration::from_secs(0))
        .unwrap();
    s.commit(Cost::new(10).unwrap());
    assert_eq!(s.credits(), 0);

    s.refill(10, 10, Duration::from_millis(500));
    assert_eq!(s.credits(), 5);
    s.refill(10, 10, Duration::from_secs(2));
    assert_eq!(s.credits(), 10);
}

#[test]
fn weighted_cost_consumes_proportionally() {
    let mut s = TokenBucketState::new(Duration::from_secs(0), 10);
    s.try_reserve(10, 10, Cost::new(7).unwrap(), Duration::from_secs(0))
        .unwrap();
    assert_eq!(s.credits(), 3);
}

#[test]
fn retry_after_is_minimal_delay_until_enough() {
    let mut s = TokenBucketState::new(Duration::from_secs(0), 10);
    s.try_reserve(10, 10, Cost::new(10).unwrap(), Duration::from_secs(0))
        .unwrap();
    s.commit(Cost::new(10).unwrap());
    let d = s
        .try_reserve(10, 10, Cost::one(), Duration::from_secs(0))
        .unwrap_err();
    assert_eq!(d.retry_after, Duration::from_millis(100));
}

#[test]
fn zero_refill_is_permanent_after_exhaustion() {
    let mut s = TokenBucketState::new(Duration::from_secs(0), 2);
    s.try_reserve(2, 0, Cost::one(), Duration::from_secs(0))
        .unwrap();
    s.commit(Cost::one());
    s.try_reserve(2, 0, Cost::one(), Duration::from_secs(0))
        .unwrap();
    s.commit(Cost::one());
    let d = s
        .try_reserve(2, 0, Cost::one(), Duration::from_secs(0))
        .unwrap_err();
    assert_eq!(d.retry_after, Duration::MAX);
}

#[test]
fn cost_above_capacity_is_permanent_deny() {
    let mut s = TokenBucketState::new(Duration::from_secs(0), 2);
    let d = s
        .try_reserve(2, 10, Cost::new(3).unwrap(), Duration::from_secs(0))
        .unwrap_err();
    assert_eq!(d.retry_after, Duration::MAX);
}
