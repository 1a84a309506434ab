//! Per-key accounting.

use shared_rate_limiter::bucket::{BucketDenyReason, BucketState};
use shared_rate_limiter::{AlgorithmConfig, Cost, Key, Outcome};
use std::time::Duration;

#[test]
fn fixed_window_retry_after_decreases_over_time() {
    let cfg = AlgorithmConfig::FixedWindow {
        max_per_window: 2,
        window: Duration::from_secs(10),
    };
    let mut b = BucketState::new(Duration::from_secs(0), cfg);

    let _p1 = b
        .try_reserve(1, cfg, Cost::one(), Duration::from_secs(0))
        .unwrap();
    let _p2 = b
        .try_reserve(1, cfg, Cost::one(), Duration::from_secs(0))
        .unwrap();

    let d1 = b
        .try_reserve(1, cfg, Cost::one(), Duration::from_secs(1))
        .unwrap_err();
    assert_eq!(d1.deny.retry_after, Duration::from_secs(9));

    let d2 = b
        .try_reserve(1, cfg, Cost::one(), Duration::from_secs(9))
        .unwrap_err();
    assert_eq!(d2.deny.retry_after, Duration::from_secs(1));
}

#[test]
fn token_bucket_blocks_until_refill() {
    let cfg = AlgorithmConfig::TokenBucket {
        capacity: 10,
        refill_per_sec: 10,
    };
    let mut b = BucketState::new(Duration::from_secs(0), cfg);
    let p = b
        .try_reserve(1, cfg, Cost::new(10).unwrap(), Duration::from_secs(0))
        .unwrap();
    b.commit(p, Outcome::SentNoConfirm, Duration::from_secs(0), cfg);

    let d = b
        .try_reserve(1, cfg, Cost::one(), Duration::from_secs(0))
        .unwrap_err();
    assert_eq!(d.deny.retry_after, Duration::from_millis(100));
}

#[test]
fn blocked_until_denies_before_algorithm_logic() {
    let cfg = AlgorithmConfig::FixedWindow {
        max_per_window: 10,
        window: Duration::from_secs(10),
    };
    let mut b = BucketState::new(Duration::from_secs(0), cfg);
    b.apply_blocked_until(Duration::from_secs(5));
    let d = b
        .try_reserve(Key::MAX, cfg, Cost::one(), Duration::from_secs(1))
        .unwrap_err();
    assert_eq!(d.reason, BucketDenyReason::BlockedUntil);
    assert_eq!(d.deny.retry_after, Duration::from_secs(4));
}
