//! Slow-start ramps.

use shared_rate_limiter::slow_start::{effective_max, effective_u64, retry_after_for_cost};
use shared_rate_limiter::SlowStart;
use std::time::Duration;

#[test]
fn effective_max_scales_linearly_and_floors() {
    let slow = SlowStart::new(Duration::from_secs(10));
    let started = Duration::from_secs(0);
    assert_eq!(effective_max(10, slow, started, Duration::from_secs(0)), 0);
    assert_eq!(effective_max(10, slow, started, Duration::from_secs(1)), 1);
    assert_eq!(effective_max(10, slow, started, Duration::from_secs(5)), 5);
    assert_eq!(effective_max(10, slow, started, Duration::from_secs(9)), 9);
    assert_eq!(
        effective_max(10, slow, started, Duration::from_secs(10)),
        10
    );
}

#[test]
fn retry_after_for_cost_reaches_next_integer_step() {
    let slow = SlowStart::new(Duration::from_secs(10));
    let started = Duration::from_secs(0);
    // cost=1, max=10: need >=1s for effective_max >=1.
    assert_eq!(
        retry_after_for_cost(10, slow, started, Duration::from_secs(0), 1),
        Duration::from_secs(1)
    );
    // At t=5, cost=6 needs t>=6.
    assert_eq!(
        retry_after_for_cost(10, slow, started, Duration::from_secs(5), 6),
        Duration::from_secs(1)
    );
    assert_eq!(
        retry_after_for_cost(10, slow, started, Duration::from_secs(6), 6),
        Duration::from_secs(0)
    );
}

#[test]
fn effective_u64_scales_linearly_and_floors() {
    let slow = SlowStart::new(Duration::from_secs(10));
    let started = Duration::from_secs(0);
    assert_eq!(effective_u64(10, slow, started, Duration::from_secs(0)), 0);
    assert_eq!(effective_u64(10, slow, started, Duration::from_secs(1)), 1);
    assert_eq!(
        effective_u64(10, slow, started, Duration::from_secs(10)),
        10
    );
}
