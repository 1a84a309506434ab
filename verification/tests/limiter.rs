//! The limiter.

use shared_rate_limiter::{
    Config, Cost, DenyEvent, Feedback, FeedbackEvent, FeedbackScope, LimiterObserver, Outcome,
    OverflowPolicy, RateLimiter, Scope, SlowStart,
};
use std::sync::atomic::{AtomicU32, Ordering};
use std::sync::{Arc, Mutex};
use std::time::Duration;

fn cfg(max: u32, window: Duration) -> Config {
    Config::fixed_window(max, window).unwrap()
}

#[derive(Debug)]
struct CountingObserver {
    denies: Arc<AtomicU32>,
    feedbacks: Arc<AtomicU32>,
}

impl CountingObserver {
    fn new(denies: Arc<AtomicU32>, feedbacks: Arc<AtomicU32>) -> Self {
        Self { denies, feedbacks }
    }
}

impl LimiterObserver for CountingObserver {
    fn on_deny(&self, _ev: DenyEvent) {
        self.denies.fetch_add(1, Ordering::Relaxed);
    }

    fn on_feedback(&self, _ev: FeedbackEvent) {
        self.feedbacks.fetch_add(1, Ordering::Relaxed);
    }
}

#[derive(Debug)]
struct RecordingObserver {
    feedbacks: Arc<Mutex<Vec<FeedbackEvent>>>,
}

impl RecordingObserver {
    fn new(feedbacks: Arc<Mutex<Vec<FeedbackEvent>>>) -> Self {
        Self { feedbacks }
    }
}

impl LimiterObserver for RecordingObserver {
    fn on_feedback(&self, ev: FeedbackEvent) {
        self.feedbacks.lock().unwrap().push(ev);
    }
}

#[test]
fn feedback_blocks_key_until_deadline_and_unknown_key_is_ok() {
    let mut rl = RateLimiter::new(cfg(10, Duration::from_secs(10)));
    rl.apply_feedback(
        123,
        &Feedback::new(Duration::from_secs(3), FeedbackScope::Key),
        Duration::from_secs(0),
    );

    let d = rl
        .try_acquire(123, Cost::one(), Duration::from_secs(1))
        .unwrap_err();
    assert_eq!(d.retry_after, Duration::from_secs(2));

    let _p = rl
        .try_acquire(123, Cost::one(), Duration::from_secs(3))
        .unwrap();
}

#[test]
fn feedback_remaining_zero_reset_after_extends_block() {
    let mut rl = RateLimiter::new(cfg(10, Duration::from_secs(10)));
    let fb = Feedback {
        retry_after: Duration::from_secs(1),
        scope: FeedbackScope::Key,
        remaining: Some(0),
        reset_after: Some(Duration::from_secs(5)),
        bucket_remap: None,
    };
    rl.apply_feedback(1, &fb, Duration::from_secs(0));

    let d = rl
        .try_acquire(1, Cost::one(), Duration::from_secs(1))
        .unwrap_err();
    assert_eq!(d.retry_after, Duration::from_secs(4));
}

#[test]
fn feedback_bucket_remap_moves_future_acquires_to_new_bucket() {
    let mut rl = RateLimiter::new(cfg(1, Duration::from_secs(10)));
    let now = Duration::from_secs(0);

    let p1 = rl.try_acquire(77, Cost::one(), now).unwrap();
    rl.commit(p1, Outcome::Confirmed, now);
    assert!(rl.try_acquire(77, Cost::one(), now).is_err());

    let fb = Feedback {
        retry_after: Duration::ZERO,
        scope: FeedbackScope::Route,
        remaining: None,
        reset_after: None,
        bucket_remap: Some(999),
    };
    rl.apply_feedback(77, &fb, now);

    // Same route key now maps to a new bucket with fresh capacity.
    let p2 = rl.try_acquire(77, Cost::one(), now).unwrap();
    assert_eq!(p2.key(), 999);
}

#[test]
fn global_feedback_blocks_all_keys() {
    let mut rl = RateLimiter::new(cfg(10, Duration::from_secs(10)));
    rl.apply_feedback(
        1,
        &Feedback::new(Duration::from_secs(3), FeedbackScope::Global),
        Duration::from_secs(0),
    );
    let d = rl
        .try_acquire(2, Cost::one(), Duration::from_secs(1))
        .unwrap_err();
    assert_eq!(d.retry_after, Duration::from_secs(2));
}

#[test]
fn slow_start_scales_capacity_and_retry_after_is_actionable() {
    let cfg = cfg(10, Duration::from_secs(10))
        .with_slow_start(SlowStart::new(Duration::from_secs(10)));
    let mut rl = RateLimiter::new_at(cfg, Duration::from_secs(0));

    let d0 = rl
        .try_acquire(1, Cost::one(), Duration::from_secs(0))
        .unwrap_err();
    assert_eq!(d0.retry_after, Duration::from_secs(1));

    let d_mid = rl
        .try_acquire(1, Cost::new(6).unwrap(), Duration::from_secs(5))
        .unwrap_err();
    assert_eq!(d_mid.retry_after, Duration::from_secs(1));

    let _p = rl
        .try_acquire(1, Cost::new(6).unwrap(), Duration::from_secs(6))
        .unwrap();
}

#[test]
fn bounded_keys_eviction_fifo() {
    let cfg = Config::fixed_window_bounded(1, Duration::from_secs(10), Some(1))
        .unwrap()
        .with_overflow_policy(OverflowPolicy::EvictOldestKey);
    let mut rl = RateLimiter::new(cfg);
    let now = Duration::from_secs(0);

    let p1 = rl.try_acquire(1, Cost::one(), now).unwrap();
    rl.commit(p1, Outcome::Confirmed, now);
    assert_eq!(rl.tracked_keys(), 1);

    let p2 = rl.try_acquire(2, Cost::one(), now).unwrap();
    rl.commit(p2, Outcome::Confirmed, now);
    assert_eq!(rl.tracked_keys(), 1);

    // key=1 should have been evicted; acquiring it should evict key=2 and succeed.
    let _p3 = rl.try_acquire(1, Cost::one(), now).unwrap();
    assert_eq!(rl.tracked_keys(), 1);
}

#[test]
fn eviction_does_not_evict_outstanding_reservations() {
    let cfg = Config::fixed_window_bounded(10, Duration::from_secs(10), Some(1))
        .unwrap()
        .with_overflow_policy(OverflowPolicy::EvictOldestKey);
    let mut rl = RateLimiter::new(cfg);
    let now = Duration::from_secs(0);

    // Keep an outstanding reservation for key=1.
    let _p = rl.try_acquire(1, Cost::one(), now).unwrap();
    let d = rl.try_acquire(2, Cost::one(), now).unwrap_err();
    assert_eq!(d.retry_after, Duration::from_secs(10));
    assert_eq!(rl.tracked_keys(), 1);
}

#[test]
fn eviction_skips_keys_with_outstanding_reservations() {
    let cfg = Config::fixed_window_bounded(10, Duration::from_secs(10), Some(2))
        .unwrap()
        .with_overflow_policy(OverflowPolicy::EvictOldestKey);
    let mut rl = RateLimiter::new(cfg);
    let now = Duration::from_secs(0);

    // Oldest key has an outstanding reservation and is not evictable.
    let _p1 = rl.try_acquire(1, Cost::one(), now).unwrap();

    // Next key is evictable (no outstanding after commit).
    let p2 = rl.try_acquire(2, Cost::one(), now).unwrap();
    rl.commit(p2, Outcome::Confirmed, now);

    // When inserting a third key, the limiter should evict key=2 (oldest evictable),
    // rather than denying due to key=1 being protected.
    let p3 = rl.try_acquire(3, Cost::one(), now).unwrap();
    rl.commit(p3, Outcome::Confirmed, now);
}

#[test]
fn observer_hooks_fire_once_for_deny_and_feedback() {
    let mut rl = RateLimiter::new(cfg(1, Duration::from_secs(10)));
    let denies = Arc::new(AtomicU32::new(0));
    let feedbacks = Arc::new(AtomicU32::new(0));
    rl.set_observer(Box::new(CountingObserver::new(
        Arc::clone(&denies),
        Arc::clone(&feedbacks),
    )));

    // Apply feedback should call observer.
    rl.apply_feedback(
        1,
        &Feedback::new(Duration::from_secs(2), FeedbackScope::Key),
        Duration::from_secs(0),
    );

    // Deny should call observer once.
    let _ = rl.try_acquire(1, Cost::one(), Duration::from_secs(1));

    assert_eq!(feedbacks.load(Ordering::Relaxed), 1);
    assert_eq!(denies.load(Ordering::Relaxed), 1);
}

#[test]
fn token_bucket_deribit_non_matching_engine_defaults_example() {
    let mut rl = RateLimiter::new(Config::token_bucket(50_000, 10_000));
    let now = Duration::from_secs(0);
    let cost = Cost::new(500).unwrap();

    // Burst: 50_000 / 500 = 100 requests.
    for _ in 0..100 {
        let p = rl.try_acquire(1, cost, now).unwrap();
        rl.commit(p, Outcome::SentNoConfirm, now);
    }

    // Next should deny: deficit 500 credits, refill 10_000/sec => 50ms.
    let d = rl.try_acquire(1, cost, now).unwrap_err();
    assert_eq!(d.retry_after, Duration::from_millis(50));

    // After 50ms, one more should be allowed.
    let p = rl.try_acquire(1, cost, Duration::from_millis(50)).unwrap();
    rl.commit(p, Outcome::SentNoConfirm, Duration::from_millis(50));

    // Sustained: 10_000/sec => 20 req/sec. One second after the last spend (t=50ms), allow 20 requests.
    let t = Duration::from_millis(1050);
    for _ in 0..20 {
        let p = rl.try_acquire(1, cost, t).unwrap();
        rl.commit(p, Outcome::SentNoConfirm, t);
    }
    assert!(rl.try_acquire(1, cost, t).is_err());
}

#[test]
fn token_bucket_deribit_subscribe_limits_example() {
    let mut rl = RateLimiter::new(Config::token_bucket(30_000, 10_000));
    let now = Duration::from_secs(0);
    let cost = Cost::new(3_000).unwrap();

    // Burst: 30_000 / 3_000 = 10.
    for _ in 0..10 {
        let p = rl.try_acquire(1, cost, now).unwrap();
        rl.commit(p, Outcome::SentNoConfirm, now);
    }

    let d = rl.try_acquire(1, cost, now).unwrap_err();
    assert_eq!(d.retry_after, Duration::from_millis(300));
}

#[test]
fn token_bucket_update_semantics_capacity_and_refill() {
    let now0 = Duration::from_secs(0);
    let cost = Cost::new(5).unwrap();

    // Increasing capacity preserves deficit: credits increase by delta immediately.
    let mut rl = RateLimiter::new(Config::token_bucket(10, 0));
    let p = rl.try_acquire(1, cost, now0).unwrap();
    rl.commit(p, Outcome::SentNoConfirm, now0); // credits: 5
    rl.update_config(Config::token_bucket(20, 0), now0).unwrap(); // credits: 15
    for _ in 0..3 {
        let p = rl.try_acquire(1, cost, now0).unwrap();
        rl.commit(p, Outcome::SentNoConfirm, now0);
    }
    assert!(rl.try_acquire(1, cost, now0).is_err());

    // Decreasing capacity clamps credits.
    let mut rl = RateLimiter::new(Config::token_bucket(20, 0));
    let p = rl.try_acquire(1, cost, now0).unwrap();
    rl.commit(p, Outcome::SentNoConfirm, now0); // credits: 15
    rl.update_config(Config::token_bucket(10, 0), now0).unwrap(); // credits clamped to 10
    for _ in 0..2 {
        let p = rl.try_acquire(1, cost, now0).unwrap();
        rl.commit(p, Outcome::SentNoConfirm, now0);
    }
    assert!(rl.try_acquire(1, cost, now0).is_err());

    // Refill rate update affects retry_after deterministically.
    let mut rl = RateLimiter::new(Config::token_bucket(10, 10));
    let p = rl.try_acquire(1, Cost::new(10).unwrap(), now0).unwrap();
    rl.commit(p, Outcome::SentNoConfirm, now0);
    let d1 = rl.try_acquire(1, Cost::one(), now0).unwrap_err();
    assert_eq!(d1.retry_after, Duration::from_millis(100));
    rl.update_config(Config::token_bucket(10, 100), now0).unwrap();
    let d2 = rl.try_acquire(1, Cost::one(), now0).unwrap_err();
    assert_eq!(d2.retry_after, Duration::from_millis(10));
}

#[test]
fn token_bucket_respects_max_keys_when_set() {
    let cfg = Config::token_bucket(10, 10).with_max_keys(Some(1));
    let mut rl = RateLimiter::new(cfg);
    let now = Duration::from_secs(0);

    let p1 = rl.try_acquire(1, Cost::one(), now).unwrap();
    rl.commit(p1, Outcome::Confirmed, now);

    let d = rl.try_acquire(2, Cost::one(), now).unwrap_err();
    assert_eq!(d.retry_after, Duration::from_secs(1));
}

#[test]
fn feedback_bucket_remap_event_reports_only_applied_remaps() {
    let cfg = Config::fixed_window_bounded(1, Duration::from_secs(10), Some(1)).unwrap();
    let mut rl = RateLimiter::new(cfg);

    let events = Arc::new(Mutex::new(Vec::<FeedbackEvent>::new()));
    rl.set_observer(Box::new(RecordingObserver::new(Arc::clone(&events))));

    // First remap fits within the route_map cap (max_keys=1).
    rl.apply_feedback(
        1,
        &Feedback {
            retry_after: Duration::ZERO,
            scope: FeedbackScope::Route,
            remaining: None,
            reset_after: None,
            bucket_remap: Some(10),
        },
        Duration::from_secs(0),
    );

    // Second remap is refused due to route_map being full.
    rl.apply_feedback(
        2,
        &Feedback {
            retry_after: Duration::ZERO,
            scope: FeedbackScope::Route,
            remaining: None,
            reset_after: None,
            bucket_remap: Some(20),
        },
        Duration::from_secs(0),
    );

    let evs = events.lock().unwrap();
    assert_eq!(evs.len(), 2);

    assert_eq!(evs[0].route_key, 1);
    assert_eq!(evs[0].bucket_key, 10);
    assert_eq!(evs[0].bucket_remap, Some(10));

    assert_eq!(evs[1].route_key, 2);
    assert_eq!(evs[1].bucket_key, 2);
    assert_eq!(evs[1].bucket_remap, None);
}

#[test]
fn apply_feedback_duration_max_saturates_and_does_not_panic() {
    let mut rl = RateLimiter::new(cfg(10, Duration::from_secs(10)));
    rl.apply_feedback(
        1,
        &Feedback::new(Duration::MAX, FeedbackScope::Global),
        Duration::from_secs(1),
    );

    let d = rl
        .try_acquire(2, Cost::one(), Duration::from_secs(2))
        .unwrap_err();
    assert_eq!(d.retry_after, Duration::MAX - Duration::from_secs(2));
}

#[test]
fn outcome_global_feedback_duration_max_saturates_and_does_not_panic() {
    let mut rl = RateLimiter::new(cfg(10, Duration::from_secs(10)));
    let p = rl
        .try_acquire(1, Cost::one(), Duration::from_secs(0))
        .unwrap();
    rl.commit(
        p,
        Outcome::RateLimitedFeedback {
            retry_after: Duration::MAX,
            scope: Scope::Global,
            bucket_hint: None,
        },
        Duration::from_secs(1),
    );

    let d = rl
        .try_acquire(2, Cost::one(), Duration::from_secs(2))
        .unwrap_err();
    assert_eq!(d.retry_after, Duration::MAX - Duration::from_secs(2));
}

#[test]
fn outcome_key_feedback_duration_max_saturates_and_does_not_panic() {
    let mut rl = RateLimiter::new(cfg(10, Duration::from_secs(10)));
    let p = rl
        .try_acquire(1, Cost::one(), Duration::from_secs(0))
        .unwrap();
    rl.commit(
        p,
        Outcome::RateLimitedFeedback {
            retry_after: Duration::MAX,
            scope: Scope::Key,
            bucket_hint: None,
        },
        Duration::from_secs(1),
    );

    let d = rl
        .try_acquire(1, Cost::one(), Duration::from_secs(2))
        .unwrap_err();
    assert_eq!(d.retry_after, Duration::MAX - Duration::from_secs(2));
}
