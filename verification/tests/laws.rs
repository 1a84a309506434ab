//! What holds over several calls, on concrete values.

use shared_rate_limiter::bucket::{window_start_for, BucketDenyReason, BucketState};
use shared_rate_limiter::clock::{Clock, ManualClock, SystemClock};
use shared_rate_limiter::slow_start::{effective_u64, retry_after_for_cost_u64};
use shared_rate_limiter::token_bucket::TokenBucketState;
use shared_rate_limiter::{
    AlgorithmConfig, BeginResult, Config, ConfigError, Cost, DenyEvent, DenyReason, Feedback,
    FeedbackEvent, FeedbackScope, InFlightTable, LimiterInFlight, LimiterInFlightExpiryPolicy,
    LimiterObserver, Outcome, OverflowPolicy, Permit, RateLimitFeedback, RateLimiter, Scope,
    SlowStart, UpdateConfigErrorKind,
};
use std::sync::{Arc, Mutex};
use std::time::Duration;

fn secs(n: u64) -> Duration {
    Duration::from_secs(n)
}

fn cost(n: u32) -> Cost {
    Cost::new(n).unwrap()
}

fn window_limiter(max: u32, window: u64) -> RateLimiter {
    RateLimiter::new(Config::fixed_window(max, secs(window)).unwrap())
}

#[derive(Default)]
struct Log {
    denies: Vec<DenyEvent>,
    feedbacks: Vec<FeedbackEvent>,
}

struct Recorder {
    log: Arc<Mutex<Log>>,
}

impl LimiterObserver for Recorder {
    fn on_deny(&self, ev: DenyEvent) {
        self.log.lock().unwrap().denies.push(ev);
    }

    fn on_feedback(&self, ev: FeedbackEvent) {
        self.log.lock().unwrap().feedbacks.push(ev);
    }
}

fn watch(rl: &mut RateLimiter) -> Arc<Mutex<Log>> {
    let log = Arc::new(Mutex::new(Log::default()));
    rl.set_observer(Box::new(Recorder {
        log: Arc::clone(&log),
    }));
    log
}

fn last_reason(log: &Arc<Mutex<Log>>) -> DenyReason {
    log.lock().unwrap().denies.last().unwrap().reason
}

#[test]
fn permits_are_accounted_for_until_finalized() {
    let mut rl = window_limiter(5, 10);
    let a = rl.try_acquire(1, cost(2), secs(0)).unwrap();
    let b = rl.try_acquire(1, cost(3), secs(0)).unwrap();
    assert!(rl.try_acquire(1, Cost::one(), secs(0)).is_err());
    rl.refund(a, secs(1));
    let c = rl.try_acquire(1, cost(2), secs(1)).unwrap();
    assert!(rl.try_acquire(1, Cost::one(), secs(1)).is_err());
    rl.commit(b, Outcome::Confirmed, secs(2));
    rl.commit(c, Outcome::SentNoConfirm, secs(2));
    // Spent capacity does not come back within the window.
    let d = rl.try_acquire(1, Cost::one(), secs(9)).unwrap_err();
    assert_eq!(d.retry_after, secs(1));
    assert!(rl.try_acquire(1, cost(5), secs(10)).is_ok());
}

#[test]
fn window_does_not_move_on_under_an_outstanding_permit() {
    let mut rl = window_limiter(2, 10);
    let p = rl.try_acquire(1, Cost::one(), secs(0)).unwrap();
    assert_eq!(p.deadline(), secs(10));
    assert_eq!(p.issued_at(), secs(0));
    // Long after its end the window is still the one of the permit.
    let q = rl.try_acquire(1, Cost::one(), secs(25)).unwrap();
    assert_eq!(q.deadline(), secs(10));
    let d = rl.try_acquire(1, Cost::one(), secs(25)).unwrap_err();
    assert_eq!(d.retry_after, Duration::ZERO);
    rl.commit(p, Outcome::Confirmed, secs(25));
    rl.refund(q, secs(25));
    let r = rl.try_acquire(1, cost(2), secs(25)).unwrap();
    assert_eq!(r.deadline(), secs(30));
}

#[test]
fn windows_start_at_multiples_of_their_length() {
    assert_eq!(window_start_for(secs(25), secs(10)), secs(20));
    assert_eq!(window_start_for(secs(20), secs(10)), secs(20));
    assert_eq!(
        window_start_for(Duration::from_nanos(9_999_999_999), secs(10)),
        Duration::ZERO
    );
    assert_eq!(
        window_start_for(Duration::MAX, Duration::from_nanos(1)),
        Duration::MAX
    );
}

#[test]
fn windows_of_a_limiter_hold_the_last_instant() {
    let mut rl = window_limiter(2, 10);
    for now in [3, 9, 10, 17, 38, 40, 99] {
        for key in [1, 2] {
            let permit = rl.try_acquire(key, Cost::one(), secs(now)).unwrap();
            let start = permit.deadline() - secs(10);
            assert_eq!(start.as_secs() % 10, 0);
            assert!(start <= secs(now) && secs(now) < permit.deadline());
            rl.commit(permit, Outcome::Confirmed, secs(now));
        }
    }
}

#[test]
fn no_window_grants_more_than_its_maximum() {
    let mut rl = window_limiter(3, 10);
    let mut granted = [0u32; 4];
    for t in 0..40u64 {
        for c in [2, 1, 1] {
            if let Ok(p) = rl.try_acquire(1, cost(c), secs(t)) {
                granted[(t / 10) as usize] += c;
                rl.commit(p, Outcome::Confirmed, secs(t));
            }
        }
    }
    assert_eq!(granted, [3, 3, 3, 3]);
}

#[test]
fn window_end_is_held_at_the_longest_duration() {
    let mut rl = RateLimiter::new(Config::fixed_window(1, Duration::MAX).unwrap());
    let p = rl.try_acquire(1, Cost::one(), secs(5)).unwrap();
    assert_eq!(p.deadline(), Duration::MAX);
    let d = rl.try_acquire(1, Cost::one(), secs(5)).unwrap_err();
    assert_eq!(d.retry_after, Duration::MAX - secs(5));
    drop(p);
}

#[test]
fn window_at_the_longest_duration_does_not_start_afresh() {
    let mut rl = window_limiter(1, 10);
    let p = rl.try_acquire(1, Cost::one(), Duration::MAX).unwrap();
    assert_eq!(p.deadline(), Duration::MAX);
    rl.commit(p, Outcome::Confirmed, Duration::MAX);
    assert!(rl.try_acquire(1, Cost::one(), Duration::MAX).is_err());
}

#[test]
fn throughput_of_a_window_counts_permits_that_were_not_given_back() {
    let mut rl = window_limiter(5, 10);
    let a = rl.try_acquire(1, cost(3), secs(8)).unwrap();
    let b = rl.try_acquire(1, cost(2), secs(4)).unwrap();
    rl.refund(b, secs(30));
    // The window of the outstanding permit goes on, whatever the clock says.
    let c = rl.try_acquire(1, cost(2), secs(31)).unwrap();
    assert_eq!(c.deadline(), a.deadline());
    rl.commit(a, Outcome::SentNoConfirm, secs(2));
    rl.commit(c, Outcome::Confirmed, secs(40));
    // Three and two were sent with the deadline of ten seconds; the next is of another window.
    let d = rl.try_acquire(1, cost(5), secs(41)).unwrap();
    assert_eq!(d.deadline(), secs(50));
    assert!(rl.try_acquire(1, Cost::one(), secs(9)).is_err());
}

#[test]
fn throughput_holds_of_a_limiter_that_denies_new_keys() {
    let cfg = Config::fixed_window(5, secs(10))
        .unwrap()
        .with_max_keys(Some(1))
        .with_overflow_policy(OverflowPolicy::DenyNewKey);
    let mut rl = RateLimiter::new(cfg);
    let a = rl.try_acquire(1, cost(3), secs(1)).unwrap();
    rl.commit(a, Outcome::Confirmed, secs(1));
    assert!(rl.try_acquire(2, Cost::one(), secs(2)).is_err());
    // The key that is tracked was not dropped for the other one.
    assert!(rl.try_acquire(1, cost(3), secs(3)).is_err());
    assert!(rl.try_acquire(1, cost(2), secs(3)).is_ok());
}

#[test]
fn throughput_of_a_pool_counts_permits_that_were_not_given_back() {
    let mut rl = RateLimiter::new(Config::token_bucket(10, 2));
    let mut kept = 0u32;
    for t in 0..=20u64 {
        while let Ok(p) = rl.try_acquire(1, cost(3), secs(t)) {
            if (t + kept as u64) % 5 == 0 {
                rl.refund(p, secs(t));
                break;
            }
            kept += 3;
            rl.commit(p, Outcome::Confirmed, secs(t));
        }
    }
    assert!(kept <= 10 + 2 * 20);
}

#[test]
fn feedback_on_a_key_comes_before_the_ramp() {
    let cfg = Config::fixed_window(10, secs(10))
        .unwrap()
        .with_slow_start(SlowStart::new(secs(10)));
    let mut rl = RateLimiter::new(cfg);
    let log = watch(&mut rl);
    rl.apply_feedback(1, &Feedback::new(secs(5), FeedbackScope::Key), Duration::ZERO);
    let d = rl.try_acquire(1, Cost::one(), Duration::ZERO).unwrap_err();
    assert_eq!(d.retry_after, secs(5));
    assert_eq!(last_reason(&log), DenyReason::FeedbackBackoff);
    // Another key is held back by the ramp alone.
    let d = rl.try_acquire(2, Cost::one(), Duration::ZERO).unwrap_err();
    assert_eq!(d.retry_after, secs(1));
    assert_eq!(last_reason(&log), DenyReason::SlowStart);
    // Once the backoff is over, what the ramp makes available is granted.
    assert!(rl.try_acquire(1, cost(5), secs(5)).is_ok());
}

#[test]
fn disabled_and_unachievable_windows_are_told_apart() {
    let mut rl = window_limiter(0, 10);
    let log = watch(&mut rl);
    let d = rl.try_acquire(1, Cost::one(), secs(3)).unwrap_err();
    assert_eq!(d.retry_after, secs(10));
    assert_eq!(last_reason(&log), DenyReason::Disabled);

    let mut rl = window_limiter(5, 10);
    let log = watch(&mut rl);
    let d = rl.try_acquire(1, cost(6), secs(3)).unwrap_err();
    assert_eq!(d.retry_after, Duration::MAX);
    assert_eq!(last_reason(&log), DenyReason::Disabled);

    let cfg = AlgorithmConfig::FixedWindow {
        max_per_window: 5,
        window: secs(10),
    };
    let mut b = BucketState::new(secs(0), cfg);
    let d = b.try_reserve(1, cfg, cost(6), secs(0)).unwrap_err();
    assert_eq!(d.reason, BucketDenyReason::Unachievable);
    let off = AlgorithmConfig::FixedWindow {
        max_per_window: 0,
        window: secs(10),
    };
    let d = b.try_reserve(1, off, Cost::one(), secs(0)).unwrap_err();
    assert_eq!(d.reason, BucketDenyReason::Disabled);
}

#[test]
fn bucket_of_another_algorithm_denies_for_a_second() {
    let window = AlgorithmConfig::FixedWindow {
        max_per_window: 5,
        window: secs(10),
    };
    let pool = AlgorithmConfig::TokenBucket {
        capacity: 5,
        refill_per_sec: 1,
    };
    let mut b = BucketState::new(secs(0), window);
    let d = b.try_reserve(1, pool, Cost::one(), secs(0)).unwrap_err();
    assert_eq!(d.reason, BucketDenyReason::Disabled);
    assert_eq!(d.deny.retry_after, secs(1));
}

#[test]
fn every_reason_is_reported() {
    let mut rl = window_limiter(1, 10);
    let log = watch(&mut rl);
    let p = rl.try_acquire(1, Cost::one(), secs(0)).unwrap();
    rl.commit(p, Outcome::Confirmed, secs(0));
    let d = rl.try_acquire(1, Cost::one(), secs(4)).unwrap_err();
    let ev = log.lock().unwrap().denies[0];
    assert_eq!(
        ev,
        DenyEvent {
            route_key: 1,
            bucket_key: 1,
            cost: Cost::one(),
            now: secs(4),
            deny: d,
            reason: DenyReason::WindowExhausted,
        }
    );
    rl.apply_feedback(1, &Feedback::new(secs(3), FeedbackScope::Key), secs(4));
    assert!(rl.try_acquire(1, Cost::one(), secs(5)).is_err());
    assert_eq!(last_reason(&log), DenyReason::FeedbackBackoff);
    rl.apply_feedback(1, &Feedback::new(secs(9), FeedbackScope::Global), secs(4));
    assert!(rl.try_acquire(2, Cost::one(), secs(5)).is_err());
    assert_eq!(last_reason(&log), DenyReason::FeedbackBackoff);

    let cfg = Config::fixed_window_bounded(1, secs(10), Some(0)).unwrap();
    let mut rl = RateLimiter::new(cfg);
    let log = watch(&mut rl);
    assert!(rl.try_acquire(1, Cost::one(), secs(0)).is_err());
    assert_eq!(last_reason(&log), DenyReason::KeyCardinalityBound);

    let cfg = Config::fixed_window(10, secs(10))
        .unwrap()
        .with_slow_start(SlowStart::new(secs(10)));
    let mut rl = RateLimiter::new(cfg);
    let log = watch(&mut rl);
    assert!(rl.try_acquire(1, Cost::one(), secs(0)).is_err());
    assert_eq!(last_reason(&log), DenyReason::SlowStart);
}

#[test]
fn feedback_for_a_key_without_room_is_reported_and_lost() {
    let cfg = Config::fixed_window_bounded(5, secs(10), Some(1)).unwrap();
    let mut rl = RateLimiter::new(cfg);
    let log = watch(&mut rl);
    let p = rl.try_acquire(1, Cost::one(), secs(0)).unwrap();
    rl.apply_feedback(2, &Feedback::new(secs(3), FeedbackScope::Key), secs(0));
    {
        let log = log.lock().unwrap();
        assert_eq!(log.denies.len(), 1);
        assert_eq!(log.denies[0].bucket_key, 2);
        assert_eq!(log.denies[0].cost, Cost::one());
        assert_eq!(log.denies[0].deny.retry_after, secs(10));
        assert_eq!(log.denies[0].reason, DenyReason::KeyCardinalityBound);
        assert_eq!(log.feedbacks.len(), 1);
        assert_eq!(log.feedbacks[0].retry_after, secs(3));
    }
    assert_eq!(rl.tracked_keys(), 1);
    rl.refund(p, secs(0));
}

#[test]
fn keys_and_remaps_stay_bounded() {
    let cfg = Config::token_bucket(10, 1)
        .with_max_keys(Some(3))
        .with_overflow_policy(OverflowPolicy::EvictOldestKey);
    let mut rl = RateLimiter::new(cfg);
    for key in 0..50u64 {
        let p = rl.try_acquire(key, Cost::one(), secs(key)).unwrap();
        rl.commit(p, Outcome::Confirmed, secs(key));
        rl.apply_feedback(
            key,
            &Feedback {
                bucket_remap: Some(key + 1000),
                ..Feedback::new(Duration::ZERO, FeedbackScope::Route)
            },
            secs(key),
        );
        assert!(rl.tracked_keys() <= 3);
    }
    // Only the first three routes were remapped.
    let p = rl.try_acquire(2, Cost::one(), secs(60)).unwrap();
    assert_eq!(p.key(), 1002);
    let q = rl.try_acquire(3, Cost::one(), secs(60)).unwrap();
    assert_eq!(q.key(), 3);
}

#[test]
fn other_keys_are_untouched() {
    let mut rl = window_limiter(1, 10);
    let p = rl.try_acquire(1, Cost::one(), secs(0)).unwrap();
    rl.commit(p, Outcome::Confirmed, secs(0));
    let q = rl.try_acquire(2, Cost::one(), secs(0)).unwrap();
    rl.refund(q, secs(0));
    rl.apply_feedback(3, &Feedback::new(secs(5), FeedbackScope::Key), secs(0));
    assert!(rl.try_acquire(1, Cost::one(), secs(0)).is_err());
    assert!(rl.try_acquire(2, Cost::one(), secs(0)).is_ok());
}

#[test]
fn not_sent_is_a_refund() {
    for pool in [false, true] {
        let cfg = if pool {
            Config::token_bucket(1, 0)
        } else {
            Config::fixed_window(1, secs(10)).unwrap()
        };
        let mut rl = RateLimiter::new(cfg);
        let p = rl.try_acquire(1, Cost::one(), secs(0)).unwrap();
        rl.commit(p, Outcome::NotSent, secs(0));
        let p = rl.try_acquire(1, Cost::one(), secs(0)).unwrap();
        rl.refund(p, secs(0));
        let p = rl.try_acquire(1, Cost::one(), secs(0)).unwrap();
        rl.commit(p, Outcome::SentNoConfirm, secs(0));
        assert!(rl.try_acquire(1, Cost::one(), secs(0)).is_err());
    }
}

#[test]
fn blocks_are_never_shortened_and_end_on_time() {
    let mut rl = window_limiter(10, 10);
    for delay in [3, 5, 1] {
        rl.apply_feedback(7, &Feedback::new(secs(delay), FeedbackScope::Key), secs(0));
    }
    let d = rl.try_acquire(7, Cost::one(), secs(4)).unwrap_err();
    assert_eq!(d.retry_after, secs(1));
    assert!(rl.try_acquire(7, Cost::one(), secs(5)).is_ok());

    let p = rl.try_acquire(8, Cost::one(), secs(5)).unwrap();
    rl.commit(
        p,
        Outcome::RateLimitedFeedback {
            retry_after: secs(2),
            scope: Scope::Key,
            bucket_hint: Some(9),
        },
        secs(5),
    );
    let d = rl.try_acquire(8, Cost::one(), secs(6)).unwrap_err();
    assert_eq!(d.retry_after, secs(1));
}

#[test]
fn update_under_outstanding_permits_is_applied_and_told() {
    let mut rl = window_limiter(2, 10);
    let p = rl.try_acquire(1, Cost::one(), secs(0)).unwrap();
    let longer = Config::fixed_window(3, secs(20)).unwrap();
    let err = rl.update_config(longer, secs(1)).unwrap_err();
    assert_eq!(err.kind, UpdateConfigErrorKind::WindowChanged);

    // The new maximum holds, in the window of the permit, which is finalized as ever.
    assert!(rl.try_acquire(1, cost(3), secs(1)).is_err());
    let q = rl.try_acquire(1, cost(2), secs(1)).unwrap();
    rl.commit(p, Outcome::Confirmed, secs(1));
    rl.refund(q, secs(1));
    assert!(rl.try_acquire(1, cost(3), secs(1)).is_err());
    let p = rl.try_acquire(1, cost(2), secs(1)).unwrap();

    // Under another algorithm the bucket starts afresh, and late finalization is a no-op.
    let err = rl
        .update_config(Config::token_bucket(4, 0), secs(2))
        .unwrap_err();
    assert_eq!(err.kind, UpdateConfigErrorKind::AlgorithmChanged);
    let q = rl.try_acquire(1, cost(4), secs(2)).unwrap();
    rl.refund(p, secs(2));
    assert!(rl.try_acquire(1, Cost::one(), secs(2)).is_err());
    rl.refund(q, secs(2));
    assert!(rl.try_acquire(1, cost(4), secs(2)).is_ok());
}

#[test]
fn update_without_outstanding_permits_is_no_error() {
    let mut rl = window_limiter(1, 10);
    let p = rl.try_acquire(1, Cost::one(), secs(0)).unwrap();
    rl.commit(p, Outcome::Confirmed, secs(0));
    // A window of another length starts afresh.
    rl.update_config(Config::fixed_window(2, secs(20)).unwrap(), secs(1))
        .unwrap();
    let p = rl.try_acquire(1, cost(2), secs(1)).unwrap();
    assert_eq!(p.deadline(), secs(20));
    // A change of the maximum alone is fine under permits.
    rl.update_config(Config::fixed_window(3, secs(20)).unwrap(), secs(1))
        .unwrap();
    assert!(rl.try_acquire(1, cost(2), secs(1)).is_err());
    rl.refund(p, secs(1));
    rl.update_config(Config::token_bucket(4, 0), secs(2)).unwrap();
    assert!(rl.try_acquire(1, cost(4), secs(2)).is_ok());
}

#[test]
fn pool_of_capacity_zero_is_disabled_inside_the_ramp_too() {
    let cfg = Config::token_bucket(0, 5).with_slow_start(SlowStart::new(secs(10)));
    let mut rl = RateLimiter::new(cfg);
    let log = watch(&mut rl);
    let d = rl.try_acquire(1, Cost::one(), secs(1)).unwrap_err();
    assert_eq!(d.retry_after, Duration::MAX);
    assert_eq!(last_reason(&log), DenyReason::Disabled);
}

#[test]
fn ramp_wait_of_a_pool_is_exact() {
    let slow = SlowStart::new(secs(10));
    let wait = retry_after_for_cost_u64(7, slow, secs(0), secs(1), 3);
    // 3/7 of ten seconds, rounded up to the nanosecond.
    assert_eq!(wait, Duration::from_nanos(4_285_714_286) - secs(1));
    assert_eq!(effective_u64(7, slow, secs(0), secs(1) + wait), 3);
    let before = secs(1) + wait - Duration::from_nanos(1);
    assert_eq!(effective_u64(7, slow, secs(0), before), 2);
    // Beyond the limit: the rest of the ramp.
    assert_eq!(
        retry_after_for_cost_u64(7, slow, secs(0), secs(1), 8),
        secs(9)
    );
    assert_eq!(
        retry_after_for_cost_u64(0, slow, secs(0), secs(1), 8),
        Duration::ZERO
    );

    let cfg = Config::token_bucket(7, 0).with_slow_start(slow);
    let mut rl = RateLimiter::new_at(cfg, secs(0));
    let d = rl.try_acquire(1, cost(3), secs(1)).unwrap_err();
    assert_eq!(d.retry_after, wait);
}

#[test]
fn ramp_of_zero_length_is_none() {
    let cfg = Config::fixed_window(3, secs(10))
        .unwrap()
        .with_slow_start(SlowStart::new(Duration::ZERO));
    assert_eq!(cfg.slow_start().unwrap().ramp(), Duration::ZERO);
    let mut rl = RateLimiter::new(cfg);
    let log = watch(&mut rl);
    assert!(rl.try_acquire(1, cost(3), secs(0)).is_ok());
    let d = rl.try_acquire(1, cost(4), secs(0)).unwrap_err();
    assert_eq!(d.retry_after, Duration::MAX);
    assert_eq!(last_reason(&log), DenyReason::Disabled);
}

#[test]
fn cost_above_the_limit_waits_for_the_ramp_and_is_then_denied_for_good() {
    let slow = SlowStart::new(secs(10));
    for cfg in [
        Config::fixed_window(3, secs(10)).unwrap(),
        Config::token_bucket(3, 1),
    ] {
        let mut rl = RateLimiter::new_at(cfg.with_slow_start(slow), secs(5));
        let log = watch(&mut rl);
        let d = rl.try_acquire(1, cost(4), secs(8)).unwrap_err();
        assert_eq!(d.retry_after, secs(7));
        assert_eq!(last_reason(&log), DenyReason::SlowStart);
        let d = rl.try_acquire(1, cost(4), secs(15)).unwrap_err();
        assert_eq!(d.retry_after, Duration::MAX);
        assert_eq!(last_reason(&log), DenyReason::Disabled);
    }
}

#[test]
fn pool_grants_what_it_held_and_what_flowed_in() {
    let mut pool = TokenBucketState::new(secs(0), 10);
    let mut granted = 0;
    for tenth in 0..=100u64 {
        let now = Duration::from_millis(100 * tenth);
        for c in [3, 2, 1] {
            if pool.try_reserve(10, 7, cost(c), now).is_ok() {
                granted += c;
                pool.commit(cost(c));
            }
        }
    }
    // Ten at the start, seven a second for ten seconds, whole credits at a time.
    assert!(granted <= 80);
    assert_eq!(pool.credits(), 0);
    assert!(!pool.has_outstanding());
}

#[test]
fn pool_refund_and_resize() {
    let mut pool = TokenBucketState::new(secs(0), 10);
    pool.try_reserve(10, 0, cost(4), secs(0)).unwrap();
    assert!(pool.has_outstanding());
    pool.refund(10, cost(4), secs(0), 0);
    assert_eq!(pool.credits(), 10);
    assert!(!pool.has_outstanding());
    pool.try_reserve(10, 0, cost(4), secs(0)).unwrap();
    pool.apply_capacity_change(10, 15);
    assert_eq!(pool.credits(), 11);
    pool.apply_capacity_change(15, 5);
    assert_eq!(pool.credits(), 5);
    // A time that runs backwards adds nothing.
    pool.refill(5, 100, secs(0));
    assert_eq!(pool.credits(), 5);
}

#[test]
fn own_signals_are_read_through_the_trait() {
    struct TooMany;
    impl RateLimitFeedback for TooMany {
        fn retry_after(&self) -> Duration {
            Duration::from_secs(2)
        }

        fn scope(&self) -> FeedbackScope {
            FeedbackScope::Route
        }
    }
    let read = Feedback::read(&TooMany);
    assert_eq!(read, Feedback::new(secs(2), FeedbackScope::Route));
    let mut rl = window_limiter(1, 10);
    rl.apply_feedback(4, &TooMany, secs(1));
    let d = rl.try_acquire(4, Cost::one(), secs(2)).unwrap_err();
    assert_eq!(d.retry_after, secs(1));
}

#[test]
fn backoff_takes_the_reset_only_where_nothing_remains() {
    let base = Feedback {
        retry_after: secs(1),
        scope: FeedbackScope::Key,
        remaining: Some(1),
        reset_after: Some(secs(5)),
        bucket_remap: None,
    };
    assert_eq!(base.backoff(), secs(1));
    let none_left = Feedback {
        remaining: Some(0),
        ..base
    };
    assert_eq!(none_left.backoff(), secs(5));
    let shorter = Feedback {
        retry_after: secs(9),
        ..none_left
    };
    assert_eq!(shorter.backoff(), secs(9));
}

#[test]
fn operation_is_performed_once_until_it_is_over() {
    let mut t: InFlightTable<u64, &str, u32> = InFlightTable::new(2);
    assert_eq!(t.begin(1, "a", secs(5), 10), BeginResult::New);
    assert_eq!(t.begin(2, "b", secs(5), 20), BeginResult::New);
    assert_eq!(t.begin(3, "c", secs(5), 30), BeginResult::TableFull);
    assert_eq!(t.begin(1, "a", secs(9), 11), BeginResult::Joined);
    assert_eq!(t.begin(1, "x", secs(9), 12), BeginResult::PayloadMismatch);
    assert_eq!(t.begin(1, "a", secs(1), 13), BeginResult::Joined);
    assert_eq!(t.complete(1), vec![10, 11, 13]);
    assert_eq!(t.complete(1), Vec::<u32>::new());
    assert_eq!(t.begin(1, "y", secs(5), 14), BeginResult::New);
}

#[test]
fn expiry_drains_in_the_order_of_deadlines() {
    let mut t: InFlightTable<u64, u8, u64> = InFlightTable::new(100);
    for (id, deadline) in [(1, 9), (2, 3), (3, 7), (4, 3), (5, 20)] {
        t.begin(id, 0, secs(deadline), id * 10);
    }
    t.complete(3);
    let drained = t.expire(secs(9));
    assert_eq!(
        drained,
        vec![(2, vec![20]), (4, vec![40]), (1, vec![10])]
    );
    assert_eq!(t.len(), 1);
    assert_eq!(t.expire(secs(9)), vec![]);
    // The deadline itself is over.
    assert_eq!(t.expire(secs(20)), vec![(5, vec![50])]);
    assert!(t.is_empty());
}

#[test]
fn equal_deadlines_are_drained_in_the_order_of_begin() {
    let mut t: InFlightTable<u64, u8, u64> = InFlightTable::new(100);
    for id in [9, 4, 7, 1] {
        assert_eq!(t.begin(id, 0, secs(5), id), BeginResult::New);
    }
    // Joining keeps the turn; beginning anew takes the last one.
    assert_eq!(t.begin(4, 0, secs(8), 40), BeginResult::Joined);
    t.complete(9);
    assert_eq!(t.begin(9, 0, secs(5), 90), BeginResult::New);
    assert_eq!(
        t.expire(secs(5)),
        vec![(4, vec![4, 40]), (7, vec![7]), (1, vec![1]), (9, vec![90])]
    );
}

#[test]
fn completed_entry_that_began_anew_keeps_its_new_deadline() {
    let mut t: InFlightTable<u64, u8, u64> = InFlightTable::new(100);
    t.begin(9, 0, secs(100), 0);
    t.begin(1, 0, secs(2), 1);
    t.complete(1);
    t.begin(1, 0, secs(50), 2);
    assert_eq!(t.expire(secs(10)), vec![]);
    assert_eq!(t.expire(secs(50)), vec![(1, vec![2])]);
}

#[test]
fn backlog_of_deadlines_stays_bounded() {
    let mut t: InFlightTable<u64, u8, ()> = InFlightTable::new(10);
    t.begin(0, 0, secs(1_000_000), ());
    for id in 1..10_000u64 {
        t.begin(id, 0, secs(500_000 + id % 7), ());
        t.complete(id);
        assert!(t.backlog() <= 4 * t.len() + 64);
    }
    assert_eq!(t.len(), 1);
    assert_eq!(t.expire(secs(1_000_000)).len(), 1);
    assert_eq!(t.backlog(), 0);
}

#[test]
fn table_hashes_with_the_hasher_of_its_type() {
    let mut t: InFlightTable<u64, u64, u64, ahash::RandomState> = InFlightTable::new(1000);
    for id in 0..1000 {
        assert_eq!(t.begin(id, id, secs(id), id), BeginResult::New);
    }
    assert_eq!(t.expire(secs(499)).len(), 500);
    assert_eq!(t.complete(700), vec![700]);
    assert_eq!(t.len(), 499);
}

#[test]
fn attached_permit_is_finalized_with_the_entry() {
    let mut rl = window_limiter(1, 10);
    let p = rl.try_acquire(1, Cost::one(), secs(0)).unwrap();
    let mut entry = LimiterInFlight::new(p, secs(3), 'a');
    entry.join('b');
    entry.join('c');
    assert_eq!(entry.deadline, secs(3));
    assert_eq!(entry.permit.key(), 1);
    let waiters = entry.expire(&mut rl, LimiterInFlightExpiryPolicy::Refund, secs(3));
    assert_eq!(waiters, vec!['a', 'b', 'c']);
    let p: Permit = rl.try_acquire(1, Cost::one(), secs(3)).unwrap();
    let entry = LimiterInFlight::new(p, secs(9), 'd');
    assert_eq!(entry.complete(), vec!['d']);
}

#[test]
fn manual_clock_shows_what_it_was_told() {
    let mut clock = ManualClock::new(secs(1));
    clock.advance(secs(2));
    assert_eq!(clock.now(), secs(3));
    assert!(!clock.try_advance(Duration::MAX));
    assert_eq!(clock.clone().now(), secs(3));
    assert!(clock.try_advance(secs(1)));
    clock.set(secs(9));
    assert_eq!(clock.now(), secs(9));
}

#[test]
fn system_clock_does_not_run_backwards() {
    let clock = SystemClock::default();
    let mut last = clock.now();
    for _ in 0..1000 {
        let now = clock.now();
        assert!(now >= last);
        last = now;
    }
}

#[test]
fn config_holds_what_it_was_given() {
    let cfg = Config::fixed_window_bounded(3, secs(10), Some(4)).unwrap();
    assert_eq!(cfg.max_keys(), Some(4));
    assert_eq!(cfg.overflow_policy(), OverflowPolicy::DenyNewKey);
    assert_eq!(cfg.slow_start(), None);
    assert_eq!(
        cfg.algorithm(),
        AlgorithmConfig::FixedWindow {
            max_per_window: 3,
            window: secs(10)
        }
    );
    assert_eq!(
        Config::fixed_window_bounded(3, Duration::ZERO, Some(4)).unwrap_err(),
        ConfigError::ZeroWindow
    );
    let cfg = Config::token_bucket(5, 6)
        .with_max_keys(Some(1))
        .with_overflow_policy(OverflowPolicy::EvictOldestKey)
        .with_slow_start(SlowStart::new(secs(1)));
    assert_eq!(
        cfg.algorithm(),
        AlgorithmConfig::TokenBucket {
            capacity: 5,
            refill_per_sec: 6
        }
    );
    assert_eq!(cfg.max_keys(), Some(1));
    assert_eq!(cfg.overflow_policy(), OverflowPolicy::EvictOldestKey);
    assert_eq!(cfg.slow_start(), Some(SlowStart::new(secs(1))));
}
