//! In-flight deduplication and attached permits.

use shared_rate_limiter::{
    BeginResult, Config, Cost, InFlightTable, LimiterInFlight, LimiterInFlightExpiryPolicy,
    Outcome, RateLimiter,
};
use std::time::Duration;

#[test]
fn dedup_new_then_join_same_fp() {
    let mut t: InFlightTable<u64, u64, u64> = InFlightTable::new(10);
    assert_eq!(t.begin(1, 7, Duration::from_secs(5), 10), BeginResult::New);
    assert_eq!(
        t.begin(1, 7, Duration::from_secs(5), 11),
        BeginResult::Joined
    );
    let ws = t.complete(1);
    assert_eq!(ws, vec![10, 11]);
}

#[test]
fn dedup_payload_mismatch() {
    let mut t: InFlightTable<u64, u64, u64> = InFlightTable::new(10);
    assert_eq!(t.begin(1, 7, Duration::from_secs(5), 10), BeginResult::New);
    assert_eq!(
        t.begin(1, 8, Duration::from_secs(5), 11),
        BeginResult::PayloadMismatch
    );
    let ws = t.complete(1);
    assert_eq!(ws, vec![10]);
}

#[test]
fn table_full_enforced() {
    let mut t: InFlightTable<u64, u64, u64> = InFlightTable::new(1);
    assert_eq!(t.begin(1, 7, Duration::from_secs(5), 10), BeginResult::New);
    assert_eq!(
        t.begin(2, 7, Duration::from_secs(5), 20),
        BeginResult::TableFull
    );
}

#[test]
fn expire_removes_and_returns_waiters() {
    let mut t: InFlightTable<u64, u64, u64> = InFlightTable::new(10);
    t.begin(1, 7, Duration::from_secs(5), 10);
    t.begin(2, 7, Duration::from_secs(2), 20);
    let expired = t.expire(Duration::from_secs(3));
    assert_eq!(expired.len(), 1);
    assert_eq!(expired[0].0, 2);
    assert_eq!(expired[0].1, vec![20]);
    assert_eq!(t.len(), 1);
}

#[test]
fn heap_does_not_grow_unbounded_when_entries_complete_before_deadlines() {
    let mut t: InFlightTable<u64, u64, ()> = InFlightTable::new(10_000);
    let deadline = Duration::from_secs(60);

    // If we push a heap item per begin and always complete before expiry, stale heap items
    // would accumulate without periodic compaction.
    for i in 0..130 {
        assert_eq!(t.begin(i, 1, deadline, ()), BeginResult::New);
        t.complete(i);
    }

    assert!(t.is_empty());
    assert!(
        t.backlog() == 0,
        "heap should be compacted back to empty when no live entries remain"
    );
}

#[test]
fn permit_attachment_refund_on_not_sent() {
    let cfg = Config::fixed_window(1, Duration::from_secs(10)).unwrap();
    let mut rl = RateLimiter::new(cfg);
    let now = Duration::from_secs(0);
    let p = rl.try_acquire(1, Cost::one(), now).unwrap();

    let entry = LimiterInFlight::new(p, Duration::from_secs(1), ());
    entry.finalize(&mut rl, Outcome::NotSent, now);

    // Refunded; should allow another acquire in the same window.
    let _p2 = rl.try_acquire(1, Cost::one(), now).unwrap();
}

#[test]
fn permit_attachment_no_refund_on_sent_no_confirm_or_expiry_by_default() {
    let cfg = Config::fixed_window(1, Duration::from_secs(10)).unwrap();
    let mut rl = RateLimiter::new(cfg);
    let now = Duration::from_secs(0);

    let p = rl.try_acquire(1, Cost::one(), now).unwrap();
    let entry = LimiterInFlight::new(p, Duration::from_secs(1), ());
    entry.finalize(&mut rl, Outcome::SentNoConfirm, now);
    assert!(rl.try_acquire(1, Cost::one(), now).is_err());

    // New window for expiry check.
    let mut rl = RateLimiter::new(Config::fixed_window(1, Duration::from_secs(10)).unwrap());
    let p = rl.try_acquire(1, Cost::one(), now).unwrap();
    let entry = LimiterInFlight::new(p, Duration::from_secs(1), ());
    entry.expire(
        &mut rl,
        LimiterInFlightExpiryPolicy::CommitSentNoConfirm,
        now,
    );
    assert!(rl.try_acquire(1, Cost::one(), now).is_err());
}
