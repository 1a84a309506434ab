//! How a limiter answers, and what each call leaves behind, in terms of what was asked for, what
//! was granted before, and the time that has passed.

use crate::bucket::{
    law_finalizing_never_shortens_a_block, law_fresh_window_holds_now,
    law_pool_grants_what_is_there, law_pool_permit_is_settled, law_update_keeps_the_accounts,
    law_window_grants_what_is_left, law_window_permit_is_settled, law_window_wait_is_exact,
    lemma_window_start_is_unique, AlgoModel, BucketModel, WindowModel,
};
use crate::config::{AlgorithmConfig, ConfigModel};
use crate::feedback::Feedback;
use crate::limiter::{
    feedback_noticed, Decision, LimiterModel, RateLimiter, UpdateConfigErrorKind,
};
use crate::limiter_laws::law_ramp_wait_is_actionable;
use crate::observer::{DenyReason, Notice};
use crate::slow_start::{law_ramp_is_conservative, law_ramp_is_linear};
use crate::time::{instant_after, nanos, MAX_NANOS};
use crate::token_bucket::{law_pool_retry_is_granted, TokenBucketModel};
use crate::types::{Key, Outcome, PermitModel, Scope};
use std::time::Duration;
use vstd::prelude::*;

verus! {

/// Time since the start of the limiter, none before it.
pub open spec fn since_start(m: LimiterModel, now: nat) -> nat {
    if now >= m.started_at {
        (now - m.started_at) as nat
    } else {
        0
    }
}

/// `share` is what the ramp of the limiter leaves of `whole` at `now`: it relates to the whole as
/// the time since the start does to the length of the ramp, rounded down; the whole where there is
/// no ramp, or it is over.
pub open spec fn is_share(m: LimiterModel, whole: nat, share: nat, now: nat) -> bool {
    match m.config.slow_start {
        None => share == whole,
        Some(slow) => {
            let length = nanos(slow.spec_ramp());
            let elapsed = since_start(m, now);
            if elapsed >= length {
                share == whole
            } else {
                share * length <= whole * elapsed < (share + 1) * length
            }
        },
    }
}

/// The same of a limit of a credit pool, where a product of `whole` and the time that is more than
/// 128 bits hold counts as the most that they hold.
pub open spec fn is_pool_share(m: LimiterModel, whole: nat, share: nat, now: nat) -> bool {
    match m.config.slow_start {
        None => share == whole,
        Some(slow) => {
            let length = nanos(slow.spec_ramp());
            let elapsed = since_start(m, now);
            if elapsed >= length {
                share == whole
            } else if whole * elapsed <= u128::MAX {
                share * length <= whole * elapsed < (share + 1) * length
            } else {
                share * length <= u128::MAX < (share + 1) * length
            }
        },
    }
}

/// The ramp of the limiter is running at `now`.
pub open spec fn in_ramp(m: LimiterModel, now: nat) -> bool {
    match m.config.slow_start {
        None => false,
        Some(slow) => since_start(m, now) < nanos(slow.spec_ramp()),
    }
}

/// No block by feedback, global or of the key, is in force at `now`.
pub open spec fn is_free(m: LimiterModel, key: Key, now: nat) -> bool {
    &&& m.global_blocked_until matches Some(until) ==> until <= now
    &&& m.buckets.contains_key(key) ==> (m.buckets[key].blocked_until matches Some(until) ==> until
        <= now)
}

proof fn lemma_share_is_unique(a: nat, b: nat, length: nat, n: nat)
    requires
        a * length <= n < (a + 1) * length,
        b * length <= n < (b + 1) * length,
    ensures
        a == b,
{
    assert(a == b) by (nonlinear_arith)
        requires
            a * length <= n < (a + 1) * length,
            b * length <= n < (b + 1) * length,
    ;
}

/// The limits in force are the shares that the ramp leaves of the configured ones; the length of a
/// window is not ramped.
pub proof fn law_limits_in_force_are_shares(m: LimiterModel, now: nat)
    ensures
        match (m.config.algorithm, m.in_force(now)) {
            (
                AlgorithmConfig::FixedWindow { max_per_window, window },
                AlgorithmConfig::FixedWindow { max_per_window: max, window: length },
            ) => length == window && is_share(m, max_per_window as nat, max as nat, now),
            (
                AlgorithmConfig::TokenBucket { capacity, refill_per_sec },
                AlgorithmConfig::TokenBucket { capacity: cap, refill_per_sec: rate },
            ) => is_pool_share(m, capacity as nat, cap as nat, now) && is_pool_share(
                m,
                refill_per_sec as nat,
                rate as nat,
                now,
            ),
            _ => false,
        },
{
    if let Some(slow) = m.config.slow_start {
        let elapsed = m.elapsed(now);
        match m.config.algorithm {
            AlgorithmConfig::FixedWindow { max_per_window, .. } => {
                law_ramp_is_linear(max_per_window as nat, slow, elapsed);
                law_ramp_is_conservative(max_per_window as nat, slow, elapsed);
            },
            AlgorithmConfig::TokenBucket { capacity, refill_per_sec } => {
                law_ramp_is_linear(capacity as nat, slow, elapsed);
                law_ramp_is_conservative(capacity as nat, slow, elapsed);
                law_ramp_is_linear(refill_per_sec as nat, slow, elapsed);
                law_ramp_is_conservative(refill_per_sec as nat, slow, elapsed);
            },
        }
    }
}

/// While the ramp runs, a window gives out no more than the ramp allows: once a request is granted,
/// what the window has given out relates to the configured maximum at most as the time since the
/// start does to the length of the ramp.
pub proof fn law_ramped_window_gives_out_its_share(
    m: LimiterModel,
    route_key: Key,
    cost: nat,
    now: nat,
)
    requires
        m.config.algorithm is FixedWindow,
        m.config.algorithm.wf(),
        m.config.slow_start is Some,
        cost > 0,
        m.decision(route_key, cost, now) is Granted,
    ensures
        ({
            let max = m.config.algorithm->max_per_window as nat;
            let length = nanos(m.config.slow_start->0.spec_ramp());
            let after = m.after_acquire(route_key, cost, now);
            let key = m.bucket_key(route_key);
            &&& after.buckets.contains_key(key)
            &&& after.buckets[key].algo matches AlgoModel::FixedWindow(a)
            &&& a.reserved >= cost
            &&& a.spent + a.reserved <= max
            &&& since_start(m, now) < length ==> (a.spent + a.reserved) * length <= max
                * since_start(m, now)
        }),
{
    law_limits_in_force_are_shares(m, now);
    crate::limiter_laws::law_in_force_is_no_larger(m, now);
    let key = m.bucket_key(route_key);
    let a = m.admitted(key, now)->0;
    let b = a.buckets[key];
    let after = m.after_acquire(route_key, cost, now);
    let share = m.in_force(now)->max_per_window as nat;
    let length = nanos(m.config.slow_start->0.spec_ramp());
    assert(after.buckets[key] == b.after_reserve(m.in_force(now), cost, now));
    let w = after.buckets[key].algo->FixedWindow_0;
    assert(w.spent + w.reserved <= share);
    assert((w.spent + w.reserved) * length <= share * length) by (nonlinear_arith)
        requires
            w.spent + w.reserved <= share,
    ;
}

/// A request of a key that keeps the accounts of a window is granted exactly where, with what the
/// window that counts has given out, it stays within the share of the maximum that is in force.
/// A grant reserves its cost with a permit that ends with the window; a denial takes nothing. The
/// ramp is what denies a cost above the share while it runs; a maximum of zero, and a cost above
/// it, are told apart from a window that is used up, which asks to wait for its end.
pub proof fn law_window_request_is_answered(
    m: LimiterModel,
    route_key: Key,
    cost: nat,
    now: nat,
    w: WindowModel,
    share: nat,
)
    requires
        m.config.algorithm is FixedWindow,
        m.config.algorithm.wf(),
        m.buckets.contains_key(m.bucket_key(route_key)),
        m.buckets[m.bucket_key(route_key)].algo == AlgoModel::FixedWindow(w),
        is_free(m, m.bucket_key(route_key), now),
        is_share(m, m.config.algorithm->max_per_window as nat, share, now),
        cost > 0,
    ensures
        ({
            let key = m.bucket_key(route_key);
            let max = m.config.algorithm->max_per_window;
            let window = nanos(m.config.algorithm->window);
            let c = w.current(window, now);
            let end = instant_after(c.window_start, window);
            let after = m.after_acquire(route_key, cost, now);
            match m.decision(route_key, cost, now) {
                Decision::Granted(permit) => {
                    &&& c.spent + c.reserved + cost <= share
                    &&& permit.key == key
                    &&& permit.cost == cost
                    &&& permit.issued_at == now
                    &&& permit.window_start == Some(c.window_start)
                    &&& permit.deadline == end
                    &&& after.buckets[key].algo == AlgoModel::FixedWindow(
                        WindowModel { reserved: c.reserved + cost, ..c },
                    )
                },
                Decision::Denied { retry_after, reason } => {
                    &&& c.spent + c.reserved + cost > share
                    &&& reason == DenyReason::SlowStart ==> after == m
                    &&& reason != DenyReason::SlowStart ==> after.buckets[key].algo
                        == AlgoModel::FixedWindow(c)
                    &&& reason == DenyReason::SlowStart <==> cost > share && max > 0 && in_ramp(
                        m,
                        now,
                    )
                    &&& max == 0 ==> reason == DenyReason::Disabled && retry_after == window
                    &&& cost > max > 0 && !in_ramp(m, now) ==> reason == DenyReason::Disabled
                        && retry_after == MAX_NANOS
                    &&& cost <= share ==> reason == DenyReason::WindowExhausted && (if now < end {
                        now + retry_after == end
                    } else {
                        retry_after == 0
                    })
                },
            }
        }),
{
    law_limits_in_force_are_shares(m, now);
    let key = m.bucket_key(route_key);
    let max = m.config.algorithm->max_per_window;
    let force = m.in_force(now)->max_per_window;
    if let Some(slow) = m.config.slow_start {
        let length = nanos(slow.spec_ramp());
        if since_start(m, now) < length {
            lemma_share_is_unique(share, force as nat, length, max as nat * since_start(m, now));
            law_ramp_is_conservative(max as nat, slow, since_start(m, now));
            if max == 0 {
                assert(0 * since_start(m, now) == 0);
                assert(share == 0) by (nonlinear_arith)
                    requires
                        share * length <= 0,
                        length > 0,
                ;
            }
        }
    }
    assert(m.admitted(key, now) == Some(m));
    law_window_grants_what_is_left(
        m.buckets[key],
        w,
        key,
        force,
        m.config.algorithm->window,
        cost,
        now,
    );
}

/// A request of a key that keeps the accounts of a pool is granted exactly where the shares of the
/// capacity and of the credits that are in force cover it. A grant takes its cost out of the pool;
/// a denial takes nothing, and asks to wait until the credits have flowed in.
pub proof fn law_pool_request_is_answered(
    m: LimiterModel,
    route_key: Key,
    cost: nat,
    now: nat,
    s: TokenBucketModel,
    share: u64,
    rate: u64,
)
    requires
        m.config.algorithm is TokenBucket,
        m.buckets.contains_key(m.bucket_key(route_key)),
        m.buckets[m.bucket_key(route_key)].algo == AlgoModel::TokenBucket(s),
        is_free(m, m.bucket_key(route_key), now),
        is_pool_share(m, m.config.algorithm->capacity as nat, share as nat, now),
        is_pool_share(m, m.config.algorithm->refill_per_sec as nat, rate as nat, now),
        cost > 0,
        s.in_flight + cost <= u64::MAX,
    ensures
        ({
            let key = m.bucket_key(route_key);
            let capacity = m.config.algorithm->capacity;
            let c = s.refilled(share as nat, rate as nat, now);
            let after = m.after_acquire(route_key, cost, now);
            match m.decision(route_key, cost, now) {
                Decision::Granted(permit) => {
                    &&& cost <= share
                    &&& cost <= c.credits
                    &&& permit.key == key
                    &&& permit.cost == cost
                    &&& permit.issued_at == now
                    &&& permit.window_start is None
                    &&& permit.deadline == 0
                    &&& after.buckets[key].algo == AlgoModel::TokenBucket(
                        TokenBucketModel {
                            credits: (c.credits - cost) as nat,
                            in_flight: s.in_flight + cost,
                            ..c
                        },
                    )
                },
                Decision::Denied { retry_after, reason } => {
                    &&& cost > share || cost > c.credits
                    &&& reason == DenyReason::SlowStart ==> after == m
                    &&& reason != DenyReason::SlowStart && capacity > 0 ==> after.buckets[key].algo
                        == AlgoModel::TokenBucket(c)
                    &&& capacity == 0 ==> after.buckets[key].algo == AlgoModel::TokenBucket(s)
                    &&& reason == DenyReason::SlowStart <==> cost > share && capacity > 0
                        && in_ramp(m, now)
                    &&& capacity == 0 || cost > capacity && !in_ramp(m, now) ==> reason
                        == DenyReason::Disabled && retry_after == MAX_NANOS
                    &&& cost <= share && rate == 0 ==> reason == DenyReason::Disabled
                        && retry_after == MAX_NANOS
                    &&& cost <= share && rate > 0 ==> {
                        &&& retry_after != MAX_NANOS ==> reason == DenyReason::WindowExhausted
                        &&& retry_after * rate >= (cost - c.credits) * 1_000_000_000
                        &&& retry_after > 0 && (retry_after - 1) * rate < (cost - c.credits)
                            * 1_000_000_000
                    }
                },
            }
        }),
{
    law_limits_in_force_are_shares(m, now);
    let key = m.bucket_key(route_key);
    let capacity = m.config.algorithm->capacity as nat;
    let refill = m.config.algorithm->refill_per_sec as nat;
    let cap = m.in_force(now)->capacity;
    let flow = m.in_force(now)->refill_per_sec;
    if let Some(slow) = m.config.slow_start {
        let length = nanos(slow.spec_ramp());
        let elapsed = since_start(m, now);
        if elapsed < length {
            lemma_share_is_unique(
                share as nat,
                cap as nat,
                length,
                crate::time::least(capacity * elapsed, u128::MAX as nat),
            );
            lemma_share_is_unique(
                rate as nat,
                flow as nat,
                length,
                crate::time::least(refill * elapsed, u128::MAX as nat),
            );
            law_ramp_is_conservative(capacity, slow, elapsed);
        }
    }
    assert(cap == share && flow == rate);
    assert(m.admitted(key, now) == Some(m));
    law_pool_grants_what_is_there(m.buckets[key], s, key, cap, flow, cost, now);
}

/// A key that is not tracked yet, and for which there is room, is answered as one whose bucket is
/// unused: unblocked, with nothing given out, the pool full to its configured capacity.
pub proof fn law_new_key_is_answered_as_unused(
    m: LimiterModel,
    route_key: Key,
    cost: nat,
    now: nat,
    unused: BucketModel,
)
    requires
        m.config.algorithm.wf(),
        !m.buckets.contains_key(m.bucket_key(route_key)),
        m.config.max_keys matches Some(max_keys) ==> m.buckets.len() < max_keys,
        unused.blocked_until is None,
        match (m.config.algorithm, unused.algo) {
            (AlgorithmConfig::FixedWindow { window, .. }, AlgoModel::FixedWindow(w)) => {
                &&& w.spent == 0
                &&& w.reserved == 0
                &&& w.window_start % nanos(window) == 0
                &&& w.window_start <= now < w.window_start + nanos(window)
            },
            (AlgorithmConfig::TokenBucket { capacity, .. }, AlgoModel::TokenBucket(s)) => {
                &&& s.credits == capacity
                &&& s.in_flight == 0
                &&& s.last_update == now
            },
            _ => false,
        },
    ensures
        ({
            let key = m.bucket_key(route_key);
            let joined = LimiterModel {
                buckets: m.buckets.insert(key, unused),
                order: m.order.push(key),
                ..m
            };
            let denied_before = m.decision(route_key, cost, now) matches Decision::Denied {
                reason,
                ..
            } && (reason == DenyReason::FeedbackBackoff || reason == DenyReason::SlowStart);
            &&& m.decision(route_key, cost, now) == joined.decision(route_key, cost, now)
            &&& denied_before ==> m.after_acquire(route_key, cost, now) == m
            &&& !denied_before ==> m.after_acquire(route_key, cost, now) == joined.after_acquire(
                route_key,
                cost,
                now,
            )
        }),
{
    if let AlgorithmConfig::FixedWindow { window, .. } = m.config.algorithm {
        lemma_window_start_is_unique(
            unused.algo->FixedWindow_0.window_start,
            nanos(window),
            now,
        );
    }
    let key = m.bucket_key(route_key);
    let joined = LimiterModel {
        buckets: m.buckets.insert(key, unused),
        order: m.order.push(key),
        ..m
    };
    assert(unused == BucketModel::fresh(now, m.config.algorithm));
    assert(m.admitted(key, now) == Some(joined));
    assert(joined.admitted(key, now) == Some(joined));
}

/// A block of a key denies its requests for as long as it lasts, with the time that is left, and
/// they change nothing.
pub proof fn law_key_block_denies_its_key(
    m: LimiterModel,
    route_key: Key,
    cost: nat,
    now: nat,
    until: nat,
)
    requires
        m.global_blocked_until matches Some(until) ==> until <= now,
        m.buckets.contains_key(m.bucket_key(route_key)),
        m.buckets[m.bucket_key(route_key)].blocked_until == Some(until),
        now < until,
    ensures
        m.decision(route_key, cost, now) == (Decision::Denied {
            retry_after: (until - now) as nat,
            reason: DenyReason::FeedbackBackoff,
        }),
        m.after_acquire(route_key, cost, now) == m,
{
}

/// Without a block, feedback is not what denies.
pub proof fn law_backoff_needs_a_block(m: LimiterModel, route_key: Key, cost: nat, now: nat)
    requires
        is_free(m, m.bucket_key(route_key), now),
    ensures
        !(m.decision(route_key, cost, now) matches Decision::Denied { reason, .. } && reason
            == DenyReason::FeedbackBackoff),
{
    let key = m.bucket_key(route_key);
    if let Some(a) = m.admitted(key, now) {
        assert(m.buckets.contains_key(key) ==> a.buckets[key] == m.buckets[key]);
    }
}

/// A denial for the ramp is over with the wait that it gives, and not before; a cost above the
/// configured limit waits for the end of the ramp.
pub proof fn law_ramp_denial_ends_with_its_wait(
    m: LimiterModel,
    route_key: Key,
    cost: u32,
    now: nat,
    delay: nat,
)
    requires
        cost > 0,
        m.started_at <= now,
        m.config.slow_start matches Some(slow) && nanos(slow.spec_ramp()) <= MAX_NANOS,
        is_free(m, m.bucket_key(route_key), now),
        m.decision(route_key, cost as nat, now) matches Decision::Denied { reason, .. } && reason
            == DenyReason::SlowStart,
    ensures
        ({
            let wait = m.decision(route_key, cost as nat, now)->retry_after;
            let whole = match m.config.algorithm {
                AlgorithmConfig::FixedWindow { max_per_window, .. } => max_per_window as nat,
                AlgorithmConfig::TokenBucket { capacity, .. } => capacity as nat,
            };
            &&& cost <= whole ==> (m.decision(
                route_key,
                cost as nat,
                now + delay,
            ) matches Decision::Denied { reason, .. } && reason == DenyReason::SlowStart <==> delay
                < wait)
            &&& cost > whole ==> now + wait == m.started_at + nanos(
                m.config.slow_start->0.spec_ramp(),
            )
        }),
{
    let key = m.bucket_key(route_key);
    assert(m.ramp_denial(cost as nat, now) is Some);
    let whole = match m.config.algorithm {
        AlgorithmConfig::FixedWindow { max_per_window, .. } => max_per_window as nat,
        AlgorithmConfig::TokenBucket { capacity, .. } => capacity as nat,
    };
    if cost <= whole {
        law_ramp_wait_is_actionable(m, cost, now, delay);
    }
}

/// A denied request changes the answer to no other one: whatever is asked for next at that instant,
/// for the same key or for another, is answered as if the denied request had not been made.
pub proof fn law_denied_request_changes_no_answer(
    m: LimiterModel,
    route_key: Key,
    cost: nat,
    now: nat,
    other_route: Key,
    other_cost: nat,
)
    requires
        m.config.algorithm.wf(),
        m.decision(route_key, cost, now) is Denied,
        m.buckets.contains_key(m.bucket_key(route_key)) || m.config.max_keys is None,
    ensures
        m.after_acquire(route_key, cost, now).decision(other_route, other_cost, now) == m.decision(
            other_route,
            other_cost,
            now,
        ),
{
    let key = m.bucket_key(route_key);
    let other = m.bucket_key(other_route);
    let after = m.after_acquire(route_key, cost, now);
    if !m.globally_blocked(now) && !m.key_blocked(key, now) && m.ramp_denial(cost, now) is None {
        let a = m.admitted(key, now)->0;
        let b = a.buckets[key];
        let b2 = b.after_reserve(m.in_force(now), cost, now);
        assert(after == a.with_bucket(key, b2));
        if let AlgorithmConfig::FixedWindow { window, .. } = m.config.algorithm {
            law_fresh_window_holds_now(now, nanos(window));
        }
        assert(b.has_outstanding() == b2.has_outstanding());
        assert(b.reservation(key, m.in_force(now), other_cost, now) == b2.reservation(
            key,
            m.in_force(now),
            other_cost,
            now,
        ));
        if m.buckets.contains_key(key) {
            assert(after.buckets.dom() =~= m.buckets.dom());
            assert forall|i: int| #[trigger]
                after.oldest_evictable(i) == m.oldest_evictable(i) by {
                assert forall|j: int| 0 <= j < m.order.len() implies #[trigger] after.evictable(
                    m.order[j],
                ) == m.evictable(m.order[j]) by {}
            }
            if exists|i: int| m.oldest_evictable(i) {
                let i = choose|i: int| m.oldest_evictable(i);
                assert(after.oldest_evictable(i));
            }
            if exists|i: int| after.oldest_evictable(i) {
                let i = choose|i: int| after.oldest_evictable(i);
                assert(m.oldest_evictable(i));
            }
        }
    }
}

/// The wait that a request is told that finds the window, or the pool, used up is enough, and no
/// longer than needed: asked again exactly from its end on, with nothing else granted in between,
/// the request is granted. A window must have no permit outstanding, as it waits for them.
pub proof fn law_retry_after_the_wait_is_granted(
    m: LimiterModel,
    route_key: Key,
    cost: nat,
    now: nat,
    delay: nat,
)
    requires
        m.config.algorithm.wf(),
        m.config.slow_start is None,
        m.buckets.contains_key(m.bucket_key(route_key)),
        is_free(m, m.bucket_key(route_key), now),
        0 < cost <= u32::MAX,
        match (m.config.algorithm, m.buckets[m.bucket_key(route_key)].algo) {
            (AlgorithmConfig::FixedWindow { window, .. }, AlgoModel::FixedWindow(w)) => w.reserved
                == 0 && w.window_start <= now && w.window_start + nanos(window) <= MAX_NANOS,
            (AlgorithmConfig::TokenBucket { .. }, AlgoModel::TokenBucket(s)) => s.last_update
                <= now && s.in_flight + cost <= u64::MAX,
            _ => false,
        },
        m.decision(route_key, cost, now) matches Decision::Denied { reason, .. } && reason
            == DenyReason::WindowExhausted,
    ensures
        m.after_acquire(route_key, cost, now).decision(route_key, cost, now + delay) is Granted
            <==> delay >= m.decision(route_key, cost, now)->retry_after,
{
    let key = m.bucket_key(route_key);
    let after = m.after_acquire(route_key, cost, now);
    assert(m.admitted(key, now) == Some(m));
    assert(after.buckets.contains_key(key));
    assert(after.admitted(key, now + delay) == Some(after));
    match (m.config.algorithm, m.buckets[key].algo) {
        (
            AlgorithmConfig::FixedWindow { max_per_window, window },
            AlgoModel::FixedWindow(w),
        ) => {
            law_fresh_window_holds_now(now, nanos(window));
            let c = w.current(nanos(window), now);
            law_window_wait_is_exact(
                c,
                max_per_window as nat,
                nanos(window),
                cost,
                now,
                delay,
            );
        },
        (
            AlgorithmConfig::TokenBucket { capacity, refill_per_sec },
            AlgoModel::TokenBucket(s),
        ) => {
            law_pool_retry_is_granted(
                s,
                capacity as nat,
                refill_per_sec as nat,
                cost,
                now,
                delay,
            );
        },
        _ => {},
    }
}

/// A permit of a window that is finalized gives its reservation up: it is free again where it was
/// given back, or is reported as not sent, and spent otherwise. The configured length of the window
/// counts, not the ramp.
pub proof fn law_window_permit_is_finalized(
    m: LimiterModel,
    permit: PermitModel,
    outcome: Outcome,
    now: nat,
    w: WindowModel,
)
    requires
        m.config.algorithm is FixedWindow,
        m.buckets.contains_key(permit.key),
        m.buckets[permit.key].algo == AlgoModel::FixedWindow(w),
        permit.window_start == Some(w.window_start),
        0 < permit.cost <= w.reserved,
        w.spent + permit.cost <= u32::MAX,
    ensures
        ({
            let free = AlgoModel::FixedWindow(
                WindowModel { reserved: (w.reserved - permit.cost) as nat, ..w },
            );
            let spent = AlgoModel::FixedWindow(
                WindowModel {
                    reserved: (w.reserved - permit.cost) as nat,
                    spent: w.spent + permit.cost,
                    ..w
                },
            );
            &&& m.refunded(permit, now).buckets[permit.key].algo == free
            &&& m.committed(permit, outcome, now).buckets[permit.key].algo
                == if outcome is NotSent {
                free
            } else {
                spent
            }
        }),
{
    law_window_permit_is_settled(
        m.buckets[permit.key],
        w,
        m.config.algorithm->max_per_window,
        m.config.algorithm->window,
        permit,
        w.window_start,
        outcome,
        now,
    );
}

/// A permit of a pool that is finalized is out of flight: its cost is back in the pool where it was
/// given back, or is reported as not sent, at whatever instant, besides what flowed in at the
/// configured rate and up to the configured capacity; it is gone otherwise.
pub proof fn law_pool_permit_is_finalized(
    m: LimiterModel,
    permit: PermitModel,
    outcome: Outcome,
    now: nat,
    s: TokenBucketModel,
)
    requires
        m.config.algorithm is TokenBucket,
        m.buckets.contains_key(permit.key),
        m.buckets[permit.key].algo == AlgoModel::TokenBucket(s),
        permit.window_start is None,
        permit.cost <= s.in_flight,
    ensures
        ({
            let capacity = m.config.algorithm->capacity as nat;
            let c = s.refilled(capacity, m.config.algorithm->refill_per_sec as nat, now);
            let back = m.refunded(permit, now).buckets[permit.key].algo;
            &&& back matches AlgoModel::TokenBucket(r)
            &&& r.in_flight + permit.cost == s.in_flight
            &&& r.last_update == c.last_update
            &&& c.credits + permit.cost <= capacity ==> r.credits == c.credits + permit.cost
            &&& c.credits + permit.cost > capacity ==> r.credits == capacity
            &&& m.committed(permit, outcome, now).buckets[permit.key].algo
                == if outcome is NotSent {
                back
            } else {
                AlgoModel::TokenBucket(
                    TokenBucketModel { in_flight: (s.in_flight - permit.cost) as nat, ..s },
                )
            }
        }),
{
    law_pool_permit_is_settled(
        m.buckets[permit.key],
        s,
        m.config.algorithm->capacity,
        m.config.algorithm->refill_per_sec,
        permit,
        outcome,
        now,
    );
}

/// No finalization shortens a block. A rate-limit report blocks its key, or every key, until its
/// delay is over at least; any other outcome, and a refund, keep each block for as long as it
/// lasts. The permit of a key that is no longer tracked changes nothing else.
pub proof fn law_finalizing_extends_blocks_only(
    m: LimiterModel,
    permit: PermitModel,
    outcome: Outcome,
    now: nat,
)
    ensures
        ({
            let refunded = m.refunded(permit, now);
            let committed = m.committed(permit, outcome, now);
            &&& refunded.global_blocked_until == m.global_blocked_until
            &&& outcome matches Outcome::RateLimitedFeedback {
                retry_after,
                scope: Scope::Global,
                ..
            } ==> {
                &&& committed.global_blocked_until matches Some(u)
                &&& u >= instant_after(now, nanos(retry_after))
                &&& m.global_blocked_until matches Some(until) ==> u >= until
                &&& u == instant_after(now, nanos(retry_after)) || m.global_blocked_until == Some(
                    u,
                )
            }
            &&& !(outcome matches Outcome::RateLimitedFeedback { scope: Scope::Global, .. })
                ==> committed.global_blocked_until == m.global_blocked_until
            &&& !m.buckets.contains_key(permit.key) ==> refunded == m && committed.buckets
                == m.buckets
            &&& m.buckets.contains_key(permit.key) ==> {
                let before = m.buckets[permit.key].blocked_until;
                let after = committed.buckets[permit.key].blocked_until;
                &&& before matches Some(until) ==> if now < until {
                    &&& refunded.buckets[permit.key].blocked_until == Some(until)
                    &&& after matches Some(u)
                    &&& u >= until
                } else {
                    refunded.buckets[permit.key].blocked_until is None
                }
                &&& before is None ==> refunded.buckets[permit.key].blocked_until is None
                &&& outcome matches Outcome::RateLimitedFeedback {
                    retry_after,
                    scope: Scope::Key,
                    ..
                } ==> {
                    &&& after matches Some(u)
                    &&& u >= instant_after(now, nanos(retry_after))
                    &&& u == instant_after(now, nanos(retry_after)) || (before == Some(u) && now
                        < u)
                }
                &&& !(outcome matches Outcome::RateLimitedFeedback { scope: Scope::Key, .. })
                    ==> after == refunded.buckets[permit.key].blocked_until
            }
        }),
{
    if m.buckets.contains_key(permit.key) {
        law_finalizing_never_shortens_a_block(
            m.buckets[permit.key],
            permit,
            outcome,
            now,
            m.config.algorithm,
            m.config.algorithm,
        );
    }
}

/// An update replaces the configuration and keeps the rest: the keys in their order, the remaps,
/// the blocks that still last, the start of the ramp, and the accounts. A window keeps what it has
/// given out unless its length changes while it has no permit outstanding; a pool keeps its credits
/// as they stand at that instant, and its deficit where the capacity grows.
pub proof fn law_update_keeps_what_was_given_out(
    m: LimiterModel,
    config: ConfigModel,
    now: nat,
    key: Key,
)
    requires
        config.algorithm.wf(),
        m.buckets.contains_key(key),
    ensures
        ({
            let after = m.reconfigured(config, now);
            let b = m.buckets[key];
            &&& after.config == config
            &&& after.started_at == m.started_at
            &&& after.routes == m.routes
            &&& after.order == m.order
            &&& after.global_blocked_until == m.global_blocked_until
            &&& after.buckets.dom() == m.buckets.dom()
            &&& after.buckets.contains_key(key)
            &&& b.blocked_until matches Some(until) ==> after.buckets[key].blocked_until == if now
                < until {
                Some(until)
            } else {
                None
            }
            &&& b.blocked_until is None ==> after.buckets[key].blocked_until is None
            &&& match (b.algo, m.config.algorithm, config.algorithm) {
                (
                    AlgoModel::FixedWindow(w),
                    AlgorithmConfig::FixedWindow { window: old_window, .. },
                    AlgorithmConfig::FixedWindow { window: new_window, .. },
                ) => {
                    &&& nanos(old_window) == nanos(new_window) || w.reserved > 0
                        ==> after.buckets[key].algo == b.algo
                    &&& nanos(old_window) != nanos(new_window) && w.reserved == 0 ==> {
                        &&& after.buckets[key].algo matches AlgoModel::FixedWindow(a)
                        &&& a.spent == 0
                        &&& a.reserved == 0
                        &&& a.window_start % nanos(new_window) == 0
                        &&& a.window_start <= now < a.window_start + nanos(new_window)
                    }
                },
                (
                    AlgoModel::TokenBucket(s),
                    AlgorithmConfig::TokenBucket { capacity: old_capacity, refill_per_sec },
                    AlgorithmConfig::TokenBucket { capacity: new_capacity, .. },
                ) => {
                    let c = s.refilled(old_capacity as nat, refill_per_sec as nat, now);
                    &&& after.buckets[key].algo matches AlgoModel::TokenBucket(a)
                    &&& a.in_flight == s.in_flight
                    &&& a.last_update == c.last_update
                    &&& new_capacity >= old_capacity >= c.credits ==> new_capacity - a.credits
                        == old_capacity - c.credits
                    &&& new_capacity >= old_capacity && c.credits > old_capacity ==> a.credits
                        == new_capacity
                    &&& c.credits <= new_capacity < old_capacity ==> a.credits == c.credits
                    &&& new_capacity < old_capacity && new_capacity < c.credits ==> a.credits
                        == new_capacity
                },
                _ => after.buckets[key].algo == BucketModel::fresh(now, config.algorithm).algo,
            }
        }),
{
    assert(m.reconfigured(config, now).buckets.dom() =~= m.buckets.dom());
    law_update_keeps_the_accounts(m.buckets[key], m.config.algorithm, config.algorithm, now);
    law_finalizing_never_shortens_a_block(
        m.buckets[key],
        arbitrary(),
        Outcome::Confirmed,
        now,
        m.config.algorithm,
        config.algorithm,
    );
}

/// An update tells of a conflict exactly where a permit is outstanding, and the kind of algorithm,
/// or the length of the window, changes.
pub proof fn law_update_conflict_needs_a_permit(m: LimiterModel, config: ConfigModel)
    ensures
        ({
            let outstanding = exists|key: Key| #[trigger]
                m.buckets.contains_key(key) && match m.buckets[key].algo {
                    AlgoModel::FixedWindow(w) => w.reserved > 0,
                    AlgoModel::TokenBucket(s) => s.in_flight > 0,
                };
            &&& !outstanding ==> m.update_conflict(config) is None
            &&& outstanding ==> match (m.config.algorithm, config.algorithm) {
                (
                    AlgorithmConfig::FixedWindow { window, .. },
                    AlgorithmConfig::FixedWindow { window: new_window, .. },
                ) => {
                    &&& nanos(window) == nanos(new_window) ==> m.update_conflict(config) is None
                    &&& nanos(window) != nanos(new_window) ==> m.update_conflict(config) == Some(
                        UpdateConfigErrorKind::WindowChanged,
                    )
                },
                (
                    AlgorithmConfig::TokenBucket { .. },
                    AlgorithmConfig::TokenBucket { .. },
                ) => m.update_conflict(config) is None,
                _ => m.update_conflict(config) == Some(UpdateConfigErrorKind::AlgorithmChanged),
            }
        }),
{
    if m.has_outstanding() {
        let key = choose|key: Key| #[trigger]
            m.buckets.contains_key(key) && m.buckets[key].has_outstanding();
        assert(m.buckets.contains_key(key) && m.buckets[key].has_outstanding());
    }
}

/// A limiter starts with nothing tracked, remapped or blocked, and its ramp counts from the start
/// that it was given.
pub proof fn law_limiter_starts_empty(config: ConfigModel, started_at: nat, key: Key)
    ensures
        ({
            let m = LimiterModel::fresh(config, started_at);
            &&& m.config == config
            &&& m.started_at == started_at
            &&& !m.buckets.contains_key(key)
            &&& !m.routes.contains_key(key)
            &&& m.order.len() == 0
            &&& m.global_blocked_until is None
            &&& m.bucket_key(key) == key
        }),
{
}

/// A route stands for the key that it was remapped to last, and for itself where it was not.
pub proof fn law_route_stands_for_its_remap(m: LimiterModel, route_key: Key)
    ensures
        m.routes.contains_key(route_key) ==> m.bucket_key(route_key) == m.routes[route_key],
        !m.routes.contains_key(route_key) ==> m.bucket_key(route_key) == route_key,
{
}

/// What no call but an update changes, and what none does: the configuration, and the start that
/// the ramp counts from. Finalizing a permit keeps the keys in their order, and the remaps.
pub proof fn law_calls_keep_the_configuration(
    m: LimiterModel,
    route_key: Key,
    cost: nat,
    feedback: Feedback,
    permit: PermitModel,
    outcome: Outcome,
    now: nat,
)
    ensures
        m.after_acquire(route_key, cost, now).config == m.config,
        m.after_acquire(route_key, cost, now).started_at == m.started_at,
        m.after_acquire(route_key, cost, now).routes == m.routes,
        m.after_feedback(route_key, feedback, now).config == m.config,
        m.after_feedback(route_key, feedback, now).started_at == m.started_at,
        m.refunded(permit, now).config == m.config,
        m.refunded(permit, now).started_at == m.started_at,
        m.refunded(permit, now).order == m.order,
        m.refunded(permit, now).routes == m.routes,
        m.committed(permit, outcome, now).config == m.config,
        m.committed(permit, outcome, now).started_at == m.started_at,
        m.committed(permit, outcome, now).order == m.order,
        m.committed(permit, outcome, now).routes == m.routes,
{
}

/// A key that is tracked keeps its place among the keys, and one that there is room for comes last;
/// nothing is dropped for either.
pub proof fn law_new_key_comes_last(
    m: LimiterModel,
    route_key: Key,
    cost: nat,
    now: nat,
    other: Key,
)
    requires
        is_free(m, m.bucket_key(route_key), now),
        m.ramp_denial(cost, now) is None,
        m.buckets.contains_key(m.bucket_key(route_key)) || (m.config.max_keys matches Some(max_keys)
            ==> m.buckets.len() < max_keys),
    ensures
        ({
            let key = m.bucket_key(route_key);
            let after = m.after_acquire(route_key, cost, now);
            &&& after.buckets.contains_key(key)
            &&& m.buckets.contains_key(key) ==> after.order == m.order
            &&& !m.buckets.contains_key(key) ==> after.order == m.order.push(key)
            &&& other != key ==> (after.buckets.contains_key(other) <==> m.buckets.contains_key(
                other,
            ))
            &&& other != key && m.buckets.contains_key(other) ==> after.buckets[other]
                == m.buckets[other]
            &&& !(m.decision(route_key, cost, now) matches Decision::Denied { reason, .. } && reason
                == DenyReason::KeyCardinalityBound)
        }),
{
}

/// The key that makes room for a new one is the first, in the order in which they came, without a
/// permit outstanding; it alone is dropped, and the new key comes last and is answered as one whose
/// bucket is unused. Where the policy denies, or every key has a permit outstanding, the new key is
/// denied, and nothing changes.
pub proof fn law_oldest_idle_key_is_dropped(
    m: LimiterModel,
    route_key: Key,
    cost: nat,
    now: nat,
    i: int,
    other: Key,
)
    requires
        m.wf(),
        is_free(m, m.bucket_key(route_key), now),
        m.ramp_denial(cost, now) is None,
        !m.buckets.contains_key(m.bucket_key(route_key)),
        m.config.max_keys matches Some(max_keys) && m.buckets.len() >= max_keys,
        0 <= i <= m.order.len(),
        i < m.order.len() ==> is_idle(m.buckets[m.order[i]]),
        forall|j: int| 0 <= j < i ==> !is_idle(m.buckets[#[trigger] m.order[j]]),
    ensures
        ({
            let key = m.bucket_key(route_key);
            let after = m.after_acquire(route_key, cost, now);
            if i < m.order.len() && m.config.overflow_policy is EvictOldestKey {
                let rest = LimiterModel {
                    config: ConfigModel { max_keys: None, ..m.config },
                    buckets: m.buckets.remove(m.order[i]),
                    order: m.order.remove(i),
                    ..m
                };
                &&& m.decision(route_key, cost, now) == rest.decision(route_key, cost, now)
                &&& after == (LimiterModel {
                    config: m.config,
                    ..rest.after_acquire(route_key, cost, now)
                })
                &&& after.order == m.order.remove(i).push(key)
                &&& !after.buckets.contains_key(m.order[i])
                &&& other != m.order[i] && m.buckets.contains_key(other) ==> after.buckets[other]
                    == m.buckets[other]
            } else {
                &&& m.decision(route_key, cost, now) == (Decision::Denied {
                    retry_after: match m.config.algorithm {
                        AlgorithmConfig::FixedWindow { window, .. } => nanos(window),
                        AlgorithmConfig::TokenBucket { .. } => 1_000_000_000,
                    },
                    reason: DenyReason::KeyCardinalityBound,
                })
                &&& after == m
            }
        }),
{
    let key = m.bucket_key(route_key);
    assert forall|j: int| 0 <= j < m.order.len() implies #[trigger] m.evictable(m.order[j])
        == is_idle(m.buckets[m.order[j]]) by {
        assert(m.order.contains(m.order[j]));
        assert(m.buckets.contains_key(m.order[j]));
    }
    if i < m.order.len() {
        assert(m.oldest_evictable(i)) by {
            assert(m.evictable(m.order[i]));
            assert forall|j: int| 0 <= j < i implies !m.evictable(#[trigger] m.order[j]) by {
                assert(!is_idle(m.buckets[m.order[j]]));
            }
        }
        let k = choose|k: int| m.oldest_evictable(k);
        assert(m.oldest_evictable(k));
        if i < k {
            assert(!m.evictable(m.order[i]));
        } else if k < i {
            assert(!m.evictable(m.order[k]));
        }
        assert(k == i);
        assert(m.order.contains(m.order[i]));
        assert(m.buckets.contains_key(m.order[i]));
        if m.config.overflow_policy is EvictOldestKey {
            let rest = LimiterModel {
                config: ConfigModel { max_keys: None, ..m.config },
                buckets: m.buckets.remove(m.order[i]),
                order: m.order.remove(i),
                ..m
            };
            assert(m.admitted(key, now) == Some(m.without(i).tracking(key, now)));
            let a = m.admitted(key, now)->0;
            let b = rest.admitted(key, now)->0;
            assert(a.buckets == b.buckets);
            assert(rest.in_force(now) == m.in_force(now));
            assert(rest.bucket_key(route_key) == key);
            assert(rest.ramp_denial(cost, now) == m.ramp_denial(cost, now));
        }
    } else {
        assert forall|k: int| !m.oldest_evictable(k) by {
            if 0 <= k < m.order.len() {
                assert(!is_idle(m.buckets[m.order[k]]));
            }
        }
    }
}

/// No permit of the bucket is outstanding.
pub open spec fn is_idle(b: BucketModel) -> bool {
    match b.algo {
        AlgoModel::FixedWindow(w) => w.reserved == 0,
        AlgoModel::TokenBucket(s) => s.in_flight == 0,
    }
}

/// A remap is taken up unless the table of remaps is full, which leaves those in it to be changed.
pub proof fn law_remap_is_refused_only_when_full(
    m: LimiterModel,
    route_key: Key,
    feedback: Feedback,
    now: nat,
)
    ensures
        ({
            let after = m.after_feedback(route_key, feedback, now);
            let full = m.config.max_keys matches Some(max_keys) && m.routes.len() >= max_keys
                && !m.routes.contains_key(route_key);
            &&& feedback.bucket_remap is None || full ==> after.routes == m.routes
            &&& feedback.bucket_remap matches Some(target) ==> (!full ==> after.routes
                == m.routes.insert(route_key, target))
            &&& m.applied_remap(route_key, feedback) == if full {
                None
            } else {
                feedback.bucket_remap
            }
        }),
{
}

/// Feedback blocks what it is about, until its backoff is over or a longer block is, and nothing
/// else: a global signal every key at once, any other the key that the route stands for after the
/// remap. It changes no accounts, and leaves every other key alone.
pub proof fn law_feedback_blocks_its_scope(
    m: LimiterModel,
    route_key: Key,
    feedback: Feedback,
    now: nat,
    other: Key,
)
    requires
        m.config.algorithm.wf(),
    ensures
        ({
            let after = m.after_feedback(route_key, feedback, now);
            let key = after.bucket_key(route_key);
            let until = instant_after(now, nanos(feedback.spec_backoff()));
            if feedback.scope is Global {
                &&& after.buckets == m.buckets
                &&& after.order == m.order
                &&& after.global_blocked_until matches Some(u)
                &&& u >= until
                &&& m.global_blocked_until matches Some(t) ==> u >= t
                &&& u == until || m.global_blocked_until == Some(u)
            } else {
                &&& after.global_blocked_until == m.global_blocked_until
                &&& m.buckets.contains_key(key) ==> {
                    let old = m.buckets[key].blocked_until;
                    &&& after.order == m.order
                    &&& after.buckets.dom() == m.buckets.dom()
                    &&& after.buckets[key].algo == m.buckets[key].algo
                    &&& after.buckets[key].blocked_until matches Some(u)
                    &&& u >= until
                    &&& old matches Some(t) ==> u >= t
                    &&& u == until || old == Some(u)
                }
                &&& !m.buckets.contains_key(key) && (m.config.max_keys matches Some(max_keys)
                    ==> m.buckets.len() < max_keys) ==> {
                    &&& after.order == m.order.push(key)
                    &&& after.buckets == m.buckets.insert(
                        key,
                        BucketModel {
                            blocked_until: Some(until),
                            ..BucketModel::fresh(now, m.config.algorithm)
                        },
                    )
                }
                &&& other != key && m.buckets.contains_key(other) && after.buckets.contains_key(
                    other,
                ) ==> after.buckets[other] == m.buckets[other]
                &&& other != key && !m.buckets.contains_key(other) ==> !after.buckets.contains_key(
                    other,
                )
            }
        }),
{
    let r = m.remapped(route_key, feedback);
    let key = r.bucket_key(route_key);
    let after = m.after_feedback(route_key, feedback, now);
    assert(after.bucket_key(route_key) == key);
    if !(feedback.scope is Global) && m.buckets.contains_key(key) {
        assert(after.buckets.dom() =~= m.buckets.dom());
    }
    if !(feedback.scope is Global) && r.admitted(key, now) is Some {
        let until = instant_after(now, nanos(feedback.spec_backoff()));
        if !m.buckets.contains_key(key) && r.fits(key) {
            assert(after.buckets =~= m.buckets.insert(
                key,
                BucketModel {
                    blocked_until: Some(until),
                    ..BucketModel::fresh(now, m.config.algorithm)
                },
            ));
        }
    }
}

/// Feedback for a key that is not tracked finds room as a request does: at the bound, the first key
/// without a permit outstanding is dropped for it where the policy allows that, and where none may
/// go the signal is lost and the keys stay as they are. Any other signal is not lost.
pub proof fn law_feedback_is_lost_without_room(
    m: LimiterModel,
    route_key: Key,
    feedback: Feedback,
    now: nat,
    i: int,
)
    requires
        m.wf(),
        0 <= i <= m.order.len(),
        i < m.order.len() ==> is_idle(m.buckets[m.order[i]]),
        forall|j: int| 0 <= j < i ==> !is_idle(m.buckets[#[trigger] m.order[j]]),
    ensures
        ({
            let after = m.after_feedback(route_key, feedback, now);
            let key = after.bucket_key(route_key);
            let full = m.config.max_keys matches Some(max_keys) && m.buckets.len() >= max_keys;
            let until = instant_after(now, nanos(feedback.spec_backoff()));
            if feedback.scope is Global || m.buckets.contains_key(key) || !full {
                !m.feedback_lost(route_key, feedback, now)
            } else if i < m.order.len() && m.config.overflow_policy is EvictOldestKey {
                &&& !m.feedback_lost(route_key, feedback, now)
                &&& after.order == m.order.remove(i).push(key)
                &&& after.buckets == m.buckets.remove(m.order[i]).insert(
                    key,
                    BucketModel {
                        blocked_until: Some(until),
                        ..BucketModel::fresh(now, m.config.algorithm)
                    },
                )
            } else {
                &&& m.feedback_lost(route_key, feedback, now)
                &&& after.buckets == m.buckets
                &&& after.order == m.order
            }
        }),
{
    let r = m.remapped(route_key, feedback);
    let key = r.bucket_key(route_key);
    let after = m.after_feedback(route_key, feedback, now);
    assert(after.bucket_key(route_key) == key);
    assert forall|j: int| 0 <= j < r.order.len() implies #[trigger] r.evictable(r.order[j])
        == is_idle(m.buckets[m.order[j]]) by {
        assert(m.order.contains(m.order[j]));
        assert(m.buckets.contains_key(m.order[j]));
    }
    if i < m.order.len() {
        assert(r.oldest_evictable(i)) by {
            assert(r.evictable(r.order[i]));
            assert forall|j: int| 0 <= j < i implies !r.evictable(#[trigger] r.order[j]) by {
                assert(!is_idle(m.buckets[m.order[j]]));
            }
        }
        let k = choose|k: int| r.oldest_evictable(k);
        assert(r.oldest_evictable(k));
        if i < k {
            assert(!r.evictable(r.order[i]));
        } else if k < i {
            assert(!r.evictable(r.order[k]));
        }
        assert(k == i);
        if !(feedback.scope is Global) && !r.fits(key)
            && m.config.overflow_policy is EvictOldestKey {
            let until = instant_after(now, nanos(feedback.spec_backoff()));
            assert(after.buckets =~= m.buckets.remove(m.order[i]).insert(
                key,
                BucketModel {
                    blocked_until: Some(until),
                    ..BucketModel::fresh(now, m.config.algorithm)
                },
            ));
        }
    } else {
        assert forall|k: int| !r.oldest_evictable(k) by {
            if 0 <= k < r.order.len() {
                assert(!is_idle(m.buckets[m.order[k]]));
            }
        }
    }
}

/// The observer hears of every feedback signal as it was applied: with the key that the route
/// stands for after the remap, the backoff, the scope, and the remap where it was taken up. Where
/// the signal was lost it hears of that before, as of a denial for want of room.
pub proof fn law_feedback_is_reported(
    before: RateLimiter,
    after: RateLimiter,
    route_key: Key,
    feedback: Feedback,
    now: Duration,
)
    requires
        feedback_noticed(before, after, route_key, feedback, now),
    ensures
        ({
            let told = after.notices();
            let n = before.notices().len() as int;
            let lost = before@.feedback_lost(route_key, feedback, nanos(now));
            let key = before@.after_feedback(route_key, feedback, nanos(now)).bucket_key(route_key);
            &&& told.len() == if lost {
                n + 2
            } else {
                n + 1
            }
            &&& told.take(n) == before.notices()
            &&& told.last() matches Notice::Feedback(ev)
            &&& before.told(told.last())
            &&& ev.route_key == route_key
            &&& ev.bucket_key == key
            &&& ev.now == now
            &&& ev.retry_after == feedback.spec_backoff()
            &&& ev.scope == feedback.scope
            &&& ev.bucket_remap == before@.applied_remap(route_key, feedback)
            &&& lost ==> {
                &&& told[n] matches Notice::Deny(deny)
                &&& before.told(told[n])
                &&& deny.route_key == route_key
                &&& deny.bucket_key == key
                &&& deny.now == now
                &&& deny.cost@ == 1
                &&& deny.reason == DenyReason::KeyCardinalityBound
                &&& nanos(deny.deny.retry_after) == match before@.config.algorithm {
                    AlgorithmConfig::FixedWindow { window, .. } => nanos(window),
                    AlgorithmConfig::TokenBucket { .. } => 1_000_000_000,
                }
            }
        }),
{
    let n = before.notices().len() as int;
    assert(after.notices().take(n) =~= before.notices());
    let r = before@.remapped(route_key, feedback);
    assert(before@.after_feedback(route_key, feedback, nanos(now)).bucket_key(route_key)
        == r.bucket_key(route_key));
}

/// A permit is finalized by the bucket of its key, under the configured limits and not the ramped
/// ones, whatever state the bucket is in; the buckets of all other keys stay as they are.
pub proof fn law_permit_is_finalized_by_its_bucket(
    m: LimiterModel,
    permit: PermitModel,
    outcome: Outcome,
    now: nat,
    other: Key,
)
    requires
        m.buckets.contains_key(permit.key),
    ensures
        m.refunded(permit, now).buckets.dom() == m.buckets.dom(),
        m.committed(permit, outcome, now).buckets.dom() == m.buckets.dom(),
        other != permit.key ==> m.refunded(permit, now).buckets[other] == m.buckets[other],
        other != permit.key ==> m.committed(permit, outcome, now).buckets[other]
            == m.buckets[other],
        m.refunded(permit, now).buckets[permit.key] == m.buckets[permit.key].refunded(
            permit,
            now,
            m.config.algorithm,
        ),
        m.committed(permit, outcome, now).buckets[permit.key] == m.buckets[permit.key].committed(
            permit,
            outcome,
            now,
            m.config.algorithm,
        ),
{
    assert(m.refunded(permit, now).buckets.dom() =~= m.buckets.dom());
    assert(m.committed(permit, outcome, now).buckets.dom() =~= m.buckets.dom());
}

/// A key that keeps the accounts of another kind of algorithm than the configured one is denied for
/// a second, and keeps them.
pub proof fn law_unsuited_key_is_denied(m: LimiterModel, route_key: Key, cost: nat, now: nat)
    requires
        is_free(m, m.bucket_key(route_key), now),
        m.ramp_denial(cost, now) is None,
        m.buckets.contains_key(m.bucket_key(route_key)),
        m.buckets[m.bucket_key(route_key)].algo is FixedWindow
            != m.config.algorithm is FixedWindow,
    ensures
        m.decision(route_key, cost, now) == (Decision::Denied {
            retry_after: 1_000_000_000,
            reason: DenyReason::Disabled,
        }),
        m.after_acquire(route_key, cost, now).buckets[m.bucket_key(route_key)].algo
            == m.buckets[m.bucket_key(route_key)].algo,
{
    assert(m.admitted(m.bucket_key(route_key), now) == Some(m));
}

} // verus!
