//! The throughput that a limiter enforces, over runs of calls in any order and at any instants.

use crate::bucket::{AlgoModel, BucketModel};
use crate::config::{AlgorithmConfig, ConfigModel};
use crate::feedback::Feedback;
use crate::limiter::{Decision, LimiterModel};
use crate::limiter_laws::{
    law_acquire_accounts_for_permits, law_feedback_keeps_permits,
    law_finalizing_settles_one_permit, law_in_force_is_no_larger, law_limits_are_kept,
    law_windows_hold_the_last_instant, lemma_total_covers, lemma_total_of_none, lemma_total_push,
    lemma_total_remove, total_cost, window_holds,
};
use crate::time::{instant_after, nanos, MAX_NANOS, NANOS_PER_SEC};
use crate::token_bucket::{inflow, lemma_inflow_splits, TokenBucketModel};
use crate::types::{Key, Outcome, PermitModel};
use vstd::prelude::*;

verus! {

/// A call on a limiter. A permit is named by its place among the outstanding ones.
pub enum LimiterCall {
    /// `try_acquire`.
    Acquire {
        /// The route.
        route_key: Key,
        /// The cost.
        cost: nat,
        /// The instant.
        now: nat,
    },
    /// `refund`.
    Refund {
        /// The permit.
        i: int,
        /// The instant.
        now: nat,
    },
    /// `commit`.
    Commit {
        /// The permit.
        i: int,
        /// The outcome.
        outcome: Outcome,
        /// The instant.
        now: nat,
    },
    /// `apply_feedback`.
    Feedback {
        /// The route.
        route_key: Key,
        /// The signal.
        feedback: Feedback,
        /// The instant.
        now: nat,
    },
}

/// A limiter with the permits that it granted and that were not given back: those that are still
/// to be finalized, and those that were finalized as sent.
pub struct LimiterRun {
    /// The limiter.
    pub limiter: LimiterModel,
    /// The permits that are still to be finalized.
    pub outstanding: Seq<PermitModel>,
    /// The permits that were finalized as sent.
    pub sent: Seq<PermitModel>,
}

impl LimiterRun {
    /// A limiter as it starts.
    pub open spec fn fresh(config: ConfigModel, started_at: nat) -> Self {
        LimiterRun {
            limiter: LimiterModel::fresh(config, started_at),
            outstanding: Seq::empty(),
            sent: Seq::empty(),
        }
    }

    /// The run after one more call. A permit that is not there cannot be finalized.
    pub open spec fn after(self, call: LimiterCall) -> Self {
        match call {
            LimiterCall::Acquire { route_key, cost, now } => LimiterRun {
                limiter: self.limiter.after_acquire(route_key, cost, now),
                outstanding: match self.limiter.decision(route_key, cost, now) {
                    Decision::Granted(permit) => self.outstanding.push(permit),
                    Decision::Denied { .. } => self.outstanding,
                },
                ..self
            },
            LimiterCall::Refund { i, now } => if 0 <= i < self.outstanding.len() {
                LimiterRun {
                    limiter: self.limiter.refunded(self.outstanding[i], now),
                    outstanding: self.outstanding.remove(i),
                    ..self
                }
            } else {
                self
            },
            LimiterCall::Commit { i, outcome, now } => if 0 <= i < self.outstanding.len() {
                LimiterRun {
                    limiter: self.limiter.committed(self.outstanding[i], outcome, now),
                    outstanding: self.outstanding.remove(i),
                    sent: if outcome is NotSent {
                        self.sent
                    } else {
                        self.sent.push(self.outstanding[i])
                    },
                }
            } else {
                self
            },
            LimiterCall::Feedback { route_key, feedback, now } => LimiterRun {
                limiter: self.limiter.after_feedback(route_key, feedback, now),
                ..self
            },
        }
    }

    /// The run after the first `n` of a sequence of calls.
    pub open spec fn after_calls(self, calls: Seq<LimiterCall>, n: nat) -> Self
        decreases n,
    {
        if n == 0 {
            self
        } else {
            self.after_calls(calls, (n - 1) as nat).after(calls[n - 1])
        }
    }
}

/// The limiter never drops a key to make room for another.
pub open spec fn keeps_keys(config: ConfigModel) -> bool {
    config.max_keys is None || config.overflow_policy is DenyNewKey
}

/// What the permits of `key` among `permits` cost together that belong to the window from `start`.
pub open spec fn window_total(permits: Seq<PermitModel>, key: Key, start: nat) -> nat
    decreases permits.len(),
{
    if permits.len() == 0 {
        0
    } else {
        let rest = window_total(permits.drop_last(), key, start);
        if permits.last().key == key && permits.last().window_start == Some(start) {
            rest + permits.last().cost
        } else {
            rest
        }
    }
}

/// In a run of calls in the order of time, on any limiter, every fixed window starts at a multiple
/// of its length, and not later than the last instant.
pub proof fn law_windows_hold_over_runs(
    config: ConfigModel,
    started_at: nat,
    calls: Seq<LimiterCall>,
    n: nat,
)
    requires
        config.algorithm.wf(),
        forall|i: int, j: int|
            0 <= i < j < calls.len() ==> (#[trigger] calls[i]).at() <= (#[trigger] calls[j]).at(),
        n <= calls.len(),
    ensures
        LimiterRun::fresh(config, started_at).after_calls(calls, n).limiter.windows_hold(
            if n == 0 {
                0
            } else {
                calls[n - 1].at()
            },
        ),
        LimiterRun::fresh(config, started_at).after_calls(calls, n).limiter.config == config,
    decreases n,
{
    if n > 0 {
        law_windows_hold_over_runs(config, started_at, calls, (n - 1) as nat);
        let r = LimiterRun::fresh(config, started_at).after_calls(calls, (n - 1) as nat);
        let call = calls[n - 1];
        let last = if n == 1 {
            0
        } else {
            calls[n - 2].at()
        };
        let (route_key, cost, feedback) = match call {
            LimiterCall::Acquire { route_key, cost, .. } => (route_key, cost, arbitrary()),
            LimiterCall::Feedback { route_key, feedback, .. } => (route_key, 0, feedback),
            _ => (arbitrary(), 0, arbitrary()),
        };
        let (permit, outcome) = match call {
            LimiterCall::Refund { i, .. } => (r.outstanding[i], arbitrary()),
            LimiterCall::Commit { i, outcome, .. } => (r.outstanding[i], outcome),
            _ => (arbitrary(), arbitrary()),
        };
        law_windows_hold_the_last_instant(
            r.limiter,
            last,
            call.at(),
            route_key,
            cost,
            feedback,
            permit,
            outcome,
            config,
            started_at,
        );
        assert(r.after(call).limiter.windows_hold(call.at())) by {
            // A call that finalizes no permit leaves the limiter as it is.
            if let AlgorithmConfig::FixedWindow { window, .. } = config.algorithm {
                assert forall|k: Key| #[trigger] r.limiter.buckets.contains_key(
                    k,
                ) implies window_holds(r.limiter.buckets[k], nanos(window), call.at()) by {
                    assert(window_holds(r.limiter.buckets[k], nanos(window), last));
                }
            }
        }
    }
}

/// What the permits of `key` among `permits` cost together that have the deadline `end`, where that
/// is the end of their window and not the longest duration in its place.
pub open spec fn deadline_total(
    permits: Seq<PermitModel>,
    key: Key,
    end: nat,
    window: nat,
) -> nat
    decreases permits.len(),
{
    if permits.len() == 0 {
        0
    } else {
        let rest = deadline_total(permits.drop_last(), key, end, window);
        let last = permits.last();
        if last.key == key && last.deadline == end && (last.window_start matches Some(start)
            && start + window <= MAX_NANOS) {
            rest + last.cost
        } else {
            rest
        }
    }
}

proof fn lemma_window_total_push(
    permits: Seq<PermitModel>,
    permit: PermitModel,
    key: Key,
    start: nat,
)
    ensures
        window_total(permits.push(permit), key, start) == window_total(permits, key, start) + (
        if permit.key == key && permit.window_start == Some(start) {
            permit.cost
        } else {
            0
        }),
{
    assert(permits.push(permit).drop_last() =~= permits);
}

/// Where every permit of `key` belongs to the window from `start`, that window has their total.
proof fn lemma_window_total_is_total(permits: Seq<PermitModel>, key: Key, start: nat)
    requires
        forall|i: int|
            0 <= i < permits.len() && (#[trigger] permits[i]).key == key ==> permits[i].window_start
                == Some(start),
    ensures
        window_total(permits, key, start) == total_cost(permits, key),
    decreases permits.len(),
{
    if permits.len() > 0 {
        assert(permits.last() == permits[permits.len() - 1]);
        let rest = permits.drop_last();
        assert forall|i: int| 0 <= i < rest.len() && (
        #[trigger] rest[i]).key == key implies rest[i].window_start == Some(start) by {
            assert(rest[i] == permits[i]);
        }
        lemma_window_total_is_total(rest, key, start);
    }
}

/// A window of which there is no permit has a total of nothing.
proof fn lemma_window_total_of_none(permits: Seq<PermitModel>, key: Key, start: nat)
    requires
        forall|i: int|
            0 <= i < permits.len() && (#[trigger] permits[i]).key == key ==> permits[i].window_start
                != Some(start),
    ensures
        window_total(permits, key, start) == 0,
    decreases permits.len(),
{
    if permits.len() > 0 {
        assert(permits.last() == permits[permits.len() - 1]);
        let rest = permits.drop_last();
        assert forall|i: int| 0 <= i < rest.len() && (
        #[trigger] rest[i]).key == key implies rest[i].window_start != Some(start) by {
            assert(rest[i] == permits[i]);
        }
        lemma_window_total_of_none(rest, key, start);
    }
}

/// Permits with one deadline, where that is the end of their window, belong to one window.
proof fn lemma_deadline_total_is_window_total(
    permits: Seq<PermitModel>,
    key: Key,
    end: nat,
    window: nat,
)
    requires
        forall|i: int|
            0 <= i < permits.len() ==> ((#[trigger] permits[i]).window_start matches Some(start)
                && permits[i].deadline == instant_after(start, window)),
    ensures
        end < window ==> deadline_total(permits, key, end, window) == 0,
        end >= window ==> deadline_total(permits, key, end, window) <= window_total(
            permits,
            key,
            (end - window) as nat,
        ),
    decreases permits.len(),
{
    if permits.len() > 0 {
        assert(permits.last() == permits[permits.len() - 1]);
        let rest = permits.drop_last();
        assert forall|i: int| 0 <= i < rest.len() implies ((
        #[trigger] rest[i]).window_start matches Some(start) && rest[i].deadline == instant_after(
            start,
            window,
        )) by {
            assert(rest[i] == permits[i]);
        }
        lemma_deadline_total_is_window_total(rest, key, end, window);
    }
}

/// Each permit belongs to a window and has its end for a deadline.
pub open spec fn dated(permits: Seq<PermitModel>, window: nat) -> bool {
    forall|i: int|
        0 <= i < permits.len() ==> ((#[trigger] permits[i]).window_start matches Some(start)
            && permits[i].deadline == instant_after(start, window))
}

/// The window of a bucket has spent what the permits of `key` that were sent in it cost together,
/// and every other permit that was sent is of an earlier window.
pub open spec fn tallied(b: BucketModel, key: Key, sent: Seq<PermitModel>) -> bool {
    &&& b.algo matches AlgoModel::FixedWindow(w)
    &&& window_total(sent, key, w.window_start) == w.spent
    &&& forall|i: int|
        0 <= i < sent.len() && (#[trigger] sent[i]).key == key ==> (
        sent[i].window_start matches Some(start) && start <= w.window_start)
}

impl LimiterRun {
    /// The limiter has fixed windows of this length and maximum and drops no key, and its
    /// buckets tally with the permits that it granted and that were not given back.
    pub open spec fn tallies(self, max: nat, window: nat) -> bool {
        &&& self.limiter.wf()
        &&& self.limiter.config.algorithm matches AlgorithmConfig::FixedWindow {
            max_per_window,
            window: length,
        }
        &&& max_per_window == max
        &&& nanos(length) == window
        &&& keeps_keys(self.limiter.config)
        &&& self.limiter.suited()
        &&& self.limiter.within()
        &&& self.limiter.accounts(self.outstanding)
        &&& forall|key: Key| #[trigger]
            self.limiter.buckets.contains_key(key) ==> tallied(
                self.limiter.buckets[key],
                key,
                self.sent,
            )
        &&& forall|i: int|
            0 <= i < self.sent.len() ==> self.limiter.buckets.contains_key(
                (#[trigger] self.sent[i]).key,
            )
        &&& dated(self.outstanding, window)
        &&& dated(self.sent, window)
        &&& forall|key: Key, start: nat| #[trigger] window_total(self.sent, key, start) <= max
    }
}

/// A bucket tallies on when its window moves on, whatever is reserved in it.
proof fn lemma_tallied_moves_on(
    b: BucketModel,
    after: BucketModel,
    key: Key,
    sent: Seq<PermitModel>,
    window: nat,
    now: nat,
)
    requires
        window > 0,
        tallied(b, key, sent),
        after.algo matches AlgoModel::FixedWindow(w) && w.window_start
            == b.algo->FixedWindow_0.current(window, now).window_start && w.spent
            == b.algo->FixedWindow_0.current(window, now).spent,
    ensures
        tallied(after, key, sent),
{
    let w = b.algo->FixedWindow_0;
    let current = w.current(window, now);
    if current != w {
        vstd::arithmetic::div_mod::lemma_mod_bound(now as int, window as int);
        assert(current.window_start > w.window_start);
        lemma_window_total_of_none(sent, key, current.window_start);
    }
}

/// A bucket of a key of which no permit was sent tallies as it starts.
proof fn lemma_fresh_tallies(r: LimiterRun, max: nat, window: nat, key: Key, now: nat)
    requires
        r.tallies(max, window),
    ensures
        ({
            let t = r.limiter.tracking(key, now);
            &&& r.limiter.admitted(key, now) is None || r.limiter.admitted(key, now) == Some(t)
            &&& t.buckets.contains_key(key)
            &&& tallied(t.buckets[key], key, r.sent)
        }),
{
    let t = r.limiter.tracking(key, now);
    if !r.limiter.buckets.contains_key(key) {
        let start = t.buckets[key].algo->FixedWindow_0.window_start;
        lemma_window_total_of_none(r.sent, key, start);
    }
}

/// An attempt to acquire keeps the tally.
proof fn lemma_acquire_tallies(
    r: LimiterRun,
    max: nat,
    window: nat,
    route_key: Key,
    cost: nat,
    now: nat,
)
    requires
        r.tallies(max, window),
        cost > 0,
    ensures
        r.after(LimiterCall::Acquire { route_key, cost, now }).tallies(max, window),
{
    let m = r.limiter;
    let key = m.bucket_key(route_key);
    let after = r.after(LimiterCall::Acquire { route_key, cost, now });
    law_acquire_accounts_for_permits(m, r.outstanding, route_key, cost, now);
    law_limits_are_kept(m, r.outstanding, route_key, cost, arbitrary(), 0, arbitrary(), now);
    if !m.globally_blocked(now) && !m.key_blocked(key, now) && m.ramp_denial(cost, now) is None
        && m.admitted(key, now) is Some {
        lemma_fresh_tallies(r, max, window, key, now);
        law_in_force_is_no_larger(m, now);
        let t = m.tracking(key, now);
        let b = t.buckets[key];
        let b2 = b.after_reserve(m.in_force(now), cost, now);
        crate::limiter::lemma_tracking_wf(m, key, now, b2);
        assert(after.limiter == t.with_bucket(key, b2));
        lemma_tallied_moves_on(b, b2, key, r.sent, window, now);
        assert forall|k: Key| #[trigger] after.limiter.buckets.contains_key(k) implies tallied(
            after.limiter.buckets[k],
            k,
            after.sent,
        ) by {
            if k != key {
                assert(m.buckets.contains_key(k));
            }
        }
    }
}

/// Feedback keeps the tally.
proof fn lemma_feedback_tallies(
    r: LimiterRun,
    max: nat,
    window: nat,
    route_key: Key,
    feedback: Feedback,
    now: nat,
)
    requires
        r.tallies(max, window),
    ensures
        r.after(LimiterCall::Feedback { route_key, feedback, now }).tallies(max, window),
{
    let m = r.limiter.remapped(route_key, feedback);
    let key = m.bucket_key(route_key);
    let remapped = LimiterRun { limiter: m, ..r };
    let after = r.after(LimiterCall::Feedback { route_key, feedback, now });
    law_feedback_keeps_permits(r.limiter, r.outstanding, route_key, feedback, now);
    law_limits_are_kept(
        r.limiter,
        r.outstanding,
        route_key,
        1,
        feedback,
        0,
        arbitrary(),
        now,
    );
    assert(m.wf());
    assert(remapped.tallies(max, window));
    lemma_fresh_tallies(remapped, max, window, key, now);
    let t = m.tracking(key, now);
    let until = instant_after(now, nanos(feedback.spec_backoff()));
    crate::limiter::lemma_tracking_wf(m, key, now, t.buckets[key].blocked_to(until));
    assert forall|k: Key| #[trigger] after.limiter.buckets.contains_key(k) implies tallied(
        after.limiter.buckets[k],
        k,
        after.sent,
    ) by {
        if k != key || feedback.scope is Global {
            assert(m.buckets.contains_key(k));
        }
    }
}

/// The finalization of an outstanding permit keeps the tally.
proof fn lemma_finalization_tallies(
    r: LimiterRun,
    after: LimiterRun,
    max: nat,
    window: nat,
    i: int,
    sent: bool,
    now: nat,
)
    requires
        r.tallies(max, window),
        0 <= i < r.outstanding.len(),
        after.outstanding == r.outstanding.remove(i),
        after.sent == (if sent {
            r.sent.push(r.outstanding[i])
        } else {
            r.sent
        }),
        after.limiter.wf(),
        after.limiter.config == r.limiter.config,
        after.limiter.suited(),
        after.limiter.within(),
        after.limiter.accounts(after.outstanding),
        after.limiter.buckets.dom() =~= r.limiter.buckets.dom(),
        forall|k: Key| #[trigger]
            r.limiter.buckets.contains_key(k) && k != r.outstanding[i].key
                ==> after.limiter.buckets[k] == r.limiter.buckets[k],
        after.limiter.buckets[r.outstanding[i].key].algo
            == r.limiter.buckets[r.outstanding[i].key].settled(
            r.outstanding[i],
            sent,
            now,
            r.limiter.config.algorithm,
        ),
    ensures
        after.tallies(max, window),
{
    let permit = r.outstanding[i];
    let key = permit.key;
    lemma_total_covers(r.outstanding, i);
    assert(r.limiter.buckets.contains_key(key));
    let w = r.limiter.buckets[key].algo->FixedWindow_0;
    let w2 = after.limiter.buckets[key].algo->FixedWindow_0;
    assert(after.limiter.buckets.contains_key(key));
    assert(w2.window_start == w.window_start);
    assert forall|k: Key, start: nat| #[trigger]
        window_total(after.sent, k, start) == window_total(r.sent, k, start) + (if sent && k == key
            && start == w.window_start {
            permit.cost
        } else {
            0
        }) by {
        if sent {
            lemma_window_total_push(r.sent, permit, k, start);
        }
    }
    assert forall|k: Key| #[trigger] after.limiter.buckets.contains_key(k) implies tallied(
        after.limiter.buckets[k],
        k,
        after.sent,
    ) by {
        assert(r.limiter.buckets.contains_key(k));
        assert(tallied(r.limiter.buckets[k], k, r.sent));
        let start = r.limiter.buckets[k].algo->FixedWindow_0.window_start;
        assert forall|j: int|
            0 <= j < after.sent.len() && (#[trigger] after.sent[j]).key == k implies (
        after.sent[j].window_start matches Some(s) && s <= start) by {
            if j < r.sent.len() {
                assert(after.sent[j] == r.sent[j]);
            }
        }
    }
    assert forall|j: int| 0 <= j < after.sent.len() implies after.limiter.buckets.contains_key(
        (#[trigger] after.sent[j]).key,
    ) && (after.sent[j].window_start matches Some(start) && after.sent[j].deadline == instant_after(
        start,
        window,
    )) by {
        if j < r.sent.len() {
            assert(after.sent[j] == r.sent[j]);
            assert(r.limiter.buckets.contains_key(r.sent[j].key));
        }
    }
    assert forall|j: int| 0 <= j < after.outstanding.len() implies ((
    #[trigger] after.outstanding[j]).window_start matches Some(start)
        && after.outstanding[j].deadline == instant_after(start, window)) by {
        let at = if j < i {
            j
        } else {
            j + 1
        };
        assert(after.outstanding[j] == r.outstanding[at]);
    }
    assert forall|k: Key, start: nat| #[trigger] window_total(after.sent, k, start) <= max by {
        assert(window_total(r.sent, k, start) <= max);
        if sent && k == key && start == w.window_start {
            assert(after.limiter.buckets[key].within(after.limiter.config.algorithm));
            assert(tallied(after.limiter.buckets[key], key, after.sent));
        }
    }
}

/// Every call keeps the tally.
proof fn lemma_call_tallies(r: LimiterRun, max: nat, window: nat, call: LimiterCall)
    requires
        r.tallies(max, window),
        call matches LimiterCall::Acquire { cost, .. } ==> cost > 0,
    ensures
        r.after(call).tallies(max, window),
{
    match call {
        LimiterCall::Acquire { route_key, cost, now } => {
            lemma_acquire_tallies(r, max, window, route_key, cost, now);
        },
        LimiterCall::Feedback { route_key, feedback, now } => {
            lemma_feedback_tallies(r, max, window, route_key, feedback, now);
        },
        LimiterCall::Refund { i, now } => {
            if 0 <= i < r.outstanding.len() {
                let permit = r.outstanding[i];
                let outcome = Outcome::NotSent;
                law_finalizing_settles_one_permit(r.limiter, r.outstanding, i, outcome, now);
                law_limits_are_kept(
                    r.limiter,
                    r.outstanding,
                    permit.key,
                    1,
                    arbitrary(),
                    i,
                    outcome,
                    now,
                );
                assert(r.limiter.buckets.contains_key(permit.key));
                crate::limiter::lemma_tracking_wf(
                    r.limiter,
                    permit.key,
                    now,
                    r.after(call).limiter.buckets[permit.key],
                );
                lemma_finalization_tallies(r, r.after(call), max, window, i, false, now);
            }
        },
        LimiterCall::Commit { i, outcome, now } => {
            if 0 <= i < r.outstanding.len() {
                let permit = r.outstanding[i];
                law_finalizing_settles_one_permit(r.limiter, r.outstanding, i, outcome, now);
                law_limits_are_kept(
                    r.limiter,
                    r.outstanding,
                    permit.key,
                    1,
                    arbitrary(),
                    i,
                    outcome,
                    now,
                );
                assert(r.limiter.buckets.contains_key(permit.key));
                crate::limiter::lemma_tracking_wf(
                    r.limiter,
                    permit.key,
                    now,
                    r.after(call).limiter.buckets[permit.key],
                );
                let sent = !(outcome is NotSent);
                lemma_finalization_tallies(r, r.after(call), max, window, i, sent, now);
            }
        },
    }
}

/// Every run from a fresh limiter keeps the tally.
proof fn lemma_run_tallies(
    config: ConfigModel,
    started_at: nat,
    max: nat,
    window: nat,
    calls: Seq<LimiterCall>,
    n: nat,
)
    requires
        config.algorithm.wf(),
        config.algorithm matches AlgorithmConfig::FixedWindow { max_per_window, window: length }
            && max_per_window == max && nanos(length) == window,
        keeps_keys(config),
        forall|i: int|
            0 <= i < calls.len() ==> ((#[trigger] calls[i]) matches LimiterCall::Acquire {
                cost,
                ..
            } ==> cost > 0),
        n <= calls.len(),
    ensures
        LimiterRun::fresh(config, started_at).after_calls(calls, n).tallies(max, window),
    decreases n,
{
    if n > 0 {
        lemma_run_tallies(config, started_at, max, window, calls, (n - 1) as nat);
        assert(calls[n - 1] matches LimiterCall::Acquire { cost, .. } ==> cost > 0);
        lemma_call_tallies(
            LimiterRun::fresh(config, started_at).after_calls(calls, (n - 1) as nat),
            max,
            window,
            calls[n - 1],
        );
    }
}

/// The configured throughput is enforced: in any run of calls on a limiter with fixed windows that
/// drops no key for another, in any order, at any instants, with a ramp or without one, the permits
/// of a key that belong to one window and were not given back, outstanding or sent, cost no more
/// together than the maximum of a window.
pub proof fn law_window_throughput(
    config: ConfigModel,
    started_at: nat,
    calls: Seq<LimiterCall>,
    n: nat,
    key: Key,
    start: nat,
)
    requires
        config.algorithm.wf(),
        config.algorithm is FixedWindow,
        keeps_keys(config),
        forall|i: int|
            0 <= i < calls.len() ==> ((#[trigger] calls[i]) matches LimiterCall::Acquire {
                cost,
                ..
            } ==> cost > 0),
        n <= calls.len(),
    ensures
        ({
            let r = LimiterRun::fresh(config, started_at).after_calls(calls, n);
            window_total(r.outstanding, key, start) + window_total(r.sent, key, start)
                <= config.algorithm->max_per_window
        }),
{
    let max = config.algorithm->max_per_window as nat;
    let window = nanos(config.algorithm->window);
    lemma_run_tallies(config, started_at, max, window, calls, n);
    let r = LimiterRun::fresh(config, started_at).after_calls(calls, n);
    if r.limiter.buckets.contains_key(key) {
        let w = r.limiter.buckets[key].algo->FixedWindow_0;
        assert(tallied(r.limiter.buckets[key], key, r.sent));
        assert(r.limiter.buckets[key].within(r.limiter.config.algorithm));
        if start == w.window_start {
            lemma_window_total_is_total(r.outstanding, key, start);
        } else {
            lemma_window_total_of_none(r.outstanding, key, start);
        }
    } else {
        lemma_window_total_of_none(r.outstanding, key, start);
    }
}

/// The same by the deadline of the permits: those of a key with one deadline, where it is the end
/// of their window, that were not given back cost no more together than the maximum of a window.
pub proof fn law_deadline_throughput(
    config: ConfigModel,
    started_at: nat,
    calls: Seq<LimiterCall>,
    n: nat,
    key: Key,
    end: nat,
)
    requires
        config.algorithm.wf(),
        config.algorithm is FixedWindow,
        keeps_keys(config),
        forall|i: int|
            0 <= i < calls.len() ==> ((#[trigger] calls[i]) matches LimiterCall::Acquire {
                cost,
                ..
            } ==> cost > 0),
        n <= calls.len(),
    ensures
        ({
            let r = LimiterRun::fresh(config, started_at).after_calls(calls, n);
            let window = nanos(config.algorithm->window);
            deadline_total(r.outstanding, key, end, window) + deadline_total(
                r.sent,
                key,
                end,
                window,
            ) <= config.algorithm->max_per_window
        }),
{
    let max = config.algorithm->max_per_window as nat;
    let window = nanos(config.algorithm->window);
    lemma_run_tallies(config, started_at, max, window, calls, n);
    let r = LimiterRun::fresh(config, started_at).after_calls(calls, n);
    lemma_deadline_total_is_window_total(r.outstanding, key, end, window);
    lemma_deadline_total_is_window_total(r.sent, key, end, window);
    if end >= window {
        law_window_throughput(config, started_at, calls, n, key, (end - window) as nat);
    }
}

impl LimiterCall {
    /// The instant of the call.
    pub open spec fn at(self) -> nat {
        match self {
            LimiterCall::Acquire { now, .. } => now,
            LimiterCall::Refund { now, .. } => now,
            LimiterCall::Commit { now, .. } => now,
            LimiterCall::Feedback { now, .. } => now,
        }
    }
}

/// A pool that was brought up to date between `begin` and `end` holds, together with `given`, no
/// more than its capacity and what flowed in since `begin`.
pub open spec fn covered(
    b: BucketModel,
    given: nat,
    capacity: nat,
    refill_per_sec: nat,
    begin: nat,
    end: nat,
) -> bool {
    &&& b.algo matches AlgoModel::TokenBucket(s)
    &&& begin <= s.last_update <= end
    &&& s.credits + given <= capacity + inflow((s.last_update - begin) as nat, refill_per_sec)
}

impl LimiterRun {
    /// What the permits of `key` cost together that were granted and not given back.
    pub open spec fn given(self, key: Key) -> nat {
        total_cost(self.outstanding, key) + total_cost(self.sent, key)
    }

    /// The limiter has pools of this capacity and rate and drops no key, and each pool covers
    /// the permits that it granted and that were not given back.
    pub open spec fn covers(
        self,
        capacity: nat,
        refill_per_sec: nat,
        begin: nat,
        end: nat,
    ) -> bool {
        &&& self.limiter.config.algorithm matches AlgorithmConfig::TokenBucket {
            capacity: cap,
            refill_per_sec: rate,
        }
        &&& cap == capacity
        &&& rate == refill_per_sec
        &&& keeps_keys(self.limiter.config)
        &&& forall|key: Key| #[trigger]
            self.limiter.buckets.contains_key(key) ==> covered(
                self.limiter.buckets[key],
                self.given(key),
                capacity,
                refill_per_sec,
                begin,
                end,
            )
        &&& forall|i: int|
            0 <= i < self.outstanding.len() ==> self.limiter.buckets.contains_key(
                (#[trigger] self.outstanding[i]).key,
            )
        &&& forall|i: int|
            0 <= i < self.sent.len() ==> self.limiter.buckets.contains_key(
                (#[trigger] self.sent[i]).key,
            )
    }
}

/// Bringing a pool up to date, at the configured rate or a smaller one, keeps it covered.
proof fn lemma_refill_covers(
    s: TokenBucketModel,
    given: nat,
    capacity: nat,
    refill_per_sec: nat,
    begin: nat,
    end: nat,
    capacity_in_force: nat,
    rate_in_force: nat,
    now: nat,
)
    requires
        begin <= s.last_update <= end,
        begin <= now <= end,
        s.credits + given <= capacity + inflow((s.last_update - begin) as nat, refill_per_sec),
        rate_in_force <= refill_per_sec,
    ensures
        ({
            let t = s.refilled(capacity_in_force, rate_in_force, now);
            &&& begin <= t.last_update <= end
            &&& t.credits + given <= capacity + inflow(
                (t.last_update - begin) as nat,
                refill_per_sec,
            )
        }),
{
    if now > s.last_update {
        let delta = (now - s.last_update) as nat;
        assert(delta * rate_in_force <= delta * refill_per_sec) by (nonlinear_arith)
            requires
                rate_in_force <= refill_per_sec,
        ;
        vstd::arithmetic::div_mod::lemma_div_is_ordered(
            (delta * rate_in_force) as int,
            (delta * refill_per_sec) as int,
            NANOS_PER_SEC as int,
        );
        lemma_inflow_splits((s.last_update - begin) as nat, delta, refill_per_sec);
    }
}

/// The bucket of a key once it is tracked covers the permits of the key.
proof fn lemma_tracking_covers(
    r: LimiterRun,
    capacity: nat,
    refill_per_sec: nat,
    begin: nat,
    end: nat,
    key: Key,
    now: nat,
)
    requires
        r.covers(capacity, refill_per_sec, begin, end),
        begin <= now <= end,
    ensures
        ({
            let t = r.limiter.tracking(key, now);
            &&& r.limiter.admitted(key, now) is None || r.limiter.admitted(key, now) == Some(t)
            &&& t.buckets.contains_key(key)
            &&& covered(t.buckets[key], r.given(key), capacity, refill_per_sec, begin, end)
        }),
{
    if !r.limiter.buckets.contains_key(key) {
        lemma_total_of_none(r.outstanding, key);
        lemma_total_of_none(r.sent, key);
    }
}

/// Every call keeps the permits covered.
proof fn lemma_call_covers(
    r: LimiterRun,
    capacity: nat,
    refill_per_sec: nat,
    begin: nat,
    end: nat,
    call: LimiterCall,
)
    requires
        r.covers(capacity, refill_per_sec, begin, end),
        begin <= call.at() <= end,
    ensures
        r.after(call).covers(capacity, refill_per_sec, begin, end),
{
    let m = r.limiter;
    let after = r.after(call);
    let now = call.at();
    match call {
        LimiterCall::Acquire { route_key, cost, .. } => {
            let key = m.bucket_key(route_key);
            lemma_tracking_covers(r, capacity, refill_per_sec, begin, end, key, now);
            law_in_force_is_no_larger(m, now);
            let t = m.tracking(key, now);
            let s = t.buckets[key].algo->TokenBucket_0;
            lemma_refill_covers(
                s,
                r.given(key),
                capacity,
                refill_per_sec,
                begin,
                end,
                m.in_force(now)->capacity as nat,
                m.in_force(now)->refill_per_sec as nat,
                now,
            );
            assert forall|k: Key| #[trigger] after.limiter.buckets.contains_key(k) implies covered(
                after.limiter.buckets[k],
                after.given(k),
                capacity,
                refill_per_sec,
                begin,
                end,
            ) by {
                if let Decision::Granted(permit) = m.decision(route_key, cost, now) {
                    lemma_total_push(r.outstanding, permit, k);
                }
                if k != key {
                    assert(m.buckets.contains_key(k));
                }
            }
        },
        LimiterCall::Feedback { route_key, feedback, .. } => {
            let f = LimiterRun { limiter: m.remapped(route_key, feedback), ..r };
            let key = f.limiter.bucket_key(route_key);
            assert forall|k: Key| #[trigger] f.limiter.buckets.contains_key(k) implies covered(
                f.limiter.buckets[k],
                f.given(k),
                capacity,
                refill_per_sec,
                begin,
                end,
            ) by {
                assert(m.buckets.contains_key(k));
            }
            lemma_tracking_covers(f, capacity, refill_per_sec, begin, end, key, now);
            assert forall|k: Key| #[trigger] after.limiter.buckets.contains_key(k) implies covered(
                after.limiter.buckets[k],
                after.given(k),
                capacity,
                refill_per_sec,
                begin,
                end,
            ) by {
                if k != key || feedback.scope is Global {
                    assert(f.limiter.buckets.contains_key(k));
                }
            }
        },
        LimiterCall::Refund { i, .. } => {
            lemma_finalization_covers(r, capacity, refill_per_sec, begin, end, call, i);
        },
        LimiterCall::Commit { i, .. } => {
            lemma_finalization_covers(r, capacity, refill_per_sec, begin, end, call, i);
        },
    }
}

/// The finalization of an outstanding permit keeps the permits covered.
proof fn lemma_finalization_covers(
    r: LimiterRun,
    capacity: nat,
    refill_per_sec: nat,
    begin: nat,
    end: nat,
    call: LimiterCall,
    i: int,
)
    requires
        r.covers(capacity, refill_per_sec, begin, end),
        begin <= call.at() <= end,
        match call {
            LimiterCall::Refund { i: at, .. } => at == i,
            LimiterCall::Commit { i: at, .. } => at == i,
            _ => false,
        },
    ensures
        r.after(call).covers(capacity, refill_per_sec, begin, end),
{
    let m = r.limiter;
    let after = r.after(call);
    let now = call.at();
    if 0 <= i < r.outstanding.len() {
        let permit = r.outstanding[i];
        assert(m.buckets.contains_key(permit.key));
        assert(covered(
            m.buckets[permit.key],
            r.given(permit.key),
            capacity,
            refill_per_sec,
            begin,
            end,
        ));
        lemma_refill_covers(
            m.buckets[permit.key].algo->TokenBucket_0,
            r.given(permit.key),
            capacity,
            refill_per_sec,
            begin,
            end,
            capacity,
            refill_per_sec,
            now,
        );
        assert forall|k: Key| #[trigger] after.limiter.buckets.contains_key(k) implies covered(
            after.limiter.buckets[k],
            after.given(k),
            capacity,
            refill_per_sec,
            begin,
            end,
        ) by {
            assert(m.buckets.contains_key(k));
            lemma_total_remove(r.outstanding, i, k);
            lemma_total_push(r.sent, permit, k);
        }
        assert forall|j: int|
            0 <= j < after.outstanding.len() implies after.limiter.buckets.contains_key(
            (#[trigger] after.outstanding[j]).key,
        ) by {
            let at = if j < i {
                j
            } else {
                j + 1
            };
            assert(after.outstanding[j] == r.outstanding[at]);
        }
        assert forall|j: int| 0 <= j < after.sent.len() implies after.limiter.buckets.contains_key(
            (#[trigger] after.sent[j]).key,
        ) by {
            if j < r.sent.len() {
                assert(after.sent[j] == r.sent[j]);
            }
        }
    }
}

/// Every run from a fresh limiter keeps the permits covered.
proof fn lemma_run_covers(
    config: ConfigModel,
    started_at: nat,
    capacity: nat,
    refill_per_sec: nat,
    calls: Seq<LimiterCall>,
    n: nat,
    begin: nat,
    end: nat,
)
    requires
        config.algorithm matches AlgorithmConfig::TokenBucket {
            capacity: cap,
            refill_per_sec: rate,
        } && cap == capacity && rate == refill_per_sec,
        keeps_keys(config),
        forall|i: int| 0 <= i < calls.len() ==> begin <= (#[trigger] calls[i]).at() <= end,
        n <= calls.len(),
    ensures
        LimiterRun::fresh(config, started_at).after_calls(calls, n).covers(
            capacity,
            refill_per_sec,
            begin,
            end,
        ),
    decreases n,
{
    if n > 0 {
        lemma_run_covers(
            config,
            started_at,
            capacity,
            refill_per_sec,
            calls,
            (n - 1) as nat,
            begin,
            end,
        );
        assert(begin <= calls[n - 1].at() <= end);
        lemma_call_covers(
            LimiterRun::fresh(config, started_at).after_calls(calls, (n - 1) as nat),
            capacity,
            refill_per_sec,
            begin,
            end,
            calls[n - 1],
        );
    }
}

/// The same for credit pools: in any run of calls between two instants, in any order, with a ramp
/// or without one, the permits of a key that were not given back, outstanding or sent, cost no more
/// together than the capacity and what flows in from the one instant to the other.
pub proof fn law_pool_throughput(
    config: ConfigModel,
    started_at: nat,
    calls: Seq<LimiterCall>,
    n: nat,
    key: Key,
    begin: nat,
    end: nat,
)
    requires
        config.algorithm is TokenBucket,
        keeps_keys(config),
        begin <= end,
        forall|i: int| 0 <= i < calls.len() ==> begin <= (#[trigger] calls[i]).at() <= end,
        n <= calls.len(),
    ensures
        LimiterRun::fresh(config, started_at).after_calls(calls, n).given(key)
            <= config.algorithm->capacity + inflow(
            (end - begin) as nat,
            config.algorithm->refill_per_sec as nat,
        ),
{
    let capacity = config.algorithm->capacity as nat;
    let refill_per_sec = config.algorithm->refill_per_sec as nat;
    lemma_run_covers(config, started_at, capacity, refill_per_sec, calls, n, begin, end);
    let r = LimiterRun::fresh(config, started_at).after_calls(calls, n);
    if r.limiter.buckets.contains_key(key) {
        let s = r.limiter.buckets[key].algo->TokenBucket_0;
        lemma_inflow_splits(
            (s.last_update - begin) as nat,
            (end - s.last_update) as nat,
            refill_per_sec,
        );
    } else {
        lemma_total_of_none(r.outstanding, key);
        lemma_total_of_none(r.sent, key);
    }
}

} // verus!
