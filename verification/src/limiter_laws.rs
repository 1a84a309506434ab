//! What holds of a limiter over several calls: permits are accounted for until they are
//! finalized, limits are kept, blocks last, and the tracked keys stay bounded.

use crate::bucket::{
    law_fresh_window_holds_now, law_limit_is_kept, no_larger, AlgoModel, BucketModel,
};
use crate::config::{AlgorithmConfig, ConfigModel};
use crate::feedback::Feedback;
use crate::limiter::{unsettling, Decision, LimiterModel, UpdateConfigErrorKind};
use crate::observer::DenyReason;
use crate::slow_start::{
    law_pool_ramp_wait_is_exact, law_ramp_is_conservative, law_ramp_wait_is_exact, ramping,
};
use crate::time::{extended, instant_after, nanos, MAX_NANOS};
use crate::types::{Key, Outcome, PermitModel, Scope};
use vstd::prelude::*;

verus! {

/// What the permits of `key` among `permits` cost together.
pub open spec fn total_cost(permits: Seq<PermitModel>, key: Key) -> nat
    decreases permits.len(),
{
    if permits.len() == 0 {
        0
    } else {
        let rest = total_cost(permits.drop_last(), key);
        if permits.last().key == key {
            rest + permits.last().cost
        } else {
            rest
        }
    }
}

/// The window of the bucket starts at a multiple of its length, and not later than `now`.
pub open spec fn window_holds(b: BucketModel, window: nat, now: nat) -> bool {
    b.algo matches AlgoModel::FixedWindow(w) && w.window_start % window == 0 && w.window_start
        <= now
}

impl LimiterModel {
    /// Every bucket keeps the accounts of the algorithm that is configured.
    pub open spec fn suited(self) -> bool {
        forall|key: Key| #[trigger]
            self.buckets.contains_key(key) ==> self.buckets[key].algo.suits(self.config.algorithm)
    }

    /// Every bucket stands within the configured limits.
    pub open spec fn within(self) -> bool {
        forall|key: Key| #[trigger]
            self.buckets.contains_key(key) ==> self.buckets[key].within(self.config.algorithm)
    }

    /// Every fixed window starts at a multiple of its length, and not later than `now`.
    pub open spec fn windows_hold(self, now: nat) -> bool {
        self.config.algorithm matches AlgorithmConfig::FixedWindow { window, .. } ==> forall|
            key: Key,
        | #[trigger]
            self.buckets.contains_key(key) ==> window_holds(
                self.buckets[key],
                nanos(window),
                now,
            )
    }

    /// `permits` are the permits that are still to be finalized: each was issued by the bucket of
    /// its key as it stands, and each bucket has reserved what its permits cost together.
    pub open spec fn accounts(self, permits: Seq<PermitModel>) -> bool {
        &&& forall|i: int|
            0 <= i < permits.len() ==> (#[trigger] permits[i]).cost > 0
                && self.buckets.contains_key(permits[i].key)
                && self.buckets[permits[i].key].issued(permits[i])
        &&& forall|key: Key| #[trigger]
            self.buckets.contains_key(key) ==> self.buckets[key].outstanding() == total_cost(
                permits,
                key,
            )
    }
}

/// One more permit adds its cost to the total of its key.
pub(crate) proof fn lemma_total_push(permits: Seq<PermitModel>, permit: PermitModel, key: Key)
    ensures
        total_cost(permits.push(permit), key) == total_cost(permits, key) + (if permit.key == key {
            permit.cost
        } else {
            0
        }),
{
    assert(permits.push(permit).drop_last() =~= permits);
}

/// One permit less takes its cost off the total of its key.
pub(crate) proof fn lemma_total_remove(permits: Seq<PermitModel>, i: int, key: Key)
    requires
        0 <= i < permits.len(),
    ensures
        total_cost(permits, key) == total_cost(permits.remove(i), key) + (if permits[i].key == key {
            permits[i].cost
        } else {
            0
        }),
    decreases permits.len(),
{
    let last = permits.len() - 1;
    if i == last {
        assert(permits.remove(i) =~= permits.drop_last());
    } else {
        lemma_total_remove(permits.drop_last(), i, key);
        assert(permits.remove(i).drop_last() =~= permits.drop_last().remove(i));
        assert(permits.remove(i).last() == permits.last());
    }
}

/// A key of which no permit is left has a total of nothing.
pub(crate) proof fn lemma_total_of_none(permits: Seq<PermitModel>, key: Key)
    requires
        forall|i: int| 0 <= i < permits.len() ==> (#[trigger] permits[i]).key != key,
    ensures
        total_cost(permits, key) == 0,
    decreases permits.len(),
{
    if permits.len() > 0 {
        assert(permits.last() == permits[permits.len() - 1]);
        assert forall|i: int| 0 <= i < permits.drop_last().len() implies (
        #[trigger] permits.drop_last()[i]).key != key by {
            assert(permits.drop_last()[i] == permits[i]);
        }
        lemma_total_of_none(permits.drop_last(), key);
    }
}

/// What a permit among `permits` costs is part of the total of its key.
pub(crate) proof fn lemma_total_covers(permits: Seq<PermitModel>, i: int)
    requires
        0 <= i < permits.len(),
    ensures
        permits[i].cost <= total_cost(permits, permits[i].key),
{
    lemma_total_remove(permits, i, permits[i].key);
}

/// The ramp never raises a limit: what is in force is the configured algorithm with limits that
/// are no larger.
pub proof fn law_in_force_is_no_larger(m: LimiterModel, now: nat)
    ensures
        no_larger(m.in_force(now), m.config.algorithm),
{
    if let Some(slow) = m.config.slow_start {
        match m.config.algorithm {
            AlgorithmConfig::FixedWindow { max_per_window, .. } => {
                law_ramp_is_conservative(max_per_window as nat, slow, m.elapsed(now));
            },
            AlgorithmConfig::TokenBucket { capacity, refill_per_sec } => {
                law_ramp_is_conservative(capacity as nat, slow, m.elapsed(now));
                law_ramp_is_conservative(refill_per_sec as nat, slow, m.elapsed(now));
            },
        }
    }
}

/// Making room leaves every key with an outstanding permit where it is, with its bucket as it
/// is. It drops one key at most.
pub proof fn law_eviction_spares_outstanding(m: LimiterModel, key: Key, now: nat, other: Key)
    requires
        m.wf(),
        m.admitted(key, now) is Some,
        m.buckets.contains_key(other),
    ensures
        m.buckets[other].has_outstanding() || m.fits(key) ==> m.admitted(
            key,
            now,
        )->0.buckets.contains_key(other) && m.admitted(key, now)->0.buckets[other]
            == m.buckets[other],
        m.admitted(key, now)->0.order.len() + 1 >= m.order.len(),
        m.admitted(key, now)->0.buckets.contains_key(other) ==> m.admitted(
            key,
            now,
        )->0.buckets[other] == m.buckets[other],
{
    if !m.fits(key) {
        let i = choose|i: int| m.oldest_evictable(i);
        assert(m.oldest_evictable(i));
    }
}

/// Making room and tracking a key leaves the permits accounted for.
proof fn lemma_admission_accounts(
    m: LimiterModel,
    permits: Seq<PermitModel>,
    key: Key,
    now: nat,
)
    requires
        m.wf(),
        m.suited(),
        m.accounts(permits),
        m.admitted(key, now) is Some,
    ensures
        m.admitted(key, now)->0.suited(),
        m.admitted(key, now)->0.accounts(permits),
        m.admitted(key, now)->0.buckets.contains_key(key),
        m.admitted(key, now)->0.config == m.config,
{
    let a = m.admitted(key, now)->0;
    let r = m.room(key)->0;
    if !m.fits(key) {
        let i = choose|i: int| m.oldest_evictable(i);
        assert(m.oldest_evictable(i));
    }
    assert forall|i: int| 0 <= i < permits.len() implies (#[trigger] permits[i]).cost > 0
        && a.buckets.contains_key(permits[i].key) && a.buckets[permits[i].key].issued(
        permits[i],
    ) by {
        lemma_total_covers(permits, i);
        assert(m.buckets.contains_key(permits[i].key));
        law_eviction_spares_outstanding(m, key, now, permits[i].key);
    }
    assert forall|k: Key| #[trigger] a.buckets.contains_key(k) implies a.buckets[k].outstanding()
        == total_cost(permits, k) && a.buckets[k].algo.suits(a.config.algorithm) by {
        if r.buckets.contains_key(k) {
            assert(m.buckets.contains_key(k));
        } else {
            // A key that is tracked from now on has no permit outstanding: before, it either was
            // not tracked or had none.
            if total_cost(permits, k) != 0 {
                assert(exists|i: int| 0 <= i < permits.len() && #[trigger] permits[i].key == k) by {
                    if forall|i: int| 0 <= i < permits.len() ==> #[trigger] permits[i].key != k {
                        lemma_total_of_none(permits, k);
                    }
                }
                let i = choose|i: int| 0 <= i < permits.len() && #[trigger] permits[i].key == k;
                assert(m.buckets.contains_key(permits[i].key));
                law_eviction_spares_outstanding(m, key, now, k);
            }
        }
    }
}

/// From the grant on a permit is accounted for: an attempt to acquire adds its permit where it
/// is granted, adds none where it is denied, and loses none of the others, whatever is evicted.
pub proof fn law_acquire_accounts_for_permits(
    m: LimiterModel,
    permits: Seq<PermitModel>,
    route_key: Key,
    cost: nat,
    now: nat,
)
    requires
        m.wf(),
        m.suited(),
        m.accounts(permits),
        cost > 0,
        m.config.algorithm is TokenBucket ==> total_cost(permits, m.bucket_key(route_key)) + cost
            <= u64::MAX,
    ensures
        m.after_acquire(route_key, cost, now).suited(),
        match m.decision(route_key, cost, now) {
            Decision::Granted(permit) => permit.key == m.bucket_key(route_key) && permit.cost
                == cost && m.after_acquire(route_key, cost, now).accounts(permits.push(permit)),
            Decision::Denied { .. } => m.after_acquire(route_key, cost, now).accounts(permits),
        },
{
    let key = m.bucket_key(route_key);
    let after = m.after_acquire(route_key, cost, now);
    if !m.globally_blocked(now) && !m.key_blocked(key, now) && m.ramp_denial(cost, now) is None
        && m.admitted(key, now) is Some {
        lemma_admission_accounts(m, permits, key, now);
        law_in_force_is_no_larger(m, now);
        let a = m.admitted(key, now)->0;
        let b = a.buckets[key];
        let b2 = b.after_reserve(m.in_force(now), cost, now);
        assert(after == a.with_bucket(key, b2));
        let after_permits = match m.decision(route_key, cost, now) {
            Decision::Granted(permit) => permits.push(permit),
            Decision::Denied { .. } => permits,
        };
        assert forall|i: int| 0 <= i < after_permits.len() implies (
        #[trigger] after_permits[i]).cost > 0 && after.buckets.contains_key(after_permits[i].key)
            && after.buckets[after_permits[i].key].issued(after_permits[i]) by {
            if i < permits.len() {
                assert(after_permits[i] == permits[i]);
                lemma_total_covers(permits, i);
            }
        }
        assert forall|k: Key| #[trigger] after.buckets.contains_key(
            k,
        ) implies after.buckets[k].outstanding() == total_cost(after_permits, k) by {
            assert(a.buckets.contains_key(k));
            if let Decision::Granted(permit) = m.decision(route_key, cost, now) {
                lemma_total_push(permits, permit, k);
            }
        }
        assert forall|k: Key| #[trigger] after.buckets.contains_key(
            k,
        ) implies after.buckets[k].algo.suits(after.config.algorithm) by {
            assert(a.buckets.contains_key(k));
        }
    }
}

/// Finalizing a permit, in whatever way and at whatever instant, takes it and no other off the
/// accounts.
pub proof fn law_finalizing_settles_one_permit(
    m: LimiterModel,
    permits: Seq<PermitModel>,
    i: int,
    outcome: Outcome,
    now: nat,
)
    requires
        m.wf(),
        m.suited(),
        m.accounts(permits),
        0 <= i < permits.len(),
    ensures
        m.refunded(permits[i], now).suited(),
        m.refunded(permits[i], now).accounts(permits.remove(i)),
        m.committed(permits[i], outcome, now).suited(),
        m.committed(permits[i], outcome, now).accounts(permits.remove(i)),
{
    let permit = permits[i];
    lemma_total_covers(permits, i);
    assert(m.buckets.contains_key(permit.key));
    lemma_settled_accounts(m, m.refunded(permit, now), permits, i, false, now);
    lemma_settled_accounts(
        m,
        m.committed(permit, outcome, now),
        permits,
        i,
        !(outcome is NotSent),
        now,
    );
}

/// A limiter in which the bucket of a permit is settled, and the others stand as before, accounts
/// for the other permits.
proof fn lemma_settled_accounts(
    m: LimiterModel,
    after: LimiterModel,
    permits: Seq<PermitModel>,
    i: int,
    sent: bool,
    now: nat,
)
    requires
        m.wf(),
        m.suited(),
        m.accounts(permits),
        0 <= i < permits.len(),
        after.config == m.config,
        after.buckets.dom() =~= m.buckets.dom(),
        forall|k: Key| #[trigger]
            m.buckets.contains_key(k) && k != permits[i].key ==> after.buckets[k] == m.buckets[k],
        after.buckets[permits[i].key].algo == m.buckets[permits[i].key].settled(
            permits[i],
            sent,
            now,
            m.config.algorithm,
        ),
    ensures
        after.suited(),
        after.accounts(permits.remove(i)),
{
    let permit = permits[i];
    let rest = permits.remove(i);
    assert(m.buckets.contains_key(permit.key));
    lemma_total_covers(permits, i);
    assert forall|k: Key| #[trigger] after.buckets.contains_key(
        k,
    ) implies after.buckets[k].outstanding() == total_cost(rest, k) && after.buckets[k].algo.suits(
        after.config.algorithm,
    ) by {
        assert(m.buckets.contains_key(k));
        lemma_total_remove(permits, i, k);
    }
    assert forall|j: int| 0 <= j < rest.len() implies (#[trigger] rest[j]).cost > 0
        && after.buckets.contains_key(rest[j].key) && after.buckets[rest[j].key].issued(
        rest[j],
    ) by {
        let at = if j < i {
            j
        } else {
            j + 1
        };
        assert(rest[j] == permits[at]);
        assert(m.buckets.contains_key(rest[j].key));
    }
}

/// Feedback, applied or lost, leaves every permit accounted for.
pub proof fn law_feedback_keeps_permits(
    m: LimiterModel,
    permits: Seq<PermitModel>,
    route_key: Key,
    feedback: Feedback,
    now: nat,
)
    requires
        m.wf(),
        m.suited(),
        m.accounts(permits),
    ensures
        m.after_feedback(route_key, feedback, now).suited(),
        m.after_feedback(route_key, feedback, now).accounts(permits),
{
    let r = m.remapped(route_key, feedback);
    let key = r.bucket_key(route_key);
    let after = m.after_feedback(route_key, feedback, now);
    assert(r.wf());
    assert(r.accounts(permits));
    assert(r.suited());
    if !(feedback.scope is Global) && r.admitted(key, now) is Some {
        lemma_admission_accounts(r, permits, key, now);
        let a = r.admitted(key, now)->0;
        assert forall|k: Key| #[trigger] after.buckets.contains_key(
            k,
        ) implies after.buckets[k].outstanding() == total_cost(permits, k)
            && after.buckets[k].algo.suits(after.config.algorithm) by {
            assert(a.buckets.contains_key(k));
        }
    }
}

/// A configuration update leaves every permit accounted for, unless it changes the kind of
/// algorithm while permits are outstanding.
pub proof fn law_update_keeps_permits(
    m: LimiterModel,
    permits: Seq<PermitModel>,
    config: ConfigModel,
    now: nat,
)
    requires
        m.wf(),
        m.suited(),
        m.accounts(permits),
        m.update_conflict(config) != Some(UpdateConfigErrorKind::AlgorithmChanged),
    ensures
        m.reconfigured(config, now).suited(),
        m.reconfigured(config, now).accounts(permits),
{
    let after = m.reconfigured(config, now);
    assert forall|k: Key| #[trigger] after.buckets.contains_key(
        k,
    ) implies after.buckets[k].outstanding() == total_cost(permits, k)
        && after.buckets[k].algo.suits(after.config.algorithm) by {
        assert(m.buckets.contains_key(k));
    }
    assert forall|i: int| 0 <= i < permits.len() implies after.buckets.contains_key(
        (#[trigger] permits[i]).key,
    ) && after.buckets[permits[i].key].issued(permits[i]) by {
        lemma_total_covers(permits, i);
        assert(m.buckets.contains_key(permits[i].key));
    }
}

/// After an update to another kind of algorithm, the late finalization of a permit of the old kind
/// is a no-op on the accounts of every bucket, and takes no capacity that it has not reserved.
pub proof fn law_late_finalization_is_a_no_op(
    m: LimiterModel,
    config: ConfigModel,
    now: nat,
    permit: PermitModel,
    outcome: Outcome,
    later: nat,
    key: Key,
)
    requires
        m.suited(),
        m.buckets.contains_key(key),
        unsettling(m.config.algorithm, config.algorithm) == Some(
            UpdateConfigErrorKind::AlgorithmChanged,
        ),
        permit.window_start is Some <==> m.config.algorithm is FixedWindow,
    ensures
        ({
            let after = m.reconfigured(config, now);
            &&& after.suited()
            &&& after.buckets.contains_key(key)
            &&& after.refunded(permit, later).buckets[key].algo == after.buckets[key].algo
            &&& after.committed(permit, outcome, later).buckets[key].algo
                == after.buckets[key].algo
        }),
{
    let after = m.reconfigured(config, now);
    assert forall|k: Key| #[trigger]
        after.buckets.contains_key(k) implies after.buckets[k].algo.suits(
        after.config.algorithm,
    ) by {
        assert(m.buckets.contains_key(k));
    }
}

/// No bucket gives out more than the configured limit: attempts to acquire, feedback, and the
/// finalization of permits that are accounted for all keep every bucket within it.
pub proof fn law_limits_are_kept(
    m: LimiterModel,
    permits: Seq<PermitModel>,
    route_key: Key,
    cost: nat,
    feedback: Feedback,
    i: int,
    outcome: Outcome,
    now: nat,
)
    requires
        m.wf(),
        m.within(),
        m.accounts(permits),
    ensures
        m.after_acquire(route_key, cost, now).within(),
        m.after_feedback(route_key, feedback, now).within(),
        0 <= i < permits.len() ==> m.refunded(permits[i], now).within() && m.committed(
            permits[i],
            outcome,
            now,
        ).within(),
{
    law_in_force_is_no_larger(m, now);
    let key = m.bucket_key(route_key);
    let acquired = m.after_acquire(route_key, cost, now);
    assert forall|k: Key| #[trigger] acquired.buckets.contains_key(k) implies acquired.buckets[k]
        .within(m.config.algorithm) by {
        lemma_admission_within(m, key, now, k);
        if let Some(a) = m.admitted(key, now) {
            law_limit_is_kept(
                a.buckets[k],
                m.config.algorithm,
                m.in_force(now),
                cost,
                now,
                arbitrary(),
                outcome,
            );
        }
    }
    let r = m.remapped(route_key, feedback);
    let signalled = m.after_feedback(route_key, feedback, now);
    assert forall|k: Key| #[trigger] signalled.buckets.contains_key(k) implies signalled.buckets[k]
        .within(m.config.algorithm) by {
        lemma_admission_within(r, r.bucket_key(route_key), now, k);
        assert(r.buckets == m.buckets);
    }
    if 0 <= i < permits.len() {
        let permit = permits[i];
        lemma_total_covers(permits, i);
        law_limit_is_kept(
            m.buckets[permit.key],
            m.config.algorithm,
            m.config.algorithm,
            cost,
            now,
            permit,
            outcome,
        );
        let refunded = m.refunded(permit, now);
        let committed = m.committed(permit, outcome, now);
        assert forall|k: Key| #[trigger]
            refunded.buckets.contains_key(k) implies refunded.buckets[k].within(
            m.config.algorithm,
        ) by {
            assert(m.buckets.contains_key(k));
        }
        assert forall|k: Key| #[trigger]
            committed.buckets.contains_key(k) implies committed.buckets[k].within(
            m.config.algorithm,
        ) by {
            assert(m.buckets.contains_key(k));
        }
    }
}

/// A bucket after room was made, and a key tracked, is one of before or a fresh one.
proof fn lemma_admission_within(m: LimiterModel, key: Key, now: nat, k: Key)
    requires
        m.wf(),
        m.within(),
    ensures
        m.buckets.contains_key(k) ==> m.buckets[k].within(m.config.algorithm),
        m.admitted(key, now) matches Some(a) ==> a.config == m.config && a.buckets.contains_key(key)
            && (a.buckets.contains_key(k) ==> a.buckets[k].within(m.config.algorithm)),
{
    if let Some(a) = m.admitted(key, now) {
        let r = m.room(key)->0;
        if r.buckets.contains_key(k) {
            assert(m.buckets.contains_key(k));
        }
    }
}

/// A limiter starts with every bucket within the limits and no permit outstanding.
pub proof fn law_fresh_limiter(config: ConfigModel, started_at: nat)
    requires
        config.algorithm.wf(),
    ensures
        LimiterModel::fresh(config, started_at).wf(),
        LimiterModel::fresh(config, started_at).suited(),
        LimiterModel::fresh(config, started_at).within(),
        LimiterModel::fresh(config, started_at).accounts(Seq::empty()),
{
}

/// A global block denies every route for as long as it lasts, with the time that is left, and
/// changes nothing.
pub proof fn law_global_block_denies_everything(
    m: LimiterModel,
    route_key: Key,
    cost: nat,
    now: nat,
    until: nat,
)
    requires
        m.global_blocked_until == Some(until),
        now < until,
    ensures
        m.decision(route_key, cost, now) == (Decision::Denied {
            retry_after: (until - now) as nat,
            reason: DenyReason::FeedbackBackoff,
        }),
        m.after_acquire(route_key, cost, now) == m,
{
}

/// Nothing shortens a global block: it is carried through every call, and a signal, by feedback
/// or by the outcome of a permit, can only extend it.
pub proof fn law_global_block_is_never_shortened(
    m: LimiterModel,
    route_key: Key,
    cost: nat,
    feedback: Feedback,
    permit: PermitModel,
    outcome: Outcome,
    config: ConfigModel,
    now: nat,
)
    ensures
        m.after_acquire(route_key, cost, now).global_blocked_until == m.global_blocked_until,
        m.refunded(permit, now).global_blocked_until == m.global_blocked_until,
        m.reconfigured(config, now).global_blocked_until == m.global_blocked_until,
        m.after_feedback(route_key, feedback, now).global_blocked_until == (
        if feedback.scope is Global {
            Some(
                extended(
                    m.global_blocked_until,
                    instant_after(now, nanos(feedback.spec_backoff())),
                ),
            )
        } else {
            m.global_blocked_until
        }),
        m.committed(permit, outcome, now).global_blocked_until == (match outcome {
            Outcome::RateLimitedFeedback { retry_after, scope: Scope::Global, .. } => Some(
                extended(m.global_blocked_until, instant_after(now, nanos(retry_after))),
            ),
            _ => m.global_blocked_until,
        }),
        m.global_blocked_until matches Some(until) ==> forall|t: nat| #[trigger]
            extended(m.global_blocked_until, t) >= until,
{
}

/// Feedback takes effect at once and comes before all else: a global signal denies every route
/// until its backoff is over, and any other that found room denies its own route, with the backoff
/// as the reason. The wait reaches to the end of the backoff, unless a global block that is in
/// force before is what denies.
pub proof fn law_feedback_denies(
    m: LimiterModel,
    route_key: Key,
    feedback: Feedback,
    now: nat,
    any_route: Key,
    cost: nat,
    later: nat,
)
    requires
        m.wf(),
        later < instant_after(now, nanos(feedback.spec_backoff())),
    ensures
        feedback.scope is Global ==> (m.after_feedback(route_key, feedback, now).decision(
            any_route,
            cost,
            later,
        ) matches Decision::Denied { retry_after, reason } && reason == DenyReason::FeedbackBackoff
            && later + retry_after >= instant_after(now, nanos(feedback.spec_backoff()))),
        !m.feedback_lost(route_key, feedback, now) ==> (m.after_feedback(
            route_key,
            feedback,
            now,
        ).decision(route_key, cost, later) matches Decision::Denied { retry_after, reason }
            && reason == DenyReason::FeedbackBackoff && (m.global_blocked_until is None
            || feedback.scope is Global ==> later + retry_after >= instant_after(
            now,
            nanos(feedback.spec_backoff()),
        ))),
{
}

/// Other keys are left alone: a call for one key changes the bucket of no other, and drops one
/// only to make room, and only where it has no permit outstanding.
pub proof fn law_other_keys_are_untouched(
    m: LimiterModel,
    route_key: Key,
    cost: nat,
    permit: PermitModel,
    outcome: Outcome,
    now: nat,
    other: Key,
)
    requires
        m.wf(),
        m.buckets.contains_key(other),
    ensures
        ({
            let after = m.after_acquire(route_key, cost, now);
            other != m.bucket_key(route_key) ==> {
                &&& after.buckets.contains_key(other) ==> after.buckets[other] == m.buckets[other]
                &&& m.buckets[other].has_outstanding() || m.fits(m.bucket_key(route_key))
                    ==> after.buckets.contains_key(other)
            }
        }),
        other != permit.key ==> {
            &&& m.refunded(permit, now).buckets.contains_key(other)
            &&& m.refunded(permit, now).buckets[other] == m.buckets[other]
            &&& m.committed(permit, outcome, now).buckets.contains_key(other)
            &&& m.committed(permit, outcome, now).buckets[other] == m.buckets[other]
        },
{
    let key = m.bucket_key(route_key);
    if m.admitted(key, now) is Some {
        law_eviction_spares_outstanding(m, key, now, other);
    }
}

/// Finalizing a permit as not sent is a refund, in every state.
pub proof fn law_commit_not_sent_is_a_refund(m: LimiterModel, permit: PermitModel, now: nat)
    ensures
        m.committed(permit, Outcome::NotSent, now) == m.refunded(permit, now),
{
}

/// Giving a permit back at the instant of its grant restores the capacity: the same request is
/// granted again.
pub proof fn law_refund_allows_retry(m: LimiterModel, route_key: Key, cost: nat, now: nat)
    requires
        m.wf(),
        m.within(),
        cost > 0,
        m.decision(route_key, cost, now) is Granted,
        m.buckets.contains_key(m.bucket_key(route_key))
            && m.config.algorithm is TokenBucket ==> m.buckets[m.bucket_key(
            route_key,
        )].outstanding() + cost <= u64::MAX,
        m.config.algorithm is TokenBucket ==> cost <= u64::MAX,
    ensures
        m.after_acquire(route_key, cost, now).refunded(
            m.decision(route_key, cost, now)->Granted_0,
            now,
        ).decision(route_key, cost, now) == m.decision(route_key, cost, now),
{
    let key = m.bucket_key(route_key);
    law_in_force_is_no_larger(m, now);
    lemma_admission_within(m, key, now, key);
    let a = m.admitted(key, now)->0;
    let after = m.after_acquire(route_key, cost, now);
    let permit = m.decision(route_key, cost, now)->Granted_0;
    let back = after.refunded(permit, now);
    assert(back.buckets.contains_key(key));
    assert(back.fits(key));
    assert(back.admitted(key, now) == Some(back));
}

/// The bound on the keys holds: with one, neither the tracked keys nor the remaps grow beyond it,
/// and what is above it, after an update that lowered it, does not grow further.
pub proof fn law_keys_are_bounded(
    m: LimiterModel,
    max_keys: nat,
    route_key: Key,
    cost: nat,
    feedback: Feedback,
    permit: PermitModel,
    outcome: Outcome,
    config: ConfigModel,
    now: nat,
)
    requires
        m.wf(),
        m.config.max_keys matches Some(max) && max == max_keys,
    ensures
        m.after_acquire(route_key, cost, now).buckets.len() <= m.buckets.len()
            || m.after_acquire(route_key, cost, now).buckets.len() <= max_keys,
        m.after_feedback(route_key, feedback, now).buckets.len() <= m.buckets.len()
            || m.after_feedback(route_key, feedback, now).buckets.len() <= max_keys,
        m.after_feedback(route_key, feedback, now).routes.len() <= m.routes.len()
            || m.after_feedback(route_key, feedback, now).routes.len() <= max_keys,
        m.after_acquire(route_key, cost, now).routes == m.routes,
        m.refunded(permit, now).buckets.dom() == m.buckets.dom(),
        m.committed(permit, outcome, now).buckets.dom() == m.buckets.dom(),
        m.reconfigured(config, now).buckets.dom() == m.buckets.dom(),
{
    let key = m.bucket_key(route_key);
    lemma_admission_bounded(m, key, now, max_keys);
    let r = m.remapped(route_key, feedback);
    assert(r.wf());
    lemma_admission_bounded(r, r.bucket_key(route_key), now, max_keys);
    assert(m.refunded(permit, now).buckets.dom() =~= m.buckets.dom());
    assert(m.committed(permit, outcome, now).buckets.dom() =~= m.buckets.dom());
    assert(m.reconfigured(config, now).buckets.dom() =~= m.buckets.dom());
    if let Some(a) = m.admitted(key, now) {
        let b = a.buckets[key].after_reserve(m.in_force(now), cost, now);
        assert(a.buckets.insert(key, b).dom() =~= a.buckets.dom());
    }
    if let Some(a) = r.admitted(r.bucket_key(route_key), now) {
        let k = r.bucket_key(route_key);
        let until = instant_after(now, nanos(feedback.spec_backoff()));
        assert(a.buckets.insert(k, a.buckets[k].blocked_to(until)).dom() =~= a.buckets.dom());
    }
}

/// Making room and tracking a key does not push the number of keys beyond the bound.
proof fn lemma_admission_bounded(m: LimiterModel, key: Key, now: nat, max_keys: nat)
    requires
        m.wf(),
        m.config.max_keys matches Some(max) && max == max_keys,
    ensures
        m.admitted(key, now) matches Some(a) ==> a.buckets.contains_key(key) && (a.buckets.len()
            <= m.buckets.len() || a.buckets.len() <= max_keys),
{
    lemma_tracked_keys_are_finite(m);
    if let Some(a) = m.admitted(key, now) {
        if !m.fits(key) {
            let i = choose|i: int| m.oldest_evictable(i);
            assert(m.oldest_evictable(i));
            assert(m.order.contains(m.order[i]));
            assert(m.buckets.contains_key(m.order[i]));
        }
    }
}

/// The tracked keys are finitely many.
proof fn lemma_tracked_keys_are_finite(m: LimiterModel)
    requires
        m.wf(),
    ensures
        m.buckets.dom().finite(),
{
    vstd::seq_lib::seq_to_set_is_finite(m.order);
    assert(m.buckets.dom() =~= m.order.to_set()) by {
        assert forall|key: Key| m.buckets.dom().contains(key) == m.order.to_set().contains(key) by {
            assert(m.buckets.contains_key(key) <==> m.order.contains(key));
        }
    }
}

/// A new key is denied where the keys are at the bound and none may go: for good under the policy
/// that denies, and under the one that evicts while every key has a permit outstanding.
pub proof fn law_full_limiter_denies_new_key(
    m: LimiterModel,
    route_key: Key,
    cost: nat,
    now: nat,
)
    requires
        !m.globally_blocked(now),
        m.ramp_denial(cost, now) is None,
        !m.fits(m.bucket_key(route_key)),
        m.config.overflow_policy is DenyNewKey || forall|i: int|
            0 <= i < m.order.len() ==> !m.evictable(#[trigger] m.order[i]),
    ensures
        m.decision(route_key, cost, now) == (Decision::Denied {
            retry_after: m.new_key_wait(),
            reason: DenyReason::KeyCardinalityBound,
        }),
        m.after_acquire(route_key, cost, now) == m,
{
}

/// Under the policy that evicts, a new key takes the place of the oldest key without a permit
/// outstanding.
pub proof fn law_oldest_idle_key_makes_room(m: LimiterModel, key: Key, now: nat, i: int)
    requires
        m.wf(),
        !m.fits(key),
        m.config.overflow_policy is EvictOldestKey,
        m.oldest_evictable(i),
    ensures
        m.admitted(key, now) matches Some(a) && a.buckets.dom() == m.buckets.dom().remove(
            m.order[i],
        ).insert(key) && a.order == m.order.remove(i).push(key),
{
    let j = choose|j: int| m.oldest_evictable(j);
    assert(m.oldest_evictable(j));
    if i < j {
        assert(!m.evictable(m.order[i]));
    } else if j < i {
        assert(!m.evictable(m.order[j]));
    }
    let a = m.admitted(key, now)->0;
    assert(a.buckets.dom() =~= m.buckets.dom().remove(m.order[i]).insert(key));
}

/// A remap takes effect at once and lasts: from then on, whatever else happens, the route draws on
/// the bucket it was mapped to, until another remap of it. Routes that are not remapped keep their
/// own.
pub proof fn law_remap_takes_effect(
    m: LimiterModel,
    route_key: Key,
    feedback: Feedback,
    target: Key,
    other_route: Key,
    cost: nat,
    permit: PermitModel,
    outcome: Outcome,
    config: ConfigModel,
    now: nat,
)
    requires
        m.applied_remap(route_key, feedback) == Some(target),
    ensures
        ({
            let after = m.after_feedback(route_key, feedback, now);
            &&& after.bucket_key(route_key) == target
            &&& other_route != route_key ==> after.bucket_key(other_route) == m.bucket_key(
                other_route,
            )
            &&& after.after_acquire(other_route, cost, now).routes == after.routes
            &&& after.refunded(permit, now).routes == after.routes
            &&& after.committed(permit, outcome, now).routes == after.routes
            &&& after.reconfigured(config, now).routes == after.routes
        }),
{
}

/// The wait that the ramp answers with is the right one: from the start of the limiter on, a cost
/// within the configured limit is held back by the ramp exactly until the wait is over.
pub proof fn law_ramp_wait_is_actionable(m: LimiterModel, cost: u32, now: nat, delay: nat)
    requires
        cost > 0,
        m.started_at <= now,
        m.config.slow_start matches Some(slow) && slow.length() <= MAX_NANOS,
        m.ramp_denial(cost as nat, now) is Some,
        match m.config.algorithm {
            AlgorithmConfig::FixedWindow { max_per_window, .. } => cost <= max_per_window,
            AlgorithmConfig::TokenBucket { capacity, .. } => cost <= capacity,
        },
    ensures
        m.ramp_denial(cost as nat, now + delay) is None <==> delay >= m.ramp_denial(
            cost as nat,
            now,
        )->0,
{
    let slow = m.config.slow_start->0;
    match m.config.algorithm {
        AlgorithmConfig::FixedWindow { max_per_window, .. } => {
            law_ramp_wait_is_exact(
                max_per_window as nat,
                slow,
                m.elapsed(now),
                cost as nat,
                delay,
            );
        },
        AlgorithmConfig::TokenBucket { capacity, .. } => {
            law_pool_ramp_wait_is_exact(capacity, slow, m.elapsed(now), cost, delay);
        },
    }
}

/// Once the ramp is over, it is as if there were none: the configured limits are in force, and the
/// ramp denies nothing.
pub proof fn law_ramp_ends(m: LimiterModel, cost: nat, now: nat)
    requires
        m.config.slow_start matches Some(slow) && !ramping(slow, m.elapsed(now)),
    ensures
        m.in_force(now) == m.config.algorithm,
        m.ramp_denial(cost, now) is None,
{
}

/// Every fixed window starts at a multiple of its length, and not later than the instant of the
/// last call: a fresh limiter has no other, and a call that is not earlier than the last one keeps
/// it so. An update of the length under an outstanding permit does not.
pub proof fn law_windows_hold_the_last_instant(
    m: LimiterModel,
    now: nat,
    later: nat,
    route_key: Key,
    cost: nat,
    feedback: Feedback,
    permit: PermitModel,
    outcome: Outcome,
    config: ConfigModel,
    started_at: nat,
)
    requires
        m.config.algorithm.wf(),
        m.windows_hold(now),
        now <= later,
    ensures
        LimiterModel::fresh(config, started_at).windows_hold(later),
        m.after_acquire(route_key, cost, later).windows_hold(later),
        m.after_feedback(route_key, feedback, later).windows_hold(later),
        m.refunded(permit, later).windows_hold(later),
        m.committed(permit, outcome, later).windows_hold(later),
        config.algorithm.wf() && m.update_conflict(config) is None ==> m.reconfigured(
            config,
            later,
        ).windows_hold(later),
{
    if let AlgorithmConfig::FixedWindow { window, .. } = m.config.algorithm {
        law_fresh_window_holds_now(later, nanos(window));
        law_in_force_is_no_larger(m, later);
        let key = m.bucket_key(route_key);
        let acquired = m.after_acquire(route_key, cost, later);
        assert forall|k: Key| #[trigger] acquired.buckets.contains_key(k) implies window_holds(
            acquired.buckets[k],
            nanos(window),
            later,
        ) by {
            lemma_admission_holds(m, key, later, k, nanos(window), now);
        }
        let r = m.remapped(route_key, feedback);
        let signalled = m.after_feedback(route_key, feedback, later);
        assert forall|k: Key| #[trigger] signalled.buckets.contains_key(k) implies window_holds(
            signalled.buckets[k],
            nanos(window),
            later,
        ) by {
            lemma_admission_holds(r, r.bucket_key(route_key), later, k, nanos(window), now);
        }
        let refunded = m.refunded(permit, later);
        assert forall|k: Key| #[trigger] refunded.buckets.contains_key(k) implies window_holds(
            refunded.buckets[k],
            nanos(window),
            later,
        ) by {
            assert(m.buckets.contains_key(k));
        }
        let committed = m.committed(permit, outcome, later);
        assert forall|k: Key| #[trigger] committed.buckets.contains_key(k) implies window_holds(
            committed.buckets[k],
            nanos(window),
            later,
        ) by {
            assert(m.buckets.contains_key(k));
        }
    }
    if let AlgorithmConfig::FixedWindow { window, .. } = config.algorithm {
        if config.algorithm.wf() && m.update_conflict(config) is None {
            law_fresh_window_holds_now(later, nanos(window));
            let updated = m.reconfigured(config, later);
            assert forall|k: Key| #[trigger] updated.buckets.contains_key(k) implies window_holds(
                updated.buckets[k],
                nanos(window),
                later,
            ) by {
                assert(m.buckets.contains_key(k));
            }
        }
    }
}

/// A bucket after room was made, and a key tracked, is one of before or a fresh one.
proof fn lemma_admission_holds(
    m: LimiterModel,
    key: Key,
    later: nat,
    k: Key,
    window: nat,
    now: nat,
)
    requires
        m.config.algorithm matches AlgorithmConfig::FixedWindow { window: length, .. } && nanos(
            length,
        ) == window,
        window > 0,
        m.windows_hold(now),
        now <= later,
    ensures
        m.buckets.contains_key(k) ==> window_holds(m.buckets[k], window, later),
        m.admitted(key, later) matches Some(a) ==> a.buckets.contains_key(key) && (
        a.buckets.contains_key(k) ==> window_holds(a.buckets[k], window, later)),
{
    law_fresh_window_holds_now(later, window);
    if let Some(a) = m.admitted(key, later) {
        let r = m.room(key)->0;
        if r.buckets.contains_key(k) {
            assert(m.buckets.contains_key(k));
        }
    }
}

} // verus!
