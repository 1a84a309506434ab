//! The limiter: keys and their buckets, route remapping, global backoff and slow start.

use crate::bucket::{BucketDenyReason, BucketModel, BucketState, Reservation};
use crate::config::{AlgorithmConfig, Config, ConfigModel, OverflowPolicy};
use crate::feedback::{reads_as, Feedback, FeedbackScope, RateLimitFeedback};
use crate::observer::{
    lemma_same_observer_is_reflexive, lemma_same_observer_is_transitive,
    lemma_same_observer_was_told, DenyEvent, DenyReason, FeedbackEvent, LimiterObserver, Notice,
    Watch,
};
use crate::slow_start;
use crate::slow_start::{ramp_wait, ramp_wait_u64, ramped, ramped_u64, ramping, SlowStart};
use crate::time;
use crate::time::{extended, instant_after, monus, nanos, opt_nanos, NANOS_PER_SEC};
use crate::types::{Cost, Deny, Key, Outcome, Permit, PermitModel, Scope};
use std::collections::hash_map::Entry;
use std::collections::{HashMap, VecDeque};
use std::time::Duration;
use vstd::prelude::*;

verus! {

broadcast use {
    vstd::std_specs::hash::group_hash_axioms,
    lemma_same_observer_is_reflexive,
    lemma_same_observer_is_transitive,
    lemma_same_observer_was_told,
};

/// The answer to an attempt to acquire, with times in nanoseconds.
pub enum Decision {
    /// The capacity is reserved.
    Granted(PermitModel),
    /// Nothing is reserved.
    Denied {
        /// How long to wait.
        retry_after: nat,
        /// Why it was denied.
        reason: DenyReason,
    },
}

/// What a limiter holds, with times in nanoseconds.
pub struct LimiterModel {
    /// The configuration.
    pub config: ConfigModel,
    /// When the limiter started; the slow-start ramp counts from here.
    pub started_at: nat,
    /// Bucket keys that route keys were remapped to.
    pub routes: Map<Key, Key>,
    /// The tracked buckets.
    pub buckets: Map<Key, BucketModel>,
    /// The tracked keys, oldest first.
    pub order: Seq<Key>,
    /// The instant until which feedback blocks every key.
    pub global_blocked_until: Option<nat>,
}

/// What a configuration update changed while permits were outstanding.
#[derive(Debug, Clone, Copy, PartialEq, Eq)]
pub enum UpdateConfigErrorKind {
    /// The kind of algorithm.
    AlgorithmChanged,
    /// The length of the fixed window.
    WindowChanged,
}

/// Tells that a configuration update, which was applied, changed what outstanding permits rest on.
#[derive(Debug, Clone, Copy, PartialEq, Eq)]
pub struct UpdateConfigError {
    /// What it changed.
    pub kind: UpdateConfigErrorKind,
}

/// What a change from `old_algo` to `new_algo` would do to an outstanding permit: nothing,
/// unless the kind of algorithm or the length of the window changes.
pub open spec fn unsettling(
    old_algo: AlgorithmConfig,
    new_algo: AlgorithmConfig,
) -> Option<UpdateConfigErrorKind> {
    match (old_algo, new_algo) {
        (
            AlgorithmConfig::FixedWindow { window: old_window, .. },
            AlgorithmConfig::FixedWindow { window: new_window, .. },
        ) => if nanos(old_window) != nanos(new_window) {
            Some(UpdateConfigErrorKind::WindowChanged)
        } else {
            None
        },
        (AlgorithmConfig::TokenBucket { .. }, AlgorithmConfig::TokenBucket { .. }) => None,
        _ => Some(UpdateConfigErrorKind::AlgorithmChanged),
    }
}

impl LimiterModel {
    /// A limiter as it starts.
    pub open spec fn fresh(config: ConfigModel, started_at: nat) -> Self {
        LimiterModel {
            config,
            started_at,
            routes: Map::empty(),
            buckets: Map::empty(),
            order: Seq::empty(),
            global_blocked_until: None,
        }
    }

    /// The order lists the tracked keys, each once, and the remaps are finitely many.
    pub open spec fn wf(self) -> bool {
        &&& self.config.algorithm.wf()
        &&& self.routes.dom().finite()
        &&& self.order.no_duplicates()
        &&& forall|key: Key| #[trigger]
            self.buckets.contains_key(key) <==> self.order.contains(key)
    }

    /// The bucket key that a route key stands for: itself, unless it was remapped.
    pub open spec fn bucket_key(self, route_key: Key) -> Key {
        if self.routes.contains_key(route_key) {
            self.routes[route_key]
        } else {
            route_key
        }
    }

    /// Time since the start.
    pub open spec fn elapsed(self, now: nat) -> nat {
        monus(now, self.started_at)
    }

    /// The limits in force at `now`: the configured ones, scaled down while the ramp runs.
    pub open spec fn in_force(self, now: nat) -> AlgorithmConfig {
        match self.config.slow_start {
            None => self.config.algorithm,
            Some(slow) => match self.config.algorithm {
                AlgorithmConfig::FixedWindow { max_per_window, window } => {
                    AlgorithmConfig::FixedWindow {
                        max_per_window: ramped(
                            max_per_window as nat,
                            slow,
                            self.elapsed(now),
                        ) as u32,
                        window,
                    }
                },
                AlgorithmConfig::TokenBucket { capacity, refill_per_sec } => {
                    AlgorithmConfig::TokenBucket {
                        capacity: ramped_u64(capacity as nat, slow, self.elapsed(now)) as u64,
                        refill_per_sec: ramped_u64(
                            refill_per_sec as nat,
                            slow,
                            self.elapsed(now),
                        ) as u64,
                    }
                },
            },
        }
    }

    /// How long the ramp keeps `cost` waiting at `now`, where it is the ramp that does: it is
    /// running, and what it makes available of a limit above zero is too little.
    pub open spec fn ramp_denial(self, cost: nat, now: nat) -> Option<nat> {
        match self.config.slow_start {
            None => None,
            Some(slow) => if !ramping(slow, self.elapsed(now)) {
                None
            } else {
                match self.config.algorithm {
                    AlgorithmConfig::FixedWindow { max_per_window, .. } => {
                        let max = max_per_window as nat;
                        if max > 0 && ramped(max, slow, self.elapsed(now)) < cost {
                            Some(ramp_wait(max, slow, self.elapsed(now), cost))
                        } else {
                            None
                        }
                    },
                    AlgorithmConfig::TokenBucket { capacity, .. } => {
                        let max = capacity as nat;
                        if max > 0 && ramped_u64(max, slow, self.elapsed(now)) < cost {
                            Some(ramp_wait_u64(max, slow, self.elapsed(now), cost))
                        } else {
                            None
                        }
                    },
                }
            },
        }
    }

    /// The wait that a key answers with for which there is no room.
    pub open spec fn new_key_wait(self) -> nat {
        match self.config.algorithm {
            AlgorithmConfig::FixedWindow { window, .. } => nanos(window),
            AlgorithmConfig::TokenBucket { .. } => NANOS_PER_SEC as nat,
        }
    }

    /// Whether the bucket of a tracked key may go: it has no permit outstanding.
    pub open spec fn evictable(self, key: Key) -> bool {
        !(self.buckets.contains_key(key) && self.buckets[key].has_outstanding())
    }

    /// Whether the key at `i` is the oldest that may go.
    pub open spec fn oldest_evictable(self, i: int) -> bool {
        &&& 0 <= i < self.order.len()
        &&& self.evictable(self.order[i])
        &&& forall|j: int| 0 <= j < i ==> !self.evictable(#[trigger] self.order[j])
    }

    /// The limiter without the key at `i`.
    pub open spec fn without(self, i: int) -> Self {
        LimiterModel {
            buckets: self.buckets.remove(self.order[i]),
            order: self.order.remove(i),
            ..self
        }
    }

    /// Whether `key` is tracked, or may be tracked besides the keys that are.
    pub open spec fn fits(self, key: Key) -> bool {
        self.buckets.contains_key(key) || match self.config.max_keys {
            Some(max_keys) => self.buckets.len() < max_keys,
            None => true,
        }
    }

    /// The limiter with room for `key`: as it is where the key fits; where the policy allows it,
    /// without the oldest key that may go; nothing where there is no room.
    pub open spec fn room(self, key: Key) -> Option<Self> {
        if self.fits(key) {
            Some(self)
        } else if self.config.overflow_policy is EvictOldestKey && exists|i: int|
            self.oldest_evictable(i) {
            Some(self.without(choose|i: int| self.oldest_evictable(i)))
        } else {
            None
        }
    }

    /// The limiter that tracks `key`, from `now` on where it did not yet.
    pub open spec fn tracking(self, key: Key, now: nat) -> Self {
        if self.buckets.contains_key(key) {
            self
        } else {
            LimiterModel {
                buckets: self.buckets.insert(key, BucketModel::fresh(now, self.config.algorithm)),
                order: self.order.push(key),
                ..self
            }
        }
    }

    /// The limiter once it tracks `key`, where there is room.
    pub open spec fn admitted(self, key: Key, now: nat) -> Option<Self> {
        match self.room(key) {
            Some(m) => Some(m.tracking(key, now)),
            None => None,
        }
    }

    /// The limiter with another state of a bucket.
    pub open spec fn with_bucket(self, key: Key, bucket: BucketModel) -> Self {
        LimiterModel { buckets: self.buckets.insert(key, bucket), ..self }
    }

    /// Whether feedback blocks every key at `now`.
    pub open spec fn globally_blocked(self, now: nat) -> bool {
        self.global_blocked_until matches Some(until) && now < until
    }

    /// The limiter blocked until `until` at least; a block is never shortened.
    pub open spec fn blocked_to(self, until: nat) -> Self {
        LimiterModel {
            global_blocked_until: Some(extended(self.global_blocked_until, until)),
            ..self
        }
    }

    /// Whether feedback blocks the bucket of `key` at `now`.
    pub open spec fn key_blocked(self, key: Key, now: nat) -> bool {
        self.buckets.contains_key(key) && self.buckets[key].blocked(now)
    }

    /// The answer to an attempt to acquire `cost` for `route_key` at `now`. A block by feedback
    /// comes first, global or of the key, then the ramp, then the bound on the keys, then the
    /// bucket.
    pub open spec fn decision(self, route_key: Key, cost: nat, now: nat) -> Decision {
        let key = self.bucket_key(route_key);
        if self.globally_blocked(now) {
            Decision::Denied {
                retry_after: (self.global_blocked_until->0 - now) as nat,
                reason: DenyReason::FeedbackBackoff,
            }
        } else if self.key_blocked(key, now) {
            Decision::Denied {
                retry_after: (self.buckets[key].blocked_until->0 - now) as nat,
                reason: DenyReason::FeedbackBackoff,
            }
        } else if self.ramp_denial(cost, now) is Some {
            Decision::Denied {
                retry_after: self.ramp_denial(cost, now)->0,
                reason: DenyReason::SlowStart,
            }
        } else {
            match self.admitted(key, now) {
                None => Decision::Denied {
                    retry_after: self.new_key_wait(),
                    reason: DenyReason::KeyCardinalityBound,
                },
                Some(m) => match m.buckets[key].reservation(key, self.in_force(now), cost, now) {
                    Reservation::Granted(permit) => Decision::Granted(permit),
                    Reservation::Denied { retry_after, reason } => Decision::Denied {
                        retry_after,
                        reason: reported(reason),
                    },
                },
            }
        }
    }

    /// The limiter after an attempt to acquire `cost` for `route_key` at `now`.
    pub open spec fn after_acquire(self, route_key: Key, cost: nat, now: nat) -> Self {
        let key = self.bucket_key(route_key);
        if self.globally_blocked(now) || self.key_blocked(key, now) || self.ramp_denial(
            cost,
            now,
        ) is Some {
            self
        } else {
            match self.admitted(key, now) {
                None => self,
                Some(m) => m.with_bucket(
                    key,
                    m.buckets[key].after_reserve(self.in_force(now), cost, now),
                ),
            }
        }
    }

    /// The remap that a feedback signal brings about: none where the table of remaps is full.
    pub open spec fn applied_remap(self, route_key: Key, feedback: Feedback) -> Option<Key> {
        if self.config.max_keys matches Some(max_keys) && self.routes.len() >= max_keys
            && !self.routes.contains_key(route_key) {
            None
        } else {
            feedback.bucket_remap
        }
    }

    /// The limiter after the remap of a feedback signal.
    pub open spec fn remapped(self, route_key: Key, feedback: Feedback) -> Self {
        match self.applied_remap(route_key, feedback) {
            Some(target) => LimiterModel { routes: self.routes.insert(route_key, target), ..self },
            None => self,
        }
    }

    /// Whether a feedback signal for `route_key` finds no room for the bucket that it blocks.
    pub open spec fn feedback_lost(self, route_key: Key, feedback: Feedback, now: nat) -> bool {
        let m = self.remapped(route_key, feedback);
        !(feedback.scope is Global) && m.admitted(m.bucket_key(route_key), now) is None
    }

    /// The limiter after a feedback signal for `route_key` at `now`: a global one blocks every
    /// key, any other blocks the bucket of the route, as it is mapped after the remap.
    pub open spec fn after_feedback(self, route_key: Key, feedback: Feedback, now: nat) -> Self {
        let m = self.remapped(route_key, feedback);
        let key = m.bucket_key(route_key);
        let until = instant_after(now, nanos(feedback.spec_backoff()));
        if feedback.scope is Global {
            m.blocked_to(until)
        } else {
            match m.admitted(key, now) {
                Some(with_key) => with_key.with_bucket(
                    key,
                    with_key.buckets[key].blocked_to(until),
                ),
                None => m,
            }
        }
    }

    /// The limiter after a permit was given back at `now`.
    pub open spec fn refunded(self, permit: PermitModel, now: nat) -> Self {
        if self.buckets.contains_key(permit.key) {
            self.with_bucket(
                permit.key,
                self.buckets[permit.key].refunded(permit, now, self.config.algorithm),
            )
        } else {
            self
        }
    }

    /// The limiter after a permit was finalized with `outcome` at `now`.
    pub open spec fn committed(self, permit: PermitModel, outcome: Outcome, now: nat) -> Self {
        let m = match outcome {
            Outcome::RateLimitedFeedback { retry_after, scope: Scope::Global, .. } => {
                self.blocked_to(instant_after(now, nanos(retry_after)))
            },
            _ => self,
        };
        if m.buckets.contains_key(permit.key) {
            m.with_bucket(
                permit.key,
                m.buckets[permit.key].committed(permit, outcome, now, m.config.algorithm),
            )
        } else {
            m
        }
    }

    /// Whether a permit of a tracked key is still to be finalized.
    pub open spec fn has_outstanding(self) -> bool {
        exists|key: Key| #[trigger]
            self.buckets.contains_key(key) && self.buckets[key].has_outstanding()
    }

    /// What an update to `config` changes under outstanding permits, where it does.
    pub open spec fn update_conflict(self, config: ConfigModel) -> Option<UpdateConfigErrorKind> {
        if self.has_outstanding() {
            unsettling(self.config.algorithm, config.algorithm)
        } else {
            None
        }
    }

    /// The limiter after an update to `config` at `now`.
    pub open spec fn reconfigured(self, config: ConfigModel, now: nat) -> Self {
        LimiterModel {
            config,
            buckets: self.buckets.map_values(
                |b: BucketModel| b.updated(self.config.algorithm, config.algorithm, now),
            ),
            ..self
        }
    }
}

/// At most one key is the oldest that may go.
proof fn lemma_oldest_is_unique(m: LimiterModel, i: int, j: int)
    requires
        m.oldest_evictable(i),
        m.oldest_evictable(j),
    ensures
        i == j,
{
    if i < j {
        assert(!m.evictable(m.order[i]));
    } else if j < i {
        assert(!m.evictable(m.order[j]));
    }
}

/// Dropping a key keeps the order a list of the tracked keys.
proof fn lemma_without_wf(m: LimiterModel, i: int)
    requires
        m.wf(),
        0 <= i < m.order.len(),
    ensures
        m.without(i).wf(),
{
    let w = m.without(i);
    assert forall|key: Key| #[trigger]
        w.buckets.contains_key(key) <==> w.order.contains(key) by {
        if w.order.contains(key) {
            let k = choose|k: int| 0 <= k < w.order.len() && w.order[k] == key;
            let at = if k < i {
                k
            } else {
                k + 1
            };
            assert(m.order[at] == key);
            assert(m.order.contains(key));
        }
        if w.buckets.contains_key(key) {
            assert(m.buckets.contains_key(key));
            let k = choose|k: int| 0 <= k < m.order.len() && m.order[k] == key;
            let at = if k < i {
                k
            } else {
                k - 1
            };
            assert(w.order[at] == key);
        }
    }
}

/// Tracking a key, or changing the state of a bucket, keeps the order a list of the tracked keys.
pub(crate) proof fn lemma_tracking_wf(m: LimiterModel, key: Key, now: nat, bucket: BucketModel)
    requires
        m.wf(),
    ensures
        m.tracking(key, now).wf(),
        m.tracking(key, now).buckets.contains_key(key),
        m.tracking(key, now).with_bucket(key, bucket).wf(),
{
    let t = m.tracking(key, now);
    if !m.buckets.contains_key(key) {
        assert(t.order[t.order.len() - 1] == key);
        assert forall|k: Key| #[trigger]
            t.buckets.contains_key(k) <==> t.order.contains(k) by {
            if m.order.contains(k) {
                let i = choose|i: int| 0 <= i < m.order.len() && m.order[i] == k;
                assert(t.order[i] == k);
            }
        }
    }
}

/// The reason that an observer is told for the reason of a bucket.
pub open spec fn reported(reason: BucketDenyReason) -> DenyReason {
    match reason {
        BucketDenyReason::BlockedUntil => DenyReason::FeedbackBackoff,
        BucketDenyReason::WindowExhausted => DenyReason::WindowExhausted,
        BucketDenyReason::Disabled => DenyReason::Disabled,
        BucketDenyReason::Unachievable => DenyReason::Disabled,
    }
}

/// What each of the buckets holds.
pub open spec fn models(buckets: Map<Key, BucketState>) -> Map<Key, BucketModel> {
    buckets.map_values(|b: BucketState| b@)
}

proof fn lemma_models_insert(buckets: Map<Key, BucketState>, key: Key, b: BucketState)
    ensures
        models(buckets.insert(key, b)) == models(buckets).insert(key, b@),
{
    assert(models(buckets.insert(key, b)) =~= models(buckets).insert(key, b@));
}

/// Where at most the bucket of `key` differs, at most the model of that bucket does.
proof fn lemma_one_bucket(
    before: Map<Key, BucketState>,
    after: Map<Key, BucketState>,
    key: Key,
)
    requires
        before.contains_key(key) ==> after.contains_key(key) && after == before.insert(
            key,
            after[key],
        ),
        !before.contains_key(key) ==> after =~= before,
    ensures
        before.contains_key(key) ==> models(after) == models(before).insert(key, after[key]@),
        !before.contains_key(key) ==> models(after) == models(before),
        models(before).contains_key(key) == before.contains_key(key),
        before.contains_key(key) ==> models(before)[key] == before[key]@,
{
    if before.contains_key(key) {
        lemma_models_insert(before, key, after[key]);
    }
}

/// The observer was told of a feedback signal: first of the key that found no room, where that
/// was so, then of the signal as it was applied.
pub open spec fn feedback_noticed(
    before: RateLimiter,
    after: RateLimiter,
    route_key: Key,
    feedback: Feedback,
    now: Duration,
) -> bool {
    let m = before@.remapped(route_key, feedback);
    let notice = Notice::Feedback(
        FeedbackEvent {
            route_key,
            bucket_key: m.bucket_key(route_key),
            now,
            retry_after: feedback.spec_backoff(),
            scope: feedback.scope,
            bucket_remap: before@.applied_remap(route_key, feedback),
        },
    );
    &&& before.told(notice)
    &&& if before@.feedback_lost(route_key, feedback, nanos(now)) {
        exists|lost: DenyEvent| #[trigger]
            before.told(Notice::Deny(lost)) && lost.route_key == route_key && lost.bucket_key
                == m.bucket_key(route_key) && lost.cost@ == 1 && lost.now == now && nanos(
                lost.deny.retry_after,
            ) == m.new_key_wait() && lost.reason == DenyReason::KeyCardinalityBound
                && after.notices() == before.notices().push(Notice::Deny(lost)).push(notice)
    } else {
        after.notices() == before.notices().push(notice)
    }
}

/// The reason that an observer is told for the reason of a bucket.
fn report(reason: BucketDenyReason) -> (r: DenyReason)
    ensures
        r == reported(reason),
{
    match reason {
        BucketDenyReason::BlockedUntil => DenyReason::FeedbackBackoff,
        BucketDenyReason::WindowExhausted => DenyReason::WindowExhausted,
        BucketDenyReason::Disabled => DenyReason::Disabled,
        BucketDenyReason::Unachievable => DenyReason::Disabled,
    }
}

/// What a change from `old_algo` to `new_algo` would do to an outstanding permit.
fn unsettles(old_algo: AlgorithmConfig, new_algo: AlgorithmConfig) -> (r: Option<
    UpdateConfigErrorKind,
>)
    ensures
        r == unsettling(old_algo, new_algo),
{
    match (old_algo, new_algo) {
        (
            AlgorithmConfig::FixedWindow { window: old_window, .. },
            AlgorithmConfig::FixedWindow { window: new_window, .. },
        ) => {
            if time::same(old_window, new_window) {
                None
            } else {
                Some(UpdateConfigErrorKind::WindowChanged)
            }
        },
        (AlgorithmConfig::TokenBucket { .. }, AlgorithmConfig::TokenBucket { .. }) => None,
        _ => Some(UpdateConfigErrorKind::AlgorithmChanged),
    }
}

/// A protocol-agnostic, synchronous rate limiter.
///
/// This core type is intentionally single-owner (`&mut self` methods) to keep the hot path fast
/// and allocation-free for existing keys. Concurrency is achieved by wrapping it in an actor or
/// by putting it behind an external synchronization strategy chosen by the application.
pub struct RateLimiter {
    cfg: Config,
    started_at: Duration,
    // Input (route) key -> bucket key remap. Defaults to identity when absent.
    route_map: HashMap<Key, Key>,
    buckets: HashMap<Key, BucketState>,
    fifo: VecDeque<Key>,
    global_blocked_until: Option<Duration>,
    watch: Watch,
}

impl RateLimiter {
    /// What the limiter holds.
    pub closed spec fn view(self) -> LimiterModel {
        LimiterModel {
            config: self.cfg@,
            started_at: nanos(self.started_at),
            routes: self.route_map@,
            buckets: models(self.buckets@),
            order: self.fifo@,
            global_blocked_until: opt_nanos(self.global_blocked_until),
        }
    }

    /// The order lists the tracked keys, each once.
    pub open spec fn wf(self) -> bool {
        self@.wf()
    }

    /// The events that were handed to observers so far, oldest first.
    pub closed spec fn notices(self) -> Seq<Notice> {
        self.watch.notices()
    }

    /// The hook of the observer in place returned from a call with this event.
    pub closed spec fn told(self, notice: Notice) -> bool {
        self.watch.told(notice)
    }

    /// The observer and the events handed to observers are those of `other`.
    spec fn same_watch(self, other: Self) -> bool {
        self.watch == other.watch
    }

    /// Create a new limiter that started at time zero.
    pub fn new(cfg: Config) -> (limiter: Self)
        ensures
            limiter.wf(),
            limiter@ == LimiterModel::fresh(cfg@, 0),
            limiter.notices() == Seq::<Notice>::empty(),
    {
        Self::new_at(cfg, time::zero())
    }

    /// Create a new limiter with an explicit `started_at` timestamp (must use the same clock
    /// domain as `now`).
    pub fn new_at(cfg: Config, started_at: Duration) -> (limiter: Self)
        ensures
            limiter.wf(),
            limiter@ == LimiterModel::fresh(cfg@, nanos(started_at)),
            limiter.notices() == Seq::<Notice>::empty(),
    {
        proof {
            use_type_invariant(&cfg);
        }
        let limiter = Self {
            cfg,
            started_at,
            route_map: HashMap::new(),
            buckets: HashMap::new(),
            fifo: VecDeque::new(),
            global_blocked_until: None,
            watch: Watch::new(),
        };
        assert(limiter@.buckets =~= Map::empty());
        limiter
    }

    fn resolve_bucket_key(&self, route_key: Key) -> (key: Key)
        ensures
            key == self@.bucket_key(route_key),
    {
        match self.route_map.get(&route_key) {
            Some(key) => *key,
            None => route_key,
        }
    }

    fn effective_algorithm(&self, now: Duration) -> (algo: AlgorithmConfig)
        ensures
            algo == self@.in_force(nanos(now)),
            algo.wf(),
    {
        let algorithm: AlgorithmConfig = self.cfg.algorithm();
        match self.cfg.slow_start() {
            None => algorithm,
            Some(slow) => match algorithm {
                AlgorithmConfig::FixedWindow { max_per_window, window } => {
                    AlgorithmConfig::FixedWindow {
                        max_per_window: slow_start::effective_max(
                            max_per_window,
                            slow,
                            self.started_at,
                            now,
                        ),
                        window,
                    }
                },
                AlgorithmConfig::TokenBucket { capacity, refill_per_sec } => {
                    AlgorithmConfig::TokenBucket {
                        capacity: slow_start::effective_u64(capacity, slow, self.started_at, now),
                        refill_per_sec: slow_start::effective_u64(
                            refill_per_sec,
                            slow,
                            self.started_at,
                            now,
                        ),
                    }
                },
            },
        }
    }

    fn slow_start_pre_deny(
        &self,
        cost: Cost,
        now: Duration,
        effective_algo: AlgorithmConfig,
    ) -> (deny: Option<Deny>)
        requires
            effective_algo == self@.in_force(nanos(now)),
        ensures
            self@.ramp_denial(cost@ as nat, nanos(now)) == (match deny {
                Some(d) => Some(nanos(d.retry_after)),
                None => None,
            }),
    {
        let slow: SlowStart = match self.cfg.slow_start() {
            Some(slow) => slow,
            None => {
                return None;
            },
        };
        if !time::shorter(time::saturating_sub(now, self.started_at), slow.ramp()) {
            return None;
        }
        match (self.cfg.algorithm(), effective_algo) {
            (
                AlgorithmConfig::FixedWindow { max_per_window: max_cfg, .. },
                AlgorithmConfig::FixedWindow { max_per_window: max_eff, .. },
            ) => {
                proof {
                    slow_start::law_ramp_is_conservative(
                        max_cfg as nat,
                        slow,
                        self@.elapsed(nanos(now)),
                    );
                }
                if max_cfg == 0 || max_eff >= cost.get() {
                    return None;
                }
                Some(
                    Deny {
                        retry_after: slow_start::retry_after_for_cost(
                            max_cfg,
                            slow,
                            self.started_at,
                            now,
                            cost.get(),
                        ),
                    },
                )
            },
            (
                AlgorithmConfig::TokenBucket { capacity, .. },
                AlgorithmConfig::TokenBucket { capacity: cap_eff, .. },
            ) => {
                proof {
                    slow_start::law_ramp_is_conservative(
                        capacity as nat,
                        slow,
                        self@.elapsed(nanos(now)),
                    );
                }
                let want: u64 = cost.get() as u64;
                if capacity == 0 || cap_eff >= want {
                    return None;
                }
                Some(
                    Deny {
                        retry_after: slow_start::retry_after_for_cost_u64(
                            capacity,
                            slow,
                            self.started_at,
                            now,
                            want,
                        ),
                    },
                )
            },
            _ => None,
        }
    }

    fn retry_after_on_new_key_deny(&self) -> (wait: Duration)
        ensures
            nanos(wait) == self@.new_key_wait(),
    {
        match self.cfg.algorithm() {
            AlgorithmConfig::FixedWindow { window, .. } => window,
            AlgorithmConfig::TokenBucket { .. } => time::from_secs(1),
        }
    }

    /// Makes room for `bucket_key`, evicting the oldest key that may go where the policy asks for
    /// it.
    fn ensure_bucket_capacity(&mut self, bucket_key: Key) -> (r: Result<(), Deny>)
        requires
            old(self).wf(),
        ensures
            match (r, old(self)@.room(bucket_key)) {
                (Ok(()), Some(m)) => final(self)@ == m && final(self).wf(),
                (Err(deny), None) => final(self)@ == old(self)@ && nanos(deny.retry_after)
                    == old(self)@.new_key_wait(),
                _ => false,
            },
            final(self).same_watch(*old(self)),
    {
        let retry_after: Duration = self.retry_after_on_new_key_deny();
        if self.buckets.contains_key(&bucket_key) {
            return Ok(());
        }
        let max_keys: usize = match self.cfg.max_keys() {
            Some(max_keys) => max_keys,
            None => {
                return Ok(());
            },
        };
        if self.tracked_keys() < max_keys {
            return Ok(());
        }
        match self.cfg.overflow_policy() {
            OverflowPolicy::DenyNewKey => Err(Deny { retry_after }),
            OverflowPolicy::EvictOldestKey => {
                match self.find_evictable() {
                    Some(idx) => {
                        proof {
                            lemma_oldest_is_unique(
                                self@,
                                idx as int,
                                choose|i: int| self@.oldest_evictable(i),
                            );
                        }
                        if let Some(oldest) = self.fifo.remove(idx) {
                            self.buckets.remove(&oldest);
                        }
                        assert(self@.buckets =~= old(self)@.without(idx as int).buckets);
                        proof {
                            lemma_without_wf(old(self)@, idx as int);
                        }
                        Ok(())
                    },
                    // All tracked keys have outstanding reservations.
                    None => Err(Deny { retry_after }),
                }
            },
        }
    }

    /// The position of the oldest key without outstanding reservations.
    fn find_evictable(&self) -> (r: Option<usize>)
        ensures
            match r {
                Some(i) => self@.oldest_evictable(i as int),
                None => forall|i: int| !self@.oldest_evictable(i),
            },
    {
        let mut i: usize = 0;
        while i < self.fifo.len()
            invariant
                i <= self.fifo@.len(),
                forall|j: int| 0 <= j < i ==> !self@.evictable(#[trigger] self@.order[j]),
            decreases self.fifo@.len() - i,
        {
            let evictable: bool = match self.buckets.get(&self.fifo[i]) {
                Some(bucket) => !bucket.has_outstanding(),
                None => true,
            };
            assert(evictable == self@.evictable(self@.order[i as int]));
            if evictable {
                return Some(i);
            }
            i = i + 1;
        }
        None
    }

    /// The bucket of `bucket_key`, tracked from now on where there is room for it.
    fn bucket_mut_or_insert(&mut self, bucket_key: Key, now: Duration) -> (r: Result<
        &mut BucketState,
        Deny,
    >)
        requires
            old(self).wf(),
        ensures
            match (r, old(self)@.admitted(bucket_key, nanos(now))) {
                (Ok(bucket), Some(m)) => {
                    &&& bucket@ == m.buckets[bucket_key]
                    &&& final(self)@ == m.with_bucket(bucket_key, final(bucket)@)
                    &&& final(self).wf()
                },
                (Err(deny), None) => final(self)@ == old(self)@ && nanos(deny.retry_after)
                    == old(self)@.new_key_wait(),
                _ => false,
            },
            final(self).same_watch(*old(self)),
    {
        if let Err(deny) = self.ensure_bucket_capacity(bucket_key) {
            return Err(deny);
        }
        let algorithm: AlgorithmConfig = self.cfg.algorithm();
        proof {
            let m = self@;
            assert forall|b: BucketState| #[trigger]
                models(self.buckets@.insert(bucket_key, b)) == models(self.buckets@).insert(
                    bucket_key,
                    b@,
                ) by {
                lemma_models_insert(self.buckets@, bucket_key, b);
            }
            assert forall|b: BucketState|
                m.tracking(bucket_key, nanos(now)).with_bucket(bucket_key, #[trigger] b@).wf() by {
                lemma_tracking_wf(m, bucket_key, nanos(now), b@);
            }
            assert forall|b: BucketModel| m.buckets.insert(
                bucket_key,
                BucketModel::fresh(nanos(now), algorithm),
            ).insert(bucket_key, b) == #[trigger] m.buckets.insert(bucket_key, b) by {
                assert(m.buckets.insert(
                    bucket_key,
                    BucketModel::fresh(nanos(now), algorithm),
                ).insert(bucket_key, b) =~= m.buckets.insert(bucket_key, b));
            }
        }
        match self.buckets.entry(bucket_key) {
            Entry::Occupied(e) => Ok(e.into_mut()),
            Entry::Vacant(v) => {
                self.fifo.push_back(bucket_key);
                Ok(v.insert(BucketState::new(now, algorithm)))
            },
        }
    }

    /// The observer in place is `observer`.
    pub closed spec fn observed_by(self, observer: &dyn LimiterObserver) -> bool {
        self.watch.holds(observer)
    }

    /// The observer in place is the one of `other`.
    pub closed spec fn same_observer(self, other: Self) -> bool {
        self.watch.same_observer(other.watch)
    }

    /// Attach an observer to receive deny/feedback events.
    pub fn set_observer(&mut self, observer: Box<dyn LimiterObserver>)
        ensures
            final(self)@ == old(self)@,
            final(self).observed_by(&*observer),
            final(self).notices() == old(self).notices(),
    {
        self.watch.set(observer);
    }

    /// Attempt to reserve `cost` capacity for `route_key` at time `now`.
    pub fn try_acquire(&mut self, route_key: Key, cost: Cost, now: Duration) -> (r: Result<
        Permit,
        Deny,
    >)
        requires
            old(self).wf(),
        ensures
            final(self).wf(),
            final(self)@ == old(self)@.after_acquire(route_key, cost@ as nat, nanos(now)),
            final(self).same_observer(*old(self)),
            match r {
                Ok(permit) => {
                    &&& old(self)@.decision(route_key, cost@ as nat, nanos(now))
                        == Decision::Granted(permit@)
                    &&& final(self).notices() == old(self).notices()
                },
                Err(deny) => {
                    &&& old(self)@.decision(route_key, cost@ as nat, nanos(now)) matches
                        Decision::Denied { retry_after, reason }
                    &&& retry_after == nanos(deny.retry_after)
                    &&& ({
                        let notice = Notice::Deny(
                            DenyEvent {
                                route_key,
                                bucket_key: old(self)@.bucket_key(route_key),
                                cost,
                                now,
                                deny,
                                reason,
                            },
                        );
                        final(self).notices() == old(self).notices().push(notice) && old(
                            self,
                        ).told(notice)
                    })
                },
            },
    {
        let bucket_key: Key = self.resolve_bucket_key(route_key);
        match self.reserve(bucket_key, cost, now) {
            Ok(permit) => Ok(permit),
            Err((deny, reason)) => {
                self.watch.on_deny(DenyEvent { route_key, bucket_key, cost, now, deny, reason });
                Err(deny)
            },
        }
    }

    /// Reserves `cost` of the bucket of `bucket_key`, or gives the denial and its reason.
    fn reserve(&mut self, bucket_key: Key, cost: Cost, now: Duration) -> (r: Result<
        Permit,
        (Deny, DenyReason),
    >)
        requires
            old(self).wf(),
        ensures
            final(self).wf(),
            final(self).same_watch(*old(self)),
            forall|route_key: Key|
                old(self)@.bucket_key(route_key) == bucket_key ==> {
                    &&& final(self)@ == #[trigger] old(self)@.after_acquire(
                        route_key,
                        cost@ as nat,
                        nanos(now),
                    )
                    &&& old(self)@.decision(route_key, cost@ as nat, nanos(now)) == (match r {
                        Ok(permit) => Decision::Granted(permit@),
                        Err((deny, reason)) => Decision::Denied {
                            retry_after: nanos(deny.retry_after),
                            reason,
                        },
                    })
                },
    {
        if let Some(until) = self.global_blocked_until {
            if time::shorter(now, until) {
                let deny = Deny { retry_after: time::saturating_sub(until, now) };
                return Err((deny, DenyReason::FeedbackBackoff));
            }
        }
        if let Some(bucket) = self.buckets.get(&bucket_key) {
            if let Some(retry_after) = bucket.block_left(now) {
                return Err((Deny { retry_after }, DenyReason::FeedbackBackoff));
            }
        }
        let effective_algo: AlgorithmConfig = self.effective_algorithm(now);
        if let Some(deny) = self.slow_start_pre_deny(cost, now, effective_algo) {
            return Err((deny, DenyReason::SlowStart));
        }
        let res = match self.bucket_mut_or_insert(bucket_key, now) {
            Ok(bucket) => bucket.try_reserve(bucket_key, effective_algo, cost, now),
            Err(deny) => {
                return Err((deny, DenyReason::KeyCardinalityBound));
            },
        };
        match res {
            Ok(permit) => Ok(permit),
            Err(d) => Err((d.deny, report(d.reason))),
        }
    }

    /// Apply a server rate-limit feedback signal.
    ///
    /// This is intended for 429-like feedback paths and does not require a `Permit`. The signal
    /// is read once, and what was read is applied.
    pub fn apply_feedback<F: RateLimitFeedback>(
        &mut self,
        route_key: Key,
        feedback: &F,
        now: Duration,
    )
        requires
            old(self).wf(),
        ensures
            final(self).wf(),
            final(self).same_observer(*old(self)),
            exists|read: Feedback| #[trigger]
                reads_as(feedback, read) && final(self)@ == old(self)@.after_feedback(
                    route_key,
                    read,
                    nanos(now),
                ) && feedback_noticed(*old(self), *final(self), route_key, read, now),
    {
        let read: Feedback = Feedback::read(feedback);
        self.apply_feedback_value(route_key, read, now);
        assert(reads_as(feedback, read));
    }

    /// Apply what was read of a server rate-limit feedback signal.
    pub fn apply_feedback_value(&mut self, route_key: Key, feedback: Feedback, now: Duration)
        requires
            old(self).wf(),
        ensures
            final(self).wf(),
            final(self).same_observer(*old(self)),
            final(self)@ == old(self)@.after_feedback(route_key, feedback, nanos(now)),
            feedback_noticed(*old(self), *final(self), route_key, feedback, now),
    {
        let applied_remap: Option<Key> = match feedback.bucket_remap {
            Some(target) => {
                if self.apply_route_remap(route_key, target) {
                    Some(target)
                } else {
                    None
                }
            },
            None => None,
        };
        assert(self@ == old(self)@.remapped(route_key, feedback));
        assert(applied_remap == old(self)@.applied_remap(route_key, feedback));
        let bucket_key: Key = self.resolve_bucket_key(route_key);
        let backoff: Duration = feedback.backoff();
        let until: Duration = time::saturating_add(now, backoff);

        match feedback.scope {
            FeedbackScope::Global => {
                self.global_blocked_until = Some(time::extend(self.global_blocked_until, until));
            },
            FeedbackScope::Key | FeedbackScope::Route => {
                // Ensure bucket exists deterministically for unknown keys.
                let denied: Option<Deny> = match self.bucket_mut_or_insert(bucket_key, now) {
                    Ok(bucket) => {
                        bucket.apply_blocked_until(until);
                        None
                    },
                    Err(deny) => Some(deny),
                };
                if let Some(deny) = denied {
                    let lost = DenyEvent {
                        route_key,
                        bucket_key,
                        cost: Cost::one(),
                        now,
                        deny,
                        reason: DenyReason::KeyCardinalityBound,
                    };
                    self.watch.on_deny(lost);
                    assert(old(self).told(Notice::Deny(lost)));
                }
            },
        }

        self.watch.on_feedback(
            FeedbackEvent {
                route_key,
                bucket_key,
                now,
                retry_after: backoff,
                scope: feedback.scope,
                bucket_remap: applied_remap,
            },
        );
    }

    fn apply_route_remap(&mut self, route_key: Key, new_bucket: Key) -> (applied: bool)
        ensures
            applied == !(old(self)@.config.max_keys matches Some(max_keys) && old(
                self,
            )@.routes.len() >= max_keys && !old(self)@.routes.contains_key(route_key)),
            final(self)@ == if applied {
                LimiterModel {
                    routes: old(self)@.routes.insert(route_key, new_bucket),
                    ..old(self)@
                }
            } else {
                old(self)@
            },
            final(self).same_watch(*old(self)),
    {
        // Best-effort bounding: reuse `max_keys` if configured.
        if let Some(max_keys) = self.cfg.max_keys() {
            if self.route_map.len() >= max_keys && !self.route_map.contains_key(&route_key) {
                // If the mapping table is full, refuse to grow it; the caller can still pass the
                // bucket key directly.
                return false;
            }
        }
        self.route_map.insert(route_key, new_bucket);
        true
    }

    /// Finalize a permit as spent.
    ///
    /// If `outcome` is [`Outcome::NotSent`], this acts like a refund.
    pub fn commit(&mut self, permit: Permit, outcome: Outcome, now: Duration)
        requires
            old(self).wf(),
        ensures
            final(self).wf(),
            final(self)@ == old(self)@.committed(permit@, outcome, nanos(now)),
            final(self).same_observer(*old(self)),
            final(self).notices() == old(self).notices(),
    {
        if let Outcome::RateLimitedFeedback { retry_after, scope: Scope::Global, .. } = &outcome {
            let until: Duration = time::saturating_add(now, *retry_after);
            self.global_blocked_until = Some(time::extend(self.global_blocked_until, until));
        }
        let algorithm: AlgorithmConfig = self.cfg.algorithm();
        let key: Key = permit.key();
        let ghost buckets = self.buckets@;
        if let Entry::Occupied(mut e) = self.buckets.entry(key) {
            e.get_mut().commit(permit, outcome, now, algorithm);
        }
        proof {
            lemma_one_bucket(buckets, self.buckets@, key);
        }
    }

    /// Finalize a permit as not-sent and restore capacity.
    pub fn refund(&mut self, permit: Permit, now: Duration)
        requires
            old(self).wf(),
        ensures
            final(self).wf(),
            final(self)@ == old(self)@.refunded(permit@, nanos(now)),
            final(self).same_observer(*old(self)),
            final(self).notices() == old(self).notices(),
    {
        let algorithm: AlgorithmConfig = self.cfg.algorithm();
        let key: Key = permit.key();
        let ghost buckets = self.buckets@;
        if let Entry::Occupied(mut e) = self.buckets.entry(key) {
            e.get_mut().refund(permit, now, algorithm);
        }
        proof {
            lemma_one_bucket(buckets, self.buckets@, key);
        }
    }

    /// Apply a runtime configuration update deterministically.
    ///
    /// The update is applied in every case. An error says that it changed the kind of algorithm,
    /// or the length of the fixed window, while permits were outstanding. A bucket with outstanding
    /// permits keeps its window until they are finalized; under another kind of algorithm, their
    /// finalization is a no-op.
    pub fn update_config(&mut self, new_cfg: Config, now: Duration) -> (r: Result<
        (),
        UpdateConfigError,
    >)
        requires
            old(self).wf(),
        ensures
            final(self).wf(),
            final(self)@ == old(self)@.reconfigured(new_cfg@, nanos(now)),
            r == (match old(self)@.update_conflict(new_cfg@) {
                Some(kind) => Err(UpdateConfigError { kind }),
                None => Ok(()),
            }),
            final(self).same_observer(*old(self)),
            final(self).notices() == old(self).notices(),
    {
        let old_algo: AlgorithmConfig = self.cfg.algorithm();
        let new_algo: AlgorithmConfig = new_cfg.algorithm();
        proof {
            use_type_invariant(&new_cfg);
        }
        let conflict: Option<UpdateConfigErrorKind> = match unsettles(old_algo, new_algo) {
            Some(kind) => if self.any_outstanding() {
                Some(kind)
            } else {
                None
            },
            None => None,
        };
        self.cfg = new_cfg;
        let ghost before = self.buckets@;
        let mut i: usize = 0;
        while i < self.fifo.len()
            invariant
                i <= self.fifo@.len(),
                old(self).wf(),
                new_algo.wf(),
                self.cfg == new_cfg,
                self.started_at == old(self).started_at,
                self.route_map == old(self).route_map,
                self.fifo == old(self).fifo,
                self.global_blocked_until == old(self).global_blocked_until,
                self.watch == old(self).watch,
                before == old(self).buckets@,
                self.buckets@.dom() == before.dom(),
                forall|j: int|
                    0 <= j < i ==> self.buckets@[#[trigger] self.fifo@[j]]@
                        == before[self.fifo@[j]]@.updated(old_algo, new_algo, nanos(now)),
                forall|j: int|
                    i <= j < self.fifo@.len() ==> self.buckets@[#[trigger] self.fifo@[j]]
                        == before[self.fifo@[j]],
            decreases self.fifo@.len() - i,
        {
            let key: Key = self.fifo[i];
            assert(old(self)@.order.contains(key));
            assert(old(self)@.buckets.contains_key(key));
            if let Entry::Occupied(mut e) = self.buckets.entry(key) {
                e.get_mut().on_update(old_algo, new_algo, now);
            }
            assert(self.buckets@.dom() =~= before.dom());
            i = i + 1;
        }
        proof {
            let after = old(self)@.reconfigured(new_cfg@, nanos(now));
            assert forall|key: Key| #[trigger] after.buckets.contains_key(key) implies models(
                self.buckets@,
            )[key] == after.buckets[key] by {
                assert(old(self)@.buckets.contains_key(key));
                let j = choose|j: int| 0 <= j < self.fifo@.len() && self.fifo@[j] == key;
                assert(self.buckets@[self.fifo@[j]]@ == before[key]@.updated(
                    old_algo,
                    new_algo,
                    nanos(now),
                ));
            }
            assert(self@.buckets =~= after.buckets);
            assert forall|key: Key| #[trigger]
                self@.buckets.contains_key(key) <==> self@.order.contains(key) by {
                assert(old(self)@.buckets.contains_key(key) <==> old(self)@.order.contains(key));
            }
        }
        match conflict {
            Some(kind) => Err(UpdateConfigError { kind }),
            None => Ok(()),
        }
    }

    /// Whether a permit of a tracked key is still to be finalized.
    fn any_outstanding(&self) -> (r: bool)
        requires
            self.wf(),
        ensures
            r == self@.has_outstanding(),
    {
        let mut i: usize = 0;
        while i < self.fifo.len()
            invariant
                self.wf(),
                i <= self.fifo@.len(),
                forall|j: int|
                    0 <= j < i ==> !self@.buckets[#[trigger] self@.order[j]].has_outstanding(),
            decreases self.fifo@.len() - i,
        {
            let key: Key = self.fifo[i];
            assert(self@.order.contains(key));
            assert(self@.buckets.contains_key(key));
            if let Some(bucket) = self.buckets.get(&key) {
                if bucket.has_outstanding() {
                    return true;
                }
            }
            i = i + 1;
        }
        assert forall|key: Key| #[trigger]
            self@.buckets.contains_key(key) implies !self@.buckets[key].has_outstanding() by {
            let j = choose|j: int| 0 <= j < self@.order.len() && self@.order[j] == key;
            assert(!self@.buckets[self@.order[j]].has_outstanding());
        }
        false
    }

    /// Current number of tracked bucket keys.
    pub fn tracked_keys(&self) -> (n: usize)
        ensures
            n == self@.buckets.len(),
    {
        assert(self@.buckets.dom() =~= self.buckets@.dom());
        self.buckets.len()
    }
}

} // verus!
