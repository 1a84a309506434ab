//! Per-key accounting: a fixed window or a credit pool, behind a feedback block.

use crate::config::AlgorithmConfig;
use crate::time;
use crate::time::{
    extended, instant_after, least, monus, nanos, opt_nanos, MAX_NANOS, NANOS_PER_SEC,
};
use crate::token_bucket::{TokenBucketModel, TokenBucketState};
use crate::types::{Cost, Deny, Key, Outcome, Permit, PermitModel, Scope};
use std::time::Duration;
use vstd::prelude::*;

verus! {

/// Why a bucket denied a reservation.
#[derive(Debug, Clone, Copy, PartialEq, Eq)]
pub enum BucketDenyReason {
    /// The bucket is blocked until an instant that is yet to come.
    BlockedUntil,
    /// The capacity is used up for now.
    WindowExhausted,
    /// The limit is zero, or does not fit the state of the bucket.
    Disabled,
    /// The cost can never be granted under the limit.
    Unachievable,
}

/// A denial and its reason.
#[derive(Debug, Clone, Copy, PartialEq, Eq)]
pub struct BucketDeny {
    /// The denial.
    pub deny: Deny,
    /// Why it was given.
    pub reason: BucketDenyReason,
}

/// The answer to an attempt to reserve, with times in nanoseconds.
pub enum Reservation {
    /// The capacity is reserved.
    Granted(PermitModel),
    /// Nothing is reserved.
    Denied {
        /// How long to wait.
        retry_after: nat,
        /// Why it was denied.
        reason: BucketDenyReason,
    },
}

/// The last multiple of `window` that is not later than `now`.
pub open spec fn window_floor(now: nat, window: nat) -> nat
    recommends
        window > 0,
{
    (now - now % window) as nat
}

/// What a fixed window holds, with times in nanoseconds.
pub struct WindowModel {
    /// Start of the window.
    pub window_start: nat,
    /// Capacity reserved by permits that are not finalized yet.
    pub reserved: nat,
    /// Capacity spent in this window.
    pub spent: nat,
}

impl WindowModel {
    /// An unused window that holds `now`.
    pub open spec fn fresh(now: nat, window: nat) -> Self {
        WindowModel { window_start: window_floor(now, window), reserved: 0, spent: 0 }
    }

    /// End of the window, held at the longest duration.
    pub open spec fn end(self, window: nat) -> nat {
        instant_after(self.window_start, window)
    }

    /// The window that counts at `now`: a fresh one once this one is over, but never while a
    /// permit of this one is outstanding.
    pub open spec fn current(self, window: nat, now: nat) -> Self {
        if self.reserved == 0 && now >= self.window_start + window {
            Self::fresh(now, window)
        } else {
            self
        }
    }

    /// What stands in the way of `cost` in the window that counts at `now`: how long to wait,
    /// and why.
    pub open spec fn obstacle(self, max: nat, window: nat, cost: nat, now: nat) -> Option<
        (nat, BucketDenyReason),
    > {
        if max == 0 {
            Some((window, BucketDenyReason::Disabled))
        } else if cost > max {
            Some((MAX_NANOS as nat, BucketDenyReason::Unachievable))
        } else if self.spent + self.reserved + cost > max {
            Some((monus(self.end(window), now), BucketDenyReason::WindowExhausted))
        } else {
            None
        }
    }

    /// The window once a reservation of `cost` made in the window from `window_start` was spent
    /// (`sent`) or given back at `now`. A permit of another window changes no count.
    pub open spec fn finalized(
        self,
        window: nat,
        window_start: nat,
        cost: nat,
        sent: bool,
        now: nat,
    ) -> Self {
        let current = self.current(window, now);
        if window_start != current.window_start {
            current
        } else {
            WindowModel {
                window_start,
                reserved: monus(current.reserved, cost),
                spent: if sent {
                    least(current.spent + cost, u32::MAX as nat)
                } else {
                    current.spent
                },
            }
        }
    }
}

/// What the algorithm of a bucket holds.
pub enum AlgoModel {
    /// A fixed window.
    FixedWindow(WindowModel),
    /// A credit pool.
    TokenBucket(TokenBucketModel),
}

impl AlgoModel {
    /// The state in which a bucket of this algorithm starts.
    pub open spec fn fresh(now: nat, algo: AlgorithmConfig) -> Self {
        match algo {
            AlgorithmConfig::FixedWindow { window, .. } => AlgoModel::FixedWindow(
                WindowModel::fresh(now, nanos(window)),
            ),
            AlgorithmConfig::TokenBucket { capacity, .. } => AlgoModel::TokenBucket(
                TokenBucketModel::full(now, capacity as nat),
            ),
        }
    }

    /// Whether the state is one of this kind of algorithm.
    pub open spec fn suits(self, algo: AlgorithmConfig) -> bool {
        self is FixedWindow <==> algo is FixedWindow
    }
}

/// What a bucket holds.
pub struct BucketModel {
    /// The instant until which feedback blocks the bucket.
    pub blocked_until: Option<nat>,
    /// The accounting.
    pub algo: AlgoModel,
}

impl BucketModel {
    /// A bucket as it starts.
    pub open spec fn fresh(now: nat, algo: AlgorithmConfig) -> Self {
        BucketModel { blocked_until: None, algo: AlgoModel::fresh(now, algo) }
    }

    /// What the permits cost together that are still to be finalized.
    pub open spec fn outstanding(self) -> nat {
        match self.algo {
            AlgoModel::FixedWindow(w) => w.reserved,
            AlgoModel::TokenBucket(s) => s.in_flight,
        }
    }

    /// Whether a permit of the bucket is still to be finalized.
    pub open spec fn has_outstanding(self) -> bool {
        self.outstanding() != 0
    }

    /// Whether feedback blocks the bucket at `now`.
    pub open spec fn blocked(self, now: nat) -> bool {
        self.blocked_until matches Some(until) && now < until
    }

    /// The bucket with a block that is over at `now` lifted.
    pub open spec fn unblocked(self, now: nat) -> Self {
        BucketModel {
            blocked_until: if self.blocked(now) {
                self.blocked_until
            } else {
                None
            },
            algo: self.algo,
        }
    }

    /// The bucket blocked until `until` at least; a block is never shortened.
    pub open spec fn blocked_to(self, until: nat) -> Self {
        BucketModel { blocked_until: Some(extended(self.blocked_until, until)), algo: self.algo }
    }

    /// The answer to an attempt to reserve `cost` at `now` under the limits of `algo`.
    pub open spec fn reservation(
        self,
        key: Key,
        algo: AlgorithmConfig,
        cost: nat,
        now: nat,
    ) -> Reservation {
        if self.blocked(now) {
            Reservation::Denied {
                retry_after: (self.blocked_until->0 - now) as nat,
                reason: BucketDenyReason::BlockedUntil,
            }
        } else {
            match (self.algo, algo) {
                (
                    AlgoModel::FixedWindow(w),
                    AlgorithmConfig::FixedWindow { max_per_window, window },
                ) => {
                    let current = w.current(nanos(window), now);
                    match current.obstacle(max_per_window as nat, nanos(window), cost, now) {
                        Some((retry_after, reason)) => Reservation::Denied { retry_after, reason },
                        None => Reservation::Granted(
                            PermitModel {
                                key,
                                cost,
                                issued_at: now,
                                deadline: current.end(nanos(window)),
                                window_start: Some(current.window_start),
                            },
                        ),
                    }
                },
                (
                    AlgoModel::TokenBucket(s),
                    AlgorithmConfig::TokenBucket { capacity, refill_per_sec },
                ) => {
                    if capacity == 0 {
                        Reservation::Denied {
                            retry_after: MAX_NANOS as nat,
                            reason: BucketDenyReason::Disabled,
                        }
                    } else {
                        match s.refilled(capacity as nat, refill_per_sec as nat, now).wait(
                            capacity as nat,
                            refill_per_sec as nat,
                            cost,
                        ) {
                            Some(retry_after) => Reservation::Denied {
                                retry_after,
                                reason: if retry_after == MAX_NANOS {
                                    BucketDenyReason::Unachievable
                                } else {
                                    BucketDenyReason::WindowExhausted
                                },
                            },
                            None => Reservation::Granted(
                                PermitModel {
                                    key,
                                    cost,
                                    issued_at: now,
                                    deadline: 0,
                                    window_start: None,
                                },
                            ),
                        }
                    }
                },
                _ => Reservation::Denied {
                    retry_after: NANOS_PER_SEC as nat,
                    reason: BucketDenyReason::Disabled,
                },
            }
        }
    }

    /// The bucket after an attempt to reserve `cost` at `now` under the limits of `algo`.
    pub open spec fn after_reserve(self, algo: AlgorithmConfig, cost: nat, now: nat) -> Self {
        if self.blocked(now) {
            self
        } else {
            BucketModel {
                blocked_until: None,
                algo: match (self.algo, algo) {
                    (
                        AlgoModel::FixedWindow(w),
                        AlgorithmConfig::FixedWindow { max_per_window, window },
                    ) => {
                        let current = w.current(nanos(window), now);
                        AlgoModel::FixedWindow(
                            if current.obstacle(
                                max_per_window as nat,
                                nanos(window),
                                cost,
                                now,
                            ) is None {
                                WindowModel { reserved: current.reserved + cost, ..current }
                            } else {
                                current
                            },
                        )
                    },
                    (
                        AlgoModel::TokenBucket(s),
                        AlgorithmConfig::TokenBucket { capacity, refill_per_sec },
                    ) => {
                        AlgoModel::TokenBucket(
                            if capacity == 0 {
                                s
                            } else {
                                s.reserved(capacity as nat, refill_per_sec as nat, cost, now)
                            },
                        )
                    },
                    _ => self.algo,
                },
            }
        }
    }

    /// The accounting once a permit was spent (`sent`) or given back at `now`. A permit of
    /// another algorithm changes nothing.
    pub open spec fn settled(
        self,
        permit: PermitModel,
        sent: bool,
        now: nat,
        algo: AlgorithmConfig,
    ) -> AlgoModel {
        match (self.algo, algo, permit.window_start) {
            (
                AlgoModel::FixedWindow(w),
                AlgorithmConfig::FixedWindow { window, .. },
                Some(window_start),
            ) => AlgoModel::FixedWindow(
                w.finalized(nanos(window), window_start, permit.cost, sent, now),
            ),
            (
                AlgoModel::TokenBucket(s),
                AlgorithmConfig::TokenBucket { capacity, refill_per_sec },
                None,
            ) => AlgoModel::TokenBucket(
                if sent {
                    s.committed(permit.cost)
                } else {
                    s.refunded(capacity as nat, refill_per_sec as nat, permit.cost, now)
                },
            ),
            _ => self.algo,
        }
    }

    /// The bucket after a permit was given back at `now`.
    pub open spec fn refunded(self, permit: PermitModel, now: nat, algo: AlgorithmConfig) -> Self {
        BucketModel {
            algo: self.settled(permit, false, now, algo),
            blocked_until: self.unblocked(now).blocked_until,
        }
    }

    /// The bucket after a permit was finalized with `outcome` at `now`: an operation that was
    /// not sent is a refund, any other is spent, and a key-scoped rate-limit report blocks the
    /// bucket as well.
    pub open spec fn committed(
        self,
        permit: PermitModel,
        outcome: Outcome,
        now: nat,
        algo: AlgorithmConfig,
    ) -> Self {
        let lifted = self.unblocked(now);
        let blocked = match outcome {
            Outcome::RateLimitedFeedback { retry_after, scope: Scope::Key, .. } => {
                lifted.blocked_to(instant_after(now, nanos(retry_after)))
            },
            _ => lifted,
        };
        BucketModel {
            algo: self.settled(permit, !(outcome is NotSent), now, algo),
            blocked_until: blocked.blocked_until,
        }
    }

    /// The bucket after the configuration changed from `old_algo` to `new_algo` at `now`. A
    /// window of another length starts afresh unless a permit is outstanding; a pool is brought
    /// up to date under the old rate and resized; another kind of algorithm starts afresh.
    pub open spec fn updated(
        self,
        old_algo: AlgorithmConfig,
        new_algo: AlgorithmConfig,
        now: nat,
    ) -> Self {
        BucketModel {
            blocked_until: self.unblocked(now).blocked_until,
            algo: match (self.algo, old_algo, new_algo) {
                (
                    AlgoModel::FixedWindow(w),
                    AlgorithmConfig::FixedWindow { window: old_window, .. },
                    AlgorithmConfig::FixedWindow { window: new_window, .. },
                ) => {
                    if nanos(old_window) != nanos(new_window) && w.reserved == 0 {
                        AlgoModel::FixedWindow(WindowModel::fresh(now, nanos(new_window)))
                    } else {
                        self.algo
                    }
                },
                (
                    AlgoModel::TokenBucket(s),
                    AlgorithmConfig::TokenBucket { capacity: old_capacity, refill_per_sec },
                    AlgorithmConfig::TokenBucket { capacity: new_capacity, .. },
                ) => AlgoModel::TokenBucket(
                    s.refilled(old_capacity as nat, refill_per_sec as nat, now).resized(
                        old_capacity as nat,
                        new_capacity as nat,
                    ),
                ),
                _ => AlgoModel::fresh(now, new_algo),
            },
        }
    }
}

/// Start of the window of length `window` that holds `now`.
pub fn window_start_for(now: Duration, window: Duration) -> (start: Duration)
    requires
        nanos(window) > 0,
    ensures
        nanos(start) == window_floor(nanos(now), nanos(window)),
{
    let n: u128 = now.as_nanos();
    let w: u128 = window.as_nanos();
    proof {
        vstd::arithmetic::div_mod::lemma_mod_decreases(n as nat, w as nat);
    }
    time::from_nanos(n - n % w)
}

/// Accounting state of a fixed window.
#[derive(Debug)]
struct FixedWindowState {
    window_start: Duration,
    reserved: u32,
    spent: u32,
}

impl FixedWindowState {
    spec fn view(self) -> WindowModel {
        WindowModel {
            window_start: nanos(self.window_start),
            reserved: self.reserved as nat,
            spent: self.spent as nat,
        }
    }

    fn new(now: Duration, window: Duration) -> (s: Self)
        requires
            nanos(window) > 0,
        ensures
            s@ == WindowModel::fresh(nanos(now), nanos(window)),
    {
        Self { window_start: window_start_for(now, window), reserved: 0, spent: 0 }
    }

    fn has_outstanding(&self) -> (r: bool)
        ensures
            r == (self@.reserved != 0),
    {
        self.reserved != 0
    }

    fn end(&self, window: Duration) -> (end: Duration)
        ensures
            nanos(end) == self@.end(nanos(window)),
    {
        time::saturating_add(self.window_start, window)
    }

    fn maybe_reset_window(&mut self, now: Duration, window: Duration)
        requires
            nanos(window) > 0,
        ensures
            final(self)@ == old(self)@.current(nanos(window), nanos(now)),
    {
        // If there are outstanding reservations, we do not advance windows. This prevents
        // permits from being used "after" the limiter has reset its accounting.
        if self.reserved != 0 {
            return ;
        }
        if !time::shorter(time::saturating_sub(now, self.window_start), window) {
            self.window_start = window_start_for(now, window);
            self.spent = 0;
            self.reserved = 0;
        }
    }

    fn retry_after_for_window(&self, now: Duration, window: Duration) -> (wait: Duration)
        ensures
            nanos(wait) == monus(self@.end(nanos(window)), nanos(now)),
    {
        time::saturating_sub(self.end(window), now)
    }

    /// Finalizes a permit of the window from `window_start`. One of another window is late, and
    /// changes no count.
    fn finalize(
        &mut self,
        window: Duration,
        window_start: Duration,
        cost: Cost,
        sent: bool,
        now: Duration,
    )
        requires
            nanos(window) > 0,
        ensures
            final(self)@ == old(self)@.finalized(
                nanos(window),
                nanos(window_start),
                cost@ as nat,
                sent,
                nanos(now),
            ),
    {
        self.maybe_reset_window(now, window);
        if !time::same(window_start, self.window_start) {
            return ;
        }
        self.reserved = self.reserved.saturating_sub(cost.get());
        if sent {
            self.spent = self.spent.saturating_add(cost.get());
        }
    }
}

#[derive(Debug)]
enum AlgoState {
    FixedWindow(FixedWindowState),
    TokenBucket(TokenBucketState),
}

impl AlgoState {
    spec fn view(self) -> AlgoModel {
        match self {
            AlgoState::FixedWindow(s) => AlgoModel::FixedWindow(s@),
            AlgoState::TokenBucket(s) => AlgoModel::TokenBucket(s@),
        }
    }

    fn new(now: Duration, algo: AlgorithmConfig) -> (s: Self)
        requires
            algo.wf(),
        ensures
            s@ == AlgoModel::fresh(nanos(now), algo),
    {
        match algo {
            AlgorithmConfig::FixedWindow { window, .. } => {
                AlgoState::FixedWindow(FixedWindowState::new(now, window))
            },
            AlgorithmConfig::TokenBucket { capacity, .. } => {
                AlgoState::TokenBucket(TokenBucketState::new(now, capacity))
            },
        }
    }
}

/// State of one bucket: its feedback block and its accounting.
#[derive(Debug)]
pub struct BucketState {
    blocked_until: Option<Duration>,
    algo: AlgoState,
}

impl BucketState {
    /// What the bucket holds.
    pub closed spec fn view(self) -> BucketModel {
        BucketModel { blocked_until: opt_nanos(self.blocked_until), algo: self.algo@ }
    }

    /// A bucket as it starts.
    pub fn new(now: Duration, algo: AlgorithmConfig) -> (b: Self)
        requires
            algo.wf(),
        ensures
            b@ == BucketModel::fresh(nanos(now), algo),
    {
        Self { blocked_until: None, algo: AlgoState::new(now, algo) }
    }

    /// Whether a permit of the bucket is still to be finalized.
    pub fn has_outstanding(&self) -> (r: bool)
        ensures
            r == self@.has_outstanding(),
    {
        match &self.algo {
            AlgoState::FixedWindow(s) => s.has_outstanding(),
            AlgoState::TokenBucket(s) => s.has_outstanding(),
        }
    }

    /// How long feedback still blocks the bucket at `now`, where it does.
    pub fn block_left(&self, now: Duration) -> (left: Option<Duration>)
        ensures
            opt_nanos(left) == (if self@.blocked(nanos(now)) {
                Some((self@.blocked_until->0 - nanos(now)) as nat)
            } else {
                None
            }),
    {
        match self.blocked_until {
            Some(until) => if time::shorter(now, until) {
                Some(time::saturating_sub(until, now))
            } else {
                None
            },
            None => None,
        }
    }

    /// Reserves `cost` at `now` under the limits of `algo`, or says how long to wait.
    pub fn try_reserve(
        &mut self,
        key: Key,
        algo: AlgorithmConfig,
        cost: Cost,
        now: Duration,
    ) -> (r: Result<Permit, BucketDeny>)
        requires
            algo.wf(),
        ensures
            final(self)@ == old(self)@.after_reserve(algo, cost@ as nat, nanos(now)),
            old(self)@.reservation(key, algo, cost@ as nat, nanos(now)) == (match r {
                Ok(permit) => Reservation::Granted(permit@),
                Err(d) => Reservation::Denied {
                    retry_after: nanos(d.deny.retry_after),
                    reason: d.reason,
                },
            }),
    {
        self.clear_expired_block(now);

        if let Some(until) = self.blocked_until {
            return Err(
                BucketDeny {
                    deny: Deny { retry_after: time::saturating_sub(until, now) },
                    reason: BucketDenyReason::BlockedUntil,
                },
            );
        }
        let cost_u32: u32 = cost.get();
        match &mut self.algo {
            AlgoState::FixedWindow(s) => match algo {
                AlgorithmConfig::FixedWindow { max_per_window, window } => {
                    s.maybe_reset_window(now, window);

                    if max_per_window == 0 {
                        return Err(
                            BucketDeny {
                                deny: Deny { retry_after: window },
                                reason: BucketDenyReason::Disabled,
                            },
                        );
                    }
                    if cost_u32 > max_per_window {
                        return Err(
                            BucketDeny {
                                deny: Deny { retry_after: time::longest() },
                                reason: BucketDenyReason::Unachievable,
                            },
                        );
                    }
                    let in_use: u32 = s.spent.saturating_add(s.reserved);
                    let available: u32 = max_per_window.saturating_sub(in_use);
                    if cost_u32 > available {
                        return Err(
                            BucketDeny {
                                deny: Deny { retry_after: s.retry_after_for_window(now, window) },
                                reason: BucketDenyReason::WindowExhausted,
                            },
                        );
                    }
                    s.reserved = s.reserved + cost_u32;

                    let deadline: Duration = s.end(window);
                    Ok(Permit::fixed_window(key, cost, now, s.window_start, deadline))
                },
                AlgorithmConfig::TokenBucket { .. } => Err(mismatch_deny()),
            },
            AlgoState::TokenBucket(s) => match algo {
                AlgorithmConfig::TokenBucket { capacity, refill_per_sec } => {
                    if capacity == 0 {
                        return Err(
                            BucketDeny {
                                deny: Deny { retry_after: time::longest() },
                                reason: BucketDenyReason::Disabled,
                            },
                        );
                    }
                    match s.try_reserve(capacity, refill_per_sec, cost, now) {
                        Ok(()) => Ok(Permit::token_bucket(key, cost, now)),
                        Err(deny) => {
                            let reason = if deny.retry_after.as_nanos() == MAX_NANOS {
                                BucketDenyReason::Unachievable
                            } else {
                                BucketDenyReason::WindowExhausted
                            };
                            Err(BucketDeny { deny, reason })
                        },
                    }
                },
                AlgorithmConfig::FixedWindow { .. } => Err(mismatch_deny()),
            },
        }
    }

    /// Gives the capacity of a permit back.
    pub fn refund(&mut self, permit: Permit, now: Duration, algo: AlgorithmConfig)
        requires
            algo.wf(),
        ensures
            final(self)@ == old(self)@.refunded(permit@, nanos(now), algo),
    {
        self.clear_expired_block(now);
        self.settle(permit, false, now, algo);
    }

    /// Finalizes a permit with `outcome`.
    pub fn commit(
        &mut self,
        permit: Permit,
        outcome: Outcome,
        now: Duration,
        algo: AlgorithmConfig,
    )
        requires
            algo.wf(),
        ensures
            final(self)@ == old(self)@.committed(permit@, outcome, nanos(now), algo),
    {
        self.clear_expired_block(now);
        let sent: bool = match outcome {
            Outcome::NotSent => false,
            Outcome::Confirmed | Outcome::SentNoConfirm => true,
            Outcome::RateLimitedFeedback { retry_after, scope, .. } => {
                match scope {
                    Scope::Key => self.apply_blocked_until(time::saturating_add(now, retry_after)),
                    // Global scope is handled by the outer limiter.
                    Scope::Global => {},
                }
                true
            },
        };
        self.settle(permit, sent, now, algo);
    }

    /// Moves the reservation of a permit to the spent capacity, or gives it back.
    fn settle(&mut self, permit: Permit, sent: bool, now: Duration, algo: AlgorithmConfig)
        requires
            algo.wf(),
        ensures
            final(self)@.blocked_until == old(self)@.blocked_until,
            final(self)@.algo == old(self)@.settled(permit@, sent, nanos(now), algo),
    {
        match &mut self.algo {
            AlgoState::FixedWindow(s) => match algo {
                AlgorithmConfig::FixedWindow { window, .. } => match permit.window_start() {
                    Some(window_start) => s.finalize(
                        window,
                        window_start,
                        permit.cost(),
                        sent,
                        now,
                    ),
                    None => {},
                },
                AlgorithmConfig::TokenBucket { .. } => {},
            },
            AlgoState::TokenBucket(s) => match algo {
                AlgorithmConfig::TokenBucket { capacity, refill_per_sec } => {
                    match permit.window_start() {
                        Some(_) => {},
                        None => {
                            if sent {
                                s.commit(permit.cost());
                            } else {
                                s.refund(capacity, permit.cost(), now, refill_per_sec);
                            }
                        },
                    }
                },
                AlgorithmConfig::FixedWindow { .. } => {},
            },
        }
    }

    /// Blocks the bucket until `until` at least; a block is never shortened.
    pub fn apply_blocked_until(&mut self, until: Duration)
        ensures
            final(self)@ == old(self)@.blocked_to(nanos(until)),
    {
        self.blocked_until = Some(time::extend(self.blocked_until, until));
    }

    /// Adapts the bucket to a new configuration.
    pub fn on_update(&mut self, old_algo: AlgorithmConfig, new_algo: AlgorithmConfig, now: Duration)
        requires
            new_algo.wf(),
        ensures
            final(self)@ == old(self)@.updated(old_algo, new_algo, nanos(now)),
    {
        self.clear_expired_block(now);
        match (old_algo, new_algo) {
            (
                AlgorithmConfig::FixedWindow { window: old_window, .. },
                AlgorithmConfig::FixedWindow { window: new_window, .. },
            ) => {
                if let AlgoState::FixedWindow(s) = &mut self.algo {
                    // If the window changed, start a new one, unless reservations are outstanding.
                    if !time::same(old_window, new_window) && !s.has_outstanding() {
                        s.window_start = window_start_for(now, new_window);
                        s.spent = 0;
                    }
                    return ;
                }
            },
            (
                AlgorithmConfig::TokenBucket { capacity: old_capacity, refill_per_sec },
                AlgorithmConfig::TokenBucket { capacity: new_capacity, .. },
            ) => {
                if let AlgoState::TokenBucket(s) = &mut self.algo {
                    // Bring credits current under the old rate, then clamp to new capacity.
                    s.refill(old_capacity, refill_per_sec, now);
                    s.apply_capacity_change(old_capacity, new_capacity);
                    return ;
                }
            },
            _ => {},
        }
        self.algo = AlgoState::new(now, new_algo);
    }

    fn clear_expired_block(&mut self, now: Duration)
        ensures
            final(self)@ == old(self)@.unblocked(nanos(now)),
    {
        if let Some(until) = self.blocked_until {
            if !time::shorter(now, until) {
                self.blocked_until = None;
            }
        }
    }
}

impl BucketModel {
    /// The bucket stands within the limits of `algo`: a window has not given out more than its
    /// maximum, and a pool holds no more than its capacity.
    pub open spec fn within(self, algo: AlgorithmConfig) -> bool {
        match (self.algo, algo) {
            (
                AlgoModel::FixedWindow(w),
                AlgorithmConfig::FixedWindow { max_per_window, .. },
            ) => w.spent + w.reserved <= max_per_window,
            (
                AlgoModel::TokenBucket(s),
                AlgorithmConfig::TokenBucket { capacity, .. },
            ) => s.credits <= capacity,
            _ => false,
        }
    }

    /// The permit is one of the algorithm of the bucket, and of the window as it stands.
    pub open spec fn issued(self, permit: PermitModel) -> bool {
        match (self.algo, permit.window_start) {
            (AlgoModel::FixedWindow(w), Some(start)) => start == w.window_start,
            (AlgoModel::TokenBucket(_), None) => true,
            _ => false,
        }
    }

    /// The permit may be one of those that the bucket has outstanding.
    pub open spec fn holds(self, permit: PermitModel) -> bool {
        self.issued(permit) && permit.cost <= self.outstanding()
    }
}

/// Whether `a` is the same algorithm as `b` with limits that are no larger.
pub open spec fn no_larger(a: AlgorithmConfig, b: AlgorithmConfig) -> bool {
    match (a, b) {
        (
            AlgorithmConfig::FixedWindow { max_per_window: max_a, window: window_a },
            AlgorithmConfig::FixedWindow { max_per_window: max_b, window: window_b },
        ) => max_a <= max_b && window_a == window_b,
        (
            AlgorithmConfig::TokenBucket { capacity: cap_a, refill_per_sec: refill_a },
            AlgorithmConfig::TokenBucket { capacity: cap_b, refill_per_sec: refill_b },
        ) => cap_a <= cap_b && refill_a <= refill_b,
        _ => false,
    }
}

/// No bucket ever gives out more than its limit: a fresh bucket stands within it, and neither a
/// reservation (under these limits or, during a ramp, under smaller ones) nor the finalization
/// of an outstanding permit leaves it.
pub proof fn law_limit_is_kept(
    b: BucketModel,
    algo: AlgorithmConfig,
    in_force: AlgorithmConfig,
    cost: nat,
    now: nat,
    permit: PermitModel,
    outcome: Outcome,
)
    requires
        no_larger(in_force, algo),
    ensures
        BucketModel::fresh(now, algo).within(algo),
        b.within(algo) ==> b.after_reserve(in_force, cost, now).within(algo),
        b.within(algo) && b.holds(permit) ==> b.refunded(permit, now, algo).within(algo)
            && b.committed(permit, outcome, now, algo).within(algo),
{
}

/// A permit is outstanding from the grant on, until it is finalized: other reservations leave it
/// so, however much time passes.
pub proof fn law_permit_stays_outstanding(
    b: BucketModel,
    key: Key,
    algo: AlgorithmConfig,
    cost: nat,
    now: nat,
    other_cost: nat,
    later: nat,
)
    requires
        0 < cost <= u32::MAX,
        b.reservation(key, algo, cost, now) is Granted,
        b.algo matches AlgoModel::TokenBucket(s) ==> s.in_flight + cost <= u64::MAX,
    ensures
        ({
            let permit = b.reservation(key, algo, cost, now)->Granted_0;
            let after = b.after_reserve(algo, cost, now);
            after.holds(permit) && after.has_outstanding() && after.after_reserve(
                algo,
                other_cost,
                later,
            ).holds(permit)
        }),
{
}

/// Giving a permit back at the instant of its grant restores the capacity: the bucket is as it
/// stands at that instant.
pub proof fn law_refund_undoes_reserve(
    b: BucketModel,
    key: Key,
    algo: AlgorithmConfig,
    cost: nat,
    now: nat,
)
    requires
        b.within(algo),
        b.reservation(key, algo, cost, now) is Granted,
        b.algo matches AlgoModel::TokenBucket(s) ==> s.in_flight + cost <= u64::MAX,
    ensures
        b.after_reserve(algo, cost, now).refunded(
            b.reservation(key, algo, cost, now)->Granted_0,
            now,
            algo,
        ) == (BucketModel {
            blocked_until: None,
            algo: match (b.algo, algo) {
                (
                    AlgoModel::FixedWindow(w),
                    AlgorithmConfig::FixedWindow { window, .. },
                ) => AlgoModel::FixedWindow(w.current(nanos(window), now)),
                (
                    AlgoModel::TokenBucket(s),
                    AlgorithmConfig::TokenBucket { capacity, refill_per_sec },
                ) => AlgoModel::TokenBucket(
                    s.refilled(capacity as nat, refill_per_sec as nat, now),
                ),
                _ => b.algo,
            },
        }),
{
}

/// Finalizing a permit as not sent is a refund, in every state.
pub proof fn law_not_sent_is_a_refund(
    b: BucketModel,
    permit: PermitModel,
    now: nat,
    algo: AlgorithmConfig,
)
    ensures
        b.committed(permit, Outcome::NotSent, now, algo) == b.refunded(permit, now, algo),
{
}

/// Finalizing an outstanding permit of a window in any other way moves its cost from the
/// reserved to the spent capacity, at whatever instant that happens: what the window has given
/// out stays the same.
pub proof fn law_commit_moves_cost_once(
    w: WindowModel,
    window: nat,
    cost: nat,
    now: nat,
)
    requires
        0 < cost <= w.reserved,
        w.spent + cost <= u32::MAX,
    ensures
        w.finalized(window, w.window_start, cost, true, now) == (WindowModel {
            window_start: w.window_start,
            reserved: (w.reserved - cost) as nat,
            spent: w.spent + cost,
        }),
{
}

/// A window with an outstanding permit never moves on.
pub proof fn law_window_waits_for_permits(w: WindowModel, window: nat, now: nat)
    requires
        w.reserved > 0,
    ensures
        w.current(window, now) == w,
{
}

/// Every instant lies in the window that starts afresh at it.
pub proof fn law_fresh_window_holds_now(now: nat, window: nat)
    requires
        window > 0,
    ensures
        WindowModel::fresh(now, window).window_start <= now < WindowModel::fresh(
            now,
            window,
        ).window_start + window,
        WindowModel::fresh(now, window).window_start % window == 0,
{
    vstd::arithmetic::div_mod::lemma_fundamental_div_mod(now as int, window as int);
    vstd::arithmetic::div_mod::lemma_mod_decreases(now, window);
    vstd::arithmetic::div_mod::lemma_mod_multiples_basic((now / window) as int, window as int);
    let q = now / window;
    assert(window * q == q * window) by (nonlinear_arith);
}

/// The wait that an exhausted window answers with is the right one: where no permit is
/// outstanding, the window stays exhausted until the end of the wait, and from then on a cost
/// within the maximum is granted.
pub proof fn law_window_wait_is_exact(
    w: WindowModel,
    max: nat,
    window: nat,
    cost: nat,
    now: nat,
    delay: nat,
)
    requires
        window > 0,
        w.reserved == 0,
        w.window_start <= now < w.window_start + window <= MAX_NANOS,
        w.obstacle(max, window, cost, now) matches Some((_, reason)) && reason
            == BucketDenyReason::WindowExhausted,
    ensures
        w.obstacle(max, window, cost, now) matches Some((wait, _)) && (w.current(
            window,
            now + delay,
        ).obstacle(max, window, cost, now + delay) is None <==> delay >= wait),
{
}

/// The sum of the costs granted in the window of number `k`, counted from the start of time, over
/// a run of attempts, each at an instant and of a cost, where every grant is spent.
pub open spec fn granted_in(
    w: WindowModel,
    max: nat,
    window: nat,
    attempts: Seq<(nat, nat)>,
    k: nat,
) -> nat
    decreases attempts.len(),
{
    if attempts.len() == 0 {
        0
    } else {
        let (now, cost) = attempts[0];
        let current = w.current(window, now);
        if current.obstacle(max, window, cost, now) is None {
            let next = (WindowModel { reserved: current.reserved + cost, ..current }).finalized(
                window,
                current.window_start,
                cost,
                true,
                now,
            );
            let counted = if now / window == k {
                cost
            } else {
                0
            };
            counted + granted_in(next, max, window, attempts.skip(1), k)
        } else {
            granted_in(current, max, window, attempts.skip(1), k)
        }
    }
}

/// Over any run of attempts in the order of time, no window grants more than its maximum.
pub proof fn law_window_budget(
    w: WindowModel,
    max: nat,
    window: nat,
    attempts: Seq<(nat, nat)>,
    k: nat,
)
    requires
        window > 0,
        w.reserved == 0,
        w.spent <= max <= u32::MAX,
        w.window_start % window == 0,
        forall|i: int|
            0 <= i < attempts.len() ==> w.window_start <= (#[trigger] attempts[i]).0
                && attempts[i].1 > 0,
        forall|i: int, j: int|
            0 <= i < j < attempts.len() ==> (#[trigger] attempts[i]).0 <= (
            #[trigger] attempts[j]).0,
    ensures
        granted_in(w, max, window, attempts, k) <= max,
        k == w.window_start / window ==> granted_in(w, max, window, attempts, k) + w.spent <= max,
        k < w.window_start / window ==> granted_in(w, max, window, attempts, k) == 0,
    decreases attempts.len(),
{
    if attempts.len() > 0 {
        let (now, cost) = attempts[0];
        let rest = attempts.skip(1);
        let current = w.current(window, now);
        lemma_window_number(w.window_start, window, now);
        assert(current.window_start / window == now / window);
        assert forall|i: int| 0 <= i < rest.len() implies current.window_start <= (
        #[trigger] rest[i]).0 && rest[i].1 > 0 by {
            assert(rest[i] == attempts[i + 1]);
            assert(attempts[0].0 <= attempts[i + 1].0);
        }
        assert forall|i: int, j: int| 0 <= i < j < rest.len() implies (#[trigger] rest[i]).0 <= (
        #[trigger] rest[j]).0 by {
            assert(rest[i] == attempts[i + 1]);
            assert(rest[j] == attempts[j + 1]);
        }
        if current.obstacle(max, window, cost, now) is None {
            let held = WindowModel { reserved: current.reserved + cost, ..current };
            law_commit_moves_cost_once(held, window, cost, now);
            law_window_budget(
                held.finalized(window, current.window_start, cost, true, now),
                max,
                window,
                rest,
                k,
            );
        } else {
            law_window_budget(current, max, window, rest, k);
        }
    }
}

/// The number of a window is that of the instants in it, and a later window has a larger one.
proof fn lemma_window_number(start: nat, window: nat, now: nat)
    requires
        window > 0,
        start % window == 0,
        start <= now,
    ensures
        now < start + window ==> now / window == start / window,
        now >= start + window ==> now / window > start / window,
        window_floor(now, window) <= now,
        window_floor(now, window) % window == 0,
        window_floor(now, window) / window == now / window,
{
    let s = start / window;
    let q = now / window;
    let r = now % window;
    vstd::arithmetic::div_mod::lemma_fundamental_div_mod(start as int, window as int);
    vstd::arithmetic::div_mod::lemma_fundamental_div_mod(now as int, window as int);
    vstd::arithmetic::div_mod::lemma_mod_multiples_basic(q as int, window as int);
    vstd::arithmetic::div_mod::lemma_div_by_multiple(q as int, window as int);
    assert(window * q == q * window) by (nonlinear_arith);
    assert(now < start + window ==> q == s) by (nonlinear_arith)
        requires
            window > 0,
            start == window * s,
            now == window * q + r,
            0 <= r < window,
            start <= now,
    ;
    assert(now >= start + window ==> q > s) by (nonlinear_arith)
        requires
            window > 0,
            start == window * s,
            now == window * q + r,
            0 <= r < window,
    ;
}

/// No two windows of one length hold the same instant.
pub(crate) proof fn lemma_window_start_is_unique(start: nat, window: nat, now: nat)
    requires
        window > 0,
        start % window == 0,
        start <= now < start + window,
    ensures
        start == WindowModel::fresh(now, window).window_start,
{
    lemma_window_number(start, window, now);
    vstd::arithmetic::div_mod::lemma_fundamental_div_mod(start as int, window as int);
    vstd::arithmetic::div_mod::lemma_fundamental_div_mod(now as int, window as int);
}

/// A block denies exactly until it is over, and the wait it answers with is the time that is
/// left.
pub proof fn law_block_denies_until_over(
    b: BucketModel,
    key: Key,
    algo: AlgorithmConfig,
    cost: nat,
    now: nat,
    until: nat,
)
    requires
        b.blocked_until == Some(until),
    ensures
        b.reservation(key, algo, cost, now) matches Reservation::Denied { reason, .. } && reason
            == BucketDenyReason::BlockedUntil <==> now < until,
        now < until ==> b.reservation(key, algo, cost, now) == (Reservation::Denied {
            retry_after: (until - now) as nat,
            reason: BucketDenyReason::BlockedUntil,
        }),
{
}

/// Feedback never shortens a block, and the order of two signals does not matter.
pub proof fn law_block_is_never_shortened(b: BucketModel, first: nat, second: nat)
    ensures
        b.blocked_to(first).blocked_until == Some(extended(b.blocked_until, first)),
        extended(b.blocked_until, first) >= first,
        b.blocked_until matches Some(until) ==> extended(b.blocked_until, first) >= until,
        b.blocked_to(first).blocked_to(second) == b.blocked_to(second).blocked_to(first),
{
}

/// The denial of a bucket whose state is not one of the algorithm in force.
fn mismatch_deny() -> (d: BucketDeny)
    ensures
        nanos(d.deny.retry_after) == NANOS_PER_SEC,
        d.reason == BucketDenyReason::Disabled,
{
    BucketDeny {
        deny: Deny { retry_after: time::from_secs(1) },
        reason: BucketDenyReason::Disabled,
    }
}

/// A bucket starts unblocked and unused: a window that holds the instant, with nothing given out,
/// or a full pool.
pub proof fn law_bucket_starts_unused(now: nat, algo: AlgorithmConfig)
    requires
        algo.wf(),
    ensures
        BucketModel::fresh(now, algo).blocked_until is None,
        match (algo, BucketModel::fresh(now, algo).algo) {
            (AlgorithmConfig::FixedWindow { window, .. }, AlgoModel::FixedWindow(w)) => {
                &&& w.spent == 0
                &&& w.reserved == 0
                &&& w.window_start % nanos(window) == 0
                &&& w.window_start <= now < w.window_start + nanos(window)
            },
            (AlgorithmConfig::TokenBucket { capacity, .. }, AlgoModel::TokenBucket(s)) => {
                &&& s.credits == capacity
                &&& s.in_flight == 0
                &&& s.last_update == now
            },
            _ => false,
        },
{
    if let AlgorithmConfig::FixedWindow { window, .. } = algo {
        law_fresh_window_holds_now(now, nanos(window));
    }
}

/// A bucket has a permit outstanding exactly while its window has capacity reserved, or its pool
/// has credits in flight.
pub proof fn law_outstanding_is_what_is_reserved(b: BucketModel)
    ensures
        match b.algo {
            AlgoModel::FixedWindow(w) => b.outstanding() == w.reserved && (b.has_outstanding()
                <==> w.reserved > 0),
            AlgoModel::TokenBucket(s) => b.outstanding() == s.in_flight && (b.has_outstanding()
                <==> s.in_flight > 0),
        },
{
}

/// A window lasts for its length, and for as long as one of its permits is outstanding. Once it is
/// over, the one that counts is the one that holds the instant, with nothing given out.
pub proof fn law_window_lasts_for_its_length(w: WindowModel, window: nat, now: nat)
    requires
        window > 0,
    ensures
        w.reserved > 0 || now < w.window_start + window ==> w.current(window, now) == w,
        w.reserved == 0 && now >= w.window_start + window ==> {
            let next = w.current(window, now);
            &&& next.spent == 0
            &&& next.reserved == 0
            &&& next.window_start % window == 0
            &&& next.window_start <= now < next.window_start + window
        },
{
    law_fresh_window_holds_now(now, window);
}

/// To bring a window up to date at one instant makes no difference at a later one.
pub proof fn law_window_depends_on_the_last_instant(
    w: WindowModel,
    window: nat,
    now: nat,
    later: nat,
)
    requires
        window > 0,
        now <= later,
    ensures
        w.current(window, now).current(window, later) == w.current(window, later),
{
    law_fresh_window_holds_now(now, window);
    let start = window_floor(now, window);
    lemma_window_number(start, window, now);
    lemma_window_number(start, window, later);
    if w.reserved == 0 && now >= w.window_start + window && later < start + window {
        vstd::arithmetic::div_mod::lemma_fundamental_div_mod(now as int, window as int);
        vstd::arithmetic::div_mod::lemma_fundamental_div_mod(later as int, window as int);
        assert(window_floor(later, window) == start);
    }
}

/// A window grants exactly what is left of its maximum: the cost of a grant is reserved, with a
/// permit that ends with the window; a denial reserves nothing. An exhausted window asks to wait
/// for its end, a maximum of zero for one length, and a cost above the maximum is denied for good.
pub proof fn law_window_grants_what_is_left(
    b: BucketModel,
    w: WindowModel,
    key: Key,
    max: u32,
    length: Duration,
    cost: nat,
    now: nat,
)
    requires
        b.algo == AlgoModel::FixedWindow(w),
        b.blocked_until matches Some(until) ==> until <= now,
        cost > 0,
        nanos(length) > 0,
    ensures
        ({
            let algo = AlgorithmConfig::FixedWindow { max_per_window: max, window: length };
            let window = nanos(length);
            let c = w.current(window, now);
            let after = b.after_reserve(algo, cost, now);
            let end = instant_after(c.window_start, window);
            &&& after.blocked_until is None
            &&& after.algo matches AlgoModel::FixedWindow(a)
            &&& a.window_start == c.window_start
            &&& a.spent == c.spent
            &&& match b.reservation(key, algo, cost, now) {
                Reservation::Granted(permit) => {
                    &&& c.spent + c.reserved + cost <= max
                    &&& a.reserved == c.reserved + cost
                    &&& permit.key == key
                    &&& permit.cost == cost
                    &&& permit.issued_at == now
                    &&& permit.window_start == Some(c.window_start)
                    &&& permit.deadline == end
                },
                Reservation::Denied { retry_after, reason } => {
                    &&& c.spent + c.reserved + cost > max
                    &&& a.reserved == c.reserved
                    &&& max == 0 ==> reason == BucketDenyReason::Disabled && retry_after == window
                    &&& cost > max > 0 ==> reason == BucketDenyReason::Unachievable && retry_after
                        == MAX_NANOS
                    &&& cost <= max ==> reason == BucketDenyReason::WindowExhausted && (if now
                        < end {
                        now + retry_after == end
                    } else {
                        retry_after == 0
                    })
                },
            }
        }),
{
}

/// A pool grants exactly what its credits cover, as they stand at that instant: the cost of a grant
/// goes into flight; a denial takes nothing. One without capacity, and a cost that the credits will
/// never cover, are denied for good.
pub proof fn law_pool_grants_what_is_there(
    b: BucketModel,
    s: TokenBucketModel,
    key: Key,
    capacity: u64,
    refill_per_sec: u64,
    cost: nat,
    now: nat,
)
    requires
        b.algo == AlgoModel::TokenBucket(s),
        b.blocked_until matches Some(until) ==> until <= now,
        cost > 0,
        s.in_flight + cost <= u64::MAX,
    ensures
        ({
            let algo = AlgorithmConfig::TokenBucket { capacity, refill_per_sec };
            let c = s.refilled(capacity as nat, refill_per_sec as nat, now);
            let after = b.after_reserve(algo, cost, now);
            &&& after.blocked_until is None
            &&& after.algo matches AlgoModel::TokenBucket(a)
            &&& match b.reservation(key, algo, cost, now) {
                Reservation::Granted(permit) => {
                    &&& 0 < capacity
                    &&& cost <= capacity
                    &&& cost <= c.credits
                    &&& a.credits + cost == c.credits
                    &&& a.in_flight == s.in_flight + cost
                    &&& a.last_update == c.last_update
                    &&& permit.key == key
                    &&& permit.cost == cost
                    &&& permit.issued_at == now
                    &&& permit.window_start is None
                    &&& permit.deadline == 0
                },
                Reservation::Denied { retry_after, reason } => {
                    &&& capacity == 0 || cost > capacity || cost > c.credits
                    &&& capacity > 0 ==> a == c
                    &&& capacity == 0 ==> a == s && reason == BucketDenyReason::Disabled
                    &&& capacity == 0 || cost > capacity || refill_per_sec == 0 ==> retry_after
                        == MAX_NANOS
                    &&& capacity > 0 && retry_after == MAX_NANOS ==> reason
                        == BucketDenyReason::Unachievable
                    &&& capacity > 0 && retry_after != MAX_NANOS ==> reason
                        == BucketDenyReason::WindowExhausted
                    &&& capacity > 0 && cost <= capacity && refill_per_sec > 0 ==> {
                        &&& retry_after * refill_per_sec >= (cost - c.credits) * 1_000_000_000
                        &&& retry_after > 0 && (retry_after - 1) * refill_per_sec < (cost
                            - c.credits) * 1_000_000_000
                    }
                },
            }
        }),
{
    let c = s.refilled(capacity as nat, refill_per_sec as nat, now);
    if 0 < refill_per_sec && c.credits < cost {
        let need = (cost - c.credits) as nat * 1_000_000_000;
        let rate = refill_per_sec as nat;
        let wait = crate::time::ceil_div(need, rate);
        crate::time::lemma_ceil_div_least(need, rate, wait);
        crate::time::lemma_ceil_div_least(need, rate, monus(wait, 1));
        crate::time::lemma_ceil_div_least(need, rate, 0);
    }
}

/// A bucket that keeps the accounts of another algorithm than the one asked of denies for a second,
/// and keeps them as they are.
pub proof fn law_other_algorithm_is_denied(
    b: BucketModel,
    key: Key,
    algo: AlgorithmConfig,
    cost: nat,
    now: nat,
    permit: PermitModel,
    outcome: Outcome,
)
    requires
        b.algo is FixedWindow != algo is FixedWindow,
        b.blocked_until matches Some(until) ==> until <= now,
    ensures
        b.reservation(key, algo, cost, now) == (Reservation::Denied {
            retry_after: 1_000_000_000,
            reason: BucketDenyReason::Disabled,
        }),
        b.after_reserve(algo, cost, now) == (BucketModel { blocked_until: None, ..b }),
        b.refunded(permit, now, algo).algo == b.algo,
        b.committed(permit, outcome, now, algo).algo == b.algo,
{
}

/// While a block lasts, an attempt to reserve changes nothing.
pub proof fn law_blocked_bucket_stands_still(
    b: BucketModel,
    algo: AlgorithmConfig,
    cost: nat,
    now: nat,
)
    requires
        b.blocked_until matches Some(until) && now < until,
    ensures
        b.after_reserve(algo, cost, now) == b,
{
}

/// The finalization of a permit of a window takes its cost off the reserved capacity, at whatever
/// instant; it is spent if the operation may have been sent, and free again if it was not. A permit
/// of a window that is no longer the current one changes no count.
pub proof fn law_window_permit_is_settled(
    b: BucketModel,
    w: WindowModel,
    max: u32,
    length: Duration,
    permit: PermitModel,
    start: nat,
    outcome: Outcome,
    now: nat,
)
    requires
        b.algo == AlgoModel::FixedWindow(w),
        permit.window_start == Some(start),
    ensures
        ({
            let algo = AlgorithmConfig::FixedWindow { max_per_window: max, window: length };
            let c = w.current(nanos(length), now);
            &&& b.refunded(permit, now, algo).algo matches AlgoModel::FixedWindow(r)
            &&& b.committed(permit, outcome, now, algo).algo matches AlgoModel::FixedWindow(a)
            &&& start != c.window_start ==> r == c && a == c
            &&& start == c.window_start ==> {
                &&& r.window_start == start
                &&& a.window_start == start
                &&& permit.cost <= c.reserved ==> r.reserved + permit.cost == c.reserved
                    && a.reserved + permit.cost == c.reserved
                &&& permit.cost > c.reserved ==> r.reserved == 0 && a.reserved == 0
                &&& r.spent == c.spent
                &&& outcome is NotSent ==> a.spent == c.spent
                &&& !(outcome is NotSent) && c.spent + permit.cost <= u32::MAX ==> a.spent
                    == c.spent + permit.cost
                &&& !(outcome is NotSent) && c.spent + permit.cost > u32::MAX ==> a.spent
                    == u32::MAX
            }
        }),
{
}

/// The finalization of a permit of a pool takes its cost out of flight; it is gone if the operation
/// may have been sent, and back in the pool, up to the capacity and besides what flowed in, if it
/// was not.
pub proof fn law_pool_permit_is_settled(
    b: BucketModel,
    s: TokenBucketModel,
    capacity: u64,
    refill_per_sec: u64,
    permit: PermitModel,
    outcome: Outcome,
    now: nat,
)
    requires
        b.algo == AlgoModel::TokenBucket(s),
        permit.window_start is None,
    ensures
        ({
            let algo = AlgorithmConfig::TokenBucket { capacity, refill_per_sec };
            let c = s.refilled(capacity as nat, refill_per_sec as nat, now);
            &&& b.refunded(permit, now, algo).algo matches AlgoModel::TokenBucket(r)
            &&& b.committed(permit, outcome, now, algo).algo matches AlgoModel::TokenBucket(a)
            &&& outcome is NotSent ==> a == r
            &&& r.last_update == c.last_update
            &&& c.credits + permit.cost <= capacity ==> r.credits == c.credits + permit.cost
            &&& c.credits + permit.cost > capacity ==> r.credits == capacity
            &&& permit.cost <= s.in_flight ==> r.in_flight + permit.cost == s.in_flight
                && a.in_flight + permit.cost == s.in_flight
            &&& permit.cost > s.in_flight ==> r.in_flight == 0 && a.in_flight == 0
            &&& !(outcome is NotSent) ==> a.credits == s.credits && a.last_update
                == s.last_update
        }),
{
}

/// Finalizing a permit, or updating the configuration, keeps a block for as long as it lasts and
/// drops it once it is over. A key-scoped rate-limit report extends it where it asks for more, and
/// never cuts it short.
pub proof fn law_finalizing_never_shortens_a_block(
    b: BucketModel,
    permit: PermitModel,
    outcome: Outcome,
    now: nat,
    algo: AlgorithmConfig,
    new_algo: AlgorithmConfig,
)
    ensures
        ({
            let refunded = b.refunded(permit, now, algo).blocked_until;
            let committed = b.committed(permit, outcome, now, algo).blocked_until;
            let updated = b.updated(algo, new_algo, now).blocked_until;
            &&& b.blocked_until matches Some(until) ==> if now < until {
                &&& refunded == Some(until)
                &&& updated == Some(until)
                &&& committed matches Some(u)
                &&& u >= until
            } else {
                refunded is None && updated is None
            }
            &&& b.blocked_until is None ==> refunded is None && updated is None
            &&& outcome matches Outcome::RateLimitedFeedback {
                retry_after,
                scope: Scope::Key,
                ..
            } ==> {
                &&& committed matches Some(u)
                &&& u >= instant_after(now, nanos(retry_after))
                &&& u == instant_after(now, nanos(retry_after)) || (b.blocked_until == Some(u)
                    && now < u)
            }
            &&& !(outcome matches Outcome::RateLimitedFeedback { scope: Scope::Key, .. })
                ==> committed == refunded
        }),
{
}

/// An update that keeps the kind of algorithm keeps the accounts. A window goes on with what it has
/// given out, unless its length changes while no permit is outstanding: then one of the new length
/// starts. A pool is brought up to date at the old rate, and only a change of capacity changes its
/// credits further. Another kind of algorithm starts afresh.
pub proof fn law_update_keeps_the_accounts(
    b: BucketModel,
    old_algo: AlgorithmConfig,
    new_algo: AlgorithmConfig,
    now: nat,
)
    requires
        new_algo.wf(),
    ensures
        match (b.algo, old_algo, new_algo) {
            (
                AlgoModel::FixedWindow(w),
                AlgorithmConfig::FixedWindow { window: old_window, .. },
                AlgorithmConfig::FixedWindow { window: new_window, .. },
            ) => {
                &&& nanos(old_window) == nanos(new_window) || w.reserved > 0 ==> b.updated(
                    old_algo,
                    new_algo,
                    now,
                ).algo == b.algo
                &&& nanos(old_window) != nanos(new_window) && w.reserved == 0 ==> {
                    &&& b.updated(old_algo, new_algo, now).algo matches AlgoModel::FixedWindow(a)
                    &&& a.spent == 0
                    &&& a.reserved == 0
                    &&& a.window_start % nanos(new_window) == 0
                    &&& a.window_start <= now < a.window_start + nanos(new_window)
                }
            },
            (
                AlgoModel::TokenBucket(s),
                AlgorithmConfig::TokenBucket { capacity: old_capacity, refill_per_sec },
                AlgorithmConfig::TokenBucket { capacity: new_capacity, .. },
            ) => {
                let c = s.refilled(old_capacity as nat, refill_per_sec as nat, now);
                &&& b.updated(old_algo, new_algo, now).algo matches AlgoModel::TokenBucket(a)
                &&& a.in_flight == s.in_flight
                &&& a.last_update == c.last_update
                &&& new_capacity >= old_capacity >= c.credits ==> new_capacity - a.credits
                    == old_capacity - c.credits
                &&& new_capacity >= old_capacity && c.credits > old_capacity ==> a.credits
                    == new_capacity
                &&& c.credits <= new_capacity < old_capacity ==> a.credits == c.credits
                &&& new_capacity < old_capacity && new_capacity < c.credits ==> a.credits
                    == new_capacity
            },
            _ => b.updated(old_algo, new_algo, now).algo == BucketModel::fresh(now, new_algo).algo,
        },
{
    if let AlgorithmConfig::FixedWindow { window, .. } = new_algo {
        law_fresh_window_holds_now(now, nanos(window));
    }
}

/// A permit of another kind of algorithm than the accounts of the bucket are of changes none of
/// them.
pub proof fn law_permit_of_another_kind_changes_nothing(
    b: BucketModel,
    algo: AlgorithmConfig,
    now: nat,
    permit: PermitModel,
    outcome: Outcome,
)
    requires
        b.algo is FixedWindow != permit.window_start is Some,
    ensures
        b.refunded(permit, now, algo).algo == b.algo,
        b.committed(permit, outcome, now, algo).algo == b.algo,
{
}

} // verus!
