//! Token-bucket (credit pool) accounting of a single bucket.

use crate::time;
use crate::time::{ceil_div, least, monus, nanos, MAX_NANOS, NANOS_PER_SEC};
use crate::types::{Cost, Deny};
use std::time::Duration;
use vstd::prelude::*;

verus! {

/// What a credit pool holds, with times in nanoseconds.
pub struct TokenBucketModel {
    /// When the credits were last brought up to date.
    pub last_update: nat,
    /// Credits in the pool.
    pub credits: nat,
    /// Credits reserved by permits that are not finalized yet.
    pub in_flight: nat,
}

/// Credits that flow in over `delta` nanoseconds, in whole credits.
pub open spec fn inflow(delta: nat, refill_per_sec: nat) -> nat {
    delta * refill_per_sec / NANOS_PER_SEC as nat
}

impl TokenBucketModel {
    /// A full pool.
    pub open spec fn full(now: nat, capacity: nat) -> Self {
        TokenBucketModel { last_update: now, credits: capacity, in_flight: 0 }
    }

    /// The pool brought up to date at `now`: the credits that flowed in since the last update
    /// are there, up to the capacity. A `now` that is not later changes nothing.
    pub open spec fn refilled(self, capacity: nat, refill_per_sec: nat, now: nat) -> Self {
        if now <= self.last_update {
            self
        } else {
            TokenBucketModel {
                last_update: now,
                credits: least(
                    self.credits + inflow((now - self.last_update) as nat, refill_per_sec),
                    capacity,
                ),
                in_flight: self.in_flight,
            }
        }
    }

    /// How long a pool that is up to date keeps `cost` waiting: not at all where the credits are
    /// there, for good where they never will be, and else until the missing ones have flowed in.
    pub open spec fn wait(self, capacity: nat, refill_per_sec: nat, cost: nat) -> Option<nat> {
        if cost > capacity {
            Some(MAX_NANOS as nat)
        } else if self.credits >= cost {
            None
        } else if refill_per_sec == 0 {
            Some(MAX_NANOS as nat)
        } else {
            Some(ceil_div((cost - self.credits) as nat * NANOS_PER_SEC as nat, refill_per_sec))
        }
    }

    /// The pool with `cost` credits moved from the pool to the permits in flight.
    pub open spec fn taken(self, cost: nat) -> Self {
        TokenBucketModel {
            last_update: self.last_update,
            credits: (self.credits - cost) as nat,
            in_flight: least(self.in_flight + cost, u64::MAX as nat),
        }
    }

    /// The pool after an attempt to reserve `cost` at `now`.
    pub open spec fn reserved(
        self,
        capacity: nat,
        refill_per_sec: nat,
        cost: nat,
        now: nat,
    ) -> Self {
        let current = self.refilled(capacity, refill_per_sec, now);
        if current.wait(capacity, refill_per_sec, cost) is None {
            current.taken(cost)
        } else {
            current
        }
    }

    /// The pool after a reservation of `cost` was given back at `now`.
    pub open spec fn refunded(
        self,
        capacity: nat,
        refill_per_sec: nat,
        cost: nat,
        now: nat,
    ) -> Self {
        let current = self.refilled(capacity, refill_per_sec, now);
        TokenBucketModel {
            last_update: current.last_update,
            credits: least(current.credits + cost, capacity),
            in_flight: monus(current.in_flight, cost),
        }
    }

    /// The pool after a reservation of `cost` was spent.
    pub open spec fn committed(self, cost: nat) -> Self {
        TokenBucketModel { in_flight: monus(self.in_flight, cost), ..self }
    }

    /// The pool after its capacity changed: a larger capacity adds the difference, a smaller one
    /// cuts the credits off.
    pub open spec fn resized(self, old_capacity: nat, new_capacity: nat) -> Self {
        TokenBucketModel {
            credits: least(self.credits + monus(new_capacity, old_capacity), new_capacity),
            ..self
        }
    }
}

/// Accounting state of a credit pool.
#[derive(Debug)]
pub struct TokenBucketState {
    last_update: Duration,
    credits: u64,
    in_flight: u64,
}

impl TokenBucketState {
    /// What the pool holds.
    pub closed spec fn view(self) -> TokenBucketModel {
        TokenBucketModel {
            last_update: nanos(self.last_update),
            credits: self.credits as nat,
            in_flight: self.in_flight as nat,
        }
    }

    /// A full pool.
    pub fn new(now: Duration, capacity: u64) -> (s: Self)
        ensures
            s@ == TokenBucketModel::full(nanos(now), capacity as nat),
    {
        Self { last_update: now, credits: capacity, in_flight: 0 }
    }

    /// Credits in the pool.
    pub fn credits(&self) -> (credits: u64)
        ensures
            credits == self@.credits,
    {
        self.credits
    }

    /// Whether a permit is still to be finalized.
    pub fn has_outstanding(&self) -> (r: bool)
        ensures
            r == (self@.in_flight != 0),
    {
        self.in_flight != 0
    }

    /// Reserves `cost` credits at `now`, or says how long to wait for them.
    pub fn try_reserve(
        &mut self,
        capacity: u64,
        refill_per_sec: u64,
        cost: Cost,
        now: Duration,
    ) -> (r: Result<(), Deny>)
        ensures
            final(self)@ == old(self)@.reserved(
                capacity as nat,
                refill_per_sec as nat,
                cost@ as nat,
                nanos(now),
            ),
            ({
                let wait = old(self)@.refilled(
                    capacity as nat,
                    refill_per_sec as nat,
                    nanos(now),
                ).wait(capacity as nat, refill_per_sec as nat, cost@ as nat);
                match r {
                    Ok(()) => wait is None,
                    Err(deny) => wait == Some(nanos(deny.retry_after)),
                }
            }),
    {
        self.refill(capacity, refill_per_sec, now);

        let want: u64 = cost.get() as u64;
        if want > capacity {
            return Err(Deny { retry_after: time::longest() });
        }
        if self.credits >= want {
            self.credits = self.credits - want;
            self.in_flight = self.in_flight.saturating_add(want);
            return Ok(());
        }
        if refill_per_sec == 0 {
            return Err(Deny { retry_after: time::longest() });
        }
        let deficit: u64 = want - self.credits;
        Err(Deny { retry_after: retry_after_for_deficit(deficit, refill_per_sec) })
    }

    /// Gives a reservation of `cost` back to the pool, which never rises above its capacity.
    pub fn refund(&mut self, capacity: u64, cost: Cost, now: Duration, refill_per_sec: u64)
        ensures
            final(self)@ == old(self)@.refunded(
                capacity as nat,
                refill_per_sec as nat,
                cost@ as nat,
                nanos(now),
            ),
    {
        self.refill(capacity, refill_per_sec, now);
        let amount: u64 = cost.get() as u64;
        self.in_flight = self.in_flight.saturating_sub(amount);
        self.credits = min_u64(self.credits.saturating_add(amount), capacity);
    }

    /// Spends a reservation of `cost`.
    pub fn commit(&mut self, cost: Cost)
        ensures
            final(self)@ == old(self)@.committed(cost@ as nat),
    {
        let amount: u64 = cost.get() as u64;
        self.in_flight = self.in_flight.saturating_sub(amount);
    }

    /// Adjusts the credits to a new capacity.
    pub fn apply_capacity_change(&mut self, old_capacity: u64, new_capacity: u64)
        ensures
            final(self)@ == old(self)@.resized(old_capacity as nat, new_capacity as nat),
    {
        if new_capacity >= old_capacity {
            // Preserve the current "deficit" when the max pool increases.
            let delta: u64 = new_capacity - old_capacity;
            self.credits = min_u64(self.credits.saturating_add(delta), new_capacity);
        } else {
            self.credits = min_u64(self.credits, new_capacity);
        }
    }

    /// Brings the credits up to date at `now`.
    pub fn refill(&mut self, capacity: u64, refill_per_sec: u64, now: Duration)
        ensures
            final(self)@ == old(self)@.refilled(
                capacity as nat,
                refill_per_sec as nat,
                nanos(now),
            ),
    {
        if !time::shorter(self.last_update, now) {
            return ;
        }
        let delta: Duration = time::saturating_sub(now, self.last_update);
        let add: u64 = credits_added(delta, refill_per_sec);
        self.credits = min_u64(self.credits.saturating_add(add), capacity);
        self.last_update = now;
    }
}

/// The smaller of two numbers.
fn min_u64(a: u64, b: u64) -> (m: u64)
    ensures
        m == least(a as nat, b as nat),
{
    if a <= b {
        a
    } else {
        b
    }
}

/// Whole credits that flow in over `delta`, held at `u64::MAX`.
fn credits_added(delta: Duration, refill_per_sec: u64) -> (add: u64)
    ensures
        add == least(inflow(nanos(delta), refill_per_sec as nat), u64::MAX as nat),
{
    let product: u128 = time::saturating_mul(delta.as_nanos(), refill_per_sec as u128);
    let add: u128 = product / NANOS_PER_SEC;
    proof {
        vstd::arithmetic::div_mod::lemma_div_is_ordered(
            product as int,
            nanos(delta) * refill_per_sec,
            NANOS_PER_SEC as int,
        );
    }
    if add > u64::MAX as u128 {
        u64::MAX
    } else {
        add as u64
    }
}

/// How long it takes until `deficit` credits have flowed in.
fn retry_after_for_deficit(deficit: u64, refill_per_sec: u64) -> (wait: Duration)
    requires
        refill_per_sec > 0,
    ensures
        nanos(wait) == ceil_div(deficit as nat * NANOS_PER_SEC as nat, refill_per_sec as nat),
{
    let product: u128 = deficit as u128 * NANOS_PER_SEC;
    let needed: u128 = time::div_ceil(product, refill_per_sec as u128);
    proof {
        crate::time::lemma_ceil_div_least(product as nat, refill_per_sec as nat, product as nat);
        assert(product * refill_per_sec >= product) by (nonlinear_arith)
            requires
                refill_per_sec >= 1,
                product >= 0,
        ;
    }
    time::from_nanos(needed)
}

/// The wait that a denied caller is told is the least one that is enough: for a pool that was
/// brought up to date when the denial was given, the credits are there exactly from the end of
/// the wait on.
pub proof fn law_pool_wait_is_exact(
    pool: TokenBucketModel,
    capacity: nat,
    refill_per_sec: nat,
    cost: nat,
    delay: nat,
)
    requires
        pool.credits < cost <= capacity,
        refill_per_sec > 0,
    ensures
        pool.wait(capacity, refill_per_sec, cost) matches Some(wait) && (pool.refilled(
            capacity,
            refill_per_sec,
            pool.last_update + delay,
        ).wait(capacity, refill_per_sec, cost) is None <==> delay >= wait),
{
    let deficit = (cost - pool.credits) as nat;
    let billion = NANOS_PER_SEC as nat;
    let q = delay * refill_per_sec / billion;
    let r = (delay * refill_per_sec) % billion;
    crate::time::lemma_ceil_div_least(deficit * billion, refill_per_sec, delay);
    if q >= deficit {
        assert(delay * refill_per_sec >= deficit * billion) by (nonlinear_arith)
            requires
                delay * refill_per_sec == billion * q + r,
                q >= deficit,
                r >= 0,
                billion > 0,
        ;
    } else {
        assert(delay * refill_per_sec < deficit * billion) by (nonlinear_arith)
            requires
                delay * refill_per_sec == billion * q + r,
                q + 1 <= deficit,
                r < billion,
                billion > 0,
        ;
    }
    let later = pool.refilled(capacity, refill_per_sec, pool.last_update + delay);
    let wait = ceil_div(deficit * billion, refill_per_sec);
    assert(pool.wait(capacity, refill_per_sec, cost) == Some(wait));
    assert(q >= deficit <==> delay >= wait);
    assert(inflow(delay, refill_per_sec) == q);
    if delay > 0 {
        assert(later.credits == least(pool.credits + q, capacity));
    } else {
        assert(q == 0);
    }
    assert(later.credits >= cost <==> q >= deficit);
}

/// A cost above the capacity, or one that the credits do not cover where nothing flows in, is
/// denied for good: at every later instant as well.
pub proof fn law_pool_permanent_deny(
    pool: TokenBucketModel,
    capacity: nat,
    refill_per_sec: nat,
    cost: nat,
    now: nat,
)
    requires
        cost > capacity || (refill_per_sec == 0 && pool.credits < cost),
    ensures
        pool.refilled(capacity, refill_per_sec, now).wait(capacity, refill_per_sec, cost) == Some(
            MAX_NANOS as nat,
        ),
{
    if refill_per_sec == 0 && now > pool.last_update {
        let delta = (now - pool.last_update) as nat;
        assert(delta * refill_per_sec == 0) by (nonlinear_arith)
            requires
                refill_per_sec == 0,
        ;
    }
}

/// No operation lifts the credits above the capacity.
pub proof fn law_pool_within_capacity(
    pool: TokenBucketModel,
    capacity: nat,
    refill_per_sec: nat,
    cost: nat,
    now: nat,
    new_capacity: nat,
)
    requires
        pool.credits <= capacity,
    ensures
        pool.refilled(capacity, refill_per_sec, now).credits <= capacity,
        pool.reserved(capacity, refill_per_sec, cost, now).credits <= capacity,
        pool.refunded(capacity, refill_per_sec, cost, now).credits <= capacity,
        pool.committed(cost).credits <= capacity,
        pool.resized(capacity, new_capacity).credits <= new_capacity,
{
}

/// Reserving and giving back at the same instant leaves the pool as it stands at that instant.
pub proof fn law_pool_refund_undoes_reserve(
    pool: TokenBucketModel,
    capacity: nat,
    refill_per_sec: nat,
    cost: nat,
    now: nat,
)
    requires
        pool.credits <= capacity,
        pool.in_flight + cost <= u64::MAX,
        pool.refilled(capacity, refill_per_sec, now).wait(capacity, refill_per_sec, cost) is None,
    ensures
        pool.reserved(capacity, refill_per_sec, cost, now).refunded(
            capacity,
            refill_per_sec,
            cost,
            now,
        ) == pool.refilled(capacity, refill_per_sec, now),
{
}

/// Reserving and spending takes the cost out of the pool, once, and leaves nothing in flight.
pub proof fn law_pool_commit_spends_once(
    pool: TokenBucketModel,
    capacity: nat,
    refill_per_sec: nat,
    cost: nat,
    now: nat,
)
    requires
        pool.in_flight + cost <= u64::MAX,
        pool.refilled(capacity, refill_per_sec, now).wait(capacity, refill_per_sec, cost) is None,
    ensures
        ({
            let current = pool.refilled(capacity, refill_per_sec, now);
            pool.reserved(capacity, refill_per_sec, cost, now).committed(cost) == (
            TokenBucketModel { credits: (current.credits - cost) as nat, ..current })
        }),
{
}

/// A larger capacity keeps the pool's deficit as it is.
pub proof fn law_pool_growth_preserves_deficit(
    pool: TokenBucketModel,
    old_capacity: nat,
    new_capacity: nat,
)
    requires
        pool.credits <= old_capacity <= new_capacity,
    ensures
        new_capacity - pool.resized(old_capacity, new_capacity).credits == old_capacity
            - pool.credits,
{
}

/// The sum of the costs granted over a run of attempts, each at an instant and of a cost, where
/// every grant is spent.
pub open spec fn granted_total(
    pool: TokenBucketModel,
    capacity: nat,
    refill_per_sec: nat,
    attempts: Seq<(nat, nat)>,
) -> nat
    decreases attempts.len(),
{
    if attempts.len() == 0 {
        0
    } else {
        let (now, cost) = attempts[0];
        let current = pool.refilled(capacity, refill_per_sec, now);
        let granted = if current.wait(capacity, refill_per_sec, cost) is None {
            cost
        } else {
            0
        };
        granted + granted_total(
            pool.reserved(capacity, refill_per_sec, cost, now).committed(granted),
            capacity,
            refill_per_sec,
            attempts.skip(1),
        )
    }
}

/// Over any run of attempts up to an instant `end`, the pool grants no more than it held at the
/// start and what flowed in since.
pub proof fn law_pool_budget(
    pool: TokenBucketModel,
    capacity: nat,
    refill_per_sec: nat,
    attempts: Seq<(nat, nat)>,
    end: nat,
)
    requires
        pool.last_update <= end,
        forall|i: int| 0 <= i < attempts.len() ==> (#[trigger] attempts[i]).0 <= end,
    ensures
        granted_total(pool, capacity, refill_per_sec, attempts) <= pool.credits + inflow(
            (end - pool.last_update) as nat,
            refill_per_sec,
        ),
    decreases attempts.len(),
{
    if attempts.len() > 0 {
        let (now, cost) = attempts[0];
        let rest = attempts.skip(1);
        let current = pool.refilled(capacity, refill_per_sec, now);
        let granted = if current.wait(capacity, refill_per_sec, cost) is None {
            cost
        } else {
            0
        };
        let next = pool.reserved(capacity, refill_per_sec, cost, now).committed(granted);
        assert forall|i: int| 0 <= i < rest.len() implies (#[trigger] rest[i]).0 <= end by {
            assert(rest[i] == attempts[i + 1]);
        }
        law_pool_budget(next, capacity, refill_per_sec, rest, end);
        if now > pool.last_update {
            lemma_inflow_splits(
                (now - pool.last_update) as nat,
                (end - now) as nat,
                refill_per_sec,
            );
        }
    }
}

/// What flows in over two stretches, each in whole credits, is at most what flows in over both.
pub(crate) proof fn lemma_inflow_splits(first: nat, second: nat, refill_per_sec: nat)
    ensures
        inflow(first, refill_per_sec) + inflow(second, refill_per_sec) <= inflow(
            first + second,
            refill_per_sec,
        ),
{
    let a = first * refill_per_sec;
    let b = second * refill_per_sec;
    assert((first + second) * refill_per_sec == a + b) by (nonlinear_arith)
        requires
            a == first * refill_per_sec,
            b == second * refill_per_sec,
    ;
}

/// A pool starts full, with nothing in flight.
pub proof fn law_pool_starts_full(now: nat, capacity: nat)
    ensures
        TokenBucketModel::full(now, capacity).credits == capacity,
        TokenBucketModel::full(now, capacity).in_flight == 0,
        TokenBucketModel::full(now, capacity).last_update == now,
{
}

/// Credits flow in at the rate, counted in whole credits per billion nanoseconds, and not beyond
/// the capacity. What is in flight does not change, and an instant that is not later brings
/// nothing.
pub proof fn law_pool_refills_at_the_rate(
    pool: TokenBucketModel,
    capacity: nat,
    refill_per_sec: nat,
    now: nat,
)
    ensures
        ({
            let after = pool.refilled(capacity, refill_per_sec, now);
            &&& after.in_flight == pool.in_flight
            &&& now <= pool.last_update ==> after == pool
            &&& now > pool.last_update ==> {
                &&& after.last_update == now
                &&& after.credits <= capacity
                &&& pool.credits > capacity ==> after.credits == capacity
                &&& pool.credits <= capacity ==> {
                    &&& after.credits >= pool.credits
                    &&& (after.credits - pool.credits) * 1_000_000_000 <= (now - pool.last_update)
                        * refill_per_sec
                    &&& after.credits < capacity ==> (now - pool.last_update) * refill_per_sec < (
                    after.credits - pool.credits + 1) * 1_000_000_000
                }
            }
        }),
{
}

/// A request that is within the capacity, and that the credits cover, is granted, and no other.
pub proof fn law_pool_grants_what_it_covers(
    pool: TokenBucketModel,
    capacity: nat,
    refill_per_sec: nat,
    cost: nat,
)
    ensures
        pool.wait(capacity, refill_per_sec, cost) is None <==> cost <= capacity && cost
            <= pool.credits,
{
}

/// A grant moves its cost, and no more, from the pool to the permits in flight; a denial takes
/// nothing, so that the pool stands as it does at that instant without the request.
pub proof fn law_pool_takes_only_what_it_grants(
    pool: TokenBucketModel,
    capacity: nat,
    refill_per_sec: nat,
    cost: nat,
    now: nat,
)
    ensures
        ({
            let current = pool.refilled(capacity, refill_per_sec, now);
            let after = pool.reserved(capacity, refill_per_sec, cost, now);
            &&& current.wait(capacity, refill_per_sec, cost) is None ==> {
                &&& after.credits + cost == current.credits
                &&& pool.in_flight + cost <= u64::MAX ==> after.in_flight == pool.in_flight + cost
                &&& pool.in_flight + cost > u64::MAX ==> after.in_flight == u64::MAX
                &&& after.last_update == current.last_update
            }
            &&& current.wait(capacity, refill_per_sec, cost) is Some ==> after == current
        }),
{
}

/// A denied request changes the answer to no other: whatever is asked for next at that instant is
/// answered as if the first request had not been made, with the same pool left.
pub proof fn law_pool_denial_changes_no_answer(
    pool: TokenBucketModel,
    capacity: nat,
    refill_per_sec: nat,
    cost: nat,
    other_cost: nat,
    now: nat,
)
    requires
        pool.refilled(capacity, refill_per_sec, now).wait(capacity, refill_per_sec, cost) is Some,
    ensures
        pool.reserved(capacity, refill_per_sec, cost, now).refilled(
            capacity,
            refill_per_sec,
            now,
        ).wait(capacity, refill_per_sec, other_cost) == pool.refilled(
            capacity,
            refill_per_sec,
            now,
        ).wait(capacity, refill_per_sec, other_cost),
        pool.reserved(capacity, refill_per_sec, cost, now).reserved(
            capacity,
            refill_per_sec,
            other_cost,
            now,
        ) == pool.reserved(capacity, refill_per_sec, other_cost, now),
{
}

/// The wait that a denied request is told is enough: asked again that much later, or any time
/// after, with nothing else granted in between, it is granted. Asked again before, it is not.
pub proof fn law_pool_retry_is_granted(
    pool: TokenBucketModel,
    capacity: nat,
    refill_per_sec: nat,
    cost: nat,
    now: nat,
    delay: nat,
)
    requires
        cost <= capacity,
        refill_per_sec > 0,
        pool.last_update <= now,
        pool.refilled(capacity, refill_per_sec, now).wait(capacity, refill_per_sec, cost) is Some,
    ensures
        ({
            let denied = pool.reserved(capacity, refill_per_sec, cost, now);
            let wait = pool.refilled(capacity, refill_per_sec, now).wait(
                capacity,
                refill_per_sec,
                cost,
            )->0;
            denied.refilled(capacity, refill_per_sec, now + delay).wait(
                capacity,
                refill_per_sec,
                cost,
            ) is None <==> delay >= wait
        }),
{
    let current = pool.refilled(capacity, refill_per_sec, now);
    assert(current.last_update == now);
    law_pool_wait_is_exact(current, capacity, refill_per_sec, cost, delay);
}

/// A refund gives the whole cost back at whatever instant it is made, besides what flowed in, and
/// never above the capacity; the cost is no longer in flight.
pub proof fn law_pool_refund_restores_the_cost(
    pool: TokenBucketModel,
    capacity: nat,
    refill_per_sec: nat,
    cost: nat,
    now: nat,
)
    ensures
        ({
            let current = pool.refilled(capacity, refill_per_sec, now);
            let after = pool.refunded(capacity, refill_per_sec, cost, now);
            &&& after.last_update == current.last_update
            &&& after.credits <= capacity
            &&& current.credits + cost <= capacity ==> after.credits == current.credits + cost
            &&& current.credits + cost > capacity ==> after.credits == capacity
            &&& cost <= pool.in_flight ==> after.in_flight + cost == pool.in_flight
            &&& cost > pool.in_flight ==> after.in_flight == 0
        }),
{
}

/// A grant that is given back, at the same instant or at any other one, is as if it had not been
/// made: the pool is what it would have become by then.
pub proof fn law_pool_refund_undoes_reserve_at_any_time(
    pool: TokenBucketModel,
    capacity: nat,
    refill_per_sec: nat,
    cost: nat,
    now: nat,
    later: nat,
)
    requires
        pool.credits <= capacity,
        pool.in_flight + cost <= u64::MAX,
        pool.refilled(capacity, refill_per_sec, now).wait(capacity, refill_per_sec, cost) is None,
    ensures
        pool.reserved(capacity, refill_per_sec, cost, now).refunded(
            capacity,
            refill_per_sec,
            cost,
            later,
        ) == pool.refilled(capacity, refill_per_sec, now).refilled(capacity, refill_per_sec, later),
{
}

/// Spending a reservation takes it out of flight and touches nothing else.
pub proof fn law_pool_commit_gives_nothing_back(pool: TokenBucketModel, cost: nat)
    ensures
        pool.committed(cost).credits == pool.credits,
        pool.committed(cost).last_update == pool.last_update,
        cost <= pool.in_flight ==> pool.committed(cost).in_flight + cost == pool.in_flight,
        cost > pool.in_flight ==> pool.committed(cost).in_flight == 0,
{
}

/// A change of capacity touches the credits alone. A larger one adds the difference, a smaller one
/// cuts off what is above it, and one that stays the same changes nothing.
pub proof fn law_pool_follows_its_capacity(
    pool: TokenBucketModel,
    old_capacity: nat,
    new_capacity: nat,
)
    ensures
        ({
            let after = pool.resized(old_capacity, new_capacity);
            &&& after.in_flight == pool.in_flight
            &&& after.last_update == pool.last_update
            &&& new_capacity >= old_capacity >= pool.credits ==> new_capacity - after.credits
                == old_capacity - pool.credits
            &&& new_capacity >= old_capacity && pool.credits > old_capacity ==> after.credits
                == new_capacity
            &&& pool.credits <= new_capacity < old_capacity ==> after.credits == pool.credits
            &&& new_capacity < old_capacity && new_capacity < pool.credits ==> after.credits
                == new_capacity
        }),
{
}

} // verus!
