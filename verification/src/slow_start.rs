//! Slow-start ramp: the limit that applies grows linearly from zero to its configured value
//! over the ramp, counted from the moment the limiter started.

use crate::time;
use crate::time::{ceil_div, least, monus, nanos, MAX_NANOS};
use std::time::Duration;
use vstd::prelude::*;

verus! {

/// Slow-start ramp configuration.
#[derive(Debug, Clone, Copy, PartialEq, Eq)]
pub struct SlowStart {
    ramp: Duration,
}

impl SlowStart {
    /// The ramp.
    pub closed spec fn spec_ramp(self) -> Duration {
        self.ramp
    }

    /// Length of the ramp in nanoseconds.
    pub open spec fn length(self) -> nat {
        nanos(self.spec_ramp())
    }

    /// Constructs a slow-start ramp. A ramp of zero length means no slow start.
    pub fn new(ramp: Duration) -> (slow: Self)
        ensures
            slow.spec_ramp() == ramp,
    {
        Self { ramp }
    }

    /// Ramp duration.
    pub fn ramp(&self) -> (r: Duration)
        ensures
            r == self.spec_ramp(),
    {
        self.ramp
    }
}

/// Whether the ramp is still running `elapsed` nanoseconds after the start.
pub open spec fn ramping(slow: SlowStart, elapsed: nat) -> bool {
    elapsed < slow.length()
}

/// The share of `max` that is available `elapsed` nanoseconds after the start:
/// `max * elapsed / ramp` rounded down while the ramp runs, and all of it afterwards.
pub open spec fn ramped(max: nat, slow: SlowStart, elapsed: nat) -> nat {
    if ramping(slow, elapsed) {
        max * elapsed / slow.length()
    } else {
        max
    }
}

/// The share of a 64-bit `max`: as [`ramped`], with the product held at `u128::MAX`.
pub open spec fn ramped_u64(max: nat, slow: SlowStart, elapsed: nat) -> nat {
    if ramping(slow, elapsed) {
        least(max * elapsed, u128::MAX as nat) / slow.length()
    } else {
        max
    }
}

/// How long to wait, `elapsed` nanoseconds after the start, until `cost` fits: the time that is
/// left to the first instant at which the available share reaches `cost`; for a cost above
/// `max`, the rest of the ramp; nothing where there is no ramp to wait for.
pub open spec fn ramp_wait(max: nat, slow: SlowStart, elapsed: nat, cost: nat) -> nat {
    if !ramping(slow, elapsed) || max == 0 {
        0
    } else if cost > max {
        (slow.length() - elapsed) as nat
    } else {
        monus(ceil_div(cost * slow.length(), max), elapsed)
    }
}

/// The wait for a 64-bit `max` and `cost`: as [`ramp_wait`], with the product held at
/// `u128::MAX`.
pub open spec fn ramp_wait_u64(max: nat, slow: SlowStart, elapsed: nat, cost: nat) -> nat {
    if !ramping(slow, elapsed) || max == 0 {
        0
    } else if cost > max {
        (slow.length() - elapsed) as nat
    } else {
        monus(ceil_div(least(cost * slow.length(), u128::MAX as nat), max), elapsed)
    }
}

proof fn lemma_share_at_most(max: nat, elapsed: nat, length: nat)
    requires
        elapsed < length,
    ensures
        max * elapsed / length <= max,
{
    assert(max * elapsed <= max * length) by (nonlinear_arith)
        requires
            elapsed < length,
    ;
    assert(max * length / length == max) by {
        vstd::arithmetic::div_mod::lemma_div_by_multiple(max as int, length as int);
    }
    vstd::arithmetic::div_mod::lemma_div_is_ordered(
        (max * elapsed) as int,
        (max * length) as int,
        length as int,
    );
}

/// The ramp never makes more available than the configured limit.
pub proof fn law_ramp_is_conservative(max: nat, slow: SlowStart, elapsed: nat)
    ensures
        ramped(max, slow, elapsed) <= max,
        ramped_u64(max, slow, elapsed) <= max,
{
    if ramping(slow, elapsed) {
        lemma_share_at_most(max, elapsed, slow.length());
        vstd::arithmetic::div_mod::lemma_div_is_ordered(
            least(max * elapsed, u128::MAX as nat) as int,
            (max * elapsed) as int,
            slow.length() as int,
        );
    }
}

/// The share that is available never shrinks as time passes.
pub proof fn law_ramp_is_monotonic(max: nat, slow: SlowStart, earlier: nat, later: nat)
    requires
        earlier <= later,
    ensures
        ramped(max, slow, earlier) <= ramped(max, slow, later),
        ramped_u64(max, slow, earlier) <= ramped_u64(max, slow, later),
{
    law_ramp_is_conservative(max, slow, earlier);
    if ramping(slow, later) {
        assert(max * earlier <= max * later) by (nonlinear_arith)
            requires
                earlier <= later,
        ;
        vstd::arithmetic::div_mod::lemma_div_is_ordered(
            (max * earlier) as int,
            (max * later) as int,
            slow.length() as int,
        );
        vstd::arithmetic::div_mod::lemma_div_is_ordered(
            least(max * earlier, u128::MAX as nat) as int,
            least(max * later, u128::MAX as nat) as int,
            slow.length() as int,
        );
    }
}

/// For `0 <= e < length`: the share reaches `cost` at `e` exactly where `e` has reached the
/// rounded-up `cost * length / max`.
proof fn lemma_share_reaches(max: nat, length: nat, cost: nat, e: nat)
    requires
        length > 0,
        max > 0,
    ensures
        max * e / length >= cost <==> e >= ceil_div(cost * length, max),
{
    crate::time::lemma_ceil_div_least(cost * length, max, e);
    let q = max * e / length;
    let r = (max * e) % length;
    assert(max * e == length * q + r && r < length) by (nonlinear_arith)
        requires
            length > 0,
            q == (max * e) / length,
            r == (max * e) % length,
    ;
    if q >= cost {
        assert(e * max >= cost * length) by (nonlinear_arith)
            requires
                max * e == length * q + r,
                q >= cost,
                r >= 0,
        ;
    } else {
        assert(e * max < cost * length) by (nonlinear_arith)
            requires
                max * e == length * q + r,
                q + 1 <= cost,
                r < length,
        ;
    }
}

/// The wait that a denied caller is told is the right one: for a cost within the limit, the
/// available share reaches the cost exactly from the end of the wait on, and not an instant
/// before.
pub proof fn law_ramp_wait_is_exact(
    max: nat,
    slow: SlowStart,
    elapsed: nat,
    cost: nat,
    delay: nat,
)
    requires
        0 < cost <= max,
        ramped(max, slow, elapsed) < cost,
    ensures
        ramped(max, slow, elapsed + delay) >= cost <==> delay >= ramp_wait(
            max,
            slow,
            elapsed,
            cost,
        ),
{
    let length = slow.length();
    let need = ceil_div(cost * length, max);
    lemma_share_reaches(max, length, cost, elapsed);
    lemma_share_reaches(max, length, cost, elapsed + delay);
    crate::time::lemma_ceil_div_least(cost * length, max, length);
    assert(length * max >= cost * length) by (nonlinear_arith)
        requires
            cost <= max,
    ;
}

/// The same for a credit pool, whose limit is a 64-bit number and whose cost is a 32-bit one.
pub proof fn law_pool_ramp_wait_is_exact(
    max: u64,
    slow: SlowStart,
    elapsed: nat,
    cost: u32,
    delay: nat,
)
    requires
        0 < cost <= max,
        slow.length() <= MAX_NANOS,
        ramped_u64(max as nat, slow, elapsed) < cost,
    ensures
        ramped_u64(max as nat, slow, elapsed + delay) >= cost <==> delay >= ramp_wait_u64(
            max as nat,
            slow,
            elapsed,
            cost as nat,
        ),
{
    let length = slow.length();
    lemma_cost_product(cost as nat, length);
    lemma_held_share(max as nat, length, cost as nat, elapsed);
    lemma_held_share(max as nat, length, cost as nat, elapsed + delay);
    crate::time::lemma_ceil_div_least(cost as nat * length, max as nat, length);
    assert(length * max as nat >= cost as nat * length) by (nonlinear_arith)
        requires
            cost <= max,
    ;
}

/// Holding the product at `u128::MAX` does not change when a 32-bit cost is reached.
proof fn lemma_held_share(max: nat, length: nat, cost: nat, e: nat)
    requires
        0 < length,
        0 < max,
        cost * length <= u128::MAX,
    ensures
        least(max * e, u128::MAX as nat) / length >= cost <==> e >= ceil_div(cost * length, max),
{
    lemma_share_reaches(max, length, cost, e);
    if max * e > u128::MAX {
        vstd::arithmetic::div_mod::lemma_div_is_ordered(
            (cost * length) as int,
            u128::MAX as int,
            length as int,
        );
        vstd::arithmetic::div_mod::lemma_div_is_ordered(
            (cost * length) as int,
            (max * e) as int,
            length as int,
        );
        vstd::arithmetic::div_mod::lemma_div_by_multiple(cost as int, length as int);
    }
}

/// A 32-bit number times the length of a duration fits in 128 bits.
proof fn lemma_cost_product(a: nat, length: nat)
    requires
        a <= u32::MAX,
        length <= MAX_NANOS,
    ensures
        a * length <= u128::MAX,
{
    assert(a * length <= 0xffff_ffff * 18_446_744_073_709_551_615_999_999_999) by (nonlinear_arith)
        requires
            a <= 0xffff_ffff,
            length <= 18_446_744_073_709_551_615_999_999_999,
    ;
}

/// The fixed-window limit in force at `now`.
pub fn effective_max(
    max_per_window: u32,
    slow: SlowStart,
    started_at: Duration,
    now: Duration,
) -> (max: u32)
    ensures
        max == ramped(max_per_window as nat, slow, monus(nanos(now), nanos(started_at))),
{
    let elapsed: u128 = time::saturating_sub(now, started_at).as_nanos();
    let length: u128 = slow.ramp.as_nanos();
    if elapsed >= length {
        return max_per_window;
    }
    proof {
        lemma_cost_product(max_per_window as nat, elapsed as nat);
        lemma_share_at_most(max_per_window as nat, elapsed as nat, length as nat);
    }
    ((max_per_window as u128 * elapsed) / length) as u32
}

/// The credit-pool limit (capacity or refill rate) in force at `now`.
pub fn effective_u64(max: u64, slow: SlowStart, started_at: Duration, now: Duration) -> (r: u64)
    ensures
        r == ramped_u64(max as nat, slow, monus(nanos(now), nanos(started_at))),
{
    let elapsed: u128 = time::saturating_sub(now, started_at).as_nanos();
    let length: u128 = slow.ramp.as_nanos();
    if elapsed >= length {
        return max;
    }
    proof {
        law_ramp_is_conservative(max as nat, slow, elapsed as nat);
    }
    (time::saturating_mul(max as u128, elapsed) / length) as u64
}

/// How long to wait at `now` until the fixed-window ramp lets `cost` through.
pub fn retry_after_for_cost(
    max_per_window: u32,
    slow: SlowStart,
    started_at: Duration,
    now: Duration,
    cost: u32,
) -> (wait: Duration)
    ensures
        nanos(wait) == ramp_wait(
            max_per_window as nat,
            slow,
            monus(nanos(now), nanos(started_at)),
            cost as nat,
        ),
{
    let elapsed: Duration = time::saturating_sub(now, started_at);
    if max_per_window == 0 || !time::shorter(elapsed, slow.ramp) {
        return time::zero();
    }
    if cost > max_per_window {
        // Unachievable under the configured steady-state limit.
        return time::saturating_sub(slow.ramp, elapsed);
    }
    let length: u128 = slow.ramp.as_nanos();
    proof {
        lemma_cost_product(cost as nat, length as nat);
        lemma_needed_at_most(max_per_window as nat, length as nat, cost as nat);
    }
    let needed: u128 = time::div_ceil(cost as u128 * length, max_per_window as u128);
    time::saturating_sub(time::duration_from_nanos(needed), elapsed)
}

/// How long to wait at `now` until the credit-pool ramp lets `cost` through.
pub fn retry_after_for_cost_u64(
    max: u64,
    slow: SlowStart,
    started_at: Duration,
    now: Duration,
    cost: u64,
) -> (wait: Duration)
    ensures
        nanos(wait) == ramp_wait_u64(
            max as nat,
            slow,
            monus(nanos(now), nanos(started_at)),
            cost as nat,
        ),
{
    let elapsed: Duration = time::saturating_sub(now, started_at);
    if max == 0 || !time::shorter(elapsed, slow.ramp) {
        return time::zero();
    }
    if cost > max {
        return time::saturating_sub(slow.ramp, elapsed);
    }
    let length: u128 = slow.ramp.as_nanos();
    let product: u128 = time::saturating_mul(cost as u128, length);
    let needed: u128 = time::div_ceil(product, max as u128);
    proof {
        lemma_needed_at_most(max as nat, length as nat, cost as nat);
        crate::time::lemma_ceil_div_least(product as nat, max as nat, length as nat);
        assert(length as nat * max as nat >= cost as nat * length as nat) by (nonlinear_arith)
            requires
                cost <= max,
        ;
    }
    time::saturating_sub(time::duration_from_nanos(needed), elapsed)
}

/// The instant from which a cost within the limit fits lies within the ramp.
proof fn lemma_needed_at_most(max: nat, length: nat, cost: nat)
    requires
        cost <= max,
        max > 0,
    ensures
        ceil_div(cost * length, max) <= length,
{
    crate::time::lemma_ceil_div_least(cost * length, max, length);
    assert(length * max >= cost * length) by (nonlinear_arith)
        requires
            cost <= max,
    ;
}

/// The ramp is linear: the share in force relates to the whole as the time since the start does to
/// the length of the ramp, rounded down to a whole number, until the ramp is over and the whole is
/// in force. A credit pool's share is held back further only where the product of its limit and the
/// time is more than 128 bits hold.
pub proof fn law_ramp_is_linear(max: nat, slow: SlowStart, elapsed: nat)
    ensures
        elapsed >= slow.length() ==> ramped(max, slow, elapsed) == max && ramped_u64(
            max,
            slow,
            elapsed,
        ) == max,
        elapsed < slow.length() ==> ramped(max, slow, elapsed) * slow.length() <= max * elapsed < (
        ramped(max, slow, elapsed) + 1) * slow.length(),
        elapsed < slow.length() && max * elapsed <= u128::MAX ==> ramped_u64(max, slow, elapsed)
            == ramped(max, slow, elapsed),
        elapsed < slow.length() && max * elapsed > u128::MAX ==> ramped_u64(max, slow, elapsed)
            * slow.length() <= u128::MAX < (ramped_u64(max, slow, elapsed) + 1) * slow.length(),
{
    if elapsed < slow.length() {
        lemma_quotient(max * elapsed, slow.length());
        lemma_quotient(u128::MAX as nat, slow.length());
    }
}

/// A quotient, rounded down.
proof fn lemma_quotient(n: nat, d: nat)
    requires
        d > 0,
    ensures
        n / d * d <= n < (n / d + 1) * d,
{
    let q = n / d;
    let r = n % d;
    vstd::arithmetic::div_mod::lemma_fundamental_div_mod(n as int, d as int);
    assert(q * d <= n < (q + 1) * d) by (nonlinear_arith)
        requires
            n == d * q + r,
            0 <= r < d,
    ;
}

/// The ramp keeps nothing waiting that it lets through: there is no wait once it is over, none for
/// a limit of zero, and none for a cost within the share in force. A cost above the limit waits for
/// the end of the ramp.
pub proof fn law_ramp_wait_is_no_longer_than_needed(
    max: nat,
    slow: SlowStart,
    elapsed: nat,
    cost: nat,
)
    ensures
        elapsed >= slow.length() || max == 0 ==> ramp_wait(max, slow, elapsed, cost) == 0
            && ramp_wait_u64(max, slow, elapsed, cost) == 0,
        cost <= ramped(max, slow, elapsed) ==> ramp_wait(max, slow, elapsed, cost) == 0,
        elapsed < slow.length() && cost > max > 0 ==> elapsed + ramp_wait(max, slow, elapsed, cost)
            == slow.length() && elapsed + ramp_wait_u64(max, slow, elapsed, cost) == slow.length(),
        cost <= max ==> ramp_wait_u64(max, slow, elapsed, cost) <= ramp_wait(
            max,
            slow,
            elapsed,
            cost,
        ) && (cost * slow.length() <= u128::MAX ==> ramp_wait_u64(max, slow, elapsed, cost)
            == ramp_wait(max, slow, elapsed, cost)),
{
    law_ramp_is_conservative(max, slow, elapsed);
    let length = slow.length();
    if elapsed < length && max > 0 {
        lemma_share_reaches(max, length, cost, elapsed);
        crate::time::lemma_ceil_div_least(
            least(cost * length, u128::MAX as nat),
            max,
            ceil_div(cost * length, max),
        );
        crate::time::lemma_ceil_div_least(cost * length, max, ceil_div(cost * length, max));
    }
}

/// A wait for a credit pool whose product is more than 128 bits hold reaches to the first instant
/// at which the product of the limit and the time since the start is the most that they hold.
pub proof fn law_held_ramp_wait_reaches_the_most(
    max: nat,
    slow: SlowStart,
    elapsed: nat,
    cost: nat,
    e: nat,
)
    requires
        0 < cost <= max,
        elapsed < slow.length(),
        cost * slow.length() > u128::MAX,
        e >= elapsed,
    ensures
        e * max >= u128::MAX <==> e >= elapsed + ramp_wait_u64(max, slow, elapsed, cost) && (
        ramp_wait_u64(max, slow, elapsed, cost) > 0 || elapsed * max >= u128::MAX),
{
    crate::time::lemma_ceil_div_least(u128::MAX as nat, max, e);
    crate::time::lemma_ceil_div_least(u128::MAX as nat, max, elapsed);
}

} // verus!
