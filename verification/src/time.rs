//! Arithmetic on [`Duration`], counted in whole nanoseconds.
//!
//! Every contract of this crate speaks of a duration through [`nanos`], its length in
//! nanoseconds. All of the arithmetic below goes through `Duration::as_nanos` and
//! `Duration::new`, the only two functions of `Duration` whose behaviour is taken on trust.

use std::time::Duration;
use vstd::prelude::*;

verus! {

/// Nanoseconds in a second.
pub const NANOS_PER_SEC: u128 = 1_000_000_000;

/// Length of the longest duration: `u64::MAX` seconds and 999,999,999 nanoseconds.
pub const MAX_NANOS: u128 = 18_446_744_073_709_551_615_999_999_999;

/// The length of a duration in nanoseconds, as `Duration::as_nanos` returns it.
pub uninterp spec fn nanos(d: Duration) -> nat;

/// `Duration::as_nanos`: the total number of nanoseconds in the duration. A duration holds a
/// `u64` of seconds and fewer than a billion nanoseconds, which bounds the result.
pub assume_specification[ Duration::as_nanos ](d: &Duration) -> (total: u128)
    ensures
        total == nanos(*d),
        total <= MAX_NANOS,
;

/// `Duration::new`: the duration of `secs` seconds and `subsec` nanoseconds. It panics only if
/// a carry out of `subsec` overflows the seconds; with `subsec` below a billion there is no
/// carry.
pub assume_specification[ Duration::new ](secs: u64, subsec: u32) -> (d: Duration)
    requires
        subsec < NANOS_PER_SEC,
    ensures
        nanos(d) == secs * NANOS_PER_SEC + subsec,
;

/// The smaller of two numbers.
pub open spec fn least(a: nat, b: nat) -> nat {
    if a <= b {
        a
    } else {
        b
    }
}

/// The larger of two numbers.
pub open spec fn greatest(a: nat, b: nat) -> nat {
    if a >= b {
        a
    } else {
        b
    }
}

/// `a - b`, or zero where `b` is larger.
pub open spec fn monus(a: nat, b: nat) -> nat {
    if a >= b {
        (a - b) as nat
    } else {
        0
    }
}

/// The instant `delay` after `t`, held at the longest duration.
pub open spec fn instant_after(t: nat, delay: nat) -> nat {
    least(t + delay, MAX_NANOS as nat)
}

/// `n / d`, rounded up.
pub open spec fn ceil_div(n: nat, d: nat) -> nat
    recommends
        d > 0,
{
    ((n + d - 1) / d as int) as nat
}

/// The longer of an instant that may be absent and one that is there.
pub open spec fn extended(current: Option<nat>, until: nat) -> nat {
    match current {
        Some(t) => greatest(t, until),
        None => until,
    }
}

/// The instant in nanoseconds, where there is one.
pub open spec fn opt_nanos(d: Option<Duration>) -> Option<nat> {
    match d {
        Some(t) => Some(nanos(t)),
        None => None,
    }
}

/// The duration of `n` nanoseconds.
pub(crate) fn from_nanos(n: u128) -> (d: Duration)
    requires
        n <= MAX_NANOS,
    ensures
        nanos(d) == n,
{
    Duration::new((n / NANOS_PER_SEC) as u64, (n % NANOS_PER_SEC) as u32)
}

/// The duration of `n` nanoseconds, or the longest duration where `n` is beyond it.
pub(crate) fn duration_from_nanos(n: u128) -> (d: Duration)
    ensures
        nanos(d) == least(n as nat, MAX_NANOS as nat),
{
    if n > MAX_NANOS {
        return longest();
    }
    from_nanos(n)
}

/// The duration of length zero.
pub(crate) fn zero() -> (d: Duration)
    ensures
        nanos(d) == 0,
{
    Duration::new(0, 0)
}

/// The longest duration.
pub(crate) fn longest() -> (d: Duration)
    ensures
        nanos(d) == MAX_NANOS,
{
    Duration::new(u64::MAX, 999_999_999)
}

/// The duration of `secs` seconds.
pub(crate) fn from_secs(secs: u64) -> (d: Duration)
    ensures
        nanos(d) == secs * NANOS_PER_SEC,
{
    Duration::new(secs, 0)
}

/// Whether the duration has length zero.
pub(crate) fn is_zero(d: Duration) -> (r: bool)
    ensures
        r == (nanos(d) == 0),
{
    d.as_nanos() == 0
}

/// Whether `a` is shorter than `b`.
pub(crate) fn shorter(a: Duration, b: Duration) -> (r: bool)
    ensures
        r == (nanos(a) < nanos(b)),
{
    a.as_nanos() < b.as_nanos()
}

/// Whether two durations have the same length.
pub(crate) fn same(a: Duration, b: Duration) -> (r: bool)
    ensures
        r == (nanos(a) == nanos(b)),
{
    a.as_nanos() == b.as_nanos()
}

/// `a + b`, held at the longest duration.
pub(crate) fn saturating_add(a: Duration, b: Duration) -> (d: Duration)
    ensures
        nanos(d) == instant_after(nanos(a), nanos(b)),
{
    duration_from_nanos(a.as_nanos() + b.as_nanos())
}

/// `a - b`, or zero where `b` is longer.
pub(crate) fn saturating_sub(a: Duration, b: Duration) -> (d: Duration)
    ensures
        nanos(d) == monus(nanos(a), nanos(b)),
{
    let x: u128 = a.as_nanos();
    let y: u128 = b.as_nanos();
    if x >= y {
        from_nanos(x - y)
    } else {
        zero()
    }
}

/// `b` where it is longer than `a`, else `a`.
pub open spec fn longer(a: Duration, b: Duration) -> Duration {
    if nanos(b) > nanos(a) {
        b
    } else {
        a
    }
}

/// The longer of two durations.
pub(crate) fn longer_of(a: Duration, b: Duration) -> (d: Duration)
    ensures
        d == longer(a, b),
{
    if shorter(a, b) {
        b
    } else {
        a
    }
}

/// An instant that only ever moves later: the later of `current`, where there is one, and
/// `until`.
pub(crate) fn extend(current: Option<Duration>, until: Duration) -> (d: Duration)
    ensures
        nanos(d) == extended(opt_nanos(current), nanos(until)),
{
    match current {
        Some(t) => longer_of(t, until),
        None => until,
    }
}

/// The product, held at `u128::MAX`.
pub(crate) fn saturating_mul(a: u128, b: u128) -> (p: u128)
    ensures
        p == least(a as nat * b as nat, u128::MAX as nat),
{
    match a.checked_mul(b) {
        Some(p) => p,
        None => u128::MAX,
    }
}

/// `n / d`, rounded up.
pub(crate) fn div_ceil(n: u128, d: u128) -> (q: u128)
    requires
        d > 0,
    ensures
        q == ceil_div(n as nat, d as nat),
{
    let q: u128 = n / d;
    let r: u128 = n % d;
    proof {
        lemma_ceil_div(n as nat, d as nat);
        assert(n == d * q + r) by (nonlinear_arith)
            requires
                d > 0,
                q == n / d,
                r == n % d,
        ;
        assert(r > 0 ==> q < u128::MAX) by (nonlinear_arith)
            requires
                n == d * q + r,
                d > 0,
                n <= u128::MAX,
                q >= 0,
        ;
    }
    if r > 0 {
        q + 1
    } else {
        q
    }
}

/// Rounding up adds one to the quotient exactly where there is a remainder.
pub proof fn lemma_ceil_div(n: nat, d: nat)
    requires
        d > 0,
    ensures
        ceil_div(n, d) == n / d + if n % d > 0 {
            1nat
        } else {
            0nat
        },
{
    let q = n / d;
    let r = n % d;
    assert(n == d * q + r) by (nonlinear_arith)
        requires
            d > 0,
            q == n / d,
            r == n % d,
    ;
    assert(r < d);
    if r > 0 {
        assert(n + d - 1 == d * (q + 1) + (r - 1)) by (nonlinear_arith)
            requires
                n == d * q + r,
        ;
        vstd::arithmetic::div_mod::lemma_fundamental_div_mod_converse(
            n + d - 1,
            d as int,
            (q + 1) as int,
            r - 1,
        );
    } else {
        assert(n + d - 1 == q * d + (d - 1)) by (nonlinear_arith)
            requires
                n == d * q + r,
                r == 0,
        ;
        vstd::arithmetic::div_mod::lemma_fundamental_div_mod_converse(
            n + d - 1,
            d as int,
            q as int,
            d - 1,
        );
    }
}

/// `ceil_div(n, d)` is the least `q` with `q * d >= n`.
pub proof fn lemma_ceil_div_least(n: nat, d: nat, q: nat)
    requires
        d > 0,
    ensures
        q * d >= n <==> q >= ceil_div(n, d),
{
    let c = ceil_div(n, d);
    let f = n / d;
    let r = n % d;
    lemma_ceil_div(n, d);
    assert(n == d * f + r && r < d) by (nonlinear_arith)
        requires
            d > 0,
            f == n / d,
            r == n % d,
    ;
    if q >= c {
        assert(q * d >= n) by (nonlinear_arith)
            requires
                q >= c,
                n == d * f + r,
                r < d,
                c >= f + (if r > 0 { 1int } else { 0int }),
        ;
    } else {
        assert(q * d < n) by (nonlinear_arith)
            requires
                q < c,
                n == d * f + r,
                0 <= r < d,
                c == f + (if r > 0 { 1int } else { 0int }),
        ;
    }
}

/// The smaller and the larger of two numbers are one of them each, and the difference makes up what
/// is missing.
pub proof fn law_least_and_greatest(a: nat, b: nat)
    ensures
        least(a, b) <= a && least(a, b) <= b,
        least(a, b) == a || least(a, b) == b,
        greatest(a, b) >= a && greatest(a, b) >= b,
        greatest(a, b) == a || greatest(a, b) == b,
        least(a, b) + monus(a, b) == a,
        greatest(a, b) == b + monus(a, b),
{
}

/// An instant after a delay is exactly that much later, as long as a duration can hold it, and the
/// longest duration, `u64::MAX` seconds and 999,999,999 nanoseconds, from there on.
pub proof fn law_delays_add_up(t: nat, delay: nat)
    ensures
        t + delay <= 18_446_744_073_709_551_615_999_999_999 ==> instant_after(t, delay) == t
            + delay,
        t + delay > 18_446_744_073_709_551_615_999_999_999 ==> instant_after(t, delay)
            == 18_446_744_073_709_551_615_999_999_999,
{
}

/// Of an instant that may be there and another one, the later stays: neither is cut short, and
/// nothing is added.
pub proof fn law_later_instant_stays(current: Option<nat>, until: nat)
    ensures
        extended(current, until) >= until,
        current matches Some(t) ==> extended(current, until) >= t,
        extended(current, until) == until || current == Some(extended(current, until)),
{
}

/// The longer of two durations is one of them, and neither is longer than it.
pub proof fn law_longer_duration_stays(a: Duration, b: Duration)
    ensures
        nanos(longer(a, b)) >= nanos(a),
        nanos(longer(a, b)) >= nanos(b),
        longer(a, b) == a || longer(a, b) == b,
{
}

} // verus!
