//! Optional clock helpers (the core API takes `now` explicitly).

use crate::time;
use crate::time::{nanos, MAX_NANOS};
use std::time::{Duration, Instant};
use vstd::prelude::*;

verus! {

/// `std::time::Instant`, an opaque measurement of a monotonic clock.
#[verifier::external_type_specification]
#[verifier::external_body]
pub struct ExInstant(Instant);

/// `Instant::now`: the current instant of the machine's clock. Nothing is claimed of it.
#[verifier::external_body]
fn current_instant() -> Instant {
    Instant::now()
}

/// `Instant::elapsed`: the time since the instant. It rests on the machine's clock, and nothing
/// is claimed of it.
#[verifier::external_body]
fn elapsed_since(start: &Instant) -> Duration {
    start.elapsed()
}

/// A clock abstraction for deterministic testing and wrapper layers.
///
/// The core limiter APIs accept `now: Duration` directly, so this trait is purely optional.
pub trait Clock {
    /// Returns a monotonic timestamp expressed as a [`Duration`].
    fn now(&self) -> Duration;
}

/// A clock backed by [`Instant::elapsed`].
#[derive(Debug)]
pub struct SystemClock {
    start: Instant,
}

impl SystemClock {
    /// The start is an instant that `Instant::now` returned.
    pub closed spec fn was_started(self) -> bool {
        call_ensures(current_instant, (), self.start)
    }

    /// `now` is a time that `Instant::elapsed` returned for the start.
    pub closed spec fn has_shown(self, now: Duration) -> bool {
        call_ensures(elapsed_since, (&self.start,), now)
    }

    /// Constructs a new system clock.
    pub fn new() -> (clock: Self)
        ensures
            clock.was_started(),
    {
        Self { start: current_instant() }
    }
}

impl Default for SystemClock {
    fn default() -> (clock: Self)
        ensures
            clock.was_started(),
    {
        Self::new()
    }
}

impl Clock for SystemClock {
    fn now(&self) -> (now: Duration)
        ensures
            self.has_shown(now),
    {
        elapsed_since(&self.start)
    }
}

/// A manual clock for deterministic tests.
#[derive(Debug)]
pub struct ManualClock {
    now: Duration,
}

impl Clone for ManualClock {
    fn clone(&self) -> (copy: Self)
        ensures
            copy@ == self@,
    {
        ManualClock { now: self.now }
    }
}

impl ManualClock {
    /// The time that the clock shows, in nanoseconds.
    pub closed spec fn view(self) -> nat {
        nanos(self.now)
    }

    /// Constructs a manual clock starting at `now`.
    pub fn new(now: Duration) -> (clock: Self)
        ensures
            clock@ == nanos(now),
    {
        Self { now }
    }

    /// Advances time by `delta`.
    pub fn advance(&mut self, delta: Duration)
        requires
            old(self)@ + nanos(delta) <= MAX_NANOS,
        ensures
            final(self)@ == old(self)@ + nanos(delta),
    {
        self.now = time::saturating_add(self.now, delta);
    }

    /// Advances time by `delta` where the clock can show the result, and says whether it could.
    pub fn try_advance(&mut self, delta: Duration) -> (advanced: bool)
        ensures
            advanced == (old(self)@ + nanos(delta) <= MAX_NANOS),
            advanced ==> final(self)@ == old(self)@ + nanos(delta),
            !advanced ==> final(self)@ == old(self)@,
    {
        if self.now.as_nanos() + delta.as_nanos() > MAX_NANOS {
            return false;
        }
        self.advance(delta);
        true
    }

    /// Sets time to an absolute value.
    pub fn set(&mut self, now: Duration)
        ensures
            final(self)@ == nanos(now),
    {
        self.now = now;
    }
}

impl Clock for ManualClock {
    fn now(&self) -> (now: Duration)
        ensures
            nanos(now) == self@,
    {
        self.now
    }
}

} // verus!
