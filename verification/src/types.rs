//! Public value types of the limiter: costs, permits, denials and outcomes.

use crate::time::nanos;
use std::time::Duration;
use vstd::prelude::*;

verus! {

/// Bucket key type.
///
/// Callers should pre-hash more complex keys to avoid copies and expensive hashing in the hot
/// path.
pub type Key = u64;

/// A non-zero cost (weight) for a single operation.
#[derive(Debug, Clone, Copy, PartialEq, Eq, PartialOrd, Ord, Hash)]
pub struct Cost {
    raw: u32,
}

impl Cost {
    /// A cost is never zero.
    #[verifier::type_invariant]
    pub closed spec fn nonzero(self) -> bool {
        self.raw > 0
    }

    /// The cost as a number.
    pub closed spec fn view(self) -> u32 {
        self.raw
    }

    /// Cost of 1.
    pub fn one() -> (cost: Self)
        ensures
            cost@ == 1,
    {
        Cost { raw: 1 }
    }

    /// Create a cost from a raw value. Returns `None` for `0`.
    pub fn new(raw: u32) -> (cost: Option<Self>)
        ensures
            cost is None <==> raw == 0,
            cost matches Some(c) ==> c@ == raw,
    {
        if raw == 0 {
            None
        } else {
            Some(Cost { raw })
        }
    }

    /// Returns the cost as a `u32`.
    pub fn get(self) -> (raw: u32)
        ensures
            raw == self@,
            raw > 0,
    {
        proof {
            use_type_invariant(self);
        }
        self.raw
    }
}

/// What a permit holds, with times in nanoseconds.
pub struct PermitModel {
    /// The bucket key that the capacity was reserved against.
    pub key: Key,
    /// The cost reserved.
    pub cost: nat,
    /// When the permit was issued.
    pub issued_at: nat,
    /// End of the fixed window that the permit belongs to; zero for a credit pool.
    pub deadline: nat,
    /// Start of the fixed window that the permit belongs to; nothing for a credit pool.
    pub window_start: Option<nat>,
}

/// A successful reservation of capacity.
///
/// This permit must be eventually finalized by calling `commit` or `refund`, which consume it:
/// it can be neither copied nor cloned.
#[derive(Debug, PartialEq, Eq)]
pub struct Permit {
    key: Key,
    cost: Cost,
    issued_at: Duration,
    deadline: Duration,
    window_start: Option<Duration>,
}

impl Permit {
    /// What the permit holds.
    pub closed spec fn view(self) -> PermitModel {
        PermitModel {
            key: self.key,
            cost: self.cost@ as nat,
            issued_at: nanos(self.issued_at),
            deadline: nanos(self.deadline),
            window_start: crate::time::opt_nanos(self.window_start),
        }
    }

    /// A permit of the fixed window from `window_start` to `deadline`.
    pub(crate) fn fixed_window(
        key: Key,
        cost: Cost,
        issued_at: Duration,
        window_start: Duration,
        deadline: Duration,
    ) -> (permit: Self)
        ensures
            permit@ == (PermitModel {
                key,
                cost: cost@ as nat,
                issued_at: nanos(issued_at),
                deadline: nanos(deadline),
                window_start: Some(nanos(window_start)),
            }),
    {
        Permit { key, cost, issued_at, deadline, window_start: Some(window_start) }
    }

    /// A permit of a credit pool.
    pub(crate) fn token_bucket(key: Key, cost: Cost, issued_at: Duration) -> (permit: Self)
        ensures
            permit@ == (PermitModel {
                key,
                cost: cost@ as nat,
                issued_at: nanos(issued_at),
                deadline: 0,
                window_start: None,
            }),
    {
        Permit { key, cost, issued_at, deadline: crate::time::zero(), window_start: None }
    }

    /// The key this permit was reserved against.
    pub fn key(&self) -> (key: Key)
        ensures
            key == self@.key,
    {
        self.key
    }

    /// The cost reserved by this permit.
    pub fn cost(&self) -> (cost: Cost)
        ensures
            cost@ == self@.cost,
    {
        self.cost
    }

    /// When the permit was issued (as provided by the caller to `try_acquire`).
    pub fn issued_at(&self) -> (at: Duration)
        ensures
            nanos(at) == self@.issued_at,
    {
        self.issued_at
    }

    /// The deadline of the fixed window this permit belongs to.
    pub fn deadline(&self) -> (at: Duration)
        ensures
            nanos(at) == self@.deadline,
    {
        self.deadline
    }

    /// Start of the fixed window this permit belongs to.
    pub(crate) fn window_start(&self) -> (at: Option<Duration>)
        ensures
            crate::time::opt_nanos(at) == self@.window_start,
    {
        self.window_start
    }
}

/// A denial response, including the recommended retry interval.
#[derive(Debug, Clone, Copy, PartialEq, Eq)]
pub struct Deny {
    /// How long the caller should wait before retrying.
    pub retry_after: Duration,
}

/// Protocol-agnostic outcome classification for accounting.
#[derive(Debug, PartialEq, Eq)]
pub enum Outcome {
    /// Confirmation observed (HTTP response, WS ack, etc).
    Confirmed,
    /// Operation definitely did not go out; safe to refund.
    NotSent,
    /// Operation likely went out but no confirmation observed; do not refund by default.
    SentNoConfirm,
    /// Server explicitly reported a rate limit event.
    RateLimitedFeedback {
        /// Suggested retry delay.
        retry_after: Duration,
        /// Scope of the limit (global or key-local).
        scope: Scope,
        /// Optional hint for a bucket id.
        bucket_hint: Option<Key>,
    },
}

impl Clone for Outcome {
    fn clone(&self) -> (copy: Self)
        ensures
            copy == *self,
    {
        match self {
            Outcome::Confirmed => Outcome::Confirmed,
            Outcome::NotSent => Outcome::NotSent,
            Outcome::SentNoConfirm => Outcome::SentNoConfirm,
            Outcome::RateLimitedFeedback { retry_after, scope, bucket_hint } => {
                Outcome::RateLimitedFeedback {
                    retry_after: *retry_after,
                    scope: *scope,
                    bucket_hint: *bucket_hint,
                }
            },
        }
    }
}

/// Scope of a server-provided rate limit signal.
#[derive(Debug, Clone, Copy, PartialEq, Eq)]
pub enum Scope {
    /// Applies globally (across all keys).
    Global,
    /// Applies to the current key/bucket.
    Key,
}

} // verus!
