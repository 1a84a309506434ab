//! Protocol-agnostic representation of server rate-limit feedback.

use crate::time;
use crate::time::{longer, nanos};
use crate::types::Key;
use std::time::Duration;
use vstd::prelude::*;

verus! {

/// Scope of a server-provided rate limit signal.
#[derive(Debug, Clone, Copy, PartialEq, Eq)]
pub enum FeedbackScope {
    /// Applies globally across all keys.
    Global,
    /// Applies to the current bucket key.
    Key,
    /// Applies to a route key (which may be mapped to a bucket key).
    Route,
}

/// Protocol-agnostic representation of a server rate-limit feedback signal.
///
/// Protocol adapters should implement this trait for their response/error types.
pub trait RateLimitFeedback {
    /// Suggested backoff delay.
    fn retry_after(&self) -> Duration;

    /// Scope of the limit.
    fn scope(&self) -> FeedbackScope;

    /// Optional "remaining" signal (Discord-like). Semantics are adapter-defined.
    ///
    /// In this core crate, `remaining == Some(0)` combined with `reset_after` will be used
    /// to block until reset.
    fn remaining(&self) -> (r: Option<u32>)
        default_ensures
            r is None,
    {
        None
    }

    /// Optional reset delay (Discord-like). Semantics are adapter-defined.
    fn reset_after(&self) -> (r: Option<Duration>)
        default_ensures
            r is None,
    {
        None
    }

    /// Optional remap from a route key to a server-assigned bucket key.
    fn bucket_remap(&self) -> (r: Option<Key>)
        default_ensures
            r is None,
    {
        None
    }
}

/// A simple feedback value type for callers that don't want to define their own implementation.
#[derive(Debug, Clone, Copy, PartialEq, Eq)]
pub struct Feedback {
    /// Suggested backoff delay.
    pub retry_after: Duration,
    /// Scope of the limit.
    pub scope: FeedbackScope,
    /// Optional remaining count.
    pub remaining: Option<u32>,
    /// Optional reset delay.
    pub reset_after: Option<Duration>,
    /// Optional remap target.
    pub bucket_remap: Option<Key>,
}

impl Feedback {
    /// Construct a minimal feedback with `retry_after` and `scope`.
    pub fn new(retry_after: Duration, scope: FeedbackScope) -> (feedback: Self)
        ensures
            feedback == (Feedback {
                retry_after,
                scope,
                remaining: None,
                reset_after: None,
                bucket_remap: None,
            }),
    {
        Self { retry_after, scope, remaining: None, reset_after: None, bucket_remap: None }
    }

    /// The backoff that the signal asks for: the delay, or the reset delay where that is longer
    /// and nothing remains until then.
    pub open spec fn spec_backoff(self) -> Duration {
        match (self.remaining, self.reset_after) {
            (Some(0), Some(reset_after)) => longer(self.retry_after, reset_after),
            _ => self.retry_after,
        }
    }

    /// The backoff that the signal asks for.
    pub fn backoff(&self) -> (delay: Duration)
        ensures
            delay == self.spec_backoff(),
    {
        match (self.remaining, self.reset_after) {
            (Some(0), Some(reset_after)) => time::longer_of(self.retry_after, reset_after),
            _ => self.retry_after,
        }
    }

    /// Reads a signal, each of its parts once.
    pub fn read<F: RateLimitFeedback>(signal: &F) -> (feedback: Self)
        ensures
            reads_as(signal, feedback),
    {
        Feedback {
            bucket_remap: signal.bucket_remap(),
            retry_after: signal.retry_after(),
            remaining: signal.remaining(),
            reset_after: signal.reset_after(),
            scope: signal.scope(),
        }
    }
}

/// Each part of `feedback` is what the method of `signal` for that part may return.
pub open spec fn reads_as<F: RateLimitFeedback>(signal: &F, feedback: Feedback) -> bool {
    &&& call_ensures(F::retry_after, (signal,), feedback.retry_after)
    &&& call_ensures(F::scope, (signal,), feedback.scope)
    &&& call_ensures(F::remaining, (signal,), feedback.remaining)
    &&& call_ensures(F::reset_after, (signal,), feedback.reset_after)
    &&& call_ensures(F::bucket_remap, (signal,), feedback.bucket_remap)
}

impl RateLimitFeedback for Feedback {
    fn retry_after(&self) -> (r: Duration)
        ensures
            r == self.retry_after,
    {
        self.retry_after
    }

    fn scope(&self) -> (r: FeedbackScope)
        ensures
            r == self.scope,
    {
        self.scope
    }

    fn remaining(&self) -> (r: Option<u32>)
        ensures
            r == self.remaining,
    {
        self.remaining
    }

    fn reset_after(&self) -> (r: Option<Duration>)
        ensures
            r == self.reset_after,
    {
        self.reset_after
    }

    fn bucket_remap(&self) -> (r: Option<Key>)
        ensures
            r == self.bucket_remap,
    {
        self.bucket_remap
    }
}

/// A feedback value reads as itself and as nothing else.
pub proof fn law_feedback_reads_as_itself(signal: &Feedback, feedback: Feedback)
    requires
        reads_as(signal, feedback),
    ensures
        feedback == *signal,
{
}

/// The backoff is the delay that the signal suggests. Only a signal that nothing remains, with a
/// delay until the reset, can make it longer, and then it reaches to the reset.
pub proof fn law_backoff_reaches_to_the_reset(feedback: Feedback)
    ensures
        ({
            let backoff = feedback.spec_backoff();
            match (feedback.remaining, feedback.reset_after) {
                (Some(remaining), Some(reset_after)) => if remaining == 0 {
                    &&& nanos(backoff) >= nanos(feedback.retry_after)
                    &&& nanos(backoff) >= nanos(reset_after)
                    &&& backoff == feedback.retry_after || backoff == reset_after
                } else {
                    backoff == feedback.retry_after
                },
                _ => backoff == feedback.retry_after,
            }
        }),
{
}

} // verus!
