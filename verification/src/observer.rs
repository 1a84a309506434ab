//! Observer hook surface for deny/feedback events.

use crate::feedback::FeedbackScope;
use crate::types::{Cost, Deny, Key};
use std::time::Duration;
use vstd::prelude::*;

verus! {

/// Reason for a deny decision.
#[derive(Debug, Clone, Copy, PartialEq, Eq)]
pub enum DenyReason {
    /// The limiter is within slow-start ramp and effective capacity is too low.
    SlowStart,
    /// Key creation is denied due to configured cardinality bound.
    KeyCardinalityBound,
    /// The key (or global scope) is blocked until a deadline due to feedback.
    FeedbackBackoff,
    /// Fixed-window capacity is exhausted for the current window.
    WindowExhausted,
    /// The configured steady-state maximum is zero, or too low for the cost.
    Disabled,
}

/// Observer payload for deny events.
#[derive(Debug, Clone, Copy, PartialEq, Eq)]
pub struct DenyEvent {
    /// The route key passed to the limiter.
    pub route_key: Key,
    /// The resolved bucket key used for accounting.
    pub bucket_key: Key,
    /// Cost requested.
    pub cost: Cost,
    /// Timestamp associated with the decision.
    pub now: Duration,
    /// Deny response (includes retry-after).
    pub deny: Deny,
    /// Reason classification.
    pub reason: DenyReason,
}

/// Observer payload for feedback application events.
#[derive(Debug, Clone, Copy, PartialEq, Eq)]
pub struct FeedbackEvent {
    /// The route key passed to the limiter.
    pub route_key: Key,
    /// The resolved bucket key used for accounting (after remap, if any).
    pub bucket_key: Key,
    /// Timestamp associated with the application.
    pub now: Duration,
    /// Backoff delay.
    pub retry_after: Duration,
    /// Feedback scope.
    pub scope: FeedbackScope,
    /// Optional remap target.
    pub bucket_remap: Option<Key>,
}

/// Observer hook surface for deny/feedback events.
///
/// This crate does not force a logging backend; applications may connect `tracing` or other
/// logging by implementing this trait.
pub trait LimiterObserver: Send + Sync + 'static {
    /// Called when a request is denied.
    fn on_deny(&self, _ev: DenyEvent) {
    }

    /// Called when feedback is applied.
    fn on_feedback(&self, _ev: FeedbackEvent) {
    }
}

/// No-op observer (default).
#[derive(Debug, Default)]
pub struct NoopObserver;

impl LimiterObserver for NoopObserver {

}

/// A call of an observer's hook, with the event that it was handed.
pub enum Notice {
    /// A call of `on_deny`.
    Deny(DenyEvent),
    /// A call of `on_feedback`.
    Feedback(FeedbackEvent),
}

/// The hook that `notice` names returned from a call with its event.
pub open spec fn delivered<O: LimiterObserver + ?Sized>(observer: &O, notice: Notice) -> bool {
    match notice {
        Notice::Deny(ev) => call_ensures(O::on_deny, (observer, ev), ()),
        Notice::Feedback(ev) => call_ensures(O::on_feedback, (observer, ev), ()),
    }
}

/// Calls the deny hook of an observer.
fn tell_deny<O: LimiterObserver + ?Sized>(observer: &O, ev: DenyEvent)
    ensures
        delivered(observer, Notice::Deny(ev)),
{
    observer.on_deny(ev)
}

/// Calls the feedback hook of an observer.
fn tell_feedback<O: LimiterObserver + ?Sized>(observer: &O, ev: FeedbackEvent)
    ensures
        delivered(observer, Notice::Feedback(ev)),
{
    observer.on_feedback(ev)
}

/// The observer of a limiter, with a ghost record of the events that were handed to it. The
/// observer is reached through this type alone, so the record misses no call.
pub(crate) struct Watch {
    observer: Box<dyn LimiterObserver>,
    record: Ghost<Seq<Notice>>,
}

impl Watch {
    /// The events that were handed to observers so far.
    pub(crate) closed spec fn notices(self) -> Seq<Notice> {
        self.record@
    }

    /// The hook of the observer in place returned from a call with this event.
    pub(crate) closed spec fn told(self, notice: Notice) -> bool {
        delivered(&*self.observer, notice)
    }

    /// The observer in place is `observer`.
    pub(crate) closed spec fn holds(self, observer: &dyn LimiterObserver) -> bool {
        &*self.observer == observer
    }

    /// The observer in place is the one of `other`.
    pub(crate) closed spec fn same_observer(self, other: Self) -> bool {
        &*self.observer == &*other.observer
    }

    /// A watch with the no-op observer.
    pub(crate) fn new() -> (w: Self)
        ensures
            w.notices() == Seq::<Notice>::empty(),
    {
        Watch { observer: Box::new(NoopObserver), record: Ghost(Seq::empty()) }
    }

    /// Puts another observer in place.
    pub(crate) fn set(&mut self, observer: Box<dyn LimiterObserver>)
        ensures
            final(self).holds(&*observer),
            final(self).notices() == old(self).notices(),
    {
        self.put(observer);
    }

    /// Exchanges the observer and nothing else.
    fn put(&mut self, observer: Box<dyn LimiterObserver>)
        ensures
            &*final(self).observer == &*observer,
            final(self).record == old(self).record,
    {
        let mut observer = observer;
        std::mem::swap(&mut self.observer, &mut observer);
    }

    /// Hands a deny event to the observer.
    pub(crate) fn on_deny(&mut self, ev: DenyEvent)
        ensures
            old(self).told(Notice::Deny(ev)),
            final(self).same_observer(*old(self)),
            final(self).notices() == old(self).notices().push(Notice::Deny(ev)),
    {
        tell_deny(&*self.observer, ev);
        self.record = Ghost(self.record@.push(Notice::Deny(ev)));
    }

    /// Hands a feedback event to the observer.
    pub(crate) fn on_feedback(&mut self, ev: FeedbackEvent)
        ensures
            old(self).told(Notice::Feedback(ev)),
            final(self).same_observer(*old(self)),
            final(self).notices() == old(self).notices().push(Notice::Feedback(ev)),
    {
        tell_feedback(&*self.observer, ev);
        self.record = Ghost(self.record@.push(Notice::Feedback(ev)));
    }
}

/// To have the same observer is an equivalence.
pub(crate) broadcast proof fn lemma_same_observer_is_reflexive(a: Watch)
    ensures
        #[trigger] a.same_observer(a),
{
}

pub(crate) broadcast proof fn lemma_same_observer_is_transitive(a: Watch, b: Watch, c: Watch)
    requires
        #[trigger] a.same_observer(b),
        #[trigger] b.same_observer(c),
    ensures
        a.same_observer(c),
{
}

/// What the same observer was told is the same.
pub(crate) broadcast proof fn lemma_same_observer_was_told(a: Watch, b: Watch, notice: Notice)
    requires
        #[trigger] a.same_observer(b),
        #[trigger] a.told(notice),
    ensures
        b.told(notice),
{
}

} // verus!
