//! The actor around a limiter: its messages, and the rules by which one process has one actor.
//!
//! Spawning, registering and looking actors up is the business of the runtime. What its answers
//! lead to is decided here.

use crate::feedback::Feedback;
use crate::limiter::{Decision, RateLimiter};
use crate::observer::{DenyEvent, Notice};
use crate::time;
use crate::time::nanos;
use crate::types::{Cost, Deny, Key, Outcome, Permit};
use kameo::error::RegistryError;
use std::time::Duration;
use vstd::prelude::*;

verus! {

/// An error of the actor registry. Nothing is claimed of its values.
#[verifier::external_type_specification]
#[verifier::external_body]
pub struct ExRegistryError(kameo::error::RegistryError);

/// Request a batch of permits for a key at a given timestamp.
#[derive(Debug, Clone, Copy, PartialEq, Eq)]
pub struct AcquirePermits {
    /// Route or bucket key (callers may pre-hash).
    pub key: Key,
    /// Number of permits to reserve (must be > 0).
    pub permits: u32,
    /// Monotonic timestamp in the same clock domain used by the limiter.
    pub now: Duration,
}

/// Successful batch acquisition.
#[derive(Debug, PartialEq, Eq)]
pub struct AcquiredPermits {
    /// A single permit whose `cost` encodes the batch size.
    pub permit: Permit,
}

/// Apply server feedback (429-style) to the limiter without requiring a permit.
#[derive(Debug, Clone, Copy, PartialEq, Eq)]
pub struct ApplyFeedback {
    /// Route or bucket key (callers may pre-hash).
    pub route_key: Key,
    /// Protocol-agnostic feedback payload (retry-after, scope, optional reset/remaining, remap).
    pub feedback: Feedback,
    /// Monotonic timestamp in the same clock domain used by the limiter.
    pub now: Duration,
}

/// Finalize a previously-acquired permit by reporting an outcome back to the limiter.
#[derive(Debug, PartialEq, Eq)]
pub struct FinalizePermit {
    /// The permit returned from [`AcquirePermits`].
    pub permit: Permit,
    /// Accounting classification (Confirmed/NotSent/SentNoConfirm/RateLimitedFeedback...).
    pub outcome: Outcome,
    /// Monotonic timestamp in the same clock domain used by the limiter.
    pub now: Duration,
}

/// Startup error for [`RateLimiterActor`].
#[derive(Debug)]
pub enum RateLimiterActorError {
    /// A singleton name has already been established for this process and does not match.
    SingletonNameMismatch {
        /// Name already chosen for the singleton.
        expected: String,
        /// Name requested by the new actor.
        got: String,
    },
    /// Actor registry error.
    Registry(RegistryError),
}

impl From<RegistryError> for RateLimiterActorError {
    fn from(value: RegistryError) -> (e: Self) {
        RateLimiterActorError::Registry(value)
    }
}

impl vstd::std_specs::convert::FromSpecImpl<RegistryError> for RateLimiterActorError {
    open spec fn obeys_from_spec() -> bool {
        true
    }

    open spec fn from_spec(value: RegistryError) -> Self {
        RateLimiterActorError::Registry(value)
    }
}

/// Error of the attempt to spawn, or reuse, the actor of the process.
#[derive(Debug)]
pub enum SingletonError {
    /// The singleton was already initialized with a different name.
    NameMismatch {
        /// Name used by the already-initialized singleton.
        expected: String,
        /// Name requested by the current initializer.
        got: String,
    },
    /// Startup failed (includes registry failures).
    StartupFailed(String),
    /// Registry access failed.
    Registry(RegistryError),
}

impl From<RegistryError> for SingletonError {
    fn from(value: RegistryError) -> (e: Self) {
        SingletonError::Registry(value)
    }
}

impl vstd::std_specs::convert::FromSpecImpl<RegistryError> for SingletonError {
    open spec fn obeys_from_spec() -> bool {
        true
    }

    open spec fn from_spec(value: RegistryError) -> Self {
        SingletonError::Registry(value)
    }
}

/// The name of the actor of a process: the first that was claimed.
#[derive(Debug)]
pub struct SingletonName {
    name: Option<String>,
}

/// A name that was refused, with the one that was claimed before.
#[derive(Debug)]
pub struct NameMismatch {
    /// The name that was claimed before.
    pub expected: String,
    /// The name that was refused.
    pub got: String,
}

/// The name that is established once `got` was claimed: the first one stays.
pub open spec fn claimed(name: Option<Seq<char>>, got: Seq<char>) -> Seq<char> {
    match name {
        Some(first) => first,
        None => got,
    }
}

impl SingletonName {
    /// The name that is established, where one is.
    pub closed spec fn view(self) -> Option<Seq<char>> {
        match self.name {
            Some(name) => Some(name@),
            None => None,
        }
    }

    /// No name is established yet.
    pub fn new() -> (s: Self)
        ensures
            s@ is None,
    {
        SingletonName { name: None }
    }

    /// Claims a name: the first one is established, and any other is refused from then on.
    pub fn claim(&mut self, got: String) -> (r: Result<String, NameMismatch>)
        ensures
            final(self)@ == Some(claimed(old(self)@, got@)),
            match r {
                Ok(name) => name@ == got@ && claimed(old(self)@, got@) == got@,
                Err(e) => claimed(old(self)@, got@) != got@ && e.expected@ == claimed(
                    old(self)@,
                    got@,
                ) && e.got@ == got@,
            },
    {
        match &self.name {
            Some(prev) => {
                if *prev != got {
                    return Err(NameMismatch { expected: prev.clone(), got });
                }
            },
            None => {
                self.name = Some(got.clone());
            },
        }
        Ok(got)
    }
}

/// The first name wins: once a name is established, it stays, that name and no other is accepted,
/// whatever is claimed in between.
pub proof fn law_first_name_wins(
    name: Option<Seq<char>>,
    first: Seq<char>,
    second: Seq<char>,
    third: Seq<char>,
)
    ensures
        ({
            let established = claimed(name, first);
            let later = claimed(Some(established), second);
            &&& later == established
            &&& claimed(Some(later), third) == established
            &&& name is None ==> established == first
        }),
{
}

/// A minimal actor that owns a [`RateLimiter`].
///
/// It is intended as a clean migration target for global/shared rate limiting, where multiple
/// callers ask for batched permits.
pub struct RateLimiterActor {
    name: String,
    limiter: RateLimiter,
}

impl RateLimiterActor {
    /// The name.
    pub closed spec fn spec_name(self) -> Seq<char> {
        self.name@
    }

    /// The limiter.
    pub closed spec fn spec_limiter(self) -> RateLimiter {
        self.limiter
    }

    /// Construct a new actor from an existing limiter.
    ///
    /// `name` is required so the actor can register itself for lookup.
    pub fn new(name: String, limiter: RateLimiter) -> (a: Self)
        ensures
            a.spec_name() == name@,
            a.spec_limiter() == limiter,
    {
        RateLimiterActor { name, limiter }
    }

    /// The name.
    pub fn name(&self) -> (name: &String)
        ensures
            name@ == self.spec_name(),
    {
        &self.name
    }

    /// Checks on startup that the name of the actor is the one of the process.
    pub fn claim_name(&self, singleton: &mut SingletonName) -> (r: Result<
        (),
        RateLimiterActorError,
    >)
        ensures
            final(singleton)@ == Some(claimed(old(singleton)@, self.spec_name())),
            match r {
                Ok(()) => claimed(old(singleton)@, self.spec_name()) == self.spec_name(),
                Err(RateLimiterActorError::SingletonNameMismatch { expected, got }) => claimed(
                    old(singleton)@,
                    self.spec_name(),
                ) != self.spec_name() && expected@ == claimed(old(singleton)@, self.spec_name())
                    && got@ == self.spec_name(),
                Err(_) => false,
            },
    {
        match singleton.claim(self.name.clone()) {
            Ok(_) => Ok(()),
            Err(e) => Err(
                RateLimiterActorError::SingletonNameMismatch { expected: e.expected, got: e.got },
            ),
        }
    }

    /// Handles [`AcquirePermits`]: a batch of none is denied at once, any other is one permit with
    /// the size of the batch as its cost.
    pub fn acquire(&mut self, msg: AcquirePermits) -> (r: Result<AcquiredPermits, Deny>)
        requires
            old(self).spec_limiter().wf(),
        ensures
            final(self).spec_name() == old(self).spec_name(),
            final(self).spec_limiter().wf(),
            ({
                let before = old(self).spec_limiter();
                let after = final(self).spec_limiter();
                if msg.permits == 0 {
                    &&& after == before
                    &&& r matches Err(deny)
                    &&& nanos(deny.retry_after) == 0
                } else {
                    &&& after.same_observer(before)
                    &&& after@ == before@.after_acquire(
                        msg.key,
                        msg.permits as nat,
                        nanos(msg.now),
                    )
                    &&& match r {
                        Ok(acquired) => before@.decision(
                            msg.key,
                            msg.permits as nat,
                            nanos(msg.now),
                        ) == Decision::Granted(acquired.permit@) && after.notices()
                            == before.notices(),
                        Err(deny) => denied(before, after, msg, deny),
                    }
                }
            }),
    {
        let cost: Cost = match Cost::new(msg.permits) {
            Some(cost) => cost,
            None => {
                return Err(Deny { retry_after: time::zero() });
            },
        };
        match self.limiter.try_acquire(msg.key, cost, msg.now) {
            Ok(permit) => Ok(AcquiredPermits { permit }),
            Err(deny) => {
                assert(denied(old(self).limiter, self.limiter, msg, deny));
                Err(deny)
            },
        }
    }

    /// Handles [`ApplyFeedback`].
    pub fn apply_feedback(&mut self, msg: ApplyFeedback)
        requires
            old(self).spec_limiter().wf(),
        ensures
            final(self).spec_name() == old(self).spec_name(),
            final(self).spec_limiter().wf(),
            final(self).spec_limiter().same_observer(old(self).spec_limiter()),
            final(self).spec_limiter()@ == old(self).spec_limiter()@.after_feedback(
                msg.route_key,
                msg.feedback,
                nanos(msg.now),
            ),
            crate::limiter::feedback_noticed(
                old(self).spec_limiter(),
                final(self).spec_limiter(),
                msg.route_key,
                msg.feedback,
                msg.now,
            ),
    {
        self.limiter.apply_feedback_value(msg.route_key, msg.feedback, msg.now);
    }

    /// Handles [`FinalizePermit`]; an operation that was not sent is a refund.
    pub fn finalize(&mut self, msg: FinalizePermit)
        requires
            old(self).spec_limiter().wf(),
        ensures
            final(self).spec_name() == old(self).spec_name(),
            final(self).spec_limiter().wf(),
            final(self).spec_limiter().same_observer(old(self).spec_limiter()),
            final(self).spec_limiter()@ == old(self).spec_limiter()@.committed(
                msg.permit@,
                msg.outcome,
                nanos(msg.now),
            ),
            final(self).spec_limiter().notices() == old(self).spec_limiter().notices(),
    {
        self.limiter.commit(msg.permit, msg.outcome, msg.now);
    }
}

/// The limiter denied a batch, and told its observer so.
pub open spec fn denied(
    before: RateLimiter,
    after: RateLimiter,
    msg: AcquirePermits,
    deny: Deny,
) -> bool {
    &&& before@.decision(msg.key, msg.permits as nat, nanos(msg.now)) matches Decision::Denied {
        retry_after,
        reason,
    }
    &&& retry_after == nanos(deny.retry_after)
    &&& exists|ev: DenyEvent| #[trigger]
        before.told(Notice::Deny(ev)) && ev.route_key == msg.key && ev.bucket_key
            == before@.bucket_key(msg.key) && ev.cost@ == msg.permits && ev.now == msg.now
            && ev.deny == deny && ev.reason == reason && after.notices() == before.notices().push(
            Notice::Deny(ev),
        )
}

/// How the startup of a spawned actor went.
#[derive(Debug)]
pub enum StartupStatus {
    /// It is running and registered.
    Started,
    /// Another actor has its name.
    NameAlreadyRegistered,
    /// It failed, for the reason that is given.
    Other(String),
}

/// An attempt to spawn, or reuse, the actor of the process. `R` is a reference to an actor.
///
/// The name is claimed first. Then a registered actor of that name is looked up, and taken where
/// there is one. Else one is spawned, and once it has started, or failed to, the registry is asked
/// again: an actor that a concurrent attempt has registered is preferred.
#[derive(Debug)]
pub struct SingletonSpawn {
    name: String,
}

/// How an attempt goes on once the registry was asked the first time.
#[derive(Debug)]
pub enum SingletonStep<R> {
    /// It is over.
    Done(Result<R, SingletonError>),
    /// An actor of this name is to be spawned.
    Spawn(SingletonSpawn),
}

/// An attempt that asks the registry a second time.
#[derive(Debug)]
pub struct SingletonRecheck {
    name: String,
    must_exist: bool,
}

impl SingletonRecheck {
    /// The name to look up.
    pub closed spec fn spec_name(self) -> Seq<char> {
        self.name@
    }

    /// Whether the spawned actor is of no use, so that another must be registered.
    pub closed spec fn spec_must_exist(self) -> bool {
        self.must_exist
    }

    /// The name to look up.
    pub fn name(&self) -> (name: &String)
        ensures
            name@ == self.spec_name(),
    {
        &self.name
    }

    /// Ends the attempt: the registered actor is taken; without one, the spawned one is, unless
    /// it could not start because its name was taken.
    pub fn after_lookup<R>(self, found: Result<Option<R>, RegistryError>, spawned: R) -> (r: Result<
        R,
        SingletonError,
    >)
        ensures
            match found {
                Ok(Some(existing)) => r == Ok::<R, SingletonError>(existing),
                Ok(None) => if self.spec_must_exist() {
                    r matches Err(SingletonError::StartupFailed(text)) && text@
                        == "NameAlreadyRegistered but lookup returned None"@
                } else {
                    r == Ok::<R, SingletonError>(spawned)
                },
                Err(e) => r == Err::<R, SingletonError>(SingletonError::Registry(e)),
            },
    {
        match found {
            Ok(Some(existing)) => Ok(existing),
            Ok(None) => {
                if self.must_exist {
                    return Err(
                        SingletonError::StartupFailed(
                            "NameAlreadyRegistered but lookup returned None".to_owned(),
                        ),
                    );
                }
                Ok(spawned)
            },
            Err(e) => Err(SingletonError::Registry(e)),
        }
    }
}

impl SingletonSpawn {
    /// The name of the actor.
    pub closed spec fn spec_name(self) -> Seq<char> {
        self.name@
    }

    /// Starts an attempt by claiming the name.
    pub fn begin(singleton: &mut SingletonName, name: String) -> (r: Result<Self, SingletonError>)
        ensures
            final(singleton)@ == Some(claimed(old(singleton)@, name@)),
            match r {
                Ok(spawn) => spawn.spec_name() == name@ && claimed(old(singleton)@, name@) == name@,
                Err(SingletonError::NameMismatch { expected, got }) => claimed(
                    old(singleton)@,
                    name@,
                ) != name@ && expected@ == claimed(old(singleton)@, name@) && got@ == name@,
                Err(_) => false,
            },
    {
        match singleton.claim(name) {
            Ok(name) => Ok(SingletonSpawn { name }),
            Err(e) => Err(SingletonError::NameMismatch { expected: e.expected, got: e.got }),
        }
    }

    /// The name of the actor.
    pub fn name(&self) -> (name: &String)
        ensures
            name@ == self.spec_name(),
    {
        &self.name
    }

    /// Goes on once the registry was asked: a registered actor is taken.
    pub fn after_lookup<R>(self, found: Result<Option<R>, RegistryError>) -> (r: SingletonStep<R>)
        ensures
            r == (match found {
                Ok(Some(existing)) => SingletonStep::Done(Ok(existing)),
                Ok(None) => SingletonStep::Spawn(self),
                Err(e) => SingletonStep::Done(Err(SingletonError::Registry(e))),
            }),
    {
        match found {
            Ok(Some(existing)) => SingletonStep::Done(Ok(existing)),
            Ok(None) => SingletonStep::Spawn(self),
            Err(e) => SingletonStep::Done(Err(SingletonError::Registry(e))),
        }
    }

    /// Goes on once the spawned actor has started, or failed to.
    pub fn after_startup(self, status: StartupStatus) -> (r: Result<
        SingletonRecheck,
        SingletonError,
    >)
        ensures
            match (status, r) {
                (StartupStatus::Started, Ok(recheck)) => recheck.spec_name() == self.spec_name()
                    && !recheck.spec_must_exist(),
                (StartupStatus::NameAlreadyRegistered, Ok(recheck)) => recheck.spec_name()
                    == self.spec_name() && recheck.spec_must_exist(),
                (StartupStatus::Other(text), Err(e)) => e == SingletonError::StartupFailed(text),
                _ => false,
            },
    {
        match status {
            StartupStatus::Started => Ok(SingletonRecheck { name: self.name, must_exist: false }),
            StartupStatus::NameAlreadyRegistered => Ok(
                SingletonRecheck { name: self.name, must_exist: true },
            ),
            StartupStatus::Other(text) => Err(SingletonError::StartupFailed(text)),
        }
    }
}

/// A batch that the actor denies is one that its limiter denies at the cost of the whole batch, and
/// the observer hears of it once, with the answer that the caller gets.
pub proof fn law_denied_batch_is_reported(
    before: RateLimiter,
    after: RateLimiter,
    msg: AcquirePermits,
    deny: Deny,
)
    requires
        denied(before, after, msg, deny),
    ensures
        ({
            let told = after.notices();
            let decision = before@.decision(msg.key, msg.permits as nat, nanos(msg.now));
            &&& decision is Denied
            &&& decision->retry_after == nanos(deny.retry_after)
            &&& told.len() == before.notices().len() + 1
            &&& told.drop_last() == before.notices()
            &&& before.told(told.last())
            &&& told.last() matches Notice::Deny(ev)
            &&& ev.route_key == msg.key
            &&& ev.bucket_key == before@.bucket_key(msg.key)
            &&& ev.cost@ == msg.permits
            &&& ev.now == msg.now
            &&& ev.deny == deny
            &&& ev.reason == decision->reason
        }),
{
    assert(after.notices().drop_last() =~= before.notices());
}

} // verus!
