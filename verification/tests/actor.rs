//! The actor's messages, and one name per process.

use kameo::error::RegistryError;
use shared_rate_limiter::kameo_actor::{
    AcquirePermits, ApplyFeedback, FinalizePermit, RateLimiterActor, RateLimiterActorError,
    SingletonError, SingletonName, SingletonSpawn, SingletonStep, StartupStatus,
};
use shared_rate_limiter::{Config, Feedback, FeedbackScope, Outcome, RateLimiter};
use std::time::Duration;

const NAME: &str = "shared_rate_limiter_kameo_test_singleton";

fn spawn_singleton(
    singleton: &mut SingletonName,
    name: &str,
) -> Result<SingletonSpawn, SingletonError> {
    SingletonSpawn::begin(singleton, name.to_string())
}

#[test]
fn kameo_actor_smoke() {
    let cfg = Config::fixed_window(10, Duration::from_secs(10)).unwrap();
    let mut actor = RateLimiterActor::new(NAME.to_string(), RateLimiter::new(cfg));
    let mut singleton = SingletonName::new();
    assert!(actor.claim_name(&mut singleton).is_ok());

    // Batch acquisition + deny path.
    let ok = actor
        .acquire(AcquirePermits {
            key: 1001,
            permits: 2,
            now: Duration::from_secs(0),
        })
        .unwrap();
    assert_eq!(ok.permit.key(), 1001);
    assert_eq!(ok.permit.cost().get(), 2);

    // Refund the first batch to prove finalization works.
    actor.finalize(FinalizePermit {
        permit: ok.permit,
        outcome: Outcome::NotSent,
        now: Duration::from_secs(0),
    });

    // Should allow a full batch again after refund.
    let ok2 = actor
        .acquire(AcquirePermits {
            key: 1001,
            permits: 10,
            now: Duration::from_secs(0),
        })
        .unwrap();

    // The actor currently reserved 10 permits in total for key=1001; next should deny.
    let d = actor
        .acquire(AcquirePermits {
            key: 1001,
            permits: 1,
            now: Duration::from_secs(0),
        })
        .unwrap_err();
    assert_eq!(d.retry_after, Duration::from_secs(10));

    let _ = ok2;

    // Feedback blocks key.
    actor.apply_feedback(ApplyFeedback {
        route_key: 2002,
        feedback: Feedback::new(Duration::from_secs(3), FeedbackScope::Key),
        now: Duration::from_secs(0),
    });

    let d = actor
        .acquire(AcquirePermits {
            key: 2002,
            permits: 1,
            now: Duration::from_secs(1),
        })
        .unwrap_err();
    assert_eq!(d.retry_after, Duration::from_secs(2));

    // The name under which it is found.
    assert_eq!(actor.name(), NAME);
}

#[test]
fn singleton_enforces_name_mismatch() {
    let mut singleton = SingletonName::new();
    let a1 = spawn_singleton(&mut singleton, "rl_singleton_test").unwrap();
    assert_eq!(a1.name(), "rl_singleton_test");

    let err = spawn_singleton(&mut singleton, "rl_singleton_test_other").unwrap_err();

    assert!(matches!(err, SingletonError::NameMismatch { .. }));
}

#[test]
fn first_name_wins_for_good() {
    let mut singleton = SingletonName::new();
    assert_eq!(singleton.claim("first".to_string()).unwrap(), "first");
    for other in ["second", "third"] {
        let e = singleton.claim(other.to_string()).unwrap_err();
        assert_eq!(e.expected, "first");
        assert_eq!(e.got, other);
    }
    assert_eq!(singleton.claim("first".to_string()).unwrap(), "first");
}

#[test]
fn actor_of_another_name_does_not_start() {
    let mut singleton = SingletonName::new();
    singleton.claim("first".to_string()).unwrap();
    let cfg = Config::token_bucket(1, 1);
    let actor = RateLimiterActor::new("second".to_string(), RateLimiter::new(cfg));
    match actor.claim_name(&mut singleton) {
        Err(RateLimiterActorError::SingletonNameMismatch { expected, got }) => {
            assert_eq!(expected, "first");
            assert_eq!(got, "second");
        }
        other => panic!("unexpected: {other:?}"),
    }
}

#[test]
fn empty_batch_is_denied_at_once_and_changes_nothing() {
    let cfg = Config::fixed_window(1, Duration::from_secs(10)).unwrap();
    let mut actor = RateLimiterActor::new(NAME.to_string(), RateLimiter::new(cfg));
    let empty = AcquirePermits {
        key: 1,
        permits: 0,
        now: Duration::from_secs(0),
    };
    assert_eq!(actor.acquire(empty).unwrap_err().retry_after, Duration::ZERO);
    assert!(actor
        .acquire(AcquirePermits {
            permits: 1,
            ..empty
        })
        .is_ok());
}

#[test]
fn registered_actor_is_taken_without_spawning() {
    let mut singleton = SingletonName::new();
    let spawn = spawn_singleton(&mut singleton, "a").unwrap();
    assert!(matches!(
        spawn.after_lookup(Ok(Some(7u32))),
        SingletonStep::Done(Ok(7))
    ));
    let spawn = spawn_singleton(&mut singleton, "a").unwrap();
    let step: SingletonStep<u32> = spawn.after_lookup(Err(RegistryError::BadActorType));
    assert!(matches!(
        step,
        SingletonStep::Done(Err(SingletonError::Registry(RegistryError::BadActorType)))
    ));
}

#[test]
fn spawned_actor_gives_way_to_a_registered_one() {
    let mut singleton = SingletonName::new();
    let mut spawned = |status: StartupStatus| {
        let spawn = SingletonSpawn::begin(&mut singleton, "a".to_string()).unwrap();
        match spawn.after_lookup::<u32>(Ok(None)) {
            SingletonStep::Spawn(spawn) => spawn.after_startup(status),
            other => panic!("unexpected: {other:?}"),
        }
    };

    let recheck = spawned(StartupStatus::Started).unwrap();
    assert_eq!(recheck.name(), "a");
    assert_eq!(recheck.after_lookup(Ok(Some(1u32)), 2).unwrap(), 1);
    let recheck = spawned(StartupStatus::Started).unwrap();
    assert_eq!(recheck.after_lookup(Ok(None), 2u32).unwrap(), 2);

    let recheck = spawned(StartupStatus::NameAlreadyRegistered).unwrap();
    assert_eq!(recheck.after_lookup(Ok(Some(1u32)), 2).unwrap(), 1);
    let recheck = spawned(StartupStatus::NameAlreadyRegistered).unwrap();
    match recheck.after_lookup(Ok(None), 2u32) {
        Err(SingletonError::StartupFailed(text)) => {
            assert_eq!(text, "NameAlreadyRegistered but lookup returned None");
        }
        other => panic!("unexpected: {other:?}"),
    }
    let recheck = spawned(StartupStatus::Started).unwrap();
    assert!(matches!(
        recheck.after_lookup(Err(RegistryError::BadActorType), 2u32),
        Err(SingletonError::Registry(_))
    ));

    match spawned(StartupStatus::Other("boom".to_string())) {
        Err(SingletonError::StartupFailed(text)) => assert_eq!(text, "boom"),
        other => panic!("unexpected: {other:?}"),
    }
}

#[test]
fn registry_errors_convert() {
    assert!(matches!(
        SingletonError::from(RegistryError::NameAlreadyRegistered),
        SingletonError::Registry(RegistryError::NameAlreadyRegistered)
    ));
    assert!(matches!(
        RateLimiterActorError::from(RegistryError::BadActorType),
        RateLimiterActorError::Registry(RegistryError::BadActorType)
    ));
}
