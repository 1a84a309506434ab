//! The durable gate, driven against a record in memory.

use shared_rate_limiter::durable_open_gate::{
    DurableOpenGate, DurableOpenGateConfig, DurableOpenGateError, OpenAttempt, OpenGateDecision,
    OpenGateLoad, OpenGateLockStep, OpenGateStats, OpenGateStep, PendingWrite,
};
use std::time::Duration;

/// A record in memory, with reads and writes that can be made to fail.
struct Store {
    record: Option<Vec<u8>>,
    reads_fail: bool,
    writes_fail: bool,
    reads: u64,
    writes: u64,
}

impl Store {
    fn new() -> Self {
        Store {
            record: None,
            reads_fail: false,
            writes_fail: false,
            reads: 0,
            writes: 0,
        }
    }

    fn read(&mut self) -> Result<Option<Vec<u8>>, heed::Error> {
        self.reads += 1;
        if self.reads_fail {
            return Err(heed::Error::EnvAlreadyOpened);
        }
        Ok(self.record.clone())
    }

    fn write(&mut self, bytes: &[u8]) -> Result<(), heed::Error> {
        self.writes += 1;
        if self.writes_fail {
            return Err(heed::Error::EnvAlreadyOpened);
        }
        self.record = Some(bytes.to_vec());
        Ok(())
    }
}

fn open(
    store: &mut Store,
    cfg: DurableOpenGateConfig,
) -> Result<DurableOpenGate, DurableOpenGateError> {
    cfg.validate()?;
    DurableOpenGate::open(cfg, OpenGateLoad::Read(store.read()))
}

fn try_acquire_open(
    gate: &mut DurableOpenGate,
    store: &mut Store,
    now: Duration,
) -> Result<OpenGateDecision, DurableOpenGateError> {
    let pending = match gate.try_acquire_open(now) {
        OpenAttempt::Decided(decision) => return Ok(decision),
        OpenAttempt::ReadRecord(pending) => pending,
    };
    match gate.after_read(pending, store.read()) {
        OpenGateStep::Decided(answer) => answer,
        OpenGateStep::WriteRecord(pending) => {
            let written = store.write(pending.record());
            gate.after_write(pending, written)
        }
    }
}

fn window(secs: u64) -> DurableOpenGateConfig {
    DurableOpenGateConfig {
        window: Duration::from_secs(secs),
        ..DurableOpenGateConfig::default()
    }
}

#[test]
fn allows_first_then_blocks_within_window() {
    let mut store = Store::new();
    let mut gate = open(&mut store, window(1800)).expect("gate should open");

    let first = try_acquire_open(&mut gate, &mut store, Duration::from_secs(10))
        .expect("first open should be allowed");
    let second = try_acquire_open(&mut gate, &mut store, Duration::from_secs(20))
        .expect("second open should be blocked");

    assert!(matches!(first, OpenGateDecision::Allowed { .. }));
    assert!(matches!(second, OpenGateDecision::Blocked { .. }));
    let stats = gate.stats();
    assert_eq!(stats.allowed_total, 1);
    assert_eq!(stats.blocked_total, 1);
    assert_eq!(stats.persist_writes_total, 1);
}

#[test]
fn allows_after_window_elapsed_and_persists_across_restart() {
    let mut store = Store::new();
    let cfg = window(30);
    let mut gate = open(&mut store, cfg.clone()).expect("gate should open");
    let lock_until = match try_acquire_open(&mut gate, &mut store, Duration::from_secs(1))
        .expect("first should allow")
    {
        OpenGateDecision::Allowed { lock_until } => lock_until,
        OpenGateDecision::Blocked { .. } => panic!("first call should not be blocked"),
    };
    drop(gate);

    let mut restarted = open(&mut store, cfg).expect("gate should reopen");
    let blocked = try_acquire_open(&mut restarted, &mut store, Duration::from_secs(10))
        .expect("inside lock should block");
    assert!(matches!(
        blocked,
        OpenGateDecision::Blocked {
            lock_until: value
        } if value == lock_until
    ));
    let allowed = try_acquire_open(&mut restarted, &mut store, Duration::from_secs(31))
        .expect("after lock should allow");
    assert!(matches!(allowed, OpenGateDecision::Allowed { .. }));
}

#[test]
fn spam_blocked_attempts_do_not_write_every_attempt() {
    let mut store = Store::new();
    let mut gate = open(&mut store, window(300)).expect("gate should open");

    let _ = try_acquire_open(&mut gate, &mut store, Duration::from_secs(0))
        .expect("seed allow should pass");
    for _ in 0..200_000 {
        let decision = try_acquire_open(&mut gate, &mut store, Duration::from_secs(1))
            .expect("blocked spam should be fast");
        assert!(matches!(decision, OpenGateDecision::Blocked { .. }));
    }

    let stats = gate.stats();
    assert_eq!(stats.allowed_total, 1);
    assert_eq!(stats.blocked_total, 200_000);
    assert_eq!(stats.persist_writes_total, 1);
    // The store saw the load, the read of the one grant, and its write.
    assert_eq!(store.reads, 2);
    assert_eq!(store.writes, 1);
}

#[test]
fn boundary_spam_writes_once_per_window_not_per_attempt() {
    let mut store = Store::new();
    let mut gate = open(&mut store, window(5)).expect("gate should open");

    for second in 0..20_u64 {
        let _ = try_acquire_open(&mut gate, &mut store, Duration::from_secs(second))
            .expect("acquire should not fail");
    }

    let stats = gate.stats();
    assert_eq!(stats.allowed_total, 4);
    assert_eq!(stats.persist_writes_total, 4);
    assert_eq!(stats.attempts_total, 20);
}

#[test]
fn many_callers_single_grant_per_window() {
    let mut store = Store::new();
    let mut gate = open(&mut store, window(60)).unwrap();
    let mut allowed: u64 = 0;
    for _ in 0..24 {
        if let OpenGateDecision::Allowed { .. } =
            try_acquire_open(&mut gate, &mut store, Duration::from_secs(10)).unwrap()
        {
            allowed += 1;
        }
    }
    assert_eq!(allowed, 1);
}

#[test]
fn default_config_is_half_an_hour_and_fails_closed() {
    let cfg = DurableOpenGateConfig::default();
    assert_eq!(cfg.window, Duration::from_secs(30 * 60));
    assert_eq!(cfg.lmdb_map_size_bytes, 32 * 1024 * 1024);
    assert_eq!(cfg.db_name, "open_gate");
    assert_eq!(cfg.record_key, "global_open_gate");
    assert!(cfg.fail_closed);
    assert!(cfg.validate().is_ok());
}

#[test]
fn invalid_configs_are_refused() {
    let zero = window(0);
    match open(&mut Store::new(), zero) {
        Err(DurableOpenGateError::InvalidConfig(msg)) => {
            assert_eq!(msg, "window must be non-zero");
        }
        other => panic!("unexpected: {other:?}"),
    }
    let small = DurableOpenGateConfig {
        lmdb_map_size_bytes: 1024 * 1024 - 1,
        ..window(1)
    };
    let err = open(&mut Store::new(), small).unwrap_err();
    assert_eq!(
        err.message(),
        "invalid durable open gate config: lmdb_map_size_bytes must be at least 1 MiB"
    );
    // The library checks by itself as well.
    let err = DurableOpenGate::open(window(0), OpenGateLoad::Read(Ok(None))).unwrap_err();
    assert!(matches!(err, DurableOpenGateError::InvalidConfig(_)));
}

#[test]
fn record_holds_version_lock_update_and_window_in_millis() {
    let mut store = Store::new();
    let mut gate = open(&mut store, window(30)).unwrap();
    let decision = try_acquire_open(&mut gate, &mut store, Duration::from_micros(1_500_999));
    assert_eq!(
        decision.unwrap(),
        OpenGateDecision::Allowed {
            lock_until: Duration::from_millis(31_500)
        }
    );
    let bytes = store.record.clone().unwrap();
    let mut aligned: rkyv::util::AlignedVec = rkyv::util::AlignedVec::new();
    aligned.extend_from_slice(&bytes);
    let record =
        rkyv::from_bytes::<(u16, u64, u64, u64), rkyv::rancor::Error>(&aligned).unwrap();
    assert_eq!(record, (1, 31_500, 1_500, 30_000));
}

#[test]
fn record_is_read_wherever_its_bytes_lie() {
    let mut store = Store::new();
    let mut gate = open(&mut store, window(30)).unwrap();
    try_acquire_open(&mut gate, &mut store, Duration::from_secs(1)).unwrap();
    let bytes = store.record.clone().unwrap();
    for shift in 0..8usize {
        let mut shifted: Vec<u8> = vec![0; shift];
        shifted.extend_from_slice(&bytes);
        let copy: Vec<u8> = shifted[shift..].to_vec();
        let reopened =
            DurableOpenGate::open(window(30), OpenGateLoad::Read(Ok(Some(copy)))).unwrap();
        assert_eq!(reopened.stats().persist_reads_total, 1);
    }
}

#[test]
fn a_later_record_blocks_a_gate_that_has_not_seen_it() {
    let mut store = Store::new();
    let mut a = open(&mut store, window(30)).unwrap();
    let mut b = open(&mut store, window(30)).unwrap();
    try_acquire_open(&mut a, &mut store, Duration::from_secs(1)).unwrap();
    let blocked = try_acquire_open(&mut b, &mut store, Duration::from_secs(2)).unwrap();
    assert_eq!(
        blocked,
        OpenGateDecision::Blocked {
            lock_until: Duration::from_secs(31)
        }
    );
    assert_eq!(
        b.stats(),
        OpenGateStats {
            attempts_total: 1,
            blocked_total: 1,
            persist_reads_total: 2,
            ..OpenGateStats::default()
        }
    );
    // From now on the lock is in memory.
    let reads = store.reads;
    try_acquire_open(&mut b, &mut store, Duration::from_secs(30)).unwrap();
    assert_eq!(store.reads, reads);
}

#[test]
fn read_failure_denies_a_gate_that_fails_closed() {
    let mut store = Store::new();
    let mut gate = open(&mut store, window(30)).unwrap();
    store.reads_fail = true;
    let err = try_acquire_open(&mut gate, &mut store, Duration::from_secs(1)).unwrap_err();
    assert!(matches!(
        err,
        DurableOpenGateError::Heed(heed::Error::EnvAlreadyOpened)
    ));
    assert_eq!(
        err.message(),
        format!("durable open gate LMDB error: {}", heed::Error::EnvAlreadyOpened)
    );
    let stats = gate.stats();
    assert_eq!(stats.persist_failures_total, 1);
    assert_eq!(stats.allowed_total, 0);
    // Nothing is locked: the next attempt is granted.
    store.reads_fail = false;
    assert!(matches!(
        try_acquire_open(&mut gate, &mut store, Duration::from_secs(1)),
        Ok(OpenGateDecision::Allowed { .. })
    ));
}

#[test]
fn write_failure_grants_once_per_window_where_the_gate_fails_open() {
    let mut store = Store::new();
    let cfg = DurableOpenGateConfig {
        fail_closed: false,
        ..window(30)
    };
    let mut gate = open(&mut store, cfg).unwrap();
    store.writes_fail = true;
    assert_eq!(
        try_acquire_open(&mut gate, &mut store, Duration::from_secs(1)).unwrap(),
        OpenGateDecision::Allowed {
            lock_until: Duration::from_secs(31)
        }
    );
    assert_eq!(
        try_acquire_open(&mut gate, &mut store, Duration::from_secs(30)).unwrap(),
        OpenGateDecision::Blocked {
            lock_until: Duration::from_secs(31)
        }
    );
    let stats = gate.stats();
    assert_eq!(stats.allowed_total, 1);
    assert_eq!(stats.persist_failures_total, 1);
    assert_eq!(stats.persist_writes_total, 0);
}

#[test]
fn write_failure_denies_a_gate_that_fails_closed() {
    let mut store = Store::new();
    let mut gate = open(&mut store, window(30)).unwrap();
    store.writes_fail = true;
    assert!(try_acquire_open(&mut gate, &mut store, Duration::from_secs(1)).is_err());
    assert_eq!(gate.stats().persist_failures_total, 1);
}

#[test]
fn garbage_record_is_a_decode_error() {
    let mut store = Store::new();
    store.record = Some(vec![1, 2, 3]);
    let err = open(&mut store, window(30)).unwrap_err();
    assert!(matches!(err, DurableOpenGateError::Decode(_)));
    assert!(err.message().len() > "durable open gate decode error: ".len());

    // A gate that fails open starts without a lock, and counts the failure.
    let cfg = DurableOpenGateConfig {
        fail_closed: false,
        ..window(30)
    };
    let gate = open(&mut store, cfg).unwrap();
    assert_eq!(gate.stats().persist_failures_total, 1);
    assert_eq!(gate.stats().persist_reads_total, 1);

    let mut gate = open(&mut Store::new(), window(30)).unwrap();
    let err = try_acquire_open(&mut gate, &mut store, Duration::from_secs(1)).unwrap_err();
    assert!(matches!(err, DurableOpenGateError::Decode(_)));
}

#[test]
fn missing_transaction_is_no_read() {
    let load = OpenGateLoad::NoTransaction(heed::Error::EnvAlreadyOpened);
    let err = DurableOpenGate::open(window(30), load).unwrap_err();
    assert!(matches!(err, DurableOpenGateError::Heed(_)));

    let cfg = DurableOpenGateConfig {
        fail_closed: false,
        ..window(30)
    };
    let load = OpenGateLoad::NoTransaction(heed::Error::EnvAlreadyOpened);
    let gate = DurableOpenGate::open(cfg, load).unwrap();
    assert_eq!(gate.stats().persist_reads_total, 0);
    assert_eq!(gate.stats().persist_failures_total, 1);
}

fn ask(gate: &mut DurableOpenGate, store: &mut Store, now: Duration) -> PendingWrite {
    let pending = match gate.try_acquire_open(now) {
        OpenAttempt::ReadRecord(pending) => pending,
        other => panic!("unexpected: {other:?}"),
    };
    match gate.after_read(pending, store.read()) {
        OpenGateStep::WriteRecord(pending) => pending,
        other => panic!("unexpected: {other:?}"),
    }
}

#[test]
fn interleaved_attempts_are_granted_once() {
    let mut store = Store::new();
    let mut gate = open(&mut store, window(30)).unwrap();
    let now = Duration::from_secs(1);
    let first = ask(&mut gate, &mut store, now);
    let second = ask(&mut gate, &mut store, now);

    let lock = Duration::from_secs(31);
    let answer = gate.after_write(first, Ok(())).unwrap();
    assert_eq!(answer, OpenGateDecision::Allowed { lock_until: lock });
    let answer = gate.after_write(second, Ok(())).unwrap();
    assert_eq!(answer, OpenGateDecision::Blocked { lock_until: lock });
    assert_eq!(
        gate.stats(),
        OpenGateStats {
            attempts_total: 2,
            allowed_total: 1,
            blocked_total: 1,
            persist_reads_total: 3,
            persist_writes_total: 2,
            persist_failures_total: 0,
        }
    );
}

#[test]
fn interleaved_failures_are_granted_once_where_the_gate_fails_open() {
    let mut store = Store::new();
    let cfg = DurableOpenGateConfig {
        fail_closed: false,
        ..window(30)
    };
    let mut gate = open(&mut store, cfg).unwrap();
    let now = Duration::from_secs(1);
    let first = ask(&mut gate, &mut store, now);
    let second = ask(&mut gate, &mut store, now);

    let lock = Duration::from_secs(31);
    let answer = gate.after_write(first, Err(heed::Error::EnvAlreadyOpened));
    assert_eq!(answer.unwrap(), OpenGateDecision::Allowed { lock_until: lock });
    let answer = gate.after_write(second, Err(heed::Error::EnvAlreadyOpened));
    assert_eq!(answer.unwrap(), OpenGateDecision::Blocked { lock_until: lock });
    assert_eq!(gate.stats().allowed_total, 1);
    assert_eq!(gate.stats().blocked_total, 1);
    assert_eq!(gate.stats().persist_failures_total, 2);
}

#[test]
fn attempt_without_a_transaction_is_only_counted() {
    let mut store = Store::new();
    let mut gate = open(&mut store, window(30)).unwrap();
    let before = gate.stats();
    let now = Duration::from_secs(1);
    assert!(matches!(gate.try_acquire_open(now), OpenAttempt::ReadRecord(_)));
    assert_eq!(
        gate.stats(),
        OpenGateStats {
            attempts_total: 1,
            ..before
        }
    );
    // It leaves no lock: the next attempt at that instant is granted.
    let answer = try_acquire_open(&mut gate, &mut store, now).unwrap();
    assert!(matches!(answer, OpenGateDecision::Allowed { .. }));
}

#[test]
fn encode_failure_is_an_error_of_its_own() {
    let mut gate = open(&mut Store::new(), window(30)).unwrap();
    let pending = match gate.try_acquire_open(Duration::from_secs(1)) {
        OpenAttempt::ReadRecord(pending) => pending,
        other => panic!("unexpected: {other:?}"),
    };
    let grant = match gate.after_lock(pending, Ok(1_000)) {
        OpenGateLockStep::Grant(grant) => grant,
        other => panic!("unexpected: {other:?}"),
    };
    let failure = rkyv::from_bytes::<(u16, u64, u64, u64), rkyv::rancor::Error>(&[]).unwrap_err();
    let text = failure.to_string();
    match gate.after_encode(grant, Err(failure)) {
        OpenGateStep::Decided(Err(err)) => {
            assert!(matches!(err, DurableOpenGateError::Encode(_)));
            assert_eq!(err.message(), format!("durable open gate encode error: {text}"));
        }
        other => panic!("unexpected: {other:?}"),
    }
    assert_eq!(gate.stats().persist_failures_total, 1);
}

#[test]
fn file_system_errors_convert() {
    let err = DurableOpenGateError::from(std::io::Error::new(std::io::ErrorKind::Other, "disk"));
    assert_eq!(err.message(), "durable open gate I/O error: disk");
    let err = DurableOpenGateError::from(heed::Error::EnvAlreadyOpened);
    assert!(matches!(err, DurableOpenGateError::Heed(_)));
}

#[test]
fn lock_is_held_at_the_largest_instant() {
    let mut store = Store::new();
    let mut gate = open(&mut store, window(30)).unwrap();
    assert_eq!(
        try_acquire_open(&mut gate, &mut store, Duration::MAX).unwrap(),
        OpenGateDecision::Allowed {
            lock_until: Duration::from_millis(u64::MAX)
        }
    );
}
