//! A durable gate that grants at most one open per window, and keeps doing so across restarts.
//!
//! An open gate decides; the caller reads and writes the record that makes its decisions
//! durable. An attempt that the lock in memory does not settle goes in three steps:
//! [`try_acquire_open`] asks for the record, [`after_read`] takes what was read and may ask for a
//! write, and [`after_write`] takes how the write went. One store transaction spans the three.
//!
//! [`try_acquire_open`]: DurableOpenGate::try_acquire_open
//! [`after_read`]: DurableOpenGate::after_read
//! [`after_write`]: DurableOpenGate::after_write

use crate::time;
use crate::time::{greatest, least, nanos, NANOS_PER_SEC};
use std::time::Duration;
use vstd::prelude::*;
use vstd::string::to_string_from_display_ensures;

verus! {

/// Nanoseconds in a millisecond.
pub const NANOS_PER_MILLI: u128 = 1_000_000;

/// The smallest map that the store may have: one mebibyte.
pub const MIN_MAP_SIZE_BYTES: usize = 1_048_576;

/// An error of the file system. Nothing is claimed of its values.
#[verifier::external_type_specification]
#[verifier::external_body]
pub struct ExIoError(std::io::Error);

/// An error of the store. Nothing is claimed of its values.
#[verifier::external_type_specification]
#[verifier::external_body]
pub struct ExHeedError(heed::Error);

/// An error of the record format. Nothing is claimed of its values.
#[verifier::external_type_specification]
#[verifier::external_body]
pub struct ExRancorError(rkyv::rancor::Error);

/// The bytes that `rkyv::to_bytes` writes for a record, where it succeeds: the version, the lock,
/// the time of the update and the window, all but the version in milliseconds.
pub uninterp spec fn archived_record(
    version: u16,
    lock_until_ms: u64,
    updated_at_ms: u64,
    window_ms: u64,
) -> Option<Seq<u8>>;

/// The record that `rkyv::from_bytes` reads from bytes in an aligned buffer, where it succeeds.
pub uninterp spec fn unarchived_record(bytes: Seq<u8>) -> Option<(u16, u64, u64, u64)>;

/// `rkyv::to_bytes` on the fields of a record, in their order. Archived integers have a fixed
/// byte order and padding is written as zeros, so the bytes depend on the fields alone; and
/// `rkyv::from_bytes` reads back from them what was written. Of an error nothing is claimed.
#[verifier::external_body]
fn archive_record(version: u16, lock_until_ms: u64, updated_at_ms: u64, window_ms: u64) -> (r:
    Result<Vec<u8>, rkyv::rancor::Error>)
    ensures
        match r {
            Ok(bytes) => archived_record(version, lock_until_ms, updated_at_ms, window_ms) == Some(
                bytes@,
            ) && unarchived_record(bytes@) == Some(
                (version, lock_until_ms, updated_at_ms, window_ms),
            ),
            Err(_) => archived_record(version, lock_until_ms, updated_at_ms, window_ms) is None,
        },
{
    let record = (version, lock_until_ms, updated_at_ms, window_ms);
    rkyv::to_bytes::<rkyv::rancor::Error>(&record).map(|bytes| bytes.to_vec())
}

/// `rkyv::from_bytes` on a copy of the bytes in an `AlignedVec`. It checks the alignment of what
/// it reads, so the copy makes the result depend on the bytes alone and not on where they lie.
/// Of an error nothing is claimed.
#[verifier::external_body]
fn unarchive_record(bytes: &Vec<u8>) -> (r: Result<(u16, u64, u64, u64), rkyv::rancor::Error>)
    ensures
        match r {
            Ok(record) => unarchived_record(bytes@) == Some(record),
            Err(_) => unarchived_record(bytes@) is None,
        },
{
    let mut aligned: rkyv::util::AlignedVec = rkyv::util::AlignedVec::new();
    aligned.extend_from_slice(bytes);
    rkyv::from_bytes::<(u16, u64, u64, u64), rkyv::rancor::Error>(&aligned)
}

/// Durable open gate errors.
#[derive(Debug)]
pub enum DurableOpenGateError {
    /// Invalid configuration.
    InvalidConfig(String),
    /// Filesystem I/O failure.
    Io(std::io::Error),
    /// LMDB/heed failure.
    Heed(heed::Error),
    /// rkyv encode failure.
    Encode(String),
    /// rkyv decode failure.
    Decode(String),
}

impl From<std::io::Error> for DurableOpenGateError {
    fn from(value: std::io::Error) -> (e: Self) {
        DurableOpenGateError::Io(value)
    }
}

impl vstd::std_specs::convert::FromSpecImpl<std::io::Error> for DurableOpenGateError {
    open spec fn obeys_from_spec() -> bool {
        true
    }

    open spec fn from_spec(value: std::io::Error) -> Self {
        DurableOpenGateError::Io(value)
    }
}

impl From<heed::Error> for DurableOpenGateError {
    fn from(value: heed::Error) -> (e: Self) {
        DurableOpenGateError::Heed(value)
    }
}

impl vstd::std_specs::convert::FromSpecImpl<heed::Error> for DurableOpenGateError {
    open spec fn obeys_from_spec() -> bool {
        true
    }

    open spec fn from_spec(value: heed::Error) -> Self {
        DurableOpenGateError::Heed(value)
    }
}

impl DurableOpenGateError {
    /// What the error says: where it comes from, and then the text that it carries, or that the
    /// error of the file system or of the store says of itself.
    pub fn message(&self) -> (text: String)
        ensures
            match self {
                DurableOpenGateError::InvalidConfig(msg) => text@
                    == "invalid durable open gate config: "@ + msg@,
                DurableOpenGateError::Io(err) => exists|said: String| #[trigger]
                    to_string_from_display_ensures::<std::io::Error>(err, said) && text@
                        == "durable open gate I/O error: "@ + said@,
                DurableOpenGateError::Heed(err) => exists|said: String| #[trigger]
                    to_string_from_display_ensures::<heed::Error>(err, said) && text@
                        == "durable open gate LMDB error: "@ + said@,
                DurableOpenGateError::Encode(err) => text@ == "durable open gate encode error: "@
                    + err@,
                DurableOpenGateError::Decode(err) => text@ == "durable open gate decode error: "@
                    + err@,
            },
    {
        match self {
            DurableOpenGateError::InvalidConfig(msg) => prefixed(
                "invalid durable open gate config: ",
                msg.as_str(),
            ),
            DurableOpenGateError::Io(err) => {
                let said: String = err.to_string();
                prefixed("durable open gate I/O error: ", said.as_str())
            },
            DurableOpenGateError::Heed(err) => {
                let said: String = err.to_string();
                prefixed("durable open gate LMDB error: ", said.as_str())
            },
            DurableOpenGateError::Encode(err) => prefixed(
                "durable open gate encode error: ",
                err.as_str(),
            ),
            DurableOpenGateError::Decode(err) => prefixed(
                "durable open gate decode error: ",
                err.as_str(),
            ),
        }
    }
}

/// The two texts, one after the other.
fn prefixed(prefix: &str, text: &str) -> (r: String)
    ensures
        r@ == prefix@ + text@,
{
    prefix.to_owned().concat(text)
}

/// Configuration for the durable open gate.
#[derive(Debug)]
pub struct DurableOpenGateConfig {
    /// Dedup window width.
    pub window: Duration,
    /// LMDB map size in bytes.
    pub lmdb_map_size_bytes: usize,
    /// LMDB database name.
    pub db_name: &'static str,
    /// Logical key used for the global gate record.
    pub record_key: &'static str,
    /// When true, persistence failures deny opens (fail closed).
    pub fail_closed: bool,
}

impl Clone for DurableOpenGateConfig {
    fn clone(&self) -> (c: Self)
        ensures
            c == *self,
    {
        DurableOpenGateConfig {
            window: self.window,
            lmdb_map_size_bytes: self.lmdb_map_size_bytes,
            db_name: self.db_name,
            record_key: self.record_key,
            fail_closed: self.fail_closed,
        }
    }
}

impl Default for DurableOpenGateConfig {
    /// Half an hour, 32 MiB, failing closed.
    fn default() -> (c: Self)
        ensures
            nanos(c.window) == 1800 * NANOS_PER_SEC,
            c.lmdb_map_size_bytes == 33_554_432,
            c.db_name@ == "open_gate"@,
            c.record_key@ == "global_open_gate"@,
            c.fail_closed,
    {
        DurableOpenGateConfig {
            window: time::from_secs(30 * 60),
            lmdb_map_size_bytes: 32 * 1024 * 1024,
            db_name: "open_gate",
            record_key: "global_open_gate",
            fail_closed: true,
        }
    }
}

/// What is wrong with a configuration.
pub open spec fn config_fault(cfg: DurableOpenGateConfig) -> Option<Seq<char>> {
    if nanos(cfg.window) == 0 {
        Some("window must be non-zero"@)
    } else if cfg.lmdb_map_size_bytes < MIN_MAP_SIZE_BYTES {
        Some("lmdb_map_size_bytes must be at least 1 MiB"@)
    } else {
        None
    }
}

/// The error is the one of a configuration with this fault.
pub open spec fn is_fault(err: DurableOpenGateError, fault: Seq<char>) -> bool {
    err matches DurableOpenGateError::InvalidConfig(msg) && msg@ == fault
}

impl DurableOpenGateConfig {
    /// Checks the window and the map size.
    pub fn validate(&self) -> (r: Result<(), DurableOpenGateError>)
        ensures
            match (r, config_fault(*self)) {
                (Ok(()), None) => true,
                (Err(err), Some(fault)) => is_fault(err, fault),
                _ => false,
            },
    {
        if time::is_zero(self.window) {
            return Err(
                DurableOpenGateError::InvalidConfig("window must be non-zero".to_owned()),
            );
        }
        if self.lmdb_map_size_bytes < MIN_MAP_SIZE_BYTES {
            return Err(
                DurableOpenGateError::InvalidConfig(
                    "lmdb_map_size_bytes must be at least 1 MiB".to_owned(),
                ),
            );
        }
        Ok(())
    }
}

/// Decision returned by [`DurableOpenGate::try_acquire_open`].
#[derive(Debug, Clone, Copy, PartialEq, Eq)]
pub enum OpenGateDecision {
    /// The open was granted and lock is now active until `lock_until`.
    Allowed {
        /// Timestamp when the lock expires.
        lock_until: Duration,
    },
    /// The open was blocked because lock is active until `lock_until`.
    Blocked {
        /// Timestamp when the lock expires.
        lock_until: Duration,
    },
}

/// In-memory counters for gate behavior and persistence load.
#[derive(Debug, Clone, Copy, PartialEq, Eq)]
pub struct OpenGateStats {
    /// Total acquire attempts.
    pub attempts_total: u64,
    /// Total granted attempts.
    pub allowed_total: u64,
    /// Total blocked attempts.
    pub blocked_total: u64,
    /// Total persistence reads.
    pub persist_reads_total: u64,
    /// Total persistence writes.
    pub persist_writes_total: u64,
    /// Total persistence failures.
    pub persist_failures_total: u64,
}

impl Default for OpenGateStats {
    /// Nothing counted yet.
    fn default() -> (s: Self)
        ensures
            s == OpenGateStats::none(),
    {
        OpenGateStats {
            attempts_total: 0,
            allowed_total: 0,
            blocked_total: 0,
            persist_reads_total: 0,
            persist_writes_total: 0,
            persist_failures_total: 0,
        }
    }
}

impl OpenGateStats {
    /// Nothing counted yet.
    pub open spec fn none() -> Self {
        OpenGateStats {
            attempts_total: 0,
            allowed_total: 0,
            blocked_total: 0,
            persist_reads_total: 0,
            persist_writes_total: 0,
            persist_failures_total: 0,
        }
    }
}

/// One more, held at the largest count.
pub open spec fn one_more(count: u64) -> u64 {
    if count == u64::MAX {
        count
    } else {
        (count + 1) as u64
    }
}

/// The instant in whole milliseconds, held at the largest that a record can hold.
pub open spec fn millis(t: nat) -> nat {
    least(t / NANOS_PER_MILLI as nat, u64::MAX as nat)
}

/// What a gate holds, with times in milliseconds.
pub struct GateModel {
    /// The window.
    pub window_ms: nat,
    /// Whether a failure of the store denies.
    pub fail_closed: bool,
    /// The instant until which opens are blocked.
    pub lock_until_ms: nat,
    /// The counters.
    pub stats: OpenGateStats,
}

impl GateModel {
    /// A gate as it starts, with the lock that was found, and the read counted where one was made.
    pub open spec fn started(cfg: DurableOpenGateConfig, lock_until_ms: nat, read: bool) -> Self {
        GateModel {
            window_ms: millis(nanos(cfg.window)),
            fail_closed: cfg.fail_closed,
            lock_until_ms,
            stats: OpenGateStats {
                persist_reads_total: if read {
                    1
                } else {
                    0
                },
                ..OpenGateStats::none()
            },
        }
    }

    /// Whether the lock in memory blocks an open at `now`.
    pub open spec fn blocks(self, now: nat) -> bool {
        now < self.lock_until_ms
    }

    /// The lock that a grant at `now` sets.
    pub open spec fn next_lock(self, now: nat) -> nat {
        least(now + self.window_ms, u64::MAX as nat)
    }

    /// The open gate with an attempt at `now` counted, and a block where the lock in memory blocks
    /// it.
    pub open spec fn attempted(self, now: nat) -> Self {
        GateModel {
            stats: OpenGateStats {
                attempts_total: one_more(self.stats.attempts_total),
                blocked_total: if self.blocks(now) {
                    one_more(self.stats.blocked_total)
                } else {
                    self.stats.blocked_total
                },
                ..self.stats
            },
            ..self
        }
    }

    /// The open gate with the lock that is kept, where that is the later one and blocks.
    pub open spec fn loaded(self, now: nat, kept_lock: nat) -> Self {
        let lock = greatest(self.lock_until_ms, kept_lock);
        if now < lock {
            GateModel {
                lock_until_ms: lock,
                stats: OpenGateStats {
                    persist_reads_total: one_more(self.stats.persist_reads_total),
                    blocked_total: one_more(self.stats.blocked_total),
                    ..self.stats
                },
                ..self
            }
        } else {
            self
        }
    }

    /// The open gate after a grant at `now` that was made durable.
    pub open spec fn granted(self, now: nat) -> Self {
        GateModel {
            lock_until_ms: self.next_lock(now),
            stats: OpenGateStats {
                persist_reads_total: one_more(self.stats.persist_reads_total),
                persist_writes_total: one_more(self.stats.persist_writes_total),
                allowed_total: one_more(self.stats.allowed_total),
                ..self.stats
            },
            ..self
        }
    }

    /// The open gate after the record of an attempt at `now` was made durable: it grants, unless
    /// another attempt was granted since the record was read, whose lock blocks.
    pub open spec fn written(self, now: nat) -> Self {
        if self.blocks(now) {
            GateModel {
                stats: OpenGateStats {
                    persist_reads_total: one_more(self.stats.persist_reads_total),
                    persist_writes_total: one_more(self.stats.persist_writes_total),
                    blocked_total: one_more(self.stats.blocked_total),
                    ..self.stats
                },
                ..self
            }
        } else {
            self.granted(now)
        }
    }

    /// The open gate after the store failed an attempt: one that fails closed denies, any
    /// other grants with the lock in memory alone, unless that blocks already.
    pub open spec fn failed(self, now: nat) -> Self {
        let stats = OpenGateStats {
            persist_failures_total: one_more(self.stats.persist_failures_total),
            ..self.stats
        };
        if self.fail_closed {
            GateModel { stats, ..self }
        } else if self.blocks(now) {
            GateModel {
                stats: OpenGateStats { blocked_total: one_more(stats.blocked_total), ..stats },
                ..self
            }
        } else {
            GateModel {
                lock_until_ms: self.next_lock(now),
                stats: OpenGateStats { allowed_total: one_more(stats.allowed_total), ..stats },
                ..self
            }
        }
    }
}

/// The lock in a record, where the record can be read: zero where there is none.
pub open spec fn kept_lock(stored: Option<Seq<u8>>) -> Option<nat> {
    match stored {
        None => Some(0),
        Some(bytes) => match unarchived_record(bytes) {
            Some(record) => Some(record.1 as nat),
            None => None,
        },
    }
}

/// The bytes that were read, where there are any.
pub open spec fn opt_view(stored: Option<Vec<u8>>) -> Option<Seq<u8>> {
    match stored {
        Some(bytes) => Some(bytes@),
        None => None,
    }
}

/// The decision allows until `lock` milliseconds.
pub open spec fn allows_until(d: OpenGateDecision, lock: nat) -> bool {
    d matches OpenGateDecision::Allowed { lock_until } && nanos(lock_until) == lock
        * NANOS_PER_MILLI
}

/// The decision blocks until `lock` milliseconds.
pub open spec fn blocks_until(d: OpenGateDecision, lock: nat) -> bool {
    d matches OpenGateDecision::Blocked { lock_until } && nanos(lock_until) == lock
        * NANOS_PER_MILLI
}

fn duration_to_millis(value: Duration) -> (ms: u64)
    ensures
        ms == millis(nanos(value)),
{
    let ms: u128 = value.as_nanos() / NANOS_PER_MILLI;
    if ms > u64::MAX as u128 {
        u64::MAX
    } else {
        ms as u64
    }
}

fn millis_to_duration(value_ms: u64) -> (d: Duration)
    ensures
        nanos(d) == value_ms * NANOS_PER_MILLI,
{
    time::from_nanos(value_ms as u128 * NANOS_PER_MILLI)
}

/// An error of `rkyv::from_bytes` on these bytes says `text`.
pub closed spec fn decode_error_says(bytes: Vec<u8>, text: String) -> bool {
    exists|err: rkyv::rancor::Error| #[trigger]
        call_ensures(
            unarchive_record,
            (&bytes,),
            Err::<(u16, u64, u64, u64), rkyv::rancor::Error>(err),
        ) && to_string_from_display_ensures::<rkyv::rancor::Error>(&err, text)
}

/// An error of `rkyv::to_bytes` on this record says `text`.
pub closed spec fn encode_error_says(
    version: u16,
    lock_until_ms: u64,
    updated_at_ms: u64,
    window_ms: u64,
    text: String,
) -> bool {
    exists|err: rkyv::rancor::Error| #[trigger]
        call_ensures(
            archive_record,
            (version, lock_until_ms, updated_at_ms, window_ms),
            Err::<Vec<u8>, rkyv::rancor::Error>(err),
        ) && to_string_from_display_ensures::<rkyv::rancor::Error>(&err, text)
}

/// The lock in a record.
fn lock_of(stored: Option<Vec<u8>>) -> (r: Result<u64, DurableOpenGateError>)
    ensures
        match (r, kept_lock(opt_view(stored))) {
            (Ok(ms), Some(lock)) => ms == lock,
            (Err(DurableOpenGateError::Decode(text)), None) => stored is Some && decode_error_says(
                stored->0,
                text,
            ),
            _ => false,
        },
{
    match stored {
        None => Ok(0),
        Some(bytes) => match unarchive_record(&bytes) {
            Ok((_, lock_until_ms, _, _)) => Ok(lock_until_ms),
            Err(err) => {
                let text: String = err.to_string();
                assert(decode_error_says(bytes, text));
                Err(DurableOpenGateError::Decode(text))
            },
        },
    }
}

/// What was found of the record when a gate is opened.
#[derive(Debug)]
pub enum OpenGateLoad {
    /// No read transaction could be had.
    NoTransaction(heed::Error),
    /// The record was read, or reading it failed; `None` where there is none.
    Read(Result<Option<Vec<u8>>, heed::Error>),
}

/// An attempt that needs the record. It is handed to [`DurableOpenGate::after_read`] together with
/// what was read; without a transaction to read in, it is dropped.
#[derive(Debug)]
pub struct PendingRead {
    now_ms: u64,
}

impl PendingRead {
    /// The instant of the attempt, in milliseconds.
    pub closed spec fn at(self) -> nat {
        self.now_ms as nat
    }
}

/// An attempt that may be granted, once the record of the grant is encoded.
#[derive(Debug)]
pub struct PendingGrant {
    now_ms: u64,
}

impl PendingGrant {
    /// The instant of the attempt, in milliseconds.
    pub closed spec fn at(self) -> nat {
        self.now_ms as nat
    }
}

/// An attempt that is granted once its record is written and committed.
#[derive(Debug)]
pub struct PendingWrite {
    now_ms: u64,
    record: Vec<u8>,
}

impl PendingWrite {
    /// The instant of the attempt, in milliseconds.
    pub closed spec fn at(self) -> nat {
        self.now_ms as nat
    }

    /// The record to write.
    pub closed spec fn spec_record(self) -> Seq<u8> {
        self.record@
    }

    /// The record to write.
    pub fn record(&self) -> (record: &Vec<u8>)
        ensures
            record@ == self.spec_record(),
    {
        &self.record
    }
}

/// How an attempt goes on.
#[derive(Debug)]
pub enum OpenAttempt {
    /// The lock in memory blocks it; the store is not touched.
    Decided(OpenGateDecision),
    /// The record is to be read.
    ReadRecord(PendingRead),
}

/// How an attempt goes on once the lock that is kept is known.
#[derive(Debug)]
pub enum OpenGateLockStep {
    /// It is decided.
    Decided(Result<OpenGateDecision, DurableOpenGateError>),
    /// It may be granted.
    Grant(PendingGrant),
}

/// How an attempt goes on once the record was read.
#[derive(Debug)]
pub enum OpenGateStep {
    /// It is decided.
    Decided(Result<OpenGateDecision, DurableOpenGateError>),
    /// The record is to be written and committed.
    WriteRecord(PendingWrite),
}

/// Durable gate that enforces at-most-one open grant per configured window.
#[derive(Debug)]
pub struct DurableOpenGate {
    cfg: DurableOpenGateConfig,
    cached_lock_until_ms: u64,
    stats: OpenGateStats,
}

/// The answer of a gate to an attempt at `now` that the store failed with `err`.
pub open spec fn answers_failure(
    m: GateModel,
    now: nat,
    err: DurableOpenGateError,
    r: Result<OpenGateDecision, DurableOpenGateError>,
) -> bool {
    match r {
        Err(e) => m.fail_closed && e == err,
        Ok(d) => !m.fail_closed && if m.blocks(now) {
            blocks_until(d, m.lock_until_ms)
        } else {
            allows_until(d, m.next_lock(now))
        },
    }
}

impl DurableOpenGate {
    /// What the open gate holds.
    pub closed spec fn view(self) -> GateModel {
        GateModel {
            window_ms: millis(nanos(self.cfg.window)),
            fail_closed: self.cfg.fail_closed,
            lock_until_ms: self.cached_lock_until_ms as nat,
            stats: self.stats,
        }
    }

    /// The configuration.
    pub closed spec fn spec_config(self) -> DurableOpenGateConfig {
        self.cfg
    }

    /// Opens a gate on what was found of the record.
    pub fn open(cfg: DurableOpenGateConfig, load: OpenGateLoad) -> (r: Result<
        Self,
        DurableOpenGateError,
    >)
        ensures
            match (config_fault(cfg), load) {
                (Some(fault), _) => r matches Err(err) && is_fault(err, fault),
                (None, OpenGateLoad::NoTransaction(err)) => opened(
                    cfg,
                    false,
                    Err(DurableOpenGateError::Heed(err)),
                    r,
                ),
                (None, OpenGateLoad::Read(Err(err))) => opened(
                    cfg,
                    true,
                    Err(DurableOpenGateError::Heed(err)),
                    r,
                ),
                (None, OpenGateLoad::Read(Ok(stored))) => match kept_lock(opt_view(stored)) {
                    Some(lock) => opened(cfg, true, Ok(lock as u64), r),
                    None => exists|text: String| #[trigger]
                        opened(cfg, true, Err(DurableOpenGateError::Decode(text)), r)
                            && decode_error_says(stored->0, text),
                },
            },
    {
        match load {
            OpenGateLoad::NoTransaction(err) => Self::start(
                cfg,
                false,
                Err(DurableOpenGateError::Heed(err)),
            ),
            OpenGateLoad::Read(Err(err)) => Self::start(
                cfg,
                true,
                Err(DurableOpenGateError::Heed(err)),
            ),
            OpenGateLoad::Read(Ok(stored)) => {
                let lock: Result<u64, DurableOpenGateError> = lock_of(stored);
                let ghost found = lock;
                let r = Self::start(cfg, true, lock);
                assert(config_fault(cfg) is None ==> (found matches Err(
                    DurableOpenGateError::Decode(text),
                ) ==> opened(cfg, true, Err(DurableOpenGateError::Decode(text)), r)));
                r
            },
        }
    }

    /// Starts a gate with the lock that was found, or on the failure to find one: a gate that
    /// fails closed does not open then, any other starts without a lock.
    pub fn start(
        cfg: DurableOpenGateConfig,
        read: bool,
        lock: Result<u64, DurableOpenGateError>,
    ) -> (r: Result<Self, DurableOpenGateError>)
        ensures
            match config_fault(cfg) {
                Some(fault) => r matches Err(err) && is_fault(err, fault),
                None => opened(cfg, read, lock, r),
            },
    {
        cfg.validate()?;
        let mut stats: OpenGateStats = OpenGateStats::default();
        if read {
            stats.persist_reads_total = stats.persist_reads_total.saturating_add(1);
        }
        match lock {
            Ok(cached_lock_until_ms) => Ok(DurableOpenGate { cfg, cached_lock_until_ms, stats }),
            Err(err) => {
                stats.persist_failures_total = stats.persist_failures_total.saturating_add(1);
                if cfg.fail_closed {
                    return Err(err);
                }
                Ok(DurableOpenGate { cfg, cached_lock_until_ms: 0, stats })
            },
        }
    }

    /// Returns a copy of current counters.
    pub fn stats(&self) -> (stats: OpenGateStats)
        ensures
            stats == self@.stats,
    {
        self.stats
    }

    /// The configuration.
    pub fn config(&self) -> (cfg: &DurableOpenGateConfig)
        ensures
            *cfg == self.spec_config(),
    {
        &self.cfg
    }

    /// Attempts to acquire the global open gate. A block by the lock in memory is decided at once;
    /// any other attempt needs the record.
    pub fn try_acquire_open(&mut self, now: Duration) -> (r: OpenAttempt)
        ensures
            final(self)@ == old(self)@.attempted(millis(nanos(now))),
            final(self).spec_config() == old(self).spec_config(),
            match r {
                OpenAttempt::Decided(d) => old(self)@.blocks(millis(nanos(now))) && blocks_until(
                    d,
                    old(self)@.lock_until_ms,
                ),
                OpenAttempt::ReadRecord(pending) => !old(self)@.blocks(millis(nanos(now)))
                    && pending.at() == millis(nanos(now)),
            },
    {
        self.stats.attempts_total = self.stats.attempts_total.saturating_add(1);
        let now_ms: u64 = duration_to_millis(now);

        // Hot-path fast deny: blocked attempts inside the cached window never touch the store.
        if now_ms < self.cached_lock_until_ms {
            return OpenAttempt::Decided(self.blocked_decision());
        }
        OpenAttempt::ReadRecord(PendingRead { now_ms })
    }

    /// Goes on with an attempt once the record was read, or reading it failed.
    pub fn after_read(
        &mut self,
        pending: PendingRead,
        stored: Result<Option<Vec<u8>>, heed::Error>,
    ) -> (r: OpenGateStep)
        ensures
            final(self).spec_config() == old(self).spec_config(),
            match stored {
                Err(err) => {
                    &&& final(self)@ == old(self)@.failed(pending.at())
                    &&& r matches OpenGateStep::Decided(answer)
                    &&& answers_failure(
                        old(self)@,
                        pending.at(),
                        DurableOpenGateError::Heed(err),
                        answer,
                    )
                },
                Ok(stored) => match kept_lock(opt_view(stored)) {
                    None => {
                        &&& final(self)@ == old(self)@.failed(pending.at())
                        &&& r matches OpenGateStep::Decided(answer)
                        &&& exists|text: String| #[trigger]
                            answers_failure(
                                old(self)@,
                                pending.at(),
                                DurableOpenGateError::Decode(text),
                                answer,
                            ) && decode_error_says(stored->0, text)
                    },
                    Some(kept) => goes_on_with(*old(self), *final(self), pending.at(), kept, r),
                },
            },
    {
        let lock: Result<u64, DurableOpenGateError> = match stored {
            Ok(stored) => lock_of(stored),
            Err(err) => Err(DurableOpenGateError::Heed(err)),
        };
        let ghost found = lock;
        match self.after_lock(pending, lock) {
            OpenGateLockStep::Decided(answer) => {
                assert(found matches Err(DurableOpenGateError::Decode(text)) ==> answers_failure(
                    old(self)@,
                    pending.at(),
                    DurableOpenGateError::Decode(text),
                    answer,
                ));
                OpenGateStep::Decided(answer)
            },
            OpenGateLockStep::Grant(grant) => {
                let window_ms: u64 = duration_to_millis(self.cfg.window);
                let lock_until_ms: u64 = grant.now_ms.saturating_add(window_ms);
                let record = archive_record(1, lock_until_ms, grant.now_ms, window_ms);
                self.after_encode(grant, record)
            },
        }
    }

    /// Goes on with an attempt once the lock that is kept is known, or cannot be had.
    pub fn after_lock(
        &mut self,
        pending: PendingRead,
        lock: Result<u64, DurableOpenGateError>,
    ) -> (r: OpenGateLockStep)
        ensures
            final(self).spec_config() == old(self).spec_config(),
            match lock {
                Err(err) => {
                    &&& final(self)@ == old(self)@.failed(pending.at())
                    &&& r matches OpenGateLockStep::Decided(answer)
                    &&& answers_failure(old(self)@, pending.at(), err, answer)
                },
                Ok(kept) => {
                    let effective = greatest(old(self)@.lock_until_ms, kept as nat);
                    &&& final(self)@ == old(self)@.loaded(pending.at(), kept as nat)
                    &&& match r {
                        OpenGateLockStep::Decided(Ok(d)) => pending.at() < effective
                            && blocks_until(d, effective),
                        OpenGateLockStep::Decided(Err(_)) => false,
                        OpenGateLockStep::Grant(grant) => pending.at() >= effective && grant.at()
                            == pending.at(),
                    }
                },
            },
    {
        let now_ms: u64 = pending.now_ms;
        let persisted_lock_until: u64 = match lock {
            Ok(value) => value,
            Err(err) => {
                return OpenGateLockStep::Decided(self.persist_error_decision(err, now_ms));
            },
        };
        let effective_lock_until: u64 = if self.cached_lock_until_ms >= persisted_lock_until {
            self.cached_lock_until_ms
        } else {
            persisted_lock_until
        };
        if now_ms < effective_lock_until {
            self.cached_lock_until_ms = effective_lock_until;
            self.stats.persist_reads_total = self.stats.persist_reads_total.saturating_add(1);
            return OpenGateLockStep::Decided(Ok(self.blocked_decision()));
        }
        OpenGateLockStep::Grant(PendingGrant { now_ms })
    }

    /// Goes on with an attempt once its record was encoded, or could not be.
    pub fn after_encode(
        &mut self,
        pending: PendingGrant,
        record: Result<Vec<u8>, rkyv::rancor::Error>,
    ) -> (r: OpenGateStep)
        ensures
            final(self).spec_config() == old(self).spec_config(),
            match record {
                Ok(bytes) => {
                    &&& final(self)@ == old(self)@
                    &&& r matches OpenGateStep::WriteRecord(p)
                    &&& p.at() == pending.at()
                    &&& p.spec_record() == bytes@
                },
                Err(err) => {
                    &&& final(self)@ == old(self)@.failed(pending.at())
                    &&& r matches OpenGateStep::Decided(answer)
                    &&& exists|text: String| #[trigger]
                        answers_failure(
                            old(self)@,
                            pending.at(),
                            DurableOpenGateError::Encode(text),
                            answer,
                        ) && to_string_from_display_ensures::<rkyv::rancor::Error>(&err, text)
                },
            },
    {
        let now_ms: u64 = pending.now_ms;
        match record {
            Ok(record) => OpenGateStep::WriteRecord(PendingWrite { now_ms, record }),
            Err(err) => {
                let text: String = err.to_string();
                let ghost said = text;
                let answer = self.persist_error_decision(
                    DurableOpenGateError::Encode(text),
                    now_ms,
                );
                assert(answers_failure(
                    old(self)@,
                    pending.at(),
                    DurableOpenGateError::Encode(said),
                    answer,
                ));
                OpenGateStep::Decided(answer)
            },
        }
    }

    /// Decides an attempt once its record was written and committed, or that failed. Where another
    /// attempt was granted since [`after_read`](Self::after_read), and its lock blocks this one,
    /// nothing is granted.
    pub fn after_write(&mut self, pending: PendingWrite, written: Result<(), heed::Error>) -> (r:
        Result<OpenGateDecision, DurableOpenGateError>)
        ensures
            final(self).spec_config() == old(self).spec_config(),
            match written {
                Ok(()) => {
                    &&& final(self)@ == old(self)@.written(pending.at())
                    &&& r matches Ok(d)
                    &&& if old(self)@.blocks(pending.at()) {
                        blocks_until(d, old(self)@.lock_until_ms)
                    } else {
                        allows_until(d, old(self)@.next_lock(pending.at()))
                    }
                },
                Err(err) => final(self)@ == old(self)@.failed(pending.at()) && answers_failure(
                    old(self)@,
                    pending.at(),
                    DurableOpenGateError::Heed(err),
                    r,
                ),
            },
    {
        let now_ms: u64 = pending.now_ms;
        if let Err(err) = written {
            return self.persist_error_decision(DurableOpenGateError::Heed(err), now_ms);
        }
        self.stats.persist_reads_total = self.stats.persist_reads_total.saturating_add(1);
        self.stats.persist_writes_total = self.stats.persist_writes_total.saturating_add(1);
        if now_ms < self.cached_lock_until_ms {
            return Ok(self.blocked_decision());
        }
        let lock_until_ms: u64 = now_ms.saturating_add(duration_to_millis(self.cfg.window));
        self.cached_lock_until_ms = lock_until_ms;
        self.stats.allowed_total = self.stats.allowed_total.saturating_add(1);
        Ok(OpenGateDecision::Allowed { lock_until: millis_to_duration(lock_until_ms) })
    }

    /// Counts a block by the lock in memory.
    fn blocked_decision(&mut self) -> (d: OpenGateDecision)
        ensures
            final(self).spec_config() == old(self).spec_config(),
            final(self)@ == (GateModel {
                stats: OpenGateStats {
                    blocked_total: one_more(old(self)@.stats.blocked_total),
                    ..old(self)@.stats
                },
                ..old(self)@
            }),
            blocks_until(d, old(self)@.lock_until_ms),
    {
        self.stats.blocked_total = self.stats.blocked_total.saturating_add(1);
        OpenGateDecision::Blocked { lock_until: millis_to_duration(self.cached_lock_until_ms) }
    }

    fn persist_error_decision(&mut self, err: DurableOpenGateError, now_ms: u64) -> (r: Result<
        OpenGateDecision,
        DurableOpenGateError,
    >)
        ensures
            final(self).spec_config() == old(self).spec_config(),
            final(self)@ == old(self)@.failed(now_ms as nat),
            answers_failure(old(self)@, now_ms as nat, err, r),
    {
        self.stats.persist_failures_total = self.stats.persist_failures_total.saturating_add(1);
        if self.cfg.fail_closed {
            return Err(err);
        }
        if now_ms < self.cached_lock_until_ms {
            return Ok(self.blocked_decision());
        }
        let lock_until_ms: u64 = now_ms.saturating_add(duration_to_millis(self.cfg.window));
        self.cached_lock_until_ms = lock_until_ms;
        self.stats.allowed_total = self.stats.allowed_total.saturating_add(1);
        Ok(OpenGateDecision::Allowed { lock_until: millis_to_duration(lock_until_ms) })
    }
}

/// A gate was opened on a valid configuration with the lock that was found, or on the failure to
/// find one.
pub open spec fn opened(
    cfg: DurableOpenGateConfig,
    read: bool,
    lock: Result<u64, DurableOpenGateError>,
    r: Result<DurableOpenGate, DurableOpenGateError>,
) -> bool {
    match lock {
        Ok(ms) => r matches Ok(gate) && gate.spec_config() == cfg && gate@ == GateModel::started(
            cfg,
            ms as nat,
            read,
        ),
        Err(err) => if cfg.fail_closed {
            r == Err::<DurableOpenGate, DurableOpenGateError>(err)
        } else {
            let m = GateModel::started(cfg, 0, read);
            r matches Ok(gate) && gate.spec_config() == cfg && gate@ == (GateModel {
                stats: OpenGateStats { persist_failures_total: 1, ..m.stats },
                ..m
            })
        },
    }
}

/// An attempt at `now` went on with the lock that is kept: it is blocked by the later of that and
/// the one in memory, or the record of a grant is to be written, from which the lock of the grant
/// can be read.
pub open spec fn goes_on_with(
    before: DurableOpenGate,
    after: DurableOpenGate,
    now: nat,
    kept: nat,
    r: OpenGateStep,
) -> bool {
    let m = before@;
    let lock = m.next_lock(now);
    let effective = greatest(m.lock_until_ms, kept);
    if now < effective {
        &&& after@ == m.loaded(now, kept)
        &&& r matches OpenGateStep::Decided(Ok(d))
        &&& blocks_until(d, effective)
    } else {
        match archived_record(1, lock as u64, now as u64, m.window_ms as u64) {
            Some(bytes) => {
                &&& after@ == m
                &&& r matches OpenGateStep::WriteRecord(p)
                &&& p.at() == now
                &&& p.spec_record() == bytes
                &&& kept_lock(Some(bytes)) == Some(lock)
            },
            None => {
                &&& after@ == m.failed(now)
                &&& r matches OpenGateStep::Decided(answer)
                &&& exists|text: String| #[trigger]
                    answers_failure(m, now, DurableOpenGateError::Encode(text), answer)
                        && encode_error_says(
                        1,
                        lock as u64,
                        now as u64,
                        m.window_ms as u64,
                        text,
                    )
            },
        }
    }
}

/// The answer to a whole attempt, with the lock in milliseconds.
pub enum GateAnswer {
    /// It is granted, with this lock.
    Allowed(nat),
    /// It is blocked, by this lock.
    Blocked(nat),
    /// The store failed it.
    Failed,
}

/// A whole attempt: its instant in milliseconds, whether a transaction can be had, the lock that
/// the store keeps, where it can be read, and whether the record of a grant can be made durable.
pub struct GateTry {
    /// The instant.
    pub now: nat,
    /// Whether a transaction can be had.
    pub transaction: bool,
    /// The lock that the store keeps.
    pub kept: Option<nat>,
    /// Whether a record can be made durable.
    pub durable: bool,
}

impl GateModel {
    /// The open gate after a failure of the store, and its answer.
    pub open spec fn failure(self, now: nat) -> (Self, GateAnswer) {
        (
            self.failed(now),
            if self.fail_closed {
                GateAnswer::Failed
            } else if self.blocks(now) {
                GateAnswer::Blocked(self.lock_until_ms)
            } else {
                GateAnswer::Allowed(self.next_lock(now))
            },
        )
    }

    /// The open gate after a whole attempt, and its answer. One that needs the record and can have
    /// no transaction is dropped: it fails, and is counted as an attempt alone.
    pub open spec fn attempt(self, t: GateTry) -> (Self, GateAnswer) {
        let m = self.attempted(t.now);
        if self.blocks(t.now) {
            (m, GateAnswer::Blocked(self.lock_until_ms))
        } else if !t.transaction {
            (m, GateAnswer::Failed)
        } else {
            match t.kept {
                None => m.failure(t.now),
                Some(kept) => {
                    let effective = greatest(m.lock_until_ms, kept);
                    if t.now < effective {
                        (m.loaded(t.now, kept), GateAnswer::Blocked(effective))
                    } else if t.durable {
                        (m.written(t.now), GateAnswer::Allowed(m.next_lock(t.now)))
                    } else {
                        m.failure(t.now)
                    }
                },
            }
        }
    }

    /// The open gate after the first `n` of a run of attempts.
    pub open spec fn after_tries(self, tries: Seq<GateTry>, n: nat) -> Self
        decreases n,
    {
        if n == 0 {
            self
        } else {
            self.after_tries(tries, (n - 1) as nat).attempt(tries[n - 1]).0
        }
    }

    /// Whether the attempt at `i` of a run is granted.
    pub open spec fn grants(self, tries: Seq<GateTry>, i: int) -> bool {
        self.after_tries(tries, i as nat).attempt(tries[i]).1 is Allowed
    }
}

/// Within the lock in memory an attempt is blocked whatever the store would say: neither a read nor
/// a write nor a failure is counted, and the lock stays as it is.
pub proof fn law_blocked_attempt_spares_the_store(m: GateModel, t: GateTry)
    requires
        m.blocks(t.now),
    ensures
        m.attempt(t).1 == GateAnswer::Blocked(m.lock_until_ms),
        m.attempt(t).0 == (GateModel {
            stats: OpenGateStats {
                attempts_total: one_more(m.stats.attempts_total),
                blocked_total: one_more(m.stats.blocked_total),
                ..m.stats
            },
            ..m
        }),
{
}

/// No attempt moves the lock back, and a grant sets it one window ahead.
pub proof fn law_lock_never_moves_back(m: GateModel, t: GateTry)
    requires
        t.now <= u64::MAX,
    ensures
        m.attempt(t).0.lock_until_ms >= m.lock_until_ms,
        m.attempt(t).0.window_ms == m.window_ms,
        m.attempt(t).0.fail_closed == m.fail_closed,
        m.attempt(t).1 matches GateAnswer::Allowed(lock) ==> lock == m.next_lock(t.now) && lock
            == m.attempt(t).0.lock_until_ms && t.now >= m.lock_until_ms,
{
}

/// At most one open is granted per window: of any two grants in a run of attempts, at whatever
/// instants and whatever the store answers, the second comes no earlier than one window after the
/// first.
pub proof fn law_one_grant_per_window(m: GateModel, tries: Seq<GateTry>, i: int, j: int)
    requires
        forall|k: int| 0 <= k < tries.len() ==> (#[trigger] tries[k]).now <= u64::MAX,
        0 <= i < j < tries.len(),
        m.grants(tries, i),
        m.grants(tries, j),
    ensures
        tries[j].now >= least(tries[i].now + m.window_ms, u64::MAX as nat),
{
    lemma_lock_over_tries(m, tries, i as nat, i as nat);
    law_lock_never_moves_back(m.after_tries(tries, i as nat), tries[i]);
    lemma_lock_over_tries(m, tries, (i + 1) as nat, j as nat);
    law_lock_never_moves_back(m.after_tries(tries, j as nat), tries[j]);
}

/// Over a run of attempts the lock never moves back, and the window stays.
proof fn lemma_lock_over_tries(m: GateModel, tries: Seq<GateTry>, from: nat, to: nat)
    requires
        forall|k: int| 0 <= k < tries.len() ==> (#[trigger] tries[k]).now <= u64::MAX,
        from <= to <= tries.len(),
    ensures
        m.after_tries(tries, to).lock_until_ms >= m.after_tries(tries, from).lock_until_ms,
        m.after_tries(tries, to).window_ms == m.window_ms,
    decreases to,
{
    if to > 0 {
        law_lock_never_moves_back(m.after_tries(tries, (to - 1) as nat), tries[to - 1]);
        if from < to {
            lemma_lock_over_tries(m, tries, from, (to - 1) as nat);
        } else {
            lemma_lock_over_tries(m, tries, (from - 1) as nat, (to - 1) as nat);
        }
    }
}

/// An attempt for which no transaction can be had, and which needs one, changes nothing but the
/// count of attempts.
pub proof fn law_dropped_attempt_is_only_counted(m: GateModel, t: GateTry)
    requires
        !m.blocks(t.now),
        !t.transaction,
    ensures
        m.attempt(t).1 is Failed,
        m.attempt(t).0 == (GateModel {
            stats: OpenGateStats {
                attempts_total: one_more(m.stats.attempts_total),
                ..m.stats
            },
            ..m
        }),
{
}

/// One step of an attempt, on a gate that other attempts may step on in between.
pub enum GateStep {
    /// The attempt is made.
    Ask {
        /// The instant of the attempt.
        now: nat,
    },
    /// The lock that the store keeps was read.
    Load {
        /// The instant of the attempt.
        now: nat,
        /// The lock.
        kept: nat,
    },
    /// The record was made durable.
    Write {
        /// The instant of the attempt.
        now: nat,
    },
    /// The store failed.
    Fail {
        /// The instant of the attempt.
        now: nat,
    },
}

impl GateStep {
    /// The instant of the attempt.
    pub open spec fn at(self) -> nat {
        match self {
            GateStep::Ask { now } => now,
            GateStep::Load { now, .. } => now,
            GateStep::Write { now } => now,
            GateStep::Fail { now } => now,
        }
    }
}

impl GateModel {
    /// The open gate after a step.
    pub open spec fn stepped(self, step: GateStep) -> Self {
        match step {
            GateStep::Ask { now } => self.attempted(now),
            GateStep::Load { now, kept } => self.loaded(now, kept),
            GateStep::Write { now } => self.written(now),
            GateStep::Fail { now } => self.failed(now),
        }
    }

    /// Whether a step is answered with a grant.
    pub open spec fn allows(self, step: GateStep) -> bool {
        match step {
            GateStep::Write { now } => !self.blocks(now),
            GateStep::Fail { now } => !self.fail_closed && !self.blocks(now),
            _ => false,
        }
    }

    /// The open gate after the first `n` of a run of steps.
    pub open spec fn after_steps(self, steps: Seq<GateStep>, n: nat) -> Self
        decreases n,
    {
        if n == 0 {
            self
        } else {
            self.after_steps(steps, (n - 1) as nat).stepped(steps[n - 1])
        }
    }

    /// Whether the step at `i` of a run is answered with a grant.
    pub open spec fn grants_step(self, steps: Seq<GateStep>, i: int) -> bool {
        self.after_steps(steps, i as nat).allows(steps[i])
    }
}

/// At most one open is granted per window however the steps of attempts interleave: of any two
/// grants in a run of steps, the second is to an attempt no earlier than one window after the
/// first.
pub proof fn law_one_grant_per_window_of_interleaved_attempts(
    m: GateModel,
    steps: Seq<GateStep>,
    i: int,
    j: int,
)
    requires
        forall|k: int| 0 <= k < steps.len() ==> (#[trigger] steps[k]).at() <= u64::MAX,
        0 <= i < j < steps.len(),
        m.grants_step(steps, i),
        m.grants_step(steps, j),
    ensures
        steps[j].at() >= least(steps[i].at() + m.window_ms, u64::MAX as nat),
{
    lemma_lock_over_steps(m, steps, i as nat, i as nat);
    lemma_lock_over_steps(m, steps, (i + 1) as nat, j as nat);
    assert(m.after_steps(steps, (i + 1) as nat) == m.after_steps(steps, i as nat).stepped(
        steps[i],
    ));
}

/// Over a run of steps the lock never moves back, and the window stays.
proof fn lemma_lock_over_steps(m: GateModel, steps: Seq<GateStep>, from: nat, to: nat)
    requires
        forall|k: int| 0 <= k < steps.len() ==> (#[trigger] steps[k]).at() <= u64::MAX,
        from <= to <= steps.len(),
    ensures
        m.after_steps(steps, to).lock_until_ms >= m.after_steps(steps, from).lock_until_ms,
        m.after_steps(steps, to).window_ms == m.window_ms,
    decreases to,
{
    if to > 0 {
        assert(steps[to - 1].at() <= u64::MAX);
        if from < to {
            lemma_lock_over_steps(m, steps, from, (to - 1) as nat);
        } else {
            lemma_lock_over_steps(m, steps, (from - 1) as nat, (to - 1) as nat);
        }
    }
}

/// What happens to a gate and its record: an attempt, or a restart that forgets the lock in memory.
/// Transactions, reads and writes may fail.
pub enum GateEvent {
    /// An attempt.
    Attempt {
        /// The instant.
        now: nat,
        /// Whether a transaction can be had.
        transaction: bool,
        /// Whether the record can be read.
        readable: bool,
        /// Whether a record can be made durable.
        durable: bool,
    },
    /// A restart.
    Restart {
        /// Whether the record can be read.
        readable: bool,
    },
}

/// A gate that fails closed, and the lock in the record that the store keeps.
pub struct GateSystem {
    /// The configuration.
    pub cfg: DurableOpenGateConfig,
    /// The open gate.
    pub gate: GateModel,
    /// The lock in the record.
    pub kept: nat,
}

impl GateSystem {
    /// The open gate is one of the configuration, which fails closed.
    pub open spec fn wf(self) -> bool {
        &&& self.cfg.fail_closed
        &&& self.gate.fail_closed
        &&& self.gate.window_ms == millis(nanos(self.cfg.window))
    }

    /// An attempt on the record as it is kept.
    pub open spec fn asked(
        self,
        now: nat,
        transaction: bool,
        readable: bool,
        durable: bool,
    ) -> GateTry {
        GateTry {
            now,
            transaction,
            kept: if readable {
                Some(self.kept)
            } else {
                None
            },
            durable,
        }
    }

    /// The system after an event. A grant is recorded before it is given; a restart starts with
    /// the lock in the record, or does not succeed.
    pub open spec fn after(self, e: GateEvent) -> Self {
        match e {
            GateEvent::Attempt { now, transaction, readable, durable } => {
                let (gate, answer) = self.gate.attempt(
                    self.asked(now, transaction, readable, durable),
                );
                GateSystem {
                    gate,
                    kept: match answer {
                        GateAnswer::Allowed(lock) => lock,
                        _ => self.kept,
                    },
                    ..self
                }
            },
            GateEvent::Restart { readable } => if readable {
                GateSystem { gate: GateModel::started(self.cfg, self.kept, true), ..self }
            } else {
                self
            },
        }
    }

    /// The system after the first `n` of a run of events.
    pub open spec fn after_events(self, events: Seq<GateEvent>, n: nat) -> Self
        decreases n,
    {
        if n == 0 {
            self
        } else {
            self.after_events(events, (n - 1) as nat).after(events[n - 1])
        }
    }

    /// The instant at which the event at `i` of a run is a grant, where it is one.
    pub open spec fn grant_at(self, events: Seq<GateEvent>, i: int) -> Option<nat> {
        let s = self.after_events(events, i as nat);
        match events[i] {
            GateEvent::Attempt { now, transaction, readable, durable } => if s.gate.attempt(
                s.asked(now, transaction, readable, durable),
            ).1 is Allowed {
                Some(now)
            } else {
                None
            },
            GateEvent::Restart { .. } => None,
        }
    }
}

/// At most one open is granted per window across restarts: of any two grants of a gate that fails
/// closed, in any run of attempts and restarts with a store that gives back what was made durable,
/// the second comes no earlier than one window after the first.
pub proof fn law_one_grant_per_window_across_restarts(
    s: GateSystem,
    events: Seq<GateEvent>,
    i: int,
    j: int,
)
    requires
        s.wf(),
        forall|k: int|
            0 <= k < events.len() ==> ((#[trigger] events[k]) matches GateEvent::Attempt {
                now,
                ..
            } ==> now <= u64::MAX),
        0 <= i < j < events.len(),
        s.grant_at(events, i) is Some,
        s.grant_at(events, j) is Some,
    ensures
        s.grant_at(events, j)->0 >= least(
            s.grant_at(events, i)->0 + s.gate.window_ms,
            u64::MAX as nat,
        ),
{
    lemma_kept_over_events(s, events, i as nat, i as nat);
    lemma_kept_over_events(s, events, (i + 1) as nat, j as nat);
    assert(s.after_events(events, (i + 1) as nat) == s.after_events(events, i as nat).after(
        events[i],
    ));
}

/// Over a run of events the lock in the record never moves back.
proof fn lemma_kept_over_events(s: GateSystem, events: Seq<GateEvent>, from: nat, to: nat)
    requires
        s.wf(),
        forall|k: int|
            0 <= k < events.len() ==> ((#[trigger] events[k]) matches GateEvent::Attempt {
                now,
                ..
            } ==> now <= u64::MAX),
        from <= to <= events.len(),
    ensures
        s.after_events(events, to).wf(),
        s.after_events(events, to).cfg == s.cfg,
        s.after_events(events, to).gate.window_ms == s.gate.window_ms,
        s.after_events(events, to).kept >= s.after_events(events, from).kept,
    decreases to,
{
    if to > 0 {
        let e = events[to - 1];
        if from < to {
            lemma_kept_over_events(s, events, from, (to - 1) as nat);
        } else {
            lemma_kept_over_events(s, events, (from - 1) as nat, (to - 1) as nat);
        }
        assert(e matches GateEvent::Attempt { now, .. } ==> now <= u64::MAX);
    }
}

/// A restart resumes the lock of a grant: a gate that is opened on the record of the grant blocks
/// as the open gate that gave it did, with the same lock.
pub proof fn law_restart_resumes_the_lock(
    cfg: DurableOpenGateConfig,
    lock: nat,
    stored: Seq<u8>,
    t: GateTry,
)
    ensures
        kept_lock(Some(stored)) == Some(lock) && t.now < lock ==> GateModel::started(
            cfg,
            kept_lock(Some(stored))->0,
            true,
        ).attempt(t).1 == GateAnswer::Blocked(lock),
{
}

/// A count goes up by one until it is the largest. Time is counted in whole milliseconds, rounded
/// down, up to the largest that a record holds.
pub proof fn law_counts_and_millis(count: u64, t: nat)
    ensures
        count < u64::MAX ==> one_more(count) == count + 1,
        count == u64::MAX ==> one_more(count) == u64::MAX,
        millis(t) <= u64::MAX,
        millis(t) < u64::MAX ==> millis(t) * 1_000_000 <= t < (millis(t) + 1) * 1_000_000,
        millis(t) == u64::MAX ==> t >= u64::MAX * 1_000_000,
{
}

/// A configuration is at fault exactly where its window is of length zero or its map is smaller
/// than a mebibyte.
pub proof fn law_fault_is_a_zero_window_or_a_small_map(cfg: DurableOpenGateConfig)
    ensures
        config_fault(cfg) is None <==> nanos(cfg.window) > 0 && cfg.lmdb_map_size_bytes
            >= 1_048_576,
{
}

/// The lock of a grant ends one window after it, held at the largest instant that a record holds.
pub proof fn law_lock_lasts_one_window(m: GateModel, now: nat)
    ensures
        now + m.window_ms <= u64::MAX ==> m.next_lock(now) == now + m.window_ms,
        now + m.window_ms > u64::MAX ==> m.next_lock(now) == u64::MAX,
        m.blocks(now) <==> now < m.lock_until_ms,
{
}

/// Once the lock is over, in memory and in the record, an open is granted where the record can be
/// made durable: with a lock of one window, one read and one write.
pub proof fn law_open_is_granted_once_the_lock_is_over(m: GateModel, t: GateTry, kept: nat)
    requires
        t.now >= m.lock_until_ms,
        t.transaction,
        t.kept == Some(kept),
        kept <= t.now,
        t.durable,
        t.now + m.window_ms <= u64::MAX,
    ensures
        m.attempt(t).1 == GateAnswer::Allowed(t.now + m.window_ms),
        m.attempt(t).0 == (GateModel {
            lock_until_ms: t.now + m.window_ms,
            stats: OpenGateStats {
                attempts_total: one_more(m.stats.attempts_total),
                allowed_total: one_more(m.stats.allowed_total),
                persist_reads_total: one_more(m.stats.persist_reads_total),
                persist_writes_total: one_more(m.stats.persist_writes_total),
                ..m.stats
            },
            ..m
        }),
{
}

/// A lock in the record that is later than the one in memory, and not over, blocks, and is kept in
/// memory from then on: one read, and no write.
pub proof fn law_lock_of_the_record_blocks(m: GateModel, t: GateTry, kept: nat)
    requires
        t.now >= m.lock_until_ms,
        t.transaction,
        t.kept == Some(kept),
        t.now < kept,
    ensures
        m.attempt(t).1 == GateAnswer::Blocked(kept),
        m.attempt(t).0 == (GateModel {
            lock_until_ms: kept,
            stats: OpenGateStats {
                attempts_total: one_more(m.stats.attempts_total),
                blocked_total: one_more(m.stats.blocked_total),
                persist_reads_total: one_more(m.stats.persist_reads_total),
                ..m.stats
            },
            ..m
        }),
{
}

/// Where the record cannot be read, or that of a grant not made durable, a gate that fails closed
/// grants nothing and keeps its lock; any other grants, with a lock of one window in memory. The
/// failure is counted, and neither a read nor a write is.
pub proof fn law_failure_denies_or_locks_in_memory(m: GateModel, t: GateTry)
    requires
        t.now >= m.lock_until_ms,
        t.transaction,
        t.kept matches Some(kept) ==> kept <= t.now && !t.durable,
        t.now + m.window_ms <= u64::MAX,
    ensures
        m.fail_closed ==> {
            &&& m.attempt(t).1 is Failed
            &&& m.attempt(t).0 == (GateModel {
                stats: OpenGateStats {
                    attempts_total: one_more(m.stats.attempts_total),
                    persist_failures_total: one_more(m.stats.persist_failures_total),
                    ..m.stats
                },
                ..m
            })
        },
        !m.fail_closed ==> {
            &&& m.attempt(t).1 == GateAnswer::Allowed(t.now + m.window_ms)
            &&& m.attempt(t).0 == (GateModel {
                lock_until_ms: t.now + m.window_ms,
                stats: OpenGateStats {
                    attempts_total: one_more(m.stats.attempts_total),
                    allowed_total: one_more(m.stats.allowed_total),
                    persist_failures_total: one_more(m.stats.persist_failures_total),
                    ..m.stats
                },
                ..m
            })
        },
{
}

/// A whole attempt is its steps one after the other: the attempt is made, the lock of the record is
/// loaded, and the record is written or the store fails.
pub proof fn law_attempt_is_its_steps(m: GateModel, t: GateTry)
    ensures
        ({
            let asked = m.stepped(GateStep::Ask { now: t.now });
            let after = m.attempt(t).0;
            if t.now < m.lock_until_ms || !t.transaction {
                after == asked
            } else {
                match t.kept {
                    None => after == asked.stepped(GateStep::Fail { now: t.now }),
                    Some(kept) => {
                        let loaded = asked.stepped(GateStep::Load { now: t.now, kept });
                        if t.now < kept {
                            after == loaded
                        } else {
                            &&& loaded == asked
                            &&& t.durable ==> after == loaded.stepped(
                                GateStep::Write { now: t.now },
                            )
                            &&& !t.durable ==> after == loaded.stepped(
                                GateStep::Fail { now: t.now },
                            )
                        }
                    },
                }
            }
        }),
{
}

/// A step of an attempt that was overtaken by a grant, whose lock blocks it, grants nothing and
/// keeps that lock: it counts as blocked, besides what it did with the store.
pub proof fn law_overtaken_attempt_is_blocked(m: GateModel, now: nat)
    requires
        now < m.lock_until_ms,
    ensures
        m.stepped(GateStep::Write { now }) == (GateModel {
            stats: OpenGateStats {
                blocked_total: one_more(m.stats.blocked_total),
                persist_reads_total: one_more(m.stats.persist_reads_total),
                persist_writes_total: one_more(m.stats.persist_writes_total),
                ..m.stats
            },
            ..m
        }),
        m.stepped(GateStep::Fail { now }) == (GateModel {
            stats: OpenGateStats {
                blocked_total: if m.fail_closed {
                    m.stats.blocked_total
                } else {
                    one_more(m.stats.blocked_total)
                },
                persist_failures_total: one_more(m.stats.persist_failures_total),
                ..m.stats
            },
            ..m
        }),
{
}

/// What a caller is told of a lock is its end, in time: a grant until then, or a block until then.
/// A failure of the store reaches the caller of a gate that fails closed, and no other.
pub proof fn law_caller_is_told_the_lock(
    m: GateModel,
    now: nat,
    err: DurableOpenGateError,
    r: Result<OpenGateDecision, DurableOpenGateError>,
)
    requires
        answers_failure(m, now, err, r),
    ensures
        m.fail_closed ==> r == Err::<OpenGateDecision, DurableOpenGateError>(err),
        !m.fail_closed && now < m.lock_until_ms ==> (r matches Ok(OpenGateDecision::Blocked {
            lock_until,
        }) && nanos(lock_until) == m.lock_until_ms * 1_000_000),
        !m.fail_closed && now >= m.lock_until_ms && now + m.window_ms <= u64::MAX ==> (
        r matches Ok(OpenGateDecision::Allowed { lock_until }) && nanos(lock_until) == (now
            + m.window_ms) * 1_000_000),
{
}

/// An attempt goes on from the later of the lock in memory and the one that is kept: it is blocked
/// until then where that is not over, and else writes a record that is read back as a lock of one
/// window. Without such a record it fails.
pub proof fn law_record_of_a_grant_holds_its_lock(
    before: DurableOpenGate,
    after: DurableOpenGate,
    now: nat,
    kept: nat,
    r: OpenGateStep,
)
    requires
        goes_on_with(before, after, now, kept, r),
        now + before@.window_ms <= u64::MAX,
    ensures
        now < before@.lock_until_ms || now < kept ==> {
            &&& r matches OpenGateStep::Decided(Ok(OpenGateDecision::Blocked { lock_until }))
            &&& nanos(lock_until) >= before@.lock_until_ms * 1_000_000
            &&& nanos(lock_until) >= kept * 1_000_000
            &&& nanos(lock_until) == before@.lock_until_ms * 1_000_000 || nanos(lock_until) == kept
                * 1_000_000
            &&& after@.lock_until_ms * 1_000_000 == nanos(lock_until)
        },
        now >= before@.lock_until_ms && now >= kept ==> {
            &&& r matches OpenGateStep::WriteRecord(p) ==> {
                &&& p.at() == now
                &&& kept_lock(Some(p.spec_record())) == Some(now + before@.window_ms)
                &&& after@ == before@
            }
            &&& r matches OpenGateStep::Decided(answer) ==> after@ == before@.failed(now) && exists|
                text: String,
            | #[trigger]
                answers_failure(before@, now, DurableOpenGateError::Encode(text), answer)
        },
{
}

/// A gate starts with the lock that was found, or without one; what it did to find it is counted,
/// and nothing else. One that fails closed does not start on a failure.
pub proof fn law_gate_starts_with_the_lock_found(
    cfg: DurableOpenGateConfig,
    read: bool,
    lock: Result<u64, DurableOpenGateError>,
    r: Result<DurableOpenGate, DurableOpenGateError>,
)
    requires
        opened(cfg, read, lock, r),
    ensures
        r matches Ok(gate) ==> {
            &&& gate.spec_config() == cfg
            &&& gate@.window_ms == millis(nanos(cfg.window))
            &&& gate@.fail_closed == cfg.fail_closed
            &&& gate@.lock_until_ms == match lock {
                Ok(ms) => ms as nat,
                Err(_) => 0,
            }
            &&& gate@.stats == (OpenGateStats {
                attempts_total: 0,
                allowed_total: 0,
                blocked_total: 0,
                persist_reads_total: if read {
                    1
                } else {
                    0
                },
                persist_writes_total: 0,
                persist_failures_total: if lock is Err {
                    1
                } else {
                    0
                },
            })
        },
        r is Err <==> lock is Err && cfg.fail_closed,
        r matches Err(e) ==> lock == Err::<u64, DurableOpenGateError>(e),
{
}

/// The later of the lock in memory and the one that is kept counts: one that is not over blocks and
/// stays in memory, with a read and a block counted; else nothing changes.
pub proof fn law_later_lock_counts(m: GateModel, now: nat, kept: nat)
    ensures
        ({
            let after = m.stepped(GateStep::Load { now, kept });
            if now < m.lock_until_ms || now < kept {
                after == (GateModel {
                    lock_until_ms: if kept > m.lock_until_ms {
                        kept
                    } else {
                        m.lock_until_ms
                    },
                    stats: OpenGateStats {
                        blocked_total: one_more(m.stats.blocked_total),
                        persist_reads_total: one_more(m.stats.persist_reads_total),
                        ..m.stats
                    },
                    ..m
                })
            } else {
                after == m
            }
        }),
{
}

/// The lock that is kept is the one in the record, whatever its other fields are; a store without a
/// record keeps none, and bytes that are no record keep nothing that can be told.
pub proof fn law_record_is_read_for_its_lock(stored: Option<Vec<u8>>)
    ensures
        stored is None ==> kept_lock(opt_view(stored)) == Some(0nat),
        stored matches Some(bytes) ==> match unarchived_record(bytes@) {
            Some((_, lock_until_ms, _, _)) => kept_lock(opt_view(stored)) == Some(
                lock_until_ms as nat,
            ),
            None => kept_lock(opt_view(stored)) is None,
        },
{
}

} // verus!
