//! Protocol-agnostic core rate limiter.
//!
//! This crate provides a fast, deterministic, **synchronous** (non-async) limiter with
//! two-phase `Permit` semantics:
//! - `try_acquire` reserves capacity and returns a `Permit` on success.
//! - The caller must later `commit` or `refund` the `Permit` (both consume it).
//!
//! Limits are a per-key **fixed window** or a **token bucket** (credit pool with a refill rate).
//! Time is an argument: the caller supplies `now: Duration`, and nothing on the hot path reads a
//! clock.
//!
//! Every function states in its contract what it returns and what it changes, over models in
//! whole nanoseconds, and what holds over several calls is proved of the models: the proof
//! functions whose names start with `law_`.
//!
//! # Example
//! ```rust
//! use std::time::Duration;
//!
//! use shared_rate_limiter::{Config, Cost, Outcome, RateLimiter};
//!
//! let cfg = Config::fixed_window(3, Duration::from_secs(10)).unwrap();
//! let mut limiter = RateLimiter::new(cfg);
//! let now = Duration::from_secs(0);
//!
//! let p = limiter.try_acquire(42, Cost::one(), now).unwrap();
//! limiter.commit(p, Outcome::Confirmed, now);
//! ```
//!
//! # Server feedback
//! Use [`Feedback`] and [`RateLimiter::apply_feedback`] to apply server backoff signals (HTTP 429
//! with Retry-After, Discord-style headers) without requiring a `Permit`. An adapter can implement
//! [`RateLimitFeedback`] for its own signals.
//!
//! # Runtime updates
//! [`RateLimiter::update_config`] applies updated limits deterministically, and tells where an
//! update changed what outstanding permits rest on.
//!
//! # In-flight deduplication
//! [`InFlightTable`] deduplicates request ids while an initial attempt is in flight, and
//! [`LimiterInFlight`] carries permits through completion or expiry.
//!
//! # Durable gate
//! [`durable_open_gate`] grants at most one open per window, across restarts.
//!
//! # Linear permits
//! Permits are **linear**: `commit` and `refund` take a `Permit` by value, so it cannot be used
//! twice.

/// Per-key accounting.
pub mod bucket;
/// Optional clock helpers (the core API takes `now` explicitly).
pub mod clock;
/// Limiter configuration types.
pub mod config;
/// Deadlines in the order in which they are due.
pub mod deadline_queue;
/// At most one open per window, across restarts.
pub mod durable_open_gate;
/// Protocol-agnostic representation of server rate-limit feedback.
pub mod feedback;
/// In-flight request deduplication table with deadline expiry.
pub mod in_flight;
/// The actor around a limiter.
pub mod kameo_actor;
/// The limiter.
pub mod limiter;
/// How a limiter answers, and what each call leaves behind.
pub mod limiter_answers;
/// What holds of a limiter over several calls.
pub mod limiter_laws;
/// Observer hook surface for deny/feedback events.
pub mod observer;
/// Slow-start ramp configuration and helpers.
pub mod slow_start;
/// The throughput that a limiter enforces.
pub mod throughput;
/// Arithmetic on durations.
pub mod time;
/// Token-bucket (credit pool) accounting.
pub mod token_bucket;
/// Public types used by the core API.
pub mod types;

pub use config::{AlgorithmConfig, Config, ConfigError, OverflowPolicy};
pub use feedback::{Feedback, FeedbackScope, RateLimitFeedback};
pub use in_flight::{
    BeginResult, InFlightTable, LimiterInFlight, LimiterInFlightExpiryPolicy, PayloadMismatch,
};
pub use limiter::{RateLimiter, UpdateConfigError, UpdateConfigErrorKind};
pub use observer::{DenyEvent, DenyReason, FeedbackEvent, LimiterObserver};
pub use slow_start::SlowStart;
pub use types::{Cost, Deny, Key, Outcome, Permit, Scope};
