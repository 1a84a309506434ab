# shared_rate_limiter

A protocol-agnostic, synchronous rate limiter core, verified with Verus.

- Deterministic time model: the caller supplies `now: Duration`.
- Two-phase, linear permits: `try_acquire` reserves; `commit` / `refund` consumes the `Permit`.
- Fixed-window and token-bucket limits, an optional slow-start ramp, server feedback and backoff.
- Bounded key tracking with overflow policies, and deterministic runtime configuration updates.
- In-flight deduplication with deadlines (`InFlightTable`, `LimiterInFlight`).
- A durable gate that grants at most one open per window, across restarts.
- Observer hooks for denials and feedback.

## Layout

- `src/` is the verified library. Each module starts with a model of its state in whole
  nanoseconds (or milliseconds), and the contracts of its functions speak of that model. What holds
  over several calls stands in the proof functions whose names start with `law_`.
- `app/` is what surrounds it: the LMDB store of the durable gate, the kameo actor, and a table
  with a faster hasher.
- `tests/` run the library.

Nothing outside the following is taken on trust: `Duration::new` and `Duration::as_nanos`
(`src/time.rs`), `Instant` (`src/clock.rs`), `rkyv::to_bytes` and `rkyv::from_bytes`
(`src/durable_open_gate.rs`). Error types of other crates are carried as opaque values.
