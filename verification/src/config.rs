//! Limiter configuration types.

use crate::slow_start::SlowStart;
use crate::time;
use crate::time::nanos;
use std::time::Duration;
use vstd::prelude::*;

verus! {

/// Algorithm configuration.
#[derive(Debug, Clone, Copy, PartialEq, Eq)]
pub enum AlgorithmConfig {
    /// Fixed-window limiter.
    FixedWindow {
        /// Maximum capacity per window.
        max_per_window: u32,
        /// Fixed window size.
        window: Duration,
    },
    /// Token-bucket / credit-pool limiter (Deribit-like).
    ///
    /// - `capacity`: maximum credits in the pool.
    /// - `refill_per_sec`: credits refilled per second.
    TokenBucket {
        /// Maximum credits in the pool.
        capacity: u64,
        /// Credits refilled per second.
        refill_per_sec: u64,
    },
}

impl AlgorithmConfig {
    /// A fixed window has a positive length.
    pub open spec fn wf(self) -> bool {
        self matches AlgorithmConfig::FixedWindow { window, .. } ==> nanos(window) > 0
    }
}

/// What a configuration holds.
pub struct ConfigModel {
    /// The algorithm and its limits.
    pub algorithm: AlgorithmConfig,
    /// Bound on the number of tracked keys.
    pub max_keys: Option<usize>,
    /// What happens to a new key once the bound is reached.
    pub overflow_policy: OverflowPolicy,
    /// The slow-start ramp.
    pub slow_start: Option<SlowStart>,
}

/// Rate limiter configuration.
#[derive(Debug)]
pub struct Config {
    algorithm: AlgorithmConfig,
    max_keys: Option<usize>,
    overflow_policy: OverflowPolicy,
    slow_start: Option<SlowStart>,
}

/// Errors returned by [`Config`] constructors.
#[derive(Debug, Clone, Copy, PartialEq, Eq)]
pub enum ConfigError {
    /// A fixed-window limiter must have a non-zero window.
    ZeroWindow,
}

/// Behavior when the key cardinality bound is exceeded.
#[derive(Debug, Clone, Copy, PartialEq, Eq)]
pub enum OverflowPolicy {
    /// Deny creating new keys once the map is full.
    DenyNewKey,
    /// Evict the oldest key (FIFO) to make room for a new key.
    EvictOldestKey,
}

impl Clone for Config {
    fn clone(&self) -> (copy: Self)
        ensures
            copy@ == self@,
    {
        proof {
            use_type_invariant(self);
        }
        Config {
            algorithm: self.algorithm,
            max_keys: self.max_keys,
            overflow_policy: self.overflow_policy,
            slow_start: self.slow_start,
        }
    }
}

impl Config {
    /// What the configuration holds.
    pub closed spec fn view(self) -> ConfigModel {
        ConfigModel {
            algorithm: self.algorithm,
            max_keys: self.max_keys,
            overflow_policy: self.overflow_policy,
            slow_start: self.slow_start,
        }
    }

    /// A fixed window has a positive length.
    #[verifier::type_invariant]
    pub open spec fn wf(self) -> bool {
        self@.algorithm.wf()
    }

    /// Fixed-window limiter configuration.
    ///
    /// `max_keys` defaults to `None` (unbounded distinct keys).
    pub fn fixed_window(max_per_window: u32, window: Duration) -> (r: Result<Self, ConfigError>)
        ensures
            match r {
                Ok(cfg) => nanos(window) > 0 && cfg@ == (ConfigModel {
                    algorithm: AlgorithmConfig::FixedWindow { max_per_window, window },
                    max_keys: None,
                    overflow_policy: OverflowPolicy::DenyNewKey,
                    slow_start: None,
                }),
                Err(e) => nanos(window) == 0 && e == ConfigError::ZeroWindow,
            },
    {
        Self::fixed_window_bounded(max_per_window, window, None)
    }

    /// Fixed-window limiter configuration with an optional max distinct key bound.
    ///
    /// If `max_keys` is `Some(n)`, acquiring a previously unseen key when `n` keys already exist
    /// will be denied.
    pub fn fixed_window_bounded(
        max_per_window: u32,
        window: Duration,
        max_keys: Option<usize>,
    ) -> (r: Result<Self, ConfigError>)
        ensures
            match r {
                Ok(cfg) => nanos(window) > 0 && cfg@ == (ConfigModel {
                    algorithm: AlgorithmConfig::FixedWindow { max_per_window, window },
                    max_keys,
                    overflow_policy: OverflowPolicy::DenyNewKey,
                    slow_start: None,
                }),
                Err(e) => nanos(window) == 0 && e == ConfigError::ZeroWindow,
            },
    {
        if time::is_zero(window) {
            return Err(ConfigError::ZeroWindow);
        }
        Ok(
            Self {
                algorithm: AlgorithmConfig::FixedWindow { max_per_window, window },
                max_keys,
                overflow_policy: OverflowPolicy::DenyNewKey,
                slow_start: None,
            },
        )
    }

    /// Token-bucket / credit-pool limiter configuration.
    ///
    /// `max_keys` defaults to `None` (unbounded distinct keys). Use [`Config::with_max_keys`] to
    /// apply a bound.
    pub fn token_bucket(capacity: u64, refill_per_sec: u64) -> (cfg: Self)
        ensures
            cfg@ == (ConfigModel {
                algorithm: AlgorithmConfig::TokenBucket { capacity, refill_per_sec },
                max_keys: None,
                overflow_policy: OverflowPolicy::DenyNewKey,
                slow_start: None,
            }),
    {
        Self {
            algorithm: AlgorithmConfig::TokenBucket { capacity, refill_per_sec },
            max_keys: None,
            overflow_policy: OverflowPolicy::DenyNewKey,
            slow_start: None,
        }
    }

    /// Set the maximum number of distinct tracked keys.
    ///
    /// When set, acquiring a previously unseen key past this bound will be denied (or evict an
    /// existing key) depending on the configured [`OverflowPolicy`].
    pub fn with_max_keys(self, max_keys: Option<usize>) -> (cfg: Self)
        ensures
            cfg@ == (ConfigModel { max_keys, ..self@ }),
    {
        proof {
            use_type_invariant(&self);
        }
        Config {
            algorithm: self.algorithm,
            max_keys,
            overflow_policy: self.overflow_policy,
            slow_start: self.slow_start,
        }
    }

    /// Enable slow-start ramping.
    pub fn with_slow_start(self, slow_start: SlowStart) -> (cfg: Self)
        ensures
            cfg@ == (ConfigModel { slow_start: Some(slow_start), ..self@ }),
    {
        proof {
            use_type_invariant(&self);
        }
        Config {
            algorithm: self.algorithm,
            max_keys: self.max_keys,
            overflow_policy: self.overflow_policy,
            slow_start: Some(slow_start),
        }
    }

    /// Set the key overflow policy.
    pub fn with_overflow_policy(self, policy: OverflowPolicy) -> (cfg: Self)
        ensures
            cfg@ == (ConfigModel { overflow_policy: policy, ..self@ }),
    {
        proof {
            use_type_invariant(&self);
        }
        Config {
            algorithm: self.algorithm,
            max_keys: self.max_keys,
            overflow_policy: policy,
            slow_start: self.slow_start,
        }
    }

    /// Returns the fixed window size.
    ///
    /// This is only meaningful for [`AlgorithmConfig::FixedWindow`]. For token buckets it
    /// returns a zero duration.
    pub fn window(&self) -> (r: Duration)
        ensures
            match self@.algorithm {
                AlgorithmConfig::FixedWindow { window, .. } => r == window,
                AlgorithmConfig::TokenBucket { .. } => nanos(r) == 0,
            },
    {
        match self.algorithm {
            AlgorithmConfig::FixedWindow { window, .. } => window,
            AlgorithmConfig::TokenBucket { .. } => time::zero(),
        }
    }

    /// Returns the max capacity per window.
    ///
    /// This is only meaningful for [`AlgorithmConfig::FixedWindow`]. For token buckets it
    /// returns `0`.
    pub fn max_per_window(&self) -> (r: u32)
        ensures
            r == match self@.algorithm {
                AlgorithmConfig::FixedWindow { max_per_window, .. } => max_per_window,
                AlgorithmConfig::TokenBucket { .. } => 0,
            },
    {
        match self.algorithm {
            AlgorithmConfig::FixedWindow { max_per_window, .. } => max_per_window,
            AlgorithmConfig::TokenBucket { .. } => 0,
        }
    }

    /// Returns the configured algorithm.
    pub fn algorithm(&self) -> (r: AlgorithmConfig)
        ensures
            r == self@.algorithm,
            r.wf(),
    {
        proof {
            use_type_invariant(self);
        }
        self.algorithm
    }

    /// Optional bound on distinct tracked keys.
    pub fn max_keys(&self) -> (r: Option<usize>)
        ensures
            r == self@.max_keys,
    {
        self.max_keys
    }

    /// Overflow behavior when `max_keys` is exceeded.
    pub fn overflow_policy(&self) -> (r: OverflowPolicy)
        ensures
            r == self@.overflow_policy,
    {
        self.overflow_policy
    }

    /// Optional slow-start configuration.
    pub fn slow_start(&self) -> (r: Option<SlowStart>)
        ensures
            r == self@.slow_start,
    {
        self.slow_start
    }
}

} // verus!
