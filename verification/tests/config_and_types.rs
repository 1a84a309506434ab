//! Configuration and costs.

use shared_rate_limiter::{Config, ConfigError, Cost};
use std::time::Duration;

#[test]
fn fixed_window_rejects_zero_window() {
    assert_eq!(
        Config::fixed_window(1, Duration::ZERO).unwrap_err(),
        ConfigError::ZeroWindow
    );
}

#[test]
fn cost_new_rejects_zero() {
    assert!(Cost::new(0).is_none());
    assert_eq!(Cost::new(1).unwrap().get(), 1);
}
