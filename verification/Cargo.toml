[package]
name = "shared_rate_limiter"
version = "0.1.0"
edition = "2021"
publish = false

[dependencies]
ahash = "=0.8.12"
heed = "=0.22.1"
kameo = "=0.22.2"
rkyv = "=0.8.18"
