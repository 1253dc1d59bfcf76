[package]
name = "sentry_tracing"
version = "0.1.0"
edition = "2021"
publish = false

[dependencies]
sentry-core = { version = "0.22", features = ["client"] }
sentry-backtrace = "0.22"
strip-ansi-escapes = "0.1"
tracing = "0.1"
tracing-subscriber = { version = "0.2", default-features = false, features = ["env-filter", "registry"] }
