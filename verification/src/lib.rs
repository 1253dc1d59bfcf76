//! Span aggregation and field extraction for reporting `tracing`-style
//! instrumentation to Sentry.
//!
//! The crate turns events into breadcrumbs and issue events, and turns a
//! forest of timed spans into transactions: a span that closes is attached to
//! its nearest tracked ancestor, and a span without one is handed out as the
//! root of its trace together with every descendant that closed before it.

pub mod ansi;
pub mod completeness;
pub mod converters;
pub mod dispatch;
pub mod fields;
pub mod integration;
pub mod laws;
pub mod layer;
pub mod level;
pub mod outside;
pub mod protocol;
pub mod text;
pub mod value;

pub use ansi::strip_ansi_codes_from_string;
pub use converters::{breadcrumb_from_event, convert_tracing_event};
pub use dispatch::SentryLayer;
pub use fields::FieldVisitorConfig;
pub use integration::{TracingIntegration, TracingIntegrationOptions};
pub use protocol::Timings;
