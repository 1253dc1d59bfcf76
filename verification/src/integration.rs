//! The options of the integration, and what it asks of the reporting
//! client.

use vstd::prelude::*;
use crate::text::opt_text;

verus! {

/// The filters of the three concerns, as filter directives.
#[derive(Debug)]
pub struct TracingIntegrationOptions {
    /// Events matching this filter are reported as issue events.
    pub event_filter: String,
    /// Events matching this filter are recorded as breadcrumbs.
    pub breadcrumb_filter: String,
    /// Spans matching this filter are tracked and reported in
    /// transactions. `None` stands for the filter's own default.
    pub span_filter: Option<String>,
}

impl Default for TracingIntegrationOptions {
    /// Errors are reported as issue events, everything from `info` up is
    /// recorded as a breadcrumb, and spans go by the default filter.
    fn default() -> (options: TracingIntegrationOptions)
        ensures
            options.event_filter@ == "error"@,
            options.breadcrumb_filter@ == "info"@,
            opt_text(options.span_filter) == None::<Seq<char>>,
    {
        TracingIntegrationOptions {
            event_filter: String::from_str("error"),
            breadcrumb_filter: String::from_str("info"),
            span_filter: None,
        }
    }
}

/// The part of the client's options that the integration adjusts.
#[derive(Debug)]
pub struct ClientSetup {
    /// Module prefixes that do not count as the application's own frames.
    pub in_app_exclude: Vec<&'static str>,
    /// Functions at which a captured stack is cut.
    pub extra_border_frames: Vec<&'static str>,
}

/// An integration that captures events and spans of the instrumentation.
#[derive(Clone, Copy, Debug, Default)]
pub struct TracingIntegration;

impl TracingIntegration {
    /// The name of the integration.
    pub fn name(&self) -> (name: &'static str)
        ensures
            name == "tracing",
    {
        "tracing"
    }

    /// Keeps the frames of the instrumentation itself out of reported
    /// stacks: its modules are added to the excluded prefixes and its
    /// dispatch functions to the border frames.
    pub fn setup(&self, cfg: &mut ClientSetup)
        ensures
            final(cfg).in_app_exclude@ == old(cfg).in_app_exclude@.push("tracing_core::").push(
                "tracing_log::",
            ).push("log::"),
            final(cfg).extra_border_frames@ == old(cfg).extra_border_frames@.push(
                "tracing_core::event::Event::dispatch",
            ).push("log::__private_api_log"),
    {
        cfg.in_app_exclude.push("tracing_core::");
        cfg.in_app_exclude.push("tracing_log::");
        cfg.in_app_exclude.push("log::");
        cfg.extra_border_frames.push("tracing_core::event::Event::dispatch");
        cfg.extra_border_frames.push("log::__private_api_log");
    }
}

} // verus!
