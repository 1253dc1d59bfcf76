use sentry_tracing::converters::EventData;
use sentry_tracing::dispatch::{Admission, EventParent, Interest};
use sentry_tracing::fields::{Attribute, AttributeValue, ExceptionRecord};
use sentry_tracing::integration::ClientSetup;
use sentry_tracing::level::{pick_more_verbose, Level, LevelFilter, Severity};
use sentry_tracing::protocol::{SpanStatus, TraceContext};
use sentry_tracing::{SentryLayer, TracingIntegration, TracingIntegrationOptions};
use std::time::{Duration, SystemTime};

const ALL: Admission = Admission { span: true, event: true, breadcrumb: true };
const NONE: Admission = Admission { span: false, event: false, breadcrumb: false };
const SPANS: Admission = Admission { span: true, event: false, breadcrumb: false };
const EVENTS: Admission = Admission { span: false, event: true, breadcrumb: false };
const CRUMBS: Admission = Admission { span: false, event: false, breadcrumb: true };

fn at(seconds: u64) -> SystemTime {
    SystemTime::UNIX_EPOCH + Duration::from_secs(seconds)
}

fn error_event() -> EventData {
    EventData {
        level: Level::Error,
        target: "app".to_string(),
        name: "event src/db.rs:7".to_string(),
        module: Some("app::db".to_string()),
        attributes: vec![
            Attribute {
                name: "error".to_string(),
                value: AttributeValue::Error(vec![ExceptionRecord {
                    ty: "Timeout".to_string(),
                    value: Some("query timed out".to_string()),
                    module: None,
                    stacktrace: None,
                }]),
            },
            Attribute { name: "table".to_string(), value: AttributeValue::Str("users".to_string()) },
        ],
    }
}

#[test]
fn the_default_options_name_the_default_filters() {
    let options = TracingIntegrationOptions::default();
    assert_eq!(options.event_filter, "error");
    assert_eq!(options.breadcrumb_filter, "info");
    assert!(options.span_filter.is_none());
}

#[test]
fn a_layer_keeps_its_options() {
    let layer = SentryLayer::new(TracingIntegrationOptions {
        event_filter: "warn".to_string(),
        breadcrumb_filter: "debug".to_string(),
        span_filter: Some("app=trace".to_string()),
    });
    assert_eq!(layer.filters().event_filter, "warn");
    assert_eq!(layer.filters().breadcrumb_filter, "debug");
    assert_eq!(layer.filters().span_filter.as_deref(), Some("app=trace"));
    let default = SentryLayer::default();
    assert_eq!(default.filters().event_filter, "error");
    assert!(!default.span_layer().is_tracked(1));
}

#[test]
fn one_always_makes_the_interest_always() {
    let layer = SentryLayer::default();
    assert_eq!(
        layer.register_callsite(Interest::Always, Interest::Never, Interest::Never),
        Interest::Always
    );
    assert_eq!(
        layer.register_callsite(Interest::Never, Interest::Always, Interest::Sometimes),
        Interest::Always
    );
    assert_eq!(
        layer.register_callsite(Interest::Sometimes, Interest::Sometimes, Interest::Always),
        Interest::Always
    );
}

#[test]
fn all_never_makes_the_interest_never() {
    let layer = SentryLayer::default();
    assert_eq!(
        layer.register_callsite(Interest::Never, Interest::Never, Interest::Never),
        Interest::Never
    );
}

#[test]
fn anything_else_makes_the_interest_sometimes() {
    let layer = SentryLayer::default();
    assert_eq!(
        layer.register_callsite(Interest::Sometimes, Interest::Never, Interest::Never),
        Interest::Sometimes
    );
    assert_eq!(
        layer.register_callsite(Interest::Never, Interest::Never, Interest::Sometimes),
        Interest::Sometimes
    );
    assert_eq!(
        layer.register_callsite(Interest::Sometimes, Interest::Sometimes, Interest::Sometimes),
        Interest::Sometimes
    );
}

#[test]
fn the_layer_is_enabled_where_any_filter_admits() {
    let layer = SentryLayer::default();
    assert!(!layer.enabled(NONE));
    assert!(layer.enabled(SPANS));
    assert!(layer.enabled(EVENTS));
    assert!(layer.enabled(CRUMBS));
    assert!(layer.enabled(ALL));
}

#[test]
fn the_level_hint_is_the_most_verbose_of_the_three() {
    let layer = SentryLayer::default();
    assert_eq!(
        layer.max_level_hint(
            Some(LevelFilter::Error),
            Some(LevelFilter::Info),
            Some(LevelFilter::Warn)
        ),
        Some(LevelFilter::Info)
    );
    assert_eq!(
        layer.max_level_hint(
            Some(LevelFilter::Trace),
            Some(LevelFilter::Off),
            Some(LevelFilter::Debug)
        ),
        Some(LevelFilter::Trace)
    );
    assert_eq!(
        layer.max_level_hint(Some(LevelFilter::Off), Some(LevelFilter::Off), Some(LevelFilter::Off)),
        Some(LevelFilter::Off)
    );
    assert_eq!(layer.max_level_hint(None, Some(LevelFilter::Info), Some(LevelFilter::Warn)), None);
    assert_eq!(layer.max_level_hint(Some(LevelFilter::Info), Some(LevelFilter::Warn), None), None);
    assert_eq!(pick_more_verbose(LevelFilter::Warn, LevelFilter::Error), LevelFilter::Warn);
    assert_eq!(LevelFilter::Debug.verbosity(), 4);
}

#[test]
fn span_hooks_are_forwarded_only_where_the_span_filter_admits() {
    let mut layer = SentryLayer::default();
    layer.new_span_at(EVENTS, 1, &vec![], "request", vec![], 100, 900, 0, at(0));
    assert!(!layer.span_layer().is_tracked(1));
    layer.new_span_at(SPANS, 1, &vec![], "request", vec![], 100, 900, 0, at(0));
    assert!(layer.span_layer().is_tracked(1));
    layer.on_enter_at(CRUMBS, 1, 10);
    assert_eq!(layer.span_layer().busy_idle(1), Some((0, 0)));
    layer.on_enter_at(SPANS, 1, 10);
    assert_eq!(layer.span_layer().busy_idle(1), Some((0, 10)));
    layer.on_exit_at(NONE, 1, 30, at(1));
    assert_eq!(layer.span_layer().busy_idle(1), Some((0, 10)));
    layer.on_exit_at(ALL, 1, 30, at(1));
    assert_eq!(layer.span_layer().busy_idle(1), Some((20, 10)));
    assert!(layer.on_close_at(EVENTS, 1, &vec![], 40).is_none());
    assert!(layer.span_layer().is_tracked(1));
    let transaction = layer.on_close_at(SPANS, 1, &vec![], 40).expect("the root closes");
    assert_eq!(transaction.event_id, 900);
    assert!(!layer.span_layer().is_tracked(1));
}

#[test]
fn span_hooks_that_read_the_clock_are_gated_too() {
    let mut layer = SentryLayer::default();
    layer.new_span(NONE, 1, &vec![], "request", vec![]);
    assert!(!layer.span_layer().is_tracked(1));
    layer.new_span(ALL, 1, &vec![], "request", vec![]);
    assert!(layer.span_layer().is_tracked(1));
    layer.on_enter(ALL, 1);
    layer.on_exit(ALL, 1);
    assert!(layer.on_close(NONE, 1, &vec![]).is_none());
    assert!(layer.span_layer().is_tracked(1));
    assert!(layer.on_close(ALL, 1, &vec![]).is_some());
    assert!(!layer.span_layer().is_tracked(1));
}

#[test]
fn an_event_is_converted_for_each_concern_that_admits_it() {
    let layer = SentryLayer::default();
    let nothing = layer.on_event(SPANS, error_event(), None);
    assert!(nothing.issue.is_none());
    assert!(nothing.breadcrumb.is_none());
    let crumb = layer.on_event(CRUMBS, error_event(), None);
    assert!(crumb.issue.is_none());
    let breadcrumb = crumb.breadcrumb.expect("a breadcrumb");
    assert_eq!(breadcrumb.level, Severity::Error);
    assert_eq!(breadcrumb.category.as_deref(), Some("app"));
    assert_eq!(breadcrumb.message.as_deref(), Some("table=users"));
    let report = layer.on_event(EVENTS, error_event(), None);
    assert!(report.breadcrumb.is_none());
    let issue = report.issue.expect("an issue event");
    assert_eq!(issue.exception.len(), 1);
    assert_eq!(issue.exception[0].ty, "Timeout");
    let both = layer.on_event(ALL, error_event(), None);
    assert!(both.issue.is_some());
    let breadcrumb = both.breadcrumb.expect("a breadcrumb");
    assert_eq!(breadcrumb.data.len(), 1);
    assert_eq!(both.issue.expect("an issue event").extra.len(), 1);
}

#[test]
fn an_event_without_error_is_reported_under_its_own_name() {
    let layer = SentryLayer::default();
    let event = EventData {
        level: Level::Error,
        target: "app".to_string(),
        name: "event src/db.rs:9".to_string(),
        module: None,
        attributes: vec![],
    };
    let issue = layer.on_event(EVENTS, event, None).issue.expect("an issue event");
    assert_eq!(issue.exception.len(), 1);
    assert_eq!(issue.exception[0].ty, "event src/db.rs:9");
    assert!(issue.exception[0].value.is_none());
}

#[test]
fn an_error_inside_a_child_span_is_reported_with_the_childs_trace() {
    let mut layer = SentryLayer::default();
    layer.new_span_at(ALL, 1, &vec![], "request", vec![], 100, 900, 0, at(0));
    layer.new_span_at(ALL, 2, &vec![1], "query", vec![], 200, 901, 1, at(1));
    let parent = EventParent { id: 2, ancestor_names: vec!["request".to_string()] };
    let silent = layer.on_event(SPANS, error_event(), Some(parent));
    assert!(silent.issue.is_none());
    let parent = EventParent { id: 2, ancestor_names: vec!["request".to_string()] };
    let output = layer.on_event(ALL, error_event(), Some(parent));
    let issue = output.issue.expect("the event filter admits the event");
    assert_eq!(issue.exception.len(), 1);
    assert_eq!(issue.exception[0].ty, "Timeout");
    assert_eq!(issue.exception[0].value.as_deref(), Some("query timed out"));
    assert_eq!(issue.trace_context, Some(TraceContext { span_id: 200, trace_id: 900 }));
    assert_eq!(issue.transaction.as_deref(), Some("request"));
    assert!(layer.on_close_at(ALL, 2, &vec![1], 5).is_none());
    let transaction = layer.on_close_at(ALL, 1, &vec![], 6).expect("one transaction");
    assert_eq!(transaction.event_id, 900);
    assert_eq!(transaction.root.trace_id, 900);
    assert_eq!(transaction.spans.len(), 1);
    assert_eq!(transaction.spans[0].span_id, 200);
    assert_eq!(transaction.spans[0].trace_id, 900);
    assert_eq!(transaction.spans[0].status, SpanStatus::Okay);
    assert!(layer.on_close_at(ALL, 1, &vec![], 7).is_none());
}

#[test]
fn an_event_in_an_untracked_span_has_no_trace_context() {
    let layer = SentryLayer::default();
    let parent = EventParent { id: 5, ancestor_names: vec!["request".to_string()] };
    let issue = layer.on_event(EVENTS, error_event(), Some(parent)).issue.expect("an issue event");
    assert!(issue.trace_context.is_none());
    assert!(issue.transaction.is_none());
}

#[test]
fn the_integration_is_named_tracing() {
    assert_eq!(TracingIntegration.name(), "tracing");
    assert_eq!(TracingIntegration::default().name(), "tracing");
}

#[test]
fn setup_excludes_the_frames_of_the_instrumentation() {
    let mut setup = ClientSetup { in_app_exclude: vec!["std::"], extra_border_frames: vec![] };
    TracingIntegration.setup(&mut setup);
    assert_eq!(setup.in_app_exclude, vec!["std::", "tracing_core::", "tracing_log::", "log::"]);
    assert_eq!(
        setup.extra_border_frames,
        vec!["tracing_core::event::Event::dispatch", "log::__private_api_log"]
    );
}
