use sentry_tracing::converters::{
    breadcrumb_from_record, default_convert_breadcrumb, default_convert_event,
    default_convert_transaction, default_new_span, default_on_close, issue_event_from_record,
    span_from_attributes, EventData, EventSpan,
};
use sentry_tracing::fields::{
    extract_fields, Attribute, AttributeValue, ExceptionRecord, FieldVisitorConfig,
};
use sentry_tracing::level::{convert_tracing_level, Level, Severity};
use sentry_tracing::protocol::{SpanStatus, Timings, TraceContext};
use sentry_tracing::value::FieldValue;
use sentry_tracing::{breadcrumb_from_event, convert_tracing_event};
use std::time::{Duration, SystemTime};

fn attribute(name: &str, value: AttributeValue) -> Attribute {
    Attribute { name: name.to_string(), value }
}

fn text(value: &str) -> AttributeValue {
    AttributeValue::Str(value.to_string())
}

fn event(level: Level, target: &str, attributes: Vec<Attribute>) -> EventData {
    EventData {
        level,
        target: target.to_string(),
        name: "event src/main.rs:10".to_string(),
        module: Some("app::jobs".to_string()),
        attributes,
    }
}

fn plain() -> FieldVisitorConfig<'static> {
    FieldVisitorConfig { strip_ansi_escapes: false, event_type_field: None }
}

fn at(seconds: u64) -> SystemTime {
    SystemTime::UNIX_EPOCH + Duration::from_secs(seconds)
}

#[test]
fn levels_map_to_severities() {
    assert_eq!(convert_tracing_level(Level::Error), Severity::Error);
    assert_eq!(convert_tracing_level(Level::Warn), Severity::Warning);
    assert_eq!(convert_tracing_level(Level::Info), Severity::Info);
    assert_eq!(convert_tracing_level(Level::Debug), Severity::Debug);
    assert_eq!(convert_tracing_level(Level::Trace), Severity::Debug);
}

#[test]
fn log_target_overrides_the_breadcrumb_category() {
    let breadcrumb = breadcrumb_from_event(
        event(Level::Info, "app", vec![attribute("log.target", text("db"))]),
        plain(),
    );
    assert_eq!(breadcrumb.category.as_deref(), Some("db"));
}

#[test]
fn a_breadcrumb_keeps_the_declared_category_without_override() {
    let breadcrumb = breadcrumb_from_event(
        event(Level::Warn, "app", vec![attribute("user", text("ada"))]),
        plain(),
    );
    assert_eq!(breadcrumb.ty, "log");
    assert_eq!(breadcrumb.level, Severity::Warning);
    assert_eq!(breadcrumb.category.as_deref(), Some("app"));
    assert_eq!(breadcrumb.message.as_deref(), Some("user=ada"));
    assert!(matches!(breadcrumb.data.get("user"), Some(FieldValue::Str(s)) if s == "ada"));
}

#[test]
fn a_breadcrumb_message_is_the_promoted_label() {
    let breadcrumb = breadcrumb_from_event(
        event(
            Level::Info,
            "app",
            vec![attribute("message", text("started")), attribute("port", AttributeValue::UInt(80))],
        ),
        FieldVisitorConfig { strip_ansi_escapes: false, event_type_field: Some("message") },
    );
    assert_eq!(breadcrumb.message.as_deref(), Some("started"));
    assert_eq!(breadcrumb.data.len(), 1);
    assert!(!breadcrumb.data.contains_key("message"));
}

#[test]
fn a_breadcrumb_message_joins_the_display_lines() {
    let breadcrumb = breadcrumb_from_event(
        event(
            Level::Debug,
            "app",
            vec![
                attribute("a", AttributeValue::Int(1)),
                attribute("b", AttributeValue::Bool(false)),
                attribute("c", text("x y")),
            ],
        ),
        plain(),
    );
    assert_eq!(breadcrumb.message.as_deref(), Some("a=1 b=false c=x y"));
    assert_eq!(breadcrumb.level, Severity::Debug);
}

#[test]
fn a_breadcrumb_without_label_or_lines_has_no_message() {
    let breadcrumb = breadcrumb_from_event(event(Level::Trace, "app", vec![]), plain());
    assert!(breadcrumb.message.is_none());
    assert_eq!(breadcrumb.level, Severity::Debug);
    assert_eq!(breadcrumb.data.len(), 0);
}

#[test]
fn the_default_breadcrumb_strips_escape_sequences_and_promotes_nothing() {
    let breadcrumb = default_convert_breadcrumb(event(
        Level::Info,
        "app",
        vec![attribute("message", text("\x1b[32mup\x1b[0m"))],
    ));
    assert_eq!(breadcrumb.message.as_deref(), Some("message=up"));
    assert!(matches!(breadcrumb.data.get("message"), Some(FieldValue::Str(s)) if s == "up"));
}

#[test]
fn a_breadcrumb_can_be_built_from_a_record() {
    let record = extract_fields(vec![attribute("log.target", text("net"))], plain());
    let breadcrumb = breadcrumb_from_record(Level::Error, "app".to_string(), &record);
    assert_eq!(breadcrumb.category.as_deref(), Some("net"));
    assert_eq!(breadcrumb.level, Severity::Error);
    assert_eq!(record.structured.len(), breadcrumb.data.len());
}

#[test]
fn an_issue_event_without_errors_gets_a_synthesized_exception() {
    let issue = convert_tracing_event(
        event(
            Level::Error,
            "app",
            vec![attribute("message", text("went wrong")), attribute("code", AttributeValue::Int(3))],
        ),
        None,
        false,
        FieldVisitorConfig { strip_ansi_escapes: false, event_type_field: Some("message") },
    );
    assert_eq!(issue.logger.as_deref(), Some("sentry-tracing"));
    assert_eq!(issue.level, Severity::Error);
    assert_eq!(issue.message.as_deref(), Some("went wrong"));
    assert_eq!(issue.exception.len(), 1);
    assert_eq!(issue.exception[0].ty, "event src/main.rs:10");
    assert_eq!(issue.exception[0].value.as_deref(), Some("went wrong"));
    assert_eq!(issue.exception[0].module.as_deref(), Some("app::jobs"));
    assert!(issue.exception[0].stacktrace.is_none());
    assert!(matches!(issue.extra.get("code"), Some(FieldValue::Int(3))));
    assert!(!issue.extra.contains_key("message"));
    assert!(issue.trace_context.is_none());
    assert!(issue.transaction.is_none());
}

#[test]
fn an_issue_event_with_errors_reports_exactly_those() {
    let issue = convert_tracing_event(
        event(
            Level::Error,
            "app",
            vec![attribute(
                "error",
                AttributeValue::Error(vec![
                    ExceptionRecord {
                        ty: "Os".to_string(),
                        value: Some("no such file".to_string()),
                        module: None,
                        stacktrace: None,
                    },
                    ExceptionRecord {
                        ty: "ConfigError".to_string(),
                        value: Some("cannot read config".to_string()),
                        module: None,
                        stacktrace: None,
                    },
                ]),
            )],
        ),
        None,
        true,
        plain(),
    );
    assert_eq!(issue.exception.len(), 2);
    assert_eq!(issue.exception[0].ty, "Os");
    assert_eq!(issue.exception[1].ty, "ConfigError");
    assert!(issue.exception[0].stacktrace.is_none());
    assert!(issue.exception[1].stacktrace.is_none());
    assert!(issue.message.is_none());
    assert_eq!(issue.extra.len(), 0);
}

#[test]
fn no_stack_is_attached_unless_asked_for() {
    let issue = convert_tracing_event(event(Level::Error, "app", vec![]), None, false, plain());
    assert_eq!(issue.exception.len(), 1);
    assert!(issue.exception[0].stacktrace.is_none());
    assert!(issue.exception[0].value.is_none());
}

#[test]
fn the_default_issue_event_has_one_exception_named_after_the_event() {
    let issue = default_convert_event(event(Level::Warn, "app", vec![]), None);
    assert_eq!(issue.level, Severity::Warning);
    assert_eq!(issue.exception.len(), 1);
    assert_eq!(issue.exception[0].ty, "event src/main.rs:10");
}

#[test]
fn an_event_in_a_tracked_span_carries_its_trace() {
    let span = EventSpan {
        trace: Some(TraceContext { span_id: 7, trace_id: 9 }),
        ancestor_names: vec!["inner".to_string(), "request".to_string()],
    };
    let issue = convert_tracing_event(event(Level::Error, "app", vec![]), Some(span), false, plain());
    assert_eq!(issue.trace_context, Some(TraceContext { span_id: 7, trace_id: 9 }));
    assert_eq!(issue.transaction.as_deref(), Some("request"));
}

#[test]
fn an_event_in_an_outermost_span_names_no_transaction() {
    let span =
        EventSpan { trace: Some(TraceContext { span_id: 7, trace_id: 9 }), ancestor_names: vec![] };
    let issue = convert_tracing_event(event(Level::Error, "app", vec![]), Some(span), false, plain());
    assert_eq!(issue.trace_context, Some(TraceContext { span_id: 7, trace_id: 9 }));
    assert!(issue.transaction.is_none());
}

#[test]
fn an_event_in_an_untracked_span_carries_no_trace() {
    let span = EventSpan { trace: None, ancestor_names: vec!["request".to_string()] };
    let issue = convert_tracing_event(event(Level::Error, "app", vec![]), Some(span), false, plain());
    assert!(issue.trace_context.is_none());
    assert!(issue.transaction.is_none());
}

#[test]
fn an_issue_event_can_be_built_from_a_record() {
    let record = extract_fields(vec![attribute("n", AttributeValue::Int(1))], plain());
    let issue =
        issue_event_from_record(Level::Info, "named".to_string(), None, record, None, None);
    assert_eq!(issue.level, Severity::Info);
    assert_eq!(issue.exception.len(), 1);
    assert_eq!(issue.exception[0].ty, "named");
    assert!(issue.exception[0].module.is_none());
    assert!(matches!(issue.extra.get("n"), Some(FieldValue::Int(1))));
}

#[test]
fn a_new_span_is_summarized_from_its_attributes() {
    let span = span_from_attributes(
        "request",
        vec![attribute("path", text("/\x1b[1mhome\x1b[0m")), attribute("retries", AttributeValue::UInt(2))],
        11,
        22,
        at(100),
    );
    assert_eq!(span.span_id, 11);
    assert_eq!(span.trace_id, 22);
    assert!(span.parent_span_id.is_none());
    assert_eq!(span.op.as_deref(), Some("request"));
    assert!(span.description.is_none());
    assert_eq!(span.start_timestamp, at(100));
    assert!(span.timestamp.is_none());
    assert_eq!(span.status, SpanStatus::Okay);
    assert_eq!(span.status.as_str(), "ok");
    assert!(matches!(span.data.get("path"), Some(FieldValue::Str(s)) if s == "/home"));
    assert!(matches!(span.data.get("retries"), Some(FieldValue::UInt(2))));
}

#[test]
fn a_span_with_an_error_attribute_has_failed() {
    let span = span_from_attributes(
        "request",
        vec![attribute(
            "error",
            AttributeValue::Error(vec![ExceptionRecord {
                ty: "E".to_string(),
                value: None,
                module: None,
                stacktrace: None,
            }]),
        )],
        1,
        2,
        at(0),
    );
    assert_eq!(span.status, SpanStatus::InternalError);
    assert_eq!(span.status.as_str(), "internal_error");
    assert_eq!(span.data.len(), 0);
}

#[test]
fn a_new_span_joins_the_trace_of_its_parent() {
    let parent = span_from_attributes("outer", vec![], 5, 77, at(1));
    let child = default_new_span("inner", Some(&parent), vec![]);
    assert_eq!(child.trace_id, 77);
    assert_eq!(child.op.as_deref(), Some("inner"));
    assert!(child.parent_span_id.is_none());
}

#[test]
fn new_spans_without_parent_get_identifiers_of_their_own() {
    let first = default_new_span("a", None, vec![]);
    let second = default_new_span("b", None, vec![]);
    assert_ne!(first.span_id, second.span_id);
    assert_ne!(first.trace_id, second.trace_id);
    assert_ne!(first.span_id, first.trace_id);
}

#[test]
fn closing_writes_the_timings_into_the_summary() {
    let mut span = span_from_attributes("job", vec![attribute("busy", AttributeValue::Int(-1))], 1, 2, at(5));
    let timings = Timings { start_time: at(5), end_time: at(9), busy: 3_000, idle: 1_000 };
    default_on_close(&mut span, timings);
    assert!(matches!(span.data.get("busy"), Some(FieldValue::UInt(3_000))));
    assert!(matches!(span.data.get("idle"), Some(FieldValue::UInt(1_000))));
    assert_eq!(span.data.len(), 2);
    assert_eq!(span.timestamp, Some(at(9)));
    assert_eq!(span.start_timestamp, at(5));
}

#[test]
fn a_transaction_is_assembled_from_the_root_and_its_spans() {
    let root = span_from_attributes("request", vec![], 1, 42, at(5));
    let child = span_from_attributes("query", vec![], 2, 42, at(6));
    let timings = Timings { start_time: at(5), end_time: at(9), busy: 1, idle: 2 };
    let transaction = default_convert_transaction(root, vec![child], timings);
    assert_eq!(transaction.event_id, 42);
    assert_eq!(transaction.name.as_deref(), Some("request"));
    assert_eq!(transaction.start_timestamp, at(5));
    assert_eq!(transaction.timestamp, Some(at(9)));
    assert_eq!(transaction.spans.len(), 1);
    assert_eq!(transaction.spans[0].span_id, 2);
    assert_eq!(transaction.root.span_id, 1);
}

#[test]
fn a_real_error_chain_is_reported_as_it_was_decomposed() {
    let parse = "x".parse::<u32>().unwrap_err();
    let decomposed = sentry_core::event_from_error(&parse);
    let records: Vec<ExceptionRecord> = decomposed
        .exception
        .values
        .into_iter()
        .map(|e| ExceptionRecord { ty: e.ty, value: e.value, module: e.module, stacktrace: e.stacktrace })
        .collect();
    let issue = convert_tracing_event(
        event(Level::Error, "app", vec![attribute("error", AttributeValue::Error(records))]),
        None,
        true,
        plain(),
    );
    assert_eq!(issue.exception.len(), 1);
    assert_eq!(issue.exception[0].ty, "ParseIntError");
    assert_eq!(issue.exception[0].value.as_deref(), Some("invalid digit found in string"));
}
