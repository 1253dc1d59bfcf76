//! Conversion of events and spans into the records of the backend.

use std::time::SystemTime;
use vstd::prelude::*;
use crate::fields::{
    attribute_views, exception_views, extract_fields, extracted, Attribute, AttributeView,
    ConfigView, ExceptionRecord, ExceptionView, FieldRecord, FieldRecordView, FieldVisitorConfig,
};
use crate::level::{convert_tracing_level, severity_of, Level};
use crate::outside::{capture_stack, new_uuid, wall_now};
use crate::protocol::{
    span_views, Breadcrumb, BreadcrumbView, IssueEvent, IssueEventView, Span, SpanStatus,
    SpanView, Timings, TraceContext, Transaction, TransactionView,
};
use crate::text::{join_with_space, joined, opt_text, texts};
use crate::value::{FieldValue, JsonValue};

verus! {

/// An event as the instrumented code emitted it.
#[derive(Debug)]
pub struct EventData {
    pub level: Level,
    /// The declared category of the event.
    pub target: String,
    /// The declared name of the event.
    pub name: String,
    pub module: Option<String>,
    pub attributes: Vec<Attribute>,
}

/// What an event holds.
pub struct EventDataView {
    pub level: Level,
    pub target: Seq<char>,
    pub name: Seq<char>,
    pub module: Option<Seq<char>>,
    pub attributes: Seq<AttributeView>,
}

impl View for EventData {
    type V = EventDataView;

    open spec fn view(&self) -> EventDataView {
        EventDataView {
            level: self.level,
            target: self.target@,
            name: self.name@,
            module: opt_text(self.module),
            attributes: attribute_views(self.attributes@),
        }
    }
}

/// The span inside which an event occurred.
#[derive(Debug)]
pub struct EventSpan {
    /// The identifiers of the span, if it is tracked.
    pub trace: Option<TraceContext>,
    /// The names of the spans around it, from the nearest to the outermost.
    pub ancestor_names: Vec<String>,
}

/// What an event's span holds.
pub struct EventSpanView {
    pub trace: Option<TraceContext>,
    pub ancestor_names: Seq<Seq<char>>,
}

impl View for EventSpan {
    type V = EventSpanView;

    open spec fn view(&self) -> EventSpanView {
        EventSpanView { trace: self.trace, ancestor_names: texts(self.ancestor_names@) }
    }
}

/// The view of an optional event span.
pub open spec fn opt_span(span: Option<EventSpan>) -> Option<EventSpanView> {
    match span {
        Some(s) => Some(s@),
        None => None,
    }
}

/// The configuration with which the default conversions read attributes:
/// escape sequences are stripped and no attribute is promoted.
pub open spec fn default_config() -> ConfigView {
    ConfigView { strip_ansi_escapes: true, event_type_field: None }
}

/// The message of a breadcrumb: the promoted label, or else the display
/// lines joined by single spaces, or nothing where there is no line.
pub open spec fn breadcrumb_message(record: FieldRecordView) -> Option<Seq<char>> {
    match record.promoted_label {
        Some(label) => Some(label),
        None => if record.display_log.len() == 0 {
            None
        } else {
            Some(joined(record.display_log, " "@))
        },
    }
}

/// The category of a breadcrumb: the override where the record has one, the
/// declared category of the event otherwise.
pub open spec fn breadcrumb_category(target: Seq<char>, record: FieldRecordView) -> Seq<char> {
    match record.category_override {
        Some(category) => category,
        None => target,
    }
}

/// The breadcrumb for an event of the given level and category whose
/// attributes gave `record`.
pub open spec fn breadcrumb_with(
    level: Level,
    target: Seq<char>,
    record: FieldRecordView,
) -> BreadcrumbView {
    BreadcrumbView {
        ty: "log"@,
        level: severity_of(level),
        category: Some(breadcrumb_category(target, record)),
        message: breadcrumb_message(record),
        data: record.structured,
    }
}

/// The breadcrumb for an event.
pub open spec fn breadcrumb_of(event: EventDataView, config: ConfigView) -> BreadcrumbView {
    breadcrumb_with(event.level, event.target, extracted(config, event.attributes))
}

/// The exception that stands for an event without error attributes.
pub open spec fn synthesized_exception(
    name: Seq<char>,
    module: Option<Seq<char>>,
    record: FieldRecordView,
    stack: Option<sentry_core::protocol::Stacktrace>,
) -> ExceptionView {
    ExceptionView { ty: name, value: record.promoted_label, module: module, stacktrace: stack }
}

/// The exception list of an issue event: the extracted errors where there
/// are any, one synthesized exception otherwise.
pub open spec fn issue_exceptions(
    name: Seq<char>,
    module: Option<Seq<char>>,
    record: FieldRecordView,
    stack: Option<sentry_core::protocol::Stacktrace>,
) -> Seq<ExceptionView> {
    if record.extracted_errors.len() > 0 {
        record.extracted_errors
    } else {
        seq![synthesized_exception(name, module, record, stack)]
    }
}

/// The trace context of an event: the identifiers of its span, where that
/// span is tracked.
pub open spec fn event_trace(span: Option<EventSpanView>) -> Option<TraceContext> {
    match span {
        Some(s) => s.trace,
        None => None,
    }
}

/// The transaction name of an event: the name of the outermost span around
/// its span, where its span is tracked.
pub open spec fn event_transaction(span: Option<EventSpanView>) -> Option<Seq<char>> {
    match span {
        Some(s) => if s.trace is Some && s.ancestor_names.len() > 0 {
            Some(s.ancestor_names.last())
        } else {
            None
        },
        None => None,
    }
}

/// The issue event for an event whose attributes gave `record`, with the
/// stack that was captured for it.
pub open spec fn issue_event_with(
    level: Level,
    name: Seq<char>,
    module: Option<Seq<char>>,
    record: FieldRecordView,
    span: Option<EventSpanView>,
    stack: Option<sentry_core::protocol::Stacktrace>,
) -> IssueEventView {
    IssueEventView {
        logger: Some("sentry-tracing"@),
        level: severity_of(level),
        message: record.promoted_label,
        exception: issue_exceptions(name, module, record, stack),
        extra: record.structured,
        trace_context: event_trace(span),
        transaction: event_transaction(span),
    }
}

/// The issue event for an event, with the stack that was captured for it.
pub open spec fn issue_event_of(
    event: EventDataView,
    span: Option<EventSpanView>,
    config: ConfigView,
    stack: Option<sentry_core::protocol::Stacktrace>,
) -> IssueEventView {
    issue_event_with(
        event.level,
        event.name,
        event.module,
        extracted(config, event.attributes),
        span,
        stack,
    )
}

/// The summary with which a span starts.
pub open spec fn new_span_of(
    name: Seq<char>,
    record: FieldRecordView,
    span_id: u128,
    trace_id: u128,
    now: SystemTime,
) -> SpanView {
    SpanView {
        span_id,
        trace_id,
        parent_span_id: None,
        op: Some(name),
        description: record.promoted_label,
        start_timestamp: now,
        timestamp: None,
        data: record.structured,
        status: if record.extracted_errors.len() == 0 {
            SpanStatus::Okay
        } else {
            SpanStatus::InternalError
        },
    }
}

/// The summary of a span once it has closed with the given timings.
pub open spec fn closed_span(span: SpanView, timings: Timings) -> SpanView {
    SpanView {
        timestamp: Some(timings.end_time),
        data: span.data.insert("busy"@, JsonValue::Number(timings.busy as int)).insert(
            "idle"@,
            JsonValue::Number(timings.idle as int),
        ),
        ..span
    }
}

/// The transaction of a closed root with the spans that closed under it.
pub open spec fn transaction_of(
    root: SpanView,
    spans: Seq<SpanView>,
    timings: Timings,
) -> TransactionView {
    TransactionView {
        event_id: root.trace_id,
        name: root.op,
        start_timestamp: timings.start_time,
        timestamp: Some(timings.end_time),
        spans,
        root,
    }
}

fn clone_text(text: &Option<String>) -> (copy: Option<String>)
    ensures
        opt_text(copy) == opt_text(*text),
{
    match text {
        Some(s) => Some(s.clone()),
        None => None,
    }
}

/// Builds the breadcrumb of an event from its level, its declared category
/// and the record of its attributes.
pub fn breadcrumb_from_record(
    level: Level,
    target: String,
    record: &FieldRecord,
) -> (breadcrumb: Breadcrumb)
    ensures
        breadcrumb@ == breadcrumb_with(level, target@, record@),
{
    let message = match &record.promoted_label {
        Some(label) => Some(label.clone()),
        None => if record.display_log.len() == 0 {
            None
        } else {
            Some(join_with_space(&record.display_log))
        },
    };
    let category = match &record.category_override {
        Some(category) => category.clone(),
        None => target,
    };
    Breadcrumb {
        ty: String::from_str("log"),
        level: convert_tracing_level(level),
        category: Some(category),
        message,
        data: record.structured.duplicate(),
    }
}

/// Creates a breadcrumb from a given event.
pub fn breadcrumb_from_event(
    event: EventData,
    visitor_config: FieldVisitorConfig,
) -> (breadcrumb: Breadcrumb)
    ensures
        breadcrumb@ == breadcrumb_of(event@, visitor_config@),
{
    let EventData { level, target, name, module, attributes } = event;
    let record = extract_fields(attributes, visitor_config);
    breadcrumb_from_record(level, target, &record)
}

/// Creates a breadcrumb with the default configuration.
pub fn default_convert_breadcrumb(event: EventData) -> (breadcrumb: Breadcrumb)
    ensures
        breadcrumb@ == breadcrumb_of(event@, default_config()),
{
    breadcrumb_from_event(
        event,
        FieldVisitorConfig { strip_ansi_escapes: true, event_type_field: None },
    )
}

/// Builds the issue event of an event from the record of its attributes,
/// the stack that was captured for it and the span it occurred in.
pub fn issue_event_from_record(
    level: Level,
    name: String,
    module: Option<String>,
    record: FieldRecord,
    span: Option<EventSpan>,
    stack: Option<sentry_core::protocol::Stacktrace>,
) -> (issue: IssueEvent)
    ensures
        issue@ == issue_event_with(level, name@, opt_text(module), record@, opt_span(span), stack),
{
    let FieldRecord {
        display_log,
        structured,
        promoted_label,
        category_override,
        extracted_errors,
    } = record;
    let exception = if extracted_errors.len() > 0 {
        extracted_errors
    } else {
        let mut list: Vec<ExceptionRecord> = Vec::new();
        list.push(
            ExceptionRecord {
                ty: name,
                value: clone_text(&promoted_label),
                module: module,
                stacktrace: stack,
            },
        );
        assert(exception_views(list@) =~= seq![
            synthesized_exception(name@, opt_text(module), record@, stack),
        ]);
        list
    };
    let mut trace_context: Option<TraceContext> = None;
    let mut transaction: Option<String> = None;
    if let Some(parent) = span {
        if let Some(trace) = parent.trace {
            trace_context = Some(trace);
            let count = parent.ancestor_names.len();
            if count > 0 {
                transaction = Some(parent.ancestor_names[count - 1].clone());
            }
        }
    }
    IssueEvent {
        logger: Some(String::from_str("sentry-tracing")),
        level: convert_tracing_level(level),
        message: promoted_label,
        exception,
        extra: structured,
        trace_context,
        transaction,
    }
}

/// Creates an issue event from a given event.
///
/// If `attach_stacktraces` is set to `true` and the event carries no error
/// of its own, the current stack is captured and attached to the
/// exception that stands for the event.
pub fn convert_tracing_event(
    event: EventData,
    span: Option<EventSpan>,
    attach_stacktraces: bool,
    visitor_config: FieldVisitorConfig,
) -> (issue: IssueEvent)
    ensures
        exists|stack: Option<sentry_core::protocol::Stacktrace>|
            (attach_stacktraces || stack is None) && issue@ == #[trigger] issue_event_of(
                event@,
                opt_span(span),
                visitor_config@,
                stack,
            ),
{
    let EventData { level, target, name, module, attributes } = event;
    let record = extract_fields(attributes, visitor_config);
    let stack = if attach_stacktraces && record.extracted_errors.len() == 0 {
        capture_stack()
    } else {
        None
    };
    let issue = issue_event_from_record(level, name, module, record, span, stack);
    assert(issue@ == issue_event_of(event@, opt_span(span), visitor_config@, stack));
    issue
}

/// Creates an issue event with the default configuration, which attaches
/// the current stack.
pub fn default_convert_event(event: EventData, span: Option<EventSpan>) -> (issue: IssueEvent)
    ensures
        exists|stack: Option<sentry_core::protocol::Stacktrace>|
            issue@ == #[trigger] issue_event_of(event@, opt_span(span), default_config(), stack),
{
    convert_tracing_event(
        event,
        span,
        true,
        FieldVisitorConfig { strip_ansi_escapes: true, event_type_field: None },
    )
}

/// Builds the summary with which a span starts, from its name, its
/// attributes, its identifiers and the time of its creation.
pub fn span_from_attributes(
    name: &str,
    attributes: Vec<Attribute>,
    span_id: u128,
    trace_id: u128,
    now: SystemTime,
) -> (span: Span)
    ensures
        span@ == new_span_of(
            name@,
            extracted(default_config(), attribute_views(attributes@)),
            span_id,
            trace_id,
            now,
        ),
{
    let record = extract_fields(
        attributes,
        FieldVisitorConfig { strip_ansi_escapes: true, event_type_field: None },
    );
    let FieldRecord {
        display_log,
        structured,
        promoted_label,
        category_override,
        extracted_errors,
    } = record;
    Span {
        span_id,
        trace_id,
        parent_span_id: None,
        op: Some(name.to_owned()),
        description: promoted_label,
        start_timestamp: now,
        timestamp: None,
        data: structured,
        status: if extracted_errors.len() == 0 {
            SpanStatus::Okay
        } else {
            SpanStatus::InternalError
        },
    }
}

/// Starts the summary of a new span. The span joins the trace of `parent`
/// where there is one and starts a trace of its own otherwise; its own
/// identifier is fresh, and it starts now.
pub fn default_new_span(
    name: &str,
    parent: Option<&Span>,
    attributes: Vec<Attribute>,
) -> (span: Span)
    ensures
        span@ == new_span_of(
            name@,
            extracted(default_config(), attribute_views(attributes@)),
            span.span_id,
            span.trace_id,
            span.start_timestamp,
        ),
        parent matches Some(p) ==> span.trace_id == p.trace_id,
{
    let trace_id = match parent {
        Some(p) => p.trace_id,
        None => new_uuid(),
    };
    span_from_attributes(name, attributes, new_uuid(), trace_id, wall_now())
}

/// Completes the summary of a span that closes: its data gets the times it
/// was busy and idle, and it ends at the end of the timings.
pub fn default_on_close(span: &mut Span, timings: Timings)
    ensures
        final(span)@ == closed_span(old(span)@, timings),
{
    span.data.insert(String::from_str("busy"), FieldValue::UInt(timings.busy));
    span.data.insert(String::from_str("idle"), FieldValue::UInt(timings.idle));
    span.timestamp = Some(timings.end_time);
}

/// Assembles the transaction of a closed root from its summary, the spans
/// that closed under it and its timings.
pub fn default_convert_transaction(
    root: Span,
    spans: Vec<Span>,
    timings: Timings,
) -> (transaction: Transaction)
    ensures
        transaction@ == transaction_of(root@, span_views(spans@), timings),
{
    Transaction {
        event_id: root.trace_id,
        name: clone_text(&root.op),
        start_timestamp: timings.start_time,
        timestamp: Some(timings.end_time),
        spans,
        root,
    }
}

} // verus!
