//! The records handed to the reporting backend: span summaries,
//! transactions, breadcrumbs and issue events.

use std::time::SystemTime;
use vstd::prelude::*;
use crate::fields::{exception_views, ExceptionRecord, ExceptionView};
use crate::level::Severity;
use crate::text::opt_text;
use crate::value::{FieldMap, JsonValue};

verus! {

/// The time that a span was busy and idle, and the calendar times that
/// bound its life.
#[derive(Clone, Copy, Debug)]
pub struct Timings {
    pub start_time: SystemTime,
    pub end_time: SystemTime,
    pub busy: u64,
    pub idle: u64,
}

/// Whether a span ended well.
#[derive(Clone, Copy, Debug, PartialEq, Eq, Structural)]
pub enum SpanStatus {
    Okay,
    InternalError,
}

impl SpanStatus {
    /// The name under which the backend knows the status.
    pub open spec fn name(self) -> Seq<char> {
        match self {
            SpanStatus::Okay => "ok"@,
            SpanStatus::InternalError => "internal_error"@,
        }
    }

    /// The name under which the backend knows the status.
    pub fn as_str(self) -> (name: &'static str)
        ensures
            name@ == self.name(),
    {
        match self {
            SpanStatus::Okay => "ok",
            SpanStatus::InternalError => "internal_error",
        }
    }
}

/// The summary of one span.
#[derive(Debug)]
pub struct Span {
    pub span_id: u128,
    pub trace_id: u128,
    /// The short identifier of the span that this one was attached to.
    pub parent_span_id: Option<String>,
    /// The operation: the name that the span was declared with.
    pub op: Option<String>,
    /// The promoted label of the span's attributes.
    pub description: Option<String>,
    pub start_timestamp: SystemTime,
    pub timestamp: Option<SystemTime>,
    /// The structured attributes, and `busy` and `idle` once it has closed.
    pub data: FieldMap,
    pub status: SpanStatus,
}

/// What a span summary holds.
pub struct SpanView {
    pub span_id: u128,
    pub trace_id: u128,
    pub parent_span_id: Option<Seq<char>>,
    pub op: Option<Seq<char>>,
    pub description: Option<Seq<char>>,
    pub start_timestamp: SystemTime,
    pub timestamp: Option<SystemTime>,
    pub data: Map<Seq<char>, JsonValue>,
    pub status: SpanStatus,
}

impl View for Span {
    type V = SpanView;

    open spec fn view(&self) -> SpanView {
        SpanView {
            span_id: self.span_id,
            trace_id: self.trace_id,
            parent_span_id: opt_text(self.parent_span_id),
            op: opt_text(self.op),
            description: opt_text(self.description),
            start_timestamp: self.start_timestamp,
            timestamp: self.timestamp,
            data: self.data@,
            status: self.status,
        }
    }
}

/// The views of a list of span summaries, in order.
pub open spec fn span_views(spans: Seq<Span>) -> Seq<SpanView> {
    Seq::new(spans.len(), |i: int| spans[i]@)
}

/// A closed trace root with every span that closed under it.
#[derive(Debug)]
pub struct Transaction {
    /// The identifier of the trace.
    pub event_id: u128,
    pub name: Option<String>,
    pub start_timestamp: SystemTime,
    pub timestamp: Option<SystemTime>,
    /// The descendants of the root, in the order in which they closed.
    pub spans: Vec<Span>,
    /// The summary of the root span itself.
    pub root: Span,
}

/// What a transaction holds.
pub struct TransactionView {
    pub event_id: u128,
    pub name: Option<Seq<char>>,
    pub start_timestamp: SystemTime,
    pub timestamp: Option<SystemTime>,
    pub spans: Seq<SpanView>,
    pub root: SpanView,
}

impl View for Transaction {
    type V = TransactionView;

    open spec fn view(&self) -> TransactionView {
        TransactionView {
            event_id: self.event_id,
            name: opt_text(self.name),
            start_timestamp: self.start_timestamp,
            timestamp: self.timestamp,
            spans: span_views(self.spans@),
            root: self.root@,
        }
    }
}

/// A light record of something that happened, kept for context.
#[derive(Debug)]
pub struct Breadcrumb {
    pub ty: String,
    pub level: Severity,
    pub category: Option<String>,
    pub message: Option<String>,
    pub data: FieldMap,
}

/// What a breadcrumb holds.
pub struct BreadcrumbView {
    pub ty: Seq<char>,
    pub level: Severity,
    pub category: Option<Seq<char>>,
    pub message: Option<Seq<char>>,
    pub data: Map<Seq<char>, JsonValue>,
}

impl View for Breadcrumb {
    type V = BreadcrumbView;

    open spec fn view(&self) -> BreadcrumbView {
        BreadcrumbView {
            ty: self.ty@,
            level: self.level,
            category: opt_text(self.category),
            message: opt_text(self.message),
            data: self.data@,
        }
    }
}

/// The span in which an issue event occurred.
#[derive(Clone, Copy, Debug, PartialEq, Eq, Structural)]
pub struct TraceContext {
    pub span_id: u128,
    pub trace_id: u128,
}

/// A problem reported to the backend for triage.
#[derive(Debug)]
pub struct IssueEvent {
    pub logger: Option<String>,
    pub level: Severity,
    pub message: Option<String>,
    pub exception: Vec<ExceptionRecord>,
    pub extra: FieldMap,
    pub trace_context: Option<TraceContext>,
    /// The name of the outermost span around the event.
    pub transaction: Option<String>,
}

/// What an issue event holds.
pub struct IssueEventView {
    pub logger: Option<Seq<char>>,
    pub level: Severity,
    pub message: Option<Seq<char>>,
    pub exception: Seq<ExceptionView>,
    pub extra: Map<Seq<char>, JsonValue>,
    pub trace_context: Option<TraceContext>,
    pub transaction: Option<Seq<char>>,
}

impl View for IssueEvent {
    type V = IssueEventView;

    open spec fn view(&self) -> IssueEventView {
        IssueEventView {
            logger: opt_text(self.logger),
            level: self.level,
            message: opt_text(self.message),
            exception: exception_views(self.exception@),
            extra: self.extra@,
            trace_context: self.trace_context,
            transaction: opt_text(self.transaction),
        }
    }
}

} // verus!
