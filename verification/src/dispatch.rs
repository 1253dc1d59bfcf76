//! The fan-out: one surface of lifecycle hooks in front of the three
//! concerns, each behind a filter of its own.

use std::time::SystemTime;
use vstd::prelude::*;
use crate::converters::{
    breadcrumb_from_record, breadcrumb_of, default_config, issue_event_from_record,
    issue_event_of, EventData, EventSpan, EventSpanView,
};
use crate::fields::{attribute_views, extract_fields, Attribute, FieldVisitorConfig};
use crate::integration::TracingIntegrationOptions;
use crate::layer::{
    after_close, after_enter, after_exit, after_new_span, emitted_at_close, opt_transaction,
    Forest, SpanLayer,
};
use crate::level::{more_verbose, pick_more_verbose, LevelFilter};
use crate::outside::capture_stack;
use crate::protocol::{Breadcrumb, IssueEvent, TraceContext, Transaction};
use crate::text::texts;

verus! {

/// How a concern answers when it is asked about a call site.
#[derive(Clone, Copy, Debug, PartialEq, Eq, Structural)]
pub enum Interest {
    Never,
    Sometimes,
    Always,
}

/// Which of the three filters admit the span or event at hand.
#[derive(Clone, Copy, Debug, PartialEq, Eq, Structural)]
pub struct Admission {
    pub span: bool,
    pub event: bool,
    pub breadcrumb: bool,
}

/// The interest of the three concerns together: always where one of them
/// always wants the call site, never where none ever does, sometimes
/// otherwise.
pub open spec fn combined_interest(
    span: Interest,
    event: Interest,
    breadcrumb: Interest,
) -> Interest {
    if span is Always || event is Always || breadcrumb is Always {
        Interest::Always
    } else if span is Never && event is Never && breadcrumb is Never {
        Interest::Never
    } else {
        Interest::Sometimes
    }
}

/// The level hint of the three concerns together: none where one of them
/// gives none, the most verbose of the three otherwise.
pub open spec fn combined_hint(
    span: Option<LevelFilter>,
    event: Option<LevelFilter>,
    breadcrumb: Option<LevelFilter>,
) -> Option<LevelFilter> {
    match (span, event, breadcrumb) {
        (Some(s), Some(e), Some(b)) => Some(more_verbose(more_verbose(s, e), b)),
        _ => None,
    }
}

/// The span around an event, as the front-end names it.
#[derive(Debug)]
pub struct EventParent {
    /// The identifier of the span in which the event occurred.
    pub id: u64,
    /// The names of the spans around that span, from the nearest to the
    /// outermost.
    pub ancestor_names: Vec<String>,
}

/// The view of an optional event parent, resolved against the tracked
/// spans.
pub open spec fn resolved_parent(
    forest: Forest,
    parent: Option<EventParent>,
) -> Option<EventSpanView> {
    match parent {
        Some(p) => Some(
            EventSpanView {
                trace: if forest.contains_key(p.id) {
                    Some(
                        TraceContext {
                            span_id: forest[p.id].span.span_id,
                            trace_id: forest[p.id].span.trace_id,
                        },
                    )
                } else {
                    None
                },
                ancestor_names: texts(p.ancestor_names@),
            },
        ),
        None => None,
    }
}

/// What an event gives rise to.
#[derive(Debug)]
pub struct EventOutput {
    /// The issue event to report, where the event filter admits the event.
    pub issue: Option<IssueEvent>,
    /// The breadcrumb to record, where the breadcrumb filter admits it.
    pub breadcrumb: Option<Breadcrumb>,
}

/// Dispatches the lifecycle of events and spans to span aggregation,
/// issue-event reporting and breadcrumb recording.
pub struct SentryLayer {
    span_layer: SpanLayer,
    options: TracingIntegrationOptions,
}

impl View for SentryLayer {
    type V = Forest;

    closed spec fn view(&self) -> Forest {
        self.span_layer@
    }
}

impl SentryLayer {
    /// Create a new layer instance with the specified options.
    pub fn new(options: TracingIntegrationOptions) -> (layer: SentryLayer)
        ensures
            layer@ == Map::<u64, crate::layer::TraceView>::empty(),
            layer.options() == options,
    {
        SentryLayer { span_layer: SpanLayer::new(), options }
    }

    /// The options that the layer was created with.
    pub closed spec fn options(&self) -> TracingIntegrationOptions {
        self.options
    }

    /// The options that the layer was created with.
    pub fn filters(&self) -> (options: &TracingIntegrationOptions)
        ensures
            *options == self.options(),
    {
        &self.options
    }

    /// The span aggregation engine behind the layer.
    pub fn span_layer(&self) -> (engine: &SpanLayer)
        ensures
            engine@ == self@,
    {
        &self.span_layer
    }

    /// Combines the interests of the three concerns in a call site.
    pub fn register_callsite(
        &self,
        span: Interest,
        event: Interest,
        breadcrumb: Interest,
    ) -> (interest: Interest)
        ensures
            interest == combined_interest(span, event, breadcrumb),
    {
        let always = match (span, event, breadcrumb) {
            (Interest::Always, _, _) => true,
            (_, Interest::Always, _) => true,
            (_, _, Interest::Always) => true,
            _ => false,
        };
        let never = match (span, event, breadcrumb) {
            (Interest::Never, Interest::Never, Interest::Never) => true,
            _ => false,
        };
        if always {
            Interest::Always
        } else if never {
            Interest::Never
        } else {
            Interest::Sometimes
        }
    }

    /// Whether any of the three concerns admits the span or event at hand.
    pub fn enabled(&self, admits: Admission) -> (enabled: bool)
        ensures
            enabled == (admits.span || admits.event || admits.breadcrumb),
    {
        admits.span || admits.event || admits.breadcrumb
    }

    /// Combines the level hints of the three concerns.
    pub fn max_level_hint(
        &self,
        span: Option<LevelFilter>,
        event: Option<LevelFilter>,
        breadcrumb: Option<LevelFilter>,
    ) -> (hint: Option<LevelFilter>)
        ensures
            hint == combined_hint(span, event, breadcrumb),
    {
        match (span, event, breadcrumb) {
            (Some(s), Some(e), Some(b)) => Some(pick_more_verbose(pick_more_verbose(s, e), b)),
            _ => None,
        }
    }

    /// Forwards the creation of a span, with given identifiers and times,
    /// to span aggregation where the span filter admits the span.
    pub fn new_span_at(
        &mut self,
        admits: Admission,
        id: u64,
        ancestors: &Vec<u64>,
        name: &str,
        attributes: Vec<Attribute>,
        span_id: u128,
        fresh_trace: u128,
        now: u64,
        wall: SystemTime,
    )
        ensures
            final(self).options() == old(self).options(),
            final(self)@ == (if admits.span {
                after_new_span(
                    old(self)@,
                    id,
                    ancestors@,
                    name@,
                    attribute_views(attributes@),
                    span_id,
                    fresh_trace,
                    now,
                    wall,
                )
            } else {
                old(self)@
            }),
    {
        if admits.span {
            self.span_layer.new_span_at(
                id,
                ancestors,
                name,
                attributes,
                span_id,
                fresh_trace,
                now,
                wall,
            );
        }
    }

    /// Forwards the creation of a span to span aggregation where the span
    /// filter admits the span.
    pub fn new_span(
        &mut self,
        admits: Admission,
        id: u64,
        ancestors: &Vec<u64>,
        name: &str,
        attributes: Vec<Attribute>,
    )
        ensures
            final(self).options() == old(self).options(),
            !admits.span ==> final(self)@ == old(self)@,
            admits.span ==> exists|span_id: u128, fresh_trace: u128, now: u64, wall: SystemTime|
                final(self)@ == #[trigger] after_new_span(
                    old(self)@,
                    id,
                    ancestors@,
                    name@,
                    attribute_views(attributes@),
                    span_id,
                    fresh_trace,
                    now,
                    wall,
                ),
    {
        if admits.span {
            self.span_layer.new_span(id, ancestors, name, attributes);
            proof {
                let (span_id, fresh_trace, now, wall) = choose|
                    span_id: u128,
                    fresh_trace: u128,
                    now: u64,
                    wall: SystemTime,
                |
                    self.span_layer@ == #[trigger] after_new_span(
                        old(self).span_layer@,
                        id,
                        ancestors@,
                        name@,
                        attribute_views(attributes@),
                        span_id,
                        fresh_trace,
                        now,
                        wall,
                    );
                assert(self@ == after_new_span(
                    old(self)@,
                    id,
                    ancestors@,
                    name@,
                    attribute_views(attributes@),
                    span_id,
                    fresh_trace,
                    now,
                    wall,
                ));
            }
        }
    }

    /// Forwards the entering of a span at `now`.
    pub fn on_enter_at(&mut self, admits: Admission, id: u64, now: u64)
        ensures
            final(self).options() == old(self).options(),
            final(self)@ == (if admits.span {
                after_enter(old(self)@, id, now)
            } else {
                old(self)@
            }),
    {
        if admits.span {
            self.span_layer.on_enter_at(id, now);
        }
    }

    /// Forwards the entering of a span now.
    pub fn on_enter(&mut self, admits: Admission, id: u64)
        ensures
            final(self).options() == old(self).options(),
            !admits.span ==> final(self)@ == old(self)@,
            admits.span ==> exists|now: u64|
                final(self)@ == #[trigger] after_enter(old(self)@, id, now),
    {
        if admits.span {
            self.span_layer.on_enter(id);
            proof {
                let now = choose|now: u64|
                    self.span_layer@ == #[trigger] after_enter(old(self).span_layer@, id, now);
                assert(self@ == after_enter(old(self)@, id, now));
            }
        }
    }

    /// Forwards the exit from a span at `now`.
    pub fn on_exit_at(&mut self, admits: Admission, id: u64, now: u64, wall: SystemTime)
        ensures
            final(self).options() == old(self).options(),
            final(self)@ == (if admits.span {
                after_exit(old(self)@, id, now, wall)
            } else {
                old(self)@
            }),
    {
        if admits.span {
            self.span_layer.on_exit_at(id, now, wall);
        }
    }

    /// Forwards the exit from a span now.
    pub fn on_exit(&mut self, admits: Admission, id: u64)
        ensures
            final(self).options() == old(self).options(),
            !admits.span ==> final(self)@ == old(self)@,
            admits.span ==> exists|now: u64, wall: SystemTime|
                final(self)@ == #[trigger] after_exit(old(self)@, id, now, wall),
    {
        if admits.span {
            self.span_layer.on_exit(id);
            proof {
                let (now, wall) = choose|now: u64, wall: SystemTime|
                    self.span_layer@ == #[trigger] after_exit(
                        old(self).span_layer@,
                        id,
                        now,
                        wall,
                    );
                assert(self@ == after_exit(old(self)@, id, now, wall));
            }
        }
    }

    /// Forwards the close of a span at `now`, and hands out the
    /// transaction to send where the span was the root of its trace.
    pub fn on_close_at(
        &mut self,
        admits: Admission,
        id: u64,
        ancestors: &Vec<u64>,
        now: u64,
    ) -> (emitted: Option<Transaction>)
        ensures
            final(self).options() == old(self).options(),
            final(self)@ == (if admits.span {
                after_close(old(self)@, id, ancestors@, now)
            } else {
                old(self)@
            }),
            opt_transaction(emitted) == (if admits.span {
                emitted_at_close(old(self)@, id, ancestors@, now)
            } else {
                None
            }),
    {
        if admits.span {
            self.span_layer.on_close_at(id, ancestors, now)
        } else {
            None
        }
    }

    /// Forwards the close of a span now.
    pub fn on_close(
        &mut self,
        admits: Admission,
        id: u64,
        ancestors: &Vec<u64>,
    ) -> (emitted: Option<Transaction>)
        ensures
            final(self).options() == old(self).options(),
            !admits.span ==> final(self)@ == old(self)@ && emitted is None,
            admits.span ==> exists|now: u64|
                final(self)@ == #[trigger] after_close(old(self)@, id, ancestors@, now)
                    && opt_transaction(emitted) == emitted_at_close(
                    old(self)@,
                    id,
                    ancestors@,
                    now,
                ),
    {
        if admits.span {
            let emitted = self.span_layer.on_close(id, ancestors);
            proof {
                let now = choose|now: u64|
                    self.span_layer@ == #[trigger] after_close(
                        old(self).span_layer@,
                        id,
                        ancestors@,
                        now,
                    ) && opt_transaction(emitted) == emitted_at_close(
                        old(self).span_layer@,
                        id,
                        ancestors@,
                        now,
                    );
                assert(self@ == after_close(old(self)@, id, ancestors@, now));
            }
            emitted
        } else {
            None
        }
    }

    /// Converts an event for the concerns whose filters admit it: an issue
    /// event for issue reporting, a breadcrumb for breadcrumb recording.
    /// The tracked spans are left as they are.
    pub fn on_event(
        &self,
        admits: Admission,
        event: EventData,
        parent: Option<EventParent>,
    ) -> (output: EventOutput)
        ensures
            output.issue is Some <==> admits.event,
            output.breadcrumb is Some <==> admits.breadcrumb,
            output.breadcrumb matches Some(breadcrumb) ==> breadcrumb@ == breadcrumb_of(
                event@,
                default_config(),
            ),
            output.issue matches Some(issue) ==> exists|
                stack: Option<sentry_core::protocol::Stacktrace>,
            |
                issue@ == #[trigger] issue_event_of(
                    event@,
                    resolved_parent(self@, parent),
                    default_config(),
                    stack,
                ),
    {
        let EventData { level, target, name, module, attributes } = event;
        let record = extract_fields(
            attributes,
            FieldVisitorConfig { strip_ansi_escapes: true, event_type_field: None },
        );
        let breadcrumb = if admits.breadcrumb {
            Some(breadcrumb_from_record(level, target, &record))
        } else {
            None
        };
        let issue = if admits.event {
            let span = match parent {
                Some(p) => Some(
                    EventSpan {
                        trace: self.span_layer.trace_context(p.id),
                        ancestor_names: p.ancestor_names,
                    },
                ),
                None => None,
            };
            let stack = if record.extracted_errors.len() == 0 {
                capture_stack()
            } else {
                None
            };
            let issue = issue_event_from_record(level, name, module, record, span, stack);
            assert(issue@ == issue_event_of(
                event@,
                resolved_parent(self@, parent),
                default_config(),
                stack,
            ));
            Some(issue)
        } else {
            None
        };
        EventOutput { issue, breadcrumb }
    }
}

impl Default for SentryLayer {
    /// A layer with the default options.
    fn default() -> (layer: SentryLayer)
        ensures
            layer@ == Map::<u64, crate::layer::TraceView>::empty(),
    {
        SentryLayer::new(TracingIntegrationOptions::default())
    }
}

} // verus!
