//! The span aggregation engine: per-span state, the lifecycle of a span,
//! and the assembly of a trace when its spans close.

use std::collections::HashMap;
use std::time::{Instant, SystemTime};
use vstd::prelude::*;
use crate::converters::{
    closed_span, default_config, default_convert_transaction, default_on_close, new_span_of,
    span_from_attributes, transaction_of,
};
use crate::fields::{attribute_views, extracted, Attribute, AttributeView};
use crate::outside::{instant_now, nanos_since, new_uuid, short_id, short_span_id, wall_now};
use crate::protocol::{
    span_views, Span, SpanView, Timings, TraceContext, Transaction, TransactionView,
};

verus! {

/// What the state of one tracked span holds.
pub struct TraceView {
    /// The summary of the span itself.
    pub span: SpanView,
    /// The summaries of the descendants that have closed, in closing order.
    pub spans: Seq<SpanView>,
    /// Nanoseconds spent outside the span.
    pub idle: u64,
    /// Nanoseconds spent inside the span.
    pub busy: u64,
    /// The monotonic time of the span's creation.
    pub created: u64,
    /// The monotonic time of the span's latest transition.
    pub last: u64,
    /// The calendar time of the span's creation.
    pub first: SystemTime,
    /// The calendar time of the span's latest exit.
    pub last_sys: SystemTime,
}

/// The tracked spans by the identifier that the front-end gave them.
pub type Forest = Map<u64, TraceView>;

/// Busy and idle time together are the time from the span's creation to its
/// latest transition.
pub open spec fn balanced(node: TraceView) -> bool {
    node.created <= node.last && node.busy + node.idle == node.last - node.created
}

/// The time that has passed since the span's latest transition; none where
/// the clock reads earlier than it did then.
pub open spec fn elapsed(node: TraceView, now: u64) -> int {
    if now >= node.last {
        now - node.last
    } else {
        0
    }
}

/// The later of the span's latest transition and `now`.
pub open spec fn advanced(node: TraceView, now: u64) -> u64 {
    if now >= node.last {
        now
    } else {
        node.last
    }
}

/// The state of a span that was created at `now`.
pub open spec fn created_node(span: SpanView, now: u64, wall: SystemTime) -> TraceView {
    TraceView {
        span,
        spans: Seq::empty(),
        idle: 0,
        busy: 0,
        created: now,
        last: now,
        first: wall,
        last_sys: wall,
    }
}

/// The state of a span after it was entered at `now`: the time since the
/// latest transition was idle.
pub open spec fn entered(node: TraceView, now: u64) -> TraceView {
    TraceView { idle: (node.idle + elapsed(node, now)) as u64, last: advanced(node, now), ..node }
}

/// The state of a span after it was exited at `now`: the time since the
/// latest transition was busy.
pub open spec fn exited(node: TraceView, now: u64, wall: SystemTime) -> TraceView {
    TraceView {
        busy: (node.busy + elapsed(node, now)) as u64,
        last: advanced(node, now),
        last_sys: wall,
        ..node
    }
}

/// The timings of a span that closes at `now`: the time since the latest
/// transition was idle.
pub open spec fn timings_at_close(node: TraceView, now: u64) -> Timings {
    Timings {
        start_time: node.first,
        end_time: node.last_sys,
        busy: node.busy,
        idle: (node.idle + elapsed(node, now)) as u64,
    }
}

/// The summary of a span that closes at `now`.
pub open spec fn summary_at_close(node: TraceView, now: u64) -> SpanView {
    closed_span(node.span, timings_at_close(node, now))
}

/// The summary of a closing span as its parent keeps it.
pub open spec fn attached_summary(node: TraceView, parent: TraceView, now: u64) -> SpanView {
    SpanView {
        parent_span_id: Some(short_id(parent.span.span_id)),
        ..summary_at_close(node, now)
    }
}

/// The state of a span after a descendant closed under it: it takes over
/// what had closed under the descendant, then the descendant itself.
pub open spec fn adopted(parent: TraceView, node: TraceView, now: u64) -> TraceView {
    TraceView {
        spans: parent.spans + node.spans + seq![attached_summary(node, parent, now)],
        ..parent
    }
}

/// The nearest of the ancestors, given from the nearest to the outermost,
/// that is tracked.
pub open spec fn nearest_tracked(forest: Forest, ancestors: Seq<u64>) -> Option<u64>
    decreases ancestors.len(),
{
    if ancestors.len() == 0 {
        None
    } else if forest.contains_key(ancestors[0]) {
        Some(ancestors[0])
    } else {
        nearest_tracked(forest, ancestors.subrange(1, ancestors.len() as int))
    }
}

/// The trace that a new span with these ancestors joins.
pub open spec fn inherited_trace(forest: Forest, ancestors: Seq<u64>) -> Option<u128> {
    match nearest_tracked(forest, ancestors) {
        Some(parent) => Some(forest[parent].span.trace_id),
        None => None,
    }
}

/// The tracked spans after a span was created. A span that is tracked
/// already is left as it is. A new span joins the trace of its nearest
/// tracked ancestor, or starts the trace `fresh_trace`.
pub open spec fn after_new_span(
    forest: Forest,
    id: u64,
    ancestors: Seq<u64>,
    name: Seq<char>,
    attributes: Seq<AttributeView>,
    span_id: u128,
    fresh_trace: u128,
    now: u64,
    wall: SystemTime,
) -> Forest {
    if forest.contains_key(id) {
        forest
    } else {
        let trace_id = match inherited_trace(forest, ancestors) {
            Some(trace) => trace,
            None => fresh_trace,
        };
        forest.insert(
            id,
            created_node(
                new_span_of(name, extracted(default_config(), attributes), span_id, trace_id, wall),
                now,
                wall,
            ),
        )
    }
}

/// The tracked spans after a span was entered. A span that is not tracked
/// changes nothing.
pub open spec fn after_enter(forest: Forest, id: u64, now: u64) -> Forest {
    if forest.contains_key(id) {
        forest.insert(id, entered(forest[id], now))
    } else {
        forest
    }
}

/// The tracked spans after a span was exited. A span that is not tracked
/// changes nothing.
pub open spec fn after_exit(forest: Forest, id: u64, now: u64, wall: SystemTime) -> Forest {
    if forest.contains_key(id) {
        forest.insert(id, exited(forest[id], now, wall))
    } else {
        forest
    }
}

/// The tracked spans after a span closed. The span is no longer tracked;
/// its nearest tracked ancestor has adopted it, where there is one.
pub open spec fn after_close(forest: Forest, id: u64, ancestors: Seq<u64>, now: u64) -> Forest {
    if forest.contains_key(id) {
        let rest = forest.remove(id);
        match nearest_tracked(rest, ancestors) {
            Some(parent) => rest.insert(parent, adopted(rest[parent], forest[id], now)),
            None => rest,
        }
    } else {
        forest
    }
}

/// The transaction that the close of a span emits: one for a tracked span
/// without tracked ancestor, none otherwise.
pub open spec fn emitted_at_close(
    forest: Forest,
    id: u64,
    ancestors: Seq<u64>,
    now: u64,
) -> Option<TransactionView> {
    if forest.contains_key(id) && nearest_tracked(forest.remove(id), ancestors) is None {
        Some(
            transaction_of(
                summary_at_close(forest[id], now),
                forest[id].spans,
                timings_at_close(forest[id], now),
            ),
        )
    } else {
        None
    }
}

/// The view of an optional transaction.
pub open spec fn opt_transaction(transaction: Option<Transaction>) -> Option<TransactionView> {
    match transaction {
        Some(t) => Some(t@),
        None => None,
    }
}

/// The state of one tracked span.
pub struct Trace {
    span: Span,
    spans: Vec<Span>,
    idle: u64,
    busy: u64,
    created: u64,
    last: u64,
    first: SystemTime,
    last_sys: SystemTime,
}

impl View for Trace {
    type V = TraceView;

    closed spec fn view(&self) -> TraceView {
        TraceView {
            span: self.span@,
            spans: span_views(self.spans@),
            idle: self.idle,
            busy: self.busy,
            created: self.created,
            last: self.last,
            first: self.first,
            last_sys: self.last_sys,
        }
    }
}

impl Trace {
    #[verifier::type_invariant]
    spec fn well_formed(&self) -> bool {
        self.created <= self.last && self.busy + self.idle == self.last - self.created
    }

    /// The state of a span that starts at `now`.
    pub fn new(span: Span, now: u64, wall: SystemTime) -> (node: Trace)
        ensures
            node@ == created_node(span@, now, wall),
    {
        let node = Trace {
            span,
            spans: Vec::new(),
            idle: 0,
            busy: 0,
            created: now,
            last: now,
            first: wall,
            last_sys: wall,
        };
        assert(node@.spans =~= Seq::empty());
        node
    }

    /// The busy and idle nanoseconds so far. Together they are the time
    /// from the creation to the latest transition.
    pub fn busy_idle(&self) -> (times: (u64, u64))
        ensures
            times == (self@.busy, self@.idle),
            balanced(self@),
    {
        proof {
            use_type_invariant(self);
        }
        (self.busy, self.idle)
    }

    /// The state after the span was entered at `now`.
    pub fn enter(self, now: u64) -> (node: Trace)
        ensures
            node@ == entered(self@, now),
    {
        proof {
            use_type_invariant(&self);
        }
        let Trace { span, spans, idle, busy, created, last, first, last_sys } = self;
        if now >= last {
            Trace {
                span,
                spans,
                idle: idle + (now - last),
                busy,
                created,
                last: now,
                first,
                last_sys,
            }
        } else {
            Trace { span, spans, idle, busy, created, last, first, last_sys }
        }
    }

    /// The state after the span was exited at `now`.
    pub fn exit(self, now: u64, wall: SystemTime) -> (node: Trace)
        ensures
            node@ == exited(self@, now, wall),
    {
        proof {
            use_type_invariant(&self);
        }
        let Trace { span, spans, idle, busy, created, last, first, last_sys } = self;
        if now >= last {
            Trace {
                span,
                spans,
                idle,
                busy: busy + (now - last),
                created,
                last: now,
                first,
                last_sys: wall,
            }
        } else {
            Trace { span, spans, idle, busy, created, last, first, last_sys: wall }
        }
    }

    /// Closes the span at `now`: hands out its summary, the summaries that
    /// closed under it, and its timings.
    pub fn close(self, now: u64) -> (parts: (Span, Vec<Span>, Timings))
        ensures
            parts.0@ == summary_at_close(self@, now),
            span_views(parts.1@) == self@.spans,
            parts.2 == timings_at_close(self@, now),
    {
        proof {
            use_type_invariant(&self);
        }
        let Trace { span, spans, idle, busy, created, last, first, last_sys } = self;
        let idle = if now >= last {
            idle + (now - last)
        } else {
            idle
        };
        let timings = Timings { start_time: first, end_time: last_sys, idle, busy };
        let mut span = span;
        default_on_close(&mut span, timings);
        (span, spans, timings)
    }

    /// The state after a descendant closed under this span: the spans that
    /// had closed under the descendant are taken over, then the
    /// descendant's summary, which now names this span as its parent.
    pub fn adopt(self, children: Vec<Span>, summary: Span) -> (node: Trace)
        ensures
            node@ == (TraceView {
                spans: self@.spans + span_views(children@) + seq![
                    (SpanView {
                        parent_span_id: Some(short_id(self@.span.span_id)),
                        ..summary@
                    }),
                ],
                ..self@
            }),
    {
        proof {
            use_type_invariant(&self);
        }
        let Trace { span, spans, idle, busy, created, last, first, last_sys } = self;
        let mut spans = spans;
        let mut children = children;
        let mut summary = summary;
        let ghost before = span_views(spans@);
        let ghost taken = span_views(children@);
        summary.parent_span_id = Some(short_span_id(span.span_id));
        spans.append(&mut children);
        assert(span_views(spans@) =~= before + taken);
        spans.push(summary);
        assert(span_views(spans@) =~= before + taken + seq![summary@]);
        Trace { span, spans, idle, busy, created, last, first, last_sys }
    }
}

/// The engine that tracks spans from their creation to their close.
pub struct SpanLayer {
    traces: HashMap<u64, Trace>,
    anchor: Instant,
}

impl View for SpanLayer {
    type V = Forest;

    closed spec fn view(&self) -> Forest {
        Map::new(|id: u64| self.traces@.contains_key(id), |id: u64| self.traces@[id]@)
    }
}

impl SpanLayer {
    /// An engine that tracks no span. Its monotonic clock starts now.
    pub fn new() -> (layer: SpanLayer)
        ensures
            layer@ == Map::<u64, TraceView>::empty(),
    {
        let layer = SpanLayer { traces: HashMap::new(), anchor: instant_now() };
        assert(layer@ =~= Map::<u64, TraceView>::empty());
        layer
    }

    /// Whether the span is tracked.
    pub fn is_tracked(&self, id: u64) -> (found: bool)
        ensures
            found == self@.contains_key(id),
    {
        self.traces.contains_key(&id)
    }

    /// The identifiers of a tracked span.
    pub fn trace_context(&self, id: u64) -> (context: Option<TraceContext>)
        ensures
            context == (if self@.contains_key(id) {
                Some(
                    TraceContext {
                        span_id: self@[id].span.span_id,
                        trace_id: self@[id].span.trace_id,
                    },
                )
            } else {
                None
            }),
    {
        match self.traces.get(&id) {
            Some(node) => Some(
                TraceContext { span_id: node.span.span_id, trace_id: node.span.trace_id },
            ),
            None => None,
        }
    }

    /// The busy and idle nanoseconds of a tracked span so far. Together
    /// they are the time from its creation to its latest transition.
    pub fn busy_idle(&self, id: u64) -> (times: Option<(u64, u64)>)
        ensures
            times == (if self@.contains_key(id) {
                Some((self@[id].busy, self@[id].idle))
            } else {
                None
            }),
            self@.contains_key(id) ==> balanced(self@[id]),
    {
        match self.traces.get(&id) {
            Some(node) => Some(node.busy_idle()),
            None => None,
        }
    }

    /// The nearest tracked span among the ancestors, which are given from
    /// the nearest to the outermost.
    pub fn find_tracked(&self, ancestors: &Vec<u64>) -> (found: Option<u64>)
        ensures
            found == nearest_tracked(self@, ancestors@),
    {
        let mut i: usize = 0;
        assert(ancestors@.subrange(0, ancestors@.len() as int) =~= ancestors@);
        while i < ancestors.len()
            invariant
                i <= ancestors@.len(),
                nearest_tracked(self@, ancestors@) == nearest_tracked(
                    self@,
                    ancestors@.subrange(i as int, ancestors@.len() as int),
                ),
            decreases ancestors@.len() - i,
        {
            let ghost rest = ancestors@.subrange(i as int, ancestors@.len() as int);
            assert(rest.subrange(1, rest.len() as int) =~= ancestors@.subrange(
                i + 1,
                ancestors@.len() as int,
            ));
            if self.traces.contains_key(&ancestors[i]) {
                return Some(ancestors[i]);
            }
            i = i + 1;
        }
        None
    }

    /// Starts to track a span with the given identifiers and times. See
    /// [`after_new_span`].
    pub fn new_span_at(
        &mut self,
        id: u64,
        ancestors: &Vec<u64>,
        name: &str,
        attributes: Vec<Attribute>,
        span_id: u128,
        fresh_trace: u128,
        now: u64,
        wall: SystemTime,
    )
        ensures
            final(self)@ == after_new_span(
                old(self)@,
                id,
                ancestors@,
                name@,
                attribute_views(attributes@),
                span_id,
                fresh_trace,
                now,
                wall,
            ),
    {
        if self.traces.contains_key(&id) {
            return ;
        }
        proof {
            lemma_nearest_is_tracked(self@, ancestors@);
        }
        let trace_id = match self.find_tracked(ancestors) {
            Some(parent) => match self.traces.get(&parent) {
                Some(node) => node.span.trace_id,
                None => fresh_trace,
            },
            None => fresh_trace,
        };
        let span = span_from_attributes(name, attributes, span_id, trace_id, wall);
        let node = Trace::new(span, now, wall);
        self.traces.insert(id, node);
        assert(self@ =~= old(self)@.insert(id, node@));
    }

    /// Starts to track a span that was created now, with fresh identifiers.
    pub fn new_span(
        &mut self,
        id: u64,
        ancestors: &Vec<u64>,
        name: &str,
        attributes: Vec<Attribute>,
    )
        ensures
            exists|span_id: u128, fresh_trace: u128, now: u64, wall: SystemTime|
                final(self)@ == #[trigger] after_new_span(
                    old(self)@,
                    id,
                    ancestors@,
                    name@,
                    attribute_views(attributes@),
                    span_id,
                    fresh_trace,
                    now,
                    wall,
                ),
    {
        let now = nanos_since(&self.anchor);
        let wall = wall_now();
        let span_id = new_uuid();
        let fresh_trace = new_uuid();
        self.new_span_at(id, ancestors, name, attributes, span_id, fresh_trace, now, wall);
    }

    /// Notes that a span was entered at `now`. See [`after_enter`].
    pub fn on_enter_at(&mut self, id: u64, now: u64)
        ensures
            final(self)@ == after_enter(old(self)@, id, now),
    {
        match self.traces.remove(&id) {
            Some(node) => {
                let node = node.enter(now);
                self.traces.insert(id, node);
                assert(self@ =~= after_enter(old(self)@, id, now));
            },
            None => {
                assert(self@ =~= old(self)@);
            },
        }
    }

    /// Notes that a span was entered now.
    pub fn on_enter(&mut self, id: u64)
        ensures
            exists|now: u64| final(self)@ == #[trigger] after_enter(old(self)@, id, now),
    {
        let now = nanos_since(&self.anchor);
        self.on_enter_at(id, now);
    }

    /// Notes that a span was exited at `now`. See [`after_exit`].
    pub fn on_exit_at(&mut self, id: u64, now: u64, wall: SystemTime)
        ensures
            final(self)@ == after_exit(old(self)@, id, now, wall),
    {
        match self.traces.remove(&id) {
            Some(node) => {
                let node = node.exit(now, wall);
                self.traces.insert(id, node);
                assert(self@ =~= after_exit(old(self)@, id, now, wall));
            },
            None => {
                assert(self@ =~= old(self)@);
            },
        }
    }

    /// Notes that a span was exited now.
    pub fn on_exit(&mut self, id: u64)
        ensures
            exists|now: u64, wall: SystemTime|
                final(self)@ == #[trigger] after_exit(old(self)@, id, now, wall),
    {
        let now = nanos_since(&self.anchor);
        let wall = wall_now();
        self.on_exit_at(id, now, wall);
    }

    /// Closes a span at `now`. The span is attached to its nearest tracked
    /// ancestor, or handed out as the transaction of its trace where it has
    /// none. See [`after_close`] and [`emitted_at_close`].
    pub fn on_close_at(
        &mut self,
        id: u64,
        ancestors: &Vec<u64>,
        now: u64,
    ) -> (emitted: Option<Transaction>)
        ensures
            final(self)@ == after_close(old(self)@, id, ancestors@, now),
            opt_transaction(emitted) == emitted_at_close(old(self)@, id, ancestors@, now),
    {
        let node = match self.traces.remove(&id) {
            Some(node) => node,
            None => {
                assert(self@ =~= old(self)@);
                return None;
            },
        };
        assert(self@ =~= old(self)@.remove(id));
        let ghost rest = self@;
        let (summary, children, timings) = node.close(now);
        match self.find_tracked(ancestors) {
            Some(parent) => {
                match self.traces.remove(&parent) {
                    Some(parent_node) => {
                        let parent_node = parent_node.adopt(children, summary);
                        self.traces.insert(parent, parent_node);
                        assert(parent_node@.spans =~= adopted(rest[parent], node@, now).spans);
                        assert(self@ =~= rest.insert(parent, adopted(rest[parent], node@, now)));
                        None
                    },
                    None => {
                        proof {
                            lemma_nearest_is_tracked(rest, ancestors@);
                        }
                        None
                    },
                }
            },
            None => Some(default_convert_transaction(summary, children, timings)),
        }
    }

    /// Closes a span now.
    pub fn on_close(&mut self, id: u64, ancestors: &Vec<u64>) -> (emitted: Option<Transaction>)
        ensures
            exists|now: u64|
                final(self)@ == #[trigger] after_close(old(self)@, id, ancestors@, now)
                    && opt_transaction(emitted) == emitted_at_close(
                    old(self)@,
                    id,
                    ancestors@,
                    now,
                ),
    {
        let now = nanos_since(&self.anchor);
        self.on_close_at(id, ancestors, now)
    }
}

/// The nearest tracked ancestor is one of the ancestors, and is tracked.
pub proof fn lemma_nearest_is_tracked(forest: Forest, ancestors: Seq<u64>)
    ensures
        nearest_tracked(forest, ancestors) matches Some(parent) ==> forest.contains_key(parent)
            && ancestors.contains(parent),
    decreases ancestors.len(),
{
    if ancestors.len() > 0 && !forest.contains_key(ancestors[0]) {
        let rest = ancestors.subrange(1, ancestors.len() as int);
        lemma_nearest_is_tracked(forest, rest);
        if let Some(parent) = nearest_tracked(forest, rest) {
            let i = choose|i: int| 0 <= i < rest.len() && rest[i] == parent;
            assert(ancestors[i + 1] == parent);
        }
    } else if ancestors.len() > 0 {
        assert(ancestors[0] == ancestors[0]);
    }
}

} // verus!
