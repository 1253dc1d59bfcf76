//! What holds of field extraction and of the lifecycle of a span, for all
//! inputs.

use std::time::SystemTime;
use vstd::prelude::*;
use crate::fields::{
    empty_record, extracted, is_promoted, record_all, record_attribute, stored_text,
    AttributeValueView, AttributeView, ConfigView, FieldRecordView,
};
use crate::layer::{
    adopted, after_close, attached_summary, balanced, created_node, emitted_at_close, entered,
    exited, lemma_nearest_is_tracked, nearest_tracked, timings_at_close, Forest, TraceView,
};
use crate::protocol::SpanView;
use crate::value::JsonValue;

verus! {

/// Extraction depends on nothing but the configuration and the attributes:
/// whenever the same attributes are extracted again, the record is the same.
pub proof fn lemma_extraction_is_repeatable(
    config: ConfigView,
    attributes: Seq<AttributeView>,
    first: FieldRecordView,
    second: FieldRecordView,
)
    requires
        first == extracted(config, attributes),
        second == extracted(config, attributes),
    ensures
        first == second,
{
}

/// No two attributes of the list share a name.
pub open spec fn unique_names(attributes: Seq<AttributeView>) -> bool {
    forall|i: int, j: int|
        0 <= i < j < attributes.len() ==> (#[trigger] attributes[i]).name != (
        #[trigger] attributes[j]).name
}

/// The typed value under which an attribute is stored; an error is not
/// stored.
pub open spec fn stored_value(config: ConfigView, value: AttributeValueView) -> Option<JsonValue> {
    match value {
        AttributeValueView::Int(n) => Some(JsonValue::Number(n as int)),
        AttributeValueView::UInt(n) => Some(JsonValue::Number(n as int)),
        AttributeValueView::Bool(b) => Some(JsonValue::Bool(b)),
        AttributeValueView::Str(s) => Some(JsonValue::Text(stored_text(config, s))),
        AttributeValueView::Debug(s) => Some(JsonValue::Text(stored_text(config, s))),
        AttributeValueView::Error(_) => None,
    }
}

proof fn lemma_other_names_keep_their_value(
    record: FieldRecordView,
    config: ConfigView,
    attribute: AttributeView,
    name: Seq<char>,
)
    requires
        attribute.name != name,
    ensures
        record_attribute(record, config, attribute).structured.contains_key(name)
            == record.structured.contains_key(name),
        record_attribute(record, config, attribute).structured[name] == record.structured[name],
{
}

/// Where the names are unique, every attribute that is stored is found
/// under its own name with its own value: none is overwritten by another.
pub proof fn lemma_unique_names_are_all_kept(
    config: ConfigView,
    attributes: Seq<AttributeView>,
    i: int,
)
    requires
        unique_names(attributes),
        0 <= i < attributes.len(),
        !is_promoted(config, attributes[i].name),
        stored_value(config, attributes[i].value) is Some,
    ensures
        extracted(config, attributes).structured.contains_key(attributes[i].name),
        Some(extracted(config, attributes).structured[attributes[i].name]) == stored_value(
            config,
            attributes[i].value,
        ),
    decreases attributes.len(),
{
    let front = attributes.drop_last();
    let before = record_all(empty_record(), config, front);
    if i == attributes.len() - 1 {
    } else {
        assert(unique_names(front)) by {
            assert forall|a: int, b: int| 0 <= a < b < front.len() implies (
            #[trigger] front[a]).name != (#[trigger] front[b]).name by {
                assert(attributes[a].name != attributes[b].name);
            }
        }
        assert(front[i] == attributes[i]);
        lemma_unique_names_are_all_kept(config, front, i);
        assert(attributes[i].name != attributes[attributes.len() - 1].name);
        lemma_other_names_keep_their_value(before, config, attributes.last(), attributes[i].name);
    }
}

/// The attribute named by the promote key never appears in the structured
/// data, whatever attributes are visited.
pub proof fn lemma_promoted_is_never_stored(
    config: ConfigView,
    attributes: Seq<AttributeView>,
    key: Seq<char>,
)
    requires
        config.event_type_field == Some(key),
    ensures
        !extracted(config, attributes).structured.contains_key(key),
    decreases attributes.len(),
{
    if attributes.len() > 0 {
        lemma_promoted_is_never_stored(config, attributes.drop_last(), key);
    }
}

/// One visit changes at most one part of the record: the label, or the
/// structured data with its display line and, for `log.target`, the
/// category, or the extracted errors.
pub proof fn lemma_one_attribute_feeds_one_part(
    record: FieldRecordView,
    config: ConfigView,
    attribute: AttributeView,
)
    ensures
        ({
            let after = record_attribute(record, config, attribute);
            if attribute.value is Error {
                after == (FieldRecordView {
                    extracted_errors: after.extracted_errors,
                    ..record
                })
            } else if is_promoted(config, attribute.name) {
                after == (FieldRecordView { promoted_label: after.promoted_label, ..record })
            } else {
                &&& after.promoted_label == record.promoted_label
                &&& after.extracted_errors == record.extracted_errors
                &&& after.structured.contains_key(attribute.name)
                &&& after.display_log.len() == record.display_log.len() + 1
            }
        }),
{
}

/// A transition of a span after its creation.
pub enum Transition {
    Enter { now: u64 },
    Exit { now: u64, wall: SystemTime },
}

impl Transition {
    /// The monotonic time of the transition.
    pub open spec fn time(self) -> u64 {
        match self {
            Transition::Enter { now } => now,
            Transition::Exit { now, wall } => now,
        }
    }
}

/// The state of a span after one transition.
pub open spec fn after_transition(node: TraceView, step: Transition) -> TraceView {
    match step {
        Transition::Enter { now } => entered(node, now),
        Transition::Exit { now, wall } => exited(node, now, wall),
    }
}

/// The state of a span after a list of transitions, in order.
pub open spec fn after_transitions(node: TraceView, steps: Seq<Transition>) -> TraceView
    decreases steps.len(),
{
    if steps.len() == 0 {
        node
    } else {
        after_transition(after_transitions(node, steps.drop_last()), steps.last())
    }
}

/// The clock never ran backwards: the first transition is not before
/// `start`, and none is before the one that precedes it.
pub open spec fn in_time_order(start: u64, steps: Seq<Transition>) -> bool {
    &&& forall|i: int| 0 <= i < steps.len() ==> start <= (#[trigger] steps[i]).time()
    &&& forall|i: int, j: int|
        0 <= i <= j < steps.len() ==> (#[trigger] steps[i]).time() <= (#[trigger] steps[j]).time()
}

/// The latest time among `start` and the transitions.
pub open spec fn latest_time(start: u64, steps: Seq<Transition>) -> u64 {
    if steps.len() == 0 {
        start
    } else {
        steps.last().time()
    }
}

/// Every transition keeps the balance of busy and idle time, whatever the
/// clock reads.
pub proof fn lemma_transitions_keep_balance(node: TraceView, step: Transition)
    requires
        balanced(node),
    ensures
        balanced(after_transition(node, step)),
{
}

proof fn lemma_ordered_transitions(
    span: SpanView,
    created: u64,
    wall: SystemTime,
    steps: Seq<Transition>,
)
    requires
        in_time_order(created, steps),
    ensures
        ({
            let node = after_transitions(created_node(span, created, wall), steps);
            &&& balanced(node)
            &&& node.created == created
            &&& node.last == latest_time(created, steps)
        }),
    decreases steps.len(),
{
    if steps.len() > 0 {
        let front = steps.drop_last();
        assert(in_time_order(created, front)) by {
            assert forall|i: int| 0 <= i < front.len() implies created <= (
            #[trigger] front[i]).time() by {
                assert(front[i] == steps[i]);
            }
            assert forall|i: int, j: int| 0 <= i <= j < front.len() implies (
            #[trigger] front[i]).time() <= (#[trigger] front[j]).time() by {
                assert(front[i] == steps[i] && front[j] == steps[j]);
            }
        }
        lemma_ordered_transitions(span, created, wall, front);
        let before = after_transitions(created_node(span, created, wall), front);
        lemma_transitions_keep_balance(before, steps.last());
        if front.len() > 0 {
            assert(front.last() == steps[steps.len() - 2]);
            assert(steps[steps.len() - 2].time() <= steps[steps.len() - 1].time());
        } else {
            assert(created <= steps[0].time());
        }
    }
}

/// Busy and idle time are conserved: for a span that was entered and
/// exited any number of times before it closed, on a clock that never ran
/// backwards, the busy and the idle time of its timings together are the
/// time from its creation to its close.
pub proof fn lemma_busy_and_idle_are_conserved(
    span: SpanView,
    created: u64,
    wall: SystemTime,
    steps: Seq<Transition>,
    closed: u64,
)
    requires
        in_time_order(created, steps),
        latest_time(created, steps) <= closed,
    ensures
        ({
            let node = after_transitions(created_node(span, created, wall), steps);
            let timings = timings_at_close(node, closed);
            timings.busy + timings.idle == closed - created
        }),
{
    lemma_ordered_transitions(span, created, wall, steps);
}

/// The nearest tracked ancestor depends only on which spans are tracked.
pub proof fn lemma_nearest_depends_on_domain(first: Forest, second: Forest, ancestors: Seq<u64>)
    requires
        first.dom() == second.dom(),
    ensures
        nearest_tracked(first, ancestors) == nearest_tracked(second, ancestors),
    decreases ancestors.len(),
{
    if ancestors.len() > 0 {
        lemma_nearest_depends_on_domain(
            first,
            second,
            ancestors.subrange(1, ancestors.len() as int),
        );
    }
}

/// A span closes once: after its close it is no longer tracked, and
/// another close of it emits nothing and changes nothing.
pub proof fn lemma_a_span_closes_once(
    forest: Forest,
    id: u64,
    ancestors: Seq<u64>,
    closed: u64,
    again_ancestors: Seq<u64>,
    again: u64,
)
    ensures
        ({
            let after = after_close(forest, id, ancestors, closed);
            &&& !after.contains_key(id)
            &&& after_close(after, id, again_ancestors, again) == after
            &&& emitted_at_close(after, id, again_ancestors, again) is None
        }),
{
    if forest.contains_key(id) {
        lemma_nearest_is_tracked(forest.remove(id), ancestors);
    }
}

/// Closing order is kept: where two spans `a` and `b` close under the same
/// tracked span `p`, first `a` and then `b`, the parent holds what it held
/// before, then what had closed under `a`, then `a`, then what had closed
/// under `b`, then `b`. So `a` stands before `b`.
pub proof fn lemma_close_order_is_kept(
    forest: Forest,
    a: u64,
    ancestors_a: Seq<u64>,
    closed_a: u64,
    b: u64,
    ancestors_b: Seq<u64>,
    closed_b: u64,
    p: u64,
)
    requires
        forest.contains_key(a),
        forest.contains_key(b),
        forest.contains_key(p),
        a != b,
        a != p,
        b != p,
        nearest_tracked(forest.remove(a), ancestors_a) == Some(p),
        nearest_tracked(forest.remove(a).remove(b), ancestors_b) == Some(p),
    ensures
        ({
            let after_a = after_close(forest, a, ancestors_a, closed_a);
            let after_b = after_close(after_a, b, ancestors_b, closed_b);
            let parent_after_a = adopted(forest[p], forest[a], closed_a);
            let held = after_b[p].spans;
            let place_a: int = (forest[p].spans.len() + forest[a].spans.len()) as int;
            let place_b: int = place_a + 1 + forest[b].spans.len();
            &&& after_b.contains_key(p)
            &&& !after_b.contains_key(a)
            &&& !after_b.contains_key(b)
            &&& held == forest[p].spans + forest[a].spans + seq![
                attached_summary(forest[a], forest[p], closed_a),
            ] + forest[b].spans + seq![attached_summary(forest[b], parent_after_a, closed_b)]
            &&& place_a < place_b < held.len()
            &&& held[place_a].span_id == forest[a].span.span_id
            &&& held[place_b].span_id == forest[b].span.span_id
        }),
{
    let after_a = after_close(forest, a, ancestors_a, closed_a);
    let parent_after_a = adopted(forest[p], forest[a], closed_a);
    assert(after_a == forest.remove(a).insert(p, parent_after_a));
    assert(after_a.remove(b).dom() =~= forest.remove(a).remove(b).dom());
    lemma_nearest_depends_on_domain(after_a.remove(b), forest.remove(a).remove(b), ancestors_b);
    let after_b = after_close(after_a, b, ancestors_b, closed_b);
    assert(after_a[b] == forest[b]);
    assert(after_a.remove(b)[p] == parent_after_a);
    assert(after_b[p] == adopted(parent_after_a, forest[b], closed_b));
}

} // verus!
