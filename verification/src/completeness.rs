//! Tree completeness: the transaction that a closing root emits holds every
//! other span of its trace, each exactly once.

use std::time::SystemTime;
use vstd::prelude::*;
use crate::fields::AttributeView;
use crate::layer::{
    after_close, after_enter, after_exit, after_new_span, emitted_at_close, inherited_trace,
    lemma_nearest_is_tracked, nearest_tracked, Forest,
};
use crate::protocol::{SpanView, TransactionView};

verus! {

/// One call of a lifecycle hook of the engine.
pub enum Step {
    Create {
        id: u64,
        ancestors: Seq<u64>,
        name: Seq<char>,
        attributes: Seq<AttributeView>,
        span_id: u128,
        fresh_trace: u128,
        now: u64,
        wall: SystemTime,
    },
    Enter { id: u64, now: u64 },
    Exit { id: u64, now: u64, wall: SystemTime },
    Close { id: u64, ancestors: Seq<u64>, now: u64 },
}

/// The tracked spans after one step.
#[verifier::opaque]
pub open spec fn step_forest(forest: Forest, step: Step) -> Forest {
    match step {
        Step::Create { id, ancestors, name, attributes, span_id, fresh_trace, now, wall } => {
            after_new_span(
                forest,
                id,
                ancestors,
                name,
                attributes,
                span_id,
                fresh_trace,
                now,
                wall,
            )
        },
        Step::Enter { id, now } => after_enter(forest, id, now),
        Step::Exit { id, now, wall } => after_exit(forest, id, now, wall),
        Step::Close { id, ancestors, now } => after_close(forest, id, ancestors, now),
    }
}

/// The transaction that one step emits.
#[verifier::opaque]
pub open spec fn step_emits(forest: Forest, step: Step) -> Option<TransactionView> {
    match step {
        Step::Close { id, ancestors, now } => emitted_at_close(forest, id, ancestors, now),
        _ => None,
    }
}

/// The tracked spans after a history of steps, starting with none.
pub open spec fn forest_after(steps: Seq<Step>) -> Forest
    decreases steps.len(),
{
    if steps.len() == 0 {
        Map::empty()
    } else {
        step_forest(forest_after(steps.drop_last()), steps.last())
    }
}

/// The span that a step starts to track, as its identifier and the trace
/// that it joins.
pub open spec fn creates(forest: Forest, step: Step) -> Option<(u128, u128)> {
    match step {
        Step::Create { id, ancestors, name, attributes, span_id, fresh_trace, now, wall } => {
            if forest.contains_key(id) {
                None
            } else {
                Some(
                    (
                        span_id,
                        match inherited_trace(forest, ancestors) {
                            Some(trace) => trace,
                            None => fresh_trace,
                        },
                    ),
                )
            }
        },
        _ => None,
    }
}

/// The identifiers of all spans that a history has tracked in a trace,
/// open or closed.
pub open spec fn members(steps: Seq<Step>, trace: u128) -> Set<u128>
    decreases steps.len(),
{
    if steps.len() == 0 {
        Set::empty()
    } else {
        let before = members(steps.drop_last(), trace);
        match creates(forest_after(steps.drop_last()), steps.last()) {
            Some((span, joined)) => if joined == trace {
                before.insert(span)
            } else {
                before
            },
            None => before,
        }
    }
}

/// The ancestors of each span, from the nearest to the outermost, form a
/// tree: no span is its own ancestor, and the ancestors of an ancestor are
/// the ancestors beyond it.
pub open spec fn nested(tree: Map<u64, Seq<u64>>) -> bool {
    forall|id: u64, i: int|
        tree.contains_key(id) && 0 <= i < tree[id].len() ==> {
            &&& (#[trigger] tree[id][i]) != id
            &&& tree.contains_key(tree[id][i]) ==> tree[tree[id][i]] == tree[id].subrange(
                i + 1,
                tree[id].len() as int,
            )
        }
}

/// No tracked span has `id` among its ancestors.
pub open spec fn no_open_descendant(tree: Map<u64, Seq<u64>>, forest: Forest, id: u64) -> bool {
    forall|n: u64| #[trigger] forest.contains_key(n) ==> !tree[n].contains(id)
}

/// The step agrees with the tree and with the history before it. A span is
/// created with its ancestors in the tree, before any of its descendants,
/// with an identifier that no span had before and, where it starts a trace,
/// a trace identifier that no trace had before. A span is closed with the
/// same ancestors, after all of its descendants.
pub open spec fn legal(tree: Map<u64, Seq<u64>>, history: Seq<Step>, step: Step) -> bool {
    let forest = forest_after(history);
    match step {
        Step::Create { id, ancestors, name, attributes, span_id, fresh_trace, now, wall } => {
            forest.contains_key(id) || {
                &&& tree.contains_key(id)
                &&& ancestors == tree[id]
                &&& no_open_descendant(tree, forest, id)
                &&& forall|trace: u128| !(#[trigger] members(history, trace)).contains(span_id)
                &&& nearest_tracked(forest, ancestors) is None ==> forall|span: u128|
                    !(#[trigger] members(history, fresh_trace).contains(span))
            }
        },
        Step::Close { id, ancestors, now } => {
            forest.contains_key(id) ==> ancestors == tree[id] && no_open_descendant(
                tree,
                forest,
                id,
            )
        },
        _ => true,
    }
}

/// Every step of the history is legal after the steps before it.
pub open spec fn orderly(tree: Map<u64, Seq<u64>>, steps: Seq<Step>) -> bool
    decreases steps.len(),
{
    steps.len() > 0 ==> orderly(tree, steps.drop_last()) && legal(
        tree,
        steps.drop_last(),
        steps.last(),
    )
}

/// The identifiers of a list of span summaries, in order.
pub open spec fn span_ids(spans: Seq<SpanView>) -> Seq<u128> {
    Seq::new(spans.len(), |i: int| spans[i].span_id)
}

spec fn sid(forest: Forest, n: u64) -> u128 {
    forest[n].span.span_id
}

spec fn trace_of(forest: Forest, n: u64) -> u128 {
    forest[n].span.trace_id
}

spec fn held_count(forest: Forest, n: u64) -> int {
    forest[n].spans.len() as int
}

spec fn held_id(forest: Forest, n: u64, i: int) -> u128 {
    forest[n].spans[i].span_id
}

/// The same spans are tracked, with the same identifiers and the same
/// spans held.
spec fn same_cells(before: Forest, after: Forest) -> bool {
    &&& after.dom() == before.dom()
    &&& forall|n: u64| #[trigger]
        before.contains_key(n) ==> {
            &&& sid(after, n) == sid(before, n)
            &&& trace_of(after, n) == trace_of(before, n)
            &&& after[n].spans == before[n].spans
        }
}

proof fn lemma_first_tracked(forest: Forest, ancestors: Seq<u64>)
    ensures
        match nearest_tracked(forest, ancestors) {
            Some(parent) => exists|i: int|
                0 <= i < ancestors.len() && #[trigger] ancestors[i] == parent
                    && forest.contains_key(parent) && forall|j: int|
                    0 <= j < i ==> !forest.contains_key(#[trigger] ancestors[j]),
            None => forall|j: int|
                0 <= j < ancestors.len() ==> !forest.contains_key(#[trigger] ancestors[j]),
        },
    decreases ancestors.len(),
{
    if ancestors.len() > 0 {
        if forest.contains_key(ancestors[0]) {
            assert(ancestors[0] == ancestors[0]);
        } else {
            let rest = ancestors.subrange(1, ancestors.len() as int);
            lemma_first_tracked(forest, rest);
            match nearest_tracked(forest, rest) {
                Some(parent) => {
                    let i = choose|i: int|
                        0 <= i < rest.len() && #[trigger] rest[i] == parent
                            && forest.contains_key(parent) && forall|j: int|
                            0 <= j < i ==> !forest.contains_key(#[trigger] rest[j]);
                    assert(ancestors[i + 1] == parent);
                    assert forall|j: int| 0 <= j < i + 1 implies !forest.contains_key(
                        #[trigger] ancestors[j],
                    ) by {
                        if j > 0 {
                            assert(rest[j - 1] == ancestors[j]);
                        }
                    }
                },
                None => {
                    assert forall|j: int| 0 <= j < ancestors.len() implies !forest.contains_key(
                        #[trigger] ancestors[j],
                    ) by {
                        if j > 0 {
                            assert(rest[j - 1] == ancestors[j]);
                        }
                    }
                },
            }
        }
    }
}

proof fn lemma_step_enter_exit(forest: Forest, step: Step)
    requires
        step is Enter || step is Exit,
    ensures
        same_cells(forest, step_forest(forest, step)),
        step_emits(forest, step) is None,
        creates(forest, step) is None,
{
    reveal(step_forest);
    reveal(step_emits);
    let after = step_forest(forest, step);
    assert(after.dom() =~= forest.dom());
}

proof fn lemma_step_create_again(forest: Forest, step: Step)
    requires
        step is Create,
        forest.contains_key(step->Create_id),
    ensures
        step_forest(forest, step) == forest,
        step_emits(forest, step) is None,
        creates(forest, step) is None,
{
    reveal(step_forest);
    reveal(step_emits);
}

proof fn lemma_step_create(forest: Forest, step: Step)
    requires
        step is Create,
        !forest.contains_key(step->Create_id),
    ensures
        ({
            let after = step_forest(forest, step);
            let id = step->Create_id;
            &&& after.dom() == forest.dom().insert(id)
            &&& forall|n: u64| #[trigger] forest.contains_key(n) ==> after[n] == forest[n]
            &&& creates(forest, step) == Some((sid(after, id), trace_of(after, id)))
            &&& sid(after, id) == step->Create_span_id
            &&& held_count(after, id) == 0
            &&& step_emits(forest, step) is None
        }),
{
    reveal(step_forest);
    reveal(step_emits);
    let after = step_forest(forest, step);
    assert(after.dom() =~= forest.dom().insert(step->Create_id));
}

proof fn lemma_step_close_absent(forest: Forest, step: Step)
    requires
        step is Close,
        !forest.contains_key(step->Close_id),
    ensures
        step_forest(forest, step) == forest,
        step_emits(forest, step) is None,
        creates(forest, step) is None,
{
    reveal(step_forest);
    reveal(step_emits);
}

proof fn lemma_step_close_attached(forest: Forest, step: Step, parent: u64)
    requires
        step is Close,
        forest.contains_key(step->Close_id),
        nearest_tracked(forest.remove(step->Close_id), step->Close_ancestors) == Some(parent),
    ensures
        ({
            let after = step_forest(forest, step);
            let id = step->Close_id;
            &&& parent != id
            &&& forest.contains_key(parent)
            &&& step->Close_ancestors.contains(parent)
            &&& after.dom() == forest.dom().remove(id)
            &&& forall|n: u64|
                #[trigger] forest.contains_key(n) && n != id && n != parent ==> after[n]
                    == forest[n]
            &&& sid(after, parent) == sid(forest, parent)
            &&& trace_of(after, parent) == trace_of(forest, parent)
            &&& held_count(after, parent) == held_count(forest, parent) + held_count(forest, id)
                + 1
            &&& forall|i: int|
                0 <= i < held_count(forest, parent) ==> #[trigger] held_id(after, parent, i)
                    == held_id(forest, parent, i)
            &&& forall|i: int|
                held_count(forest, parent) <= i < held_count(forest, parent) + held_count(
                    forest,
                    id,
                ) ==> #[trigger] held_id(after, parent, i) == held_id(
                    forest,
                    id,
                    i - held_count(forest, parent),
                )
            &&& held_id(after, parent, held_count(forest, parent) + held_count(forest, id))
                == sid(forest, id)
            &&& step_emits(forest, step) is None
            &&& creates(forest, step) is None
        }),
{
    reveal(step_forest);
    reveal(step_emits);
    let id = step->Close_id;
    let after = step_forest(forest, step);
    lemma_nearest_is_tracked(forest.remove(id), step->Close_ancestors);
    assert(after.dom() =~= forest.dom().remove(id));
}

proof fn lemma_step_close_root(forest: Forest, step: Step)
    requires
        step is Close,
        forest.contains_key(step->Close_id),
        nearest_tracked(forest.remove(step->Close_id), step->Close_ancestors) is None,
    ensures
        ({
            let after = step_forest(forest, step);
            let id = step->Close_id;
            &&& after.dom() == forest.dom().remove(id)
            &&& forall|n: u64| #[trigger] forest.contains_key(n) && n != id ==> after[n] == forest[n]
            &&& step_emits(forest, step) matches Some(transaction) && transaction.event_id
                == trace_of(forest, id) && transaction.root.span_id == sid(forest, id)
                && transaction.spans == forest[id].spans
            &&& creates(forest, step) is None
        }),
{
    reveal(step_forest);
    reveal(step_emits);
    let id = step->Close_id;
    let after = step_forest(forest, step);
    assert(after.dom() =~= forest.dom().remove(id));
}

/// The span that started a trace.
spec fn origin(steps: Seq<Step>, trace: u128) -> u64
    decreases steps.len(),
{
    if steps.len() == 0 {
        0
    } else {
        let forest = forest_after(steps.drop_last());
        match steps.last() {
            Step::Create { id, ancestors, name, attributes, span_id, fresh_trace, now, wall } => {
                if !forest.contains_key(id) && nearest_tracked(forest, ancestors) is None
                    && fresh_trace == trace {
                    id
                } else {
                    origin(steps.drop_last(), trace)
                }
            },
            _ => origin(steps.drop_last(), trace),
        }
    }
}

/// None of the span's ancestors is tracked.
spec fn rootless(tree: Map<u64, Seq<u64>>, forest: Forest, r: u64) -> bool {
    forall|i: int| 0 <= i < tree[r].len() ==> !forest.contains_key(#[trigger] tree[r][i])
}

/// The span that started the trace of `n` is tracked, has no tracked
/// ancestor, and is `n` itself or one of its ancestors.
spec fn rooted(tree: Map<u64, Seq<u64>>, steps: Seq<Step>, forest: Forest, n: u64) -> bool {
    let r = origin(steps, trace_of(forest, n));
    &&& forest.contains_key(r)
    &&& trace_of(forest, r) == trace_of(forest, n)
    &&& rootless(tree, forest, r)
    &&& (r == n || tree[n].contains(r))
}

spec fn in_tree(tree: Map<u64, Seq<u64>>, forest: Forest) -> bool {
    forall|n: u64| #[trigger] forest.contains_key(n) ==> tree.contains_key(n)
}

spec fn one_trace_per_branch(tree: Map<u64, Seq<u64>>, forest: Forest) -> bool {
    forall|n: u64, i: int|
        forest.contains_key(n) && 0 <= i < tree[n].len() && forest.contains_key(
            #[trigger] tree[n][i],
        ) ==> trace_of(forest, tree[n][i]) == trace_of(forest, n)
}

spec fn all_rooted(tree: Map<u64, Seq<u64>>, steps: Seq<Step>, forest: Forest) -> bool {
    forall|n: u64| #[trigger] forest.contains_key(n) ==> rooted(tree, steps, forest, n)
}

spec fn occupied(forest: Forest, trace: u128) -> bool {
    exists|n: u64| #[trigger] forest.contains_key(n) && trace_of(forest, n) == trace
}

spec fn is_open(forest: Forest, trace: u128, span: u128) -> bool {
    exists|n: u64| #[trigger]
        forest.contains_key(n) && trace_of(forest, n) == trace && sid(forest, n) == span
}

spec fn is_held(forest: Forest, trace: u128, span: u128) -> bool {
    exists|n: u64, i: int|
        forest.contains_key(n) && trace_of(forest, n) == trace && 0 <= i < held_count(forest, n)
            && #[trigger] held_id(forest, n, i) == span
}

spec fn open_are_members(steps: Seq<Step>, forest: Forest) -> bool {
    forall|n: u64| #[trigger]
        forest.contains_key(n) ==> members(steps, trace_of(forest, n)).contains(sid(forest, n))
}

spec fn held_are_members(steps: Seq<Step>, forest: Forest) -> bool {
    forall|n: u64, i: int|
        forest.contains_key(n) && 0 <= i < held_count(forest, n) ==> members(
            steps,
            trace_of(forest, n),
        ).contains(#[trigger] held_id(forest, n, i))
}

spec fn open_differ(forest: Forest) -> bool {
    forall|n: u64, m: u64|
        #[trigger] forest.contains_key(n) && #[trigger] forest.contains_key(m) && n != m ==> sid(
            forest,
            n,
        ) != sid(forest, m)
}

spec fn held_differ(forest: Forest) -> bool {
    forall|n: u64, i: int, m: u64, j: int|
        forest.contains_key(n) && forest.contains_key(m) && 0 <= i < held_count(forest, n) && 0
            <= j < held_count(forest, m) && (n != m || i != j) ==> #[trigger] held_id(
            forest,
            n,
            i,
        ) != #[trigger] held_id(forest, m, j)
}

spec fn open_not_held(forest: Forest) -> bool {
    forall|n: u64, m: u64, j: int|
        #[trigger] forest.contains_key(n) && forest.contains_key(m) && 0 <= j < held_count(
            forest,
            m,
        ) ==> sid(forest, n) != #[trigger] held_id(forest, m, j)
}

spec fn members_are_placed(steps: Seq<Step>, forest: Forest) -> bool {
    forall|trace: u128, span: u128|
        #[trigger] members(steps, trace).contains(span) && occupied(forest, trace) ==> is_open(
            forest,
            trace,
            span,
        ) || is_held(forest, trace, span)
}

/// What holds of the tracked spans after every orderly history.
spec fn sound(tree: Map<u64, Seq<u64>>, steps: Seq<Step>) -> bool {
    let forest = forest_after(steps);
    &&& in_tree(tree, forest)
    &&& one_trace_per_branch(tree, forest)
    &&& all_rooted(tree, steps, forest)
    &&& open_are_members(steps, forest)
    &&& held_are_members(steps, forest)
    &&& open_differ(forest)
    &&& held_differ(forest)
    &&& open_not_held(forest)
    &&& members_are_placed(steps, forest)
}

proof fn lemma_unfold_push(steps: Seq<Step>, step: Step)
    ensures
        forest_after(steps.push(step)) == step_forest(forest_after(steps), step),
        forall|trace: u128| #[trigger]
            members(steps.push(step), trace) == (match creates(forest_after(steps), step) {
                Some((span, joined)) => if joined == trace {
                    members(steps, trace).insert(span)
                } else {
                    members(steps, trace)
                },
                None => members(steps, trace),
            }),
        forall|trace: u128| #[trigger]
            origin(steps.push(step), trace) == (match step {
                Step::Create { id, ancestors, name, attributes, span_id, fresh_trace, now, wall } => {
                    if !forest_after(steps).contains_key(id) && nearest_tracked(
                        forest_after(steps),
                        ancestors,
                    ) is None && fresh_trace == trace {
                        id
                    } else {
                        origin(steps, trace)
                    }
                },
                _ => origin(steps, trace),
            }),
{
    assert(steps.push(step).drop_last() =~= steps);
}

/// A step that tracks no new span and leaves every cell as it is keeps
/// the invariant.
proof fn lemma_keep_same_cells(tree: Map<u64, Seq<u64>>, steps: Seq<Step>, step: Step)
    requires
        sound(tree, steps),
        same_cells(forest_after(steps), step_forest(forest_after(steps), step)),
        creates(forest_after(steps), step) is None,
    ensures
        sound(tree, steps.push(step)),
{
    let before = forest_after(steps);
    let after = step_forest(before, step);
    let later = steps.push(step);
    lemma_unfold_push(steps, step);
    assert forall|n: u64| #[trigger] after.contains_key(n) implies before.contains_key(n) by {}
    assert forall|n: u64, i: int| 0 <= i < held_count(after, n) && after.contains_key(
        n,
    ) implies #[trigger] held_id(after, n, i) == held_id(before, n, i) by {
        assert(before.contains_key(n));
    }
    assert(in_tree(tree, after));
    assert(one_trace_per_branch(tree, after)) by {
        assert forall|n: u64, i: int|
            after.contains_key(n) && 0 <= i < tree[n].len() && after.contains_key(
                #[trigger] tree[n][i],
            ) implies trace_of(after, tree[n][i]) == trace_of(after, n) by {
            assert(before.contains_key(n));
            assert(before.contains_key(tree[n][i]));
        }
    }
    assert(all_rooted(tree, later, after)) by {
        assert forall|n: u64| #[trigger] after.contains_key(n) implies rooted(
            tree,
            later,
            after,
            n,
        ) by {
            assert(before.contains_key(n));
            assert(rooted(tree, steps, before, n));
            let r = origin(steps, trace_of(before, n));
            assert(origin(later, trace_of(after, n)) == r);
            assert(before.contains_key(r));
            assert(rootless(tree, after, r)) by {
                assert forall|i: int| 0 <= i < tree[r].len() implies !after.contains_key(
                    #[trigger] tree[r][i],
                ) by {
                    assert(!before.contains_key(tree[r][i]));
                }
            }
        }
    }
    assert(open_are_members(later, after)) by {
        assert forall|n: u64| #[trigger] after.contains_key(n) implies members(
            later,
            trace_of(after, n),
        ).contains(sid(after, n)) by {
            assert(before.contains_key(n));
        }
    }
    assert(held_are_members(later, after)) by {
        assert forall|n: u64, i: int|
            after.contains_key(n) && 0 <= i < held_count(after, n) implies members(
                later,
                trace_of(after, n),
            ).contains(#[trigger] held_id(after, n, i)) by {
            assert(before.contains_key(n));
            assert(held_id(after, n, i) == held_id(before, n, i));
        }
    }
    assert(open_differ(after)) by {
        assert forall|n: u64, m: u64|
            #[trigger] after.contains_key(n) && #[trigger] after.contains_key(m) && n
                != m implies sid(after, n) != sid(after, m) by {
            assert(before.contains_key(n) && before.contains_key(m));
        }
    }
    assert(held_differ(after)) by {
        assert forall|n: u64, i: int, m: u64, j: int|
            after.contains_key(n) && after.contains_key(m) && 0 <= i < held_count(after, n) && 0
                <= j < held_count(after, m) && (n != m || i != j) implies #[trigger] held_id(
                after,
                n,
                i,
            ) != #[trigger] held_id(after, m, j) by {
            assert(before.contains_key(n) && before.contains_key(m));
            assert(held_id(before, n, i) != held_id(before, m, j));
        }
    }
    assert(open_not_held(after)) by {
        assert forall|n: u64, m: u64, j: int|
            #[trigger] after.contains_key(n) && after.contains_key(m) && 0 <= j < held_count(
                after,
                m,
            ) implies sid(after, n) != #[trigger] held_id(after, m, j) by {
            assert(before.contains_key(n) && before.contains_key(m));
            assert(sid(before, n) != held_id(before, m, j));
        }
    }
    assert(members_are_placed(later, after)) by {
        assert forall|trace: u128, span: u128|
            #[trigger] members(later, trace).contains(span) && occupied(
                after,
                trace,
            ) implies is_open(after, trace, span) || is_held(after, trace, span) by {
            let w = choose|n: u64| #[trigger]
                after.contains_key(n) && trace_of(after, n) == trace;
            assert(before.contains_key(w));
            assert(occupied(before, trace));
            assert(members(steps, trace).contains(span));
            if is_open(before, trace, span) {
                let n = choose|n: u64| #[trigger]
                    before.contains_key(n) && trace_of(before, n) == trace && sid(before, n)
                        == span;
                assert(after.contains_key(n));
            } else {
                let (n, i) = choose|n: u64, i: int|
                    before.contains_key(n) && trace_of(before, n) == trace && 0 <= i
                        < held_count(before, n) && #[trigger] held_id(before, n, i) == span;
                assert(after.contains_key(n));
                assert(held_id(after, n, i) == span);
            }
        }
    }
}

/// The trace of a new span: that of its nearest tracked ancestor, or the
/// fresh one.
spec fn joined_trace(forest: Forest, ancestors: Seq<u64>, fresh_trace: u128) -> u128 {
    match nearest_tracked(forest, ancestors) {
        Some(parent) => trace_of(forest, parent),
        None => fresh_trace,
    }
}

/// Every tracked ancestor of a new span is in the trace that the span
/// joins.
proof fn lemma_branch_of_new_span(tree: Map<u64, Seq<u64>>, forest: Forest, id: u64, i: int)
    requires
        nested(tree),
        in_tree(tree, forest),
        one_trace_per_branch(tree, forest),
        tree.contains_key(id),
        0 <= i < tree[id].len(),
        forest.contains_key(tree[id][i]),
    ensures
        nearest_tracked(forest, tree[id]) is Some,
        trace_of(forest, tree[id][i]) == trace_of(forest, nearest_tracked(forest, tree[id])->0),
{
    lemma_first_tracked(forest, tree[id]);
    let parent = nearest_tracked(forest, tree[id])->0;
    let k = choose|k: int|
        0 <= k < tree[id].len() && #[trigger] tree[id][k] == parent && forest.contains_key(parent)
            && forall|j: int| 0 <= j < k ==> !forest.contains_key(#[trigger] tree[id][j]);
    if i > k {
        assert(tree.contains_key(parent));
        assert(tree[parent] == tree[id].subrange(k + 1, tree[id].len() as int));
        assert(tree[parent][i - k - 1] == tree[id][i]);
    }
}

/// The span that started the trace of the nearest tracked ancestor is an
/// ancestor of the new span.
proof fn lemma_root_of_new_span(
    tree: Map<u64, Seq<u64>>,
    forest: Forest,
    id: u64,
    parent: u64,
    r: u64,
)
    requires
        nested(tree),
        in_tree(tree, forest),
        tree.contains_key(id),
        nearest_tracked(forest, tree[id]) == Some(parent),
        r == parent || tree[parent].contains(r),
    ensures
        tree[id].contains(r),
{
    lemma_first_tracked(forest, tree[id]);
    let k = choose|k: int|
        0 <= k < tree[id].len() && #[trigger] tree[id][k] == parent && forest.contains_key(parent)
            && forall|j: int| 0 <= j < k ==> !forest.contains_key(#[trigger] tree[id][j]);
    if r != parent {
        assert(tree.contains_key(parent));
        assert(tree[parent] == tree[id].subrange(k + 1, tree[id].len() as int));
        let j = choose|j: int| 0 <= j < tree[parent].len() && tree[parent][j] == r;
        assert(tree[id][k + 1 + j] == r);
    }
}

proof fn lemma_keep_create(tree: Map<u64, Seq<u64>>, steps: Seq<Step>, step: Step)
    requires
        nested(tree),
        sound(tree, steps),
        legal(tree, steps, step),
        step is Create,
        !forest_after(steps).contains_key(step->Create_id),
    ensures
        sound(tree, steps.push(step)),
{
    let before = forest_after(steps);
    let after = step_forest(before, step);
    let later = steps.push(step);
    let id = step->Create_id;
    let span_id = step->Create_span_id;
    let fresh = step->Create_fresh_trace;
    let joined = joined_trace(before, tree[id], fresh);
    lemma_unfold_push(steps, step);
    lemma_step_create(before, step);
    lemma_first_tracked(before, tree[id]);
    assert(trace_of(after, id) == joined);
    assert(sid(after, id) == span_id);
    assert forall|n: u64, i: int| before.contains_key(n) && 0 <= i < tree[n].len() implies (
    #[trigger] tree[n][i]) != id by {
        assert(!tree[n].contains(id));
    }
    assert forall|n: u64, i: int| before.contains_key(n) implies #[trigger] held_id(after, n, i)
        == held_id(before, n, i) by {}
    assert forall|trace: u128| members(steps, trace).subset_of(#[trigger] members(later, trace)) by {}
    assert(in_tree(tree, after));
    assert(one_trace_per_branch(tree, after)) by {
        assert forall|n: u64, i: int|
            after.contains_key(n) && 0 <= i < tree[n].len() && after.contains_key(
                #[trigger] tree[n][i],
            ) implies trace_of(after, tree[n][i]) == trace_of(after, n) by {
            if n == id {
                assert(tree[id][i] != id);
                assert(before.contains_key(tree[id][i]));
                lemma_branch_of_new_span(tree, before, id, i);
            } else {
                assert(before.contains_key(n));
                assert(tree[n][i] != id);
                assert(before.contains_key(tree[n][i]));
            }
        }
    }
    assert(all_rooted(tree, later, after)) by {
        assert forall|n: u64| #[trigger] after.contains_key(n) implies rooted(
            tree,
            later,
            after,
            n,
        ) by {
            if n == id {
                match nearest_tracked(before, tree[id]) {
                    Some(parent) => {
                        assert(before.contains_key(parent));
                        assert(rooted(tree, steps, before, parent));
                        let r = origin(steps, joined);
                        assert(origin(later, joined) == r);
                        lemma_root_of_new_span(tree, before, id, parent, r);
                        assert(before.contains_key(r));
                        assert(rootless(tree, after, r)) by {
                            assert forall|i: int| 0 <= i < tree[r].len() implies !after.contains_key(
                                #[trigger] tree[r][i],
                            ) by {
                                assert(tree[r][i] != id);
                                assert(!before.contains_key(tree[r][i]));
                            }
                        }
                    },
                    None => {
                        assert(origin(later, joined) == id);
                        assert(rootless(tree, after, id)) by {
                            assert forall|i: int| 0 <= i < tree[id].len() implies !after.contains_key(
                                #[trigger] tree[id][i],
                            ) by {
                                assert(tree[id][i] != id);
                                assert(!before.contains_key(tree[id][i]));
                            }
                        }
                    },
                }
            } else {
                assert(before.contains_key(n));
                assert(rooted(tree, steps, before, n));
                let t = trace_of(before, n);
                let r = origin(steps, t);
                assert(members(steps, t).contains(sid(before, n)));
                assert(origin(later, t) == r);
                assert(before.contains_key(r));
                assert(rootless(tree, after, r)) by {
                    assert forall|i: int| 0 <= i < tree[r].len() implies !after.contains_key(
                        #[trigger] tree[r][i],
                    ) by {
                        assert(tree[r][i] != id);
                        assert(!before.contains_key(tree[r][i]));
                    }
                }
            }
        }
    }
    assert(open_are_members(later, after)) by {
        assert forall|n: u64| #[trigger] after.contains_key(n) implies members(
            later,
            trace_of(after, n),
        ).contains(sid(after, n)) by {
            if n != id {
                assert(before.contains_key(n));
                assert(members(steps, trace_of(before, n)).contains(sid(before, n)));
            }
        }
    }
    assert(held_are_members(later, after)) by {
        assert forall|n: u64, i: int|
            after.contains_key(n) && 0 <= i < held_count(after, n) implies members(
                later,
                trace_of(after, n),
            ).contains(#[trigger] held_id(after, n, i)) by {
            assert(n != id);
            assert(before.contains_key(n));
            assert(members(steps, trace_of(before, n)).contains(held_id(before, n, i)));
        }
    }
    assert(open_differ(after)) by {
        assert forall|n: u64, m: u64|
            #[trigger] after.contains_key(n) && #[trigger] after.contains_key(m) && n
                != m implies sid(after, n) != sid(after, m) by {
            if n != id {
                assert(before.contains_key(n));
                assert(members(steps, trace_of(before, n)).contains(sid(before, n)));
            }
            if m != id {
                assert(before.contains_key(m));
                assert(members(steps, trace_of(before, m)).contains(sid(before, m)));
            }
        }
    }
    assert(held_differ(after)) by {
        assert forall|n: u64, i: int, m: u64, j: int|
            after.contains_key(n) && after.contains_key(m) && 0 <= i < held_count(after, n) && 0
                <= j < held_count(after, m) && (n != m || i != j) implies #[trigger] held_id(
                after,
                n,
                i,
            ) != #[trigger] held_id(after, m, j) by {
            assert(n != id && m != id);
            assert(before.contains_key(n) && before.contains_key(m));
            assert(held_id(before, n, i) != held_id(before, m, j));
        }
    }
    assert(open_not_held(after)) by {
        assert forall|n: u64, m: u64, j: int|
            #[trigger] after.contains_key(n) && after.contains_key(m) && 0 <= j < held_count(
                after,
                m,
            ) implies sid(after, n) != #[trigger] held_id(after, m, j) by {
            assert(m != id);
            assert(before.contains_key(m));
            assert(members(steps, trace_of(before, m)).contains(held_id(before, m, j)));
            if n != id {
                assert(before.contains_key(n));
                assert(sid(before, n) != held_id(before, m, j));
            }
        }
    }
    assert(members_are_placed(later, after)) by {
        assert forall|trace: u128, span: u128|
            #[trigger] members(later, trace).contains(span) && occupied(
                after,
                trace,
            ) implies is_open(after, trace, span) || is_held(after, trace, span) by {
            if span == span_id {
                assert(!members(steps, trace).contains(span_id));
                assert(trace == joined);
                assert(after.contains_key(id));
                assert(is_open(after, trace, span));
            } else {
                assert(members(steps, trace).contains(span));
                let w = choose|n: u64| #[trigger]
                    after.contains_key(n) && trace_of(after, n) == trace;
                assert(occupied(before, trace)) by {
                    if w == id {
                        match nearest_tracked(before, tree[id]) {
                            Some(parent) => {
                                assert(before.contains_key(parent));
                            },
                            None => {
                                assert(!members(steps, fresh).contains(span));
                            },
                        }
                    } else {
                        assert(before.contains_key(w));
                    }
                }
                if is_open(before, trace, span) {
                    let n = choose|n: u64| #[trigger]
                        before.contains_key(n) && trace_of(before, n) == trace && sid(before, n)
                            == span;
                    assert(after.contains_key(n));
                } else {
                    let (n, i) = choose|n: u64, i: int|
                        before.contains_key(n) && trace_of(before, n) == trace && 0 <= i
                            < held_count(before, n) && #[trigger] held_id(before, n, i) == span;
                    assert(after.contains_key(n));
                    assert(held_id(after, n, i) == span);
                }
            }
        }
    }
}

/// A span that closes takes the span that started its trace out of no
/// other span's reach: that span is not the one that closes, unless the
/// closing span is alone.
proof fn lemma_root_outlives(tree: Map<u64, Seq<u64>>, steps: Seq<Step>, id: u64, n: u64)
    requires
        sound(tree, steps),
        no_open_descendant(tree, forest_after(steps), id),
        forest_after(steps).contains_key(n),
        n != id,
    ensures
        origin(steps, trace_of(forest_after(steps), n)) != id,
{
    let before = forest_after(steps);
    assert(rooted(tree, steps, before, n));
    assert(!tree[n].contains(id));
}

proof fn lemma_keep_close_attached(
    tree: Map<u64, Seq<u64>>,
    steps: Seq<Step>,
    step: Step,
    parent: u64,
)
    requires
        nested(tree),
        sound(tree, steps),
        legal(tree, steps, step),
        step is Close,
        forest_after(steps).contains_key(step->Close_id),
        nearest_tracked(forest_after(steps).remove(step->Close_id), step->Close_ancestors)
            == Some(parent),
    ensures
        sound(tree, steps.push(step)),
{
    let before = forest_after(steps);
    let after = step_forest(before, step);
    let later = steps.push(step);
    let id = step->Close_id;
    let hp = held_count(before, parent);
    let hx = held_count(before, id);
    lemma_unfold_push(steps, step);
    lemma_step_close_attached(before, step, parent);
    assert(trace_of(before, parent) == trace_of(before, id)) by {
        let k = choose|k: int| 0 <= k < tree[id].len() && tree[id][k] == parent;
        assert(before.contains_key(tree[id][k]));
    }
    assert forall|n: u64| #[trigger] after.contains_key(n) implies before.contains_key(n) && n
        != id && sid(after, n) == sid(before, n) && trace_of(after, n) == trace_of(before, n) by {}
    assert forall|n: u64, i: int| before.contains_key(n) && n != id && n != parent implies #[trigger] held_id(
        after,
        n,
        i,
    ) == held_id(before, n, i) by {}
    assert forall|n: u64| #[trigger] before.contains_key(n) && n != id && n != parent implies held_count(
        after,
        n,
    ) == held_count(before, n) by {}
    assert(in_tree(tree, after));
    assert(one_trace_per_branch(tree, after)) by {
        assert forall|n: u64, i: int|
            after.contains_key(n) && 0 <= i < tree[n].len() && after.contains_key(
                #[trigger] tree[n][i],
            ) implies trace_of(after, tree[n][i]) == trace_of(after, n) by {
            assert(before.contains_key(n));
            assert(before.contains_key(tree[n][i]));
        }
    }
    assert(all_rooted(tree, later, after)) by {
        assert forall|n: u64| #[trigger] after.contains_key(n) implies rooted(
            tree,
            later,
            after,
            n,
        ) by {
            assert(before.contains_key(n));
            assert(rooted(tree, steps, before, n));
            lemma_root_outlives(tree, steps, id, n);
            let r = origin(steps, trace_of(before, n));
            assert(origin(later, trace_of(after, n)) == r);
            assert(after.contains_key(r));
            assert(rootless(tree, after, r)) by {
                assert forall|i: int| 0 <= i < tree[r].len() implies !after.contains_key(
                    #[trigger] tree[r][i],
                ) by {
                    assert(!before.contains_key(tree[r][i]));
                }
            }
        }
    }
    assert(open_are_members(later, after)) by {
        assert forall|n: u64| #[trigger] after.contains_key(n) implies members(
            later,
            trace_of(after, n),
        ).contains(sid(after, n)) by {
            assert(before.contains_key(n));
        }
    }
    assert(held_are_members(later, after)) by {
        assert forall|n: u64, i: int|
            after.contains_key(n) && 0 <= i < held_count(after, n) implies members(
                later,
                trace_of(after, n),
            ).contains(#[trigger] held_id(after, n, i)) by {
            assert(before.contains_key(n));
            if n == parent {
                if i < hp {
                    assert(held_id(after, parent, i) == held_id(before, parent, i));
                } else if i < hp + hx {
                    assert(held_id(after, parent, i) == held_id(before, id, i - hp));
                    assert(members(steps, trace_of(before, id)).contains(
                        held_id(before, id, i - hp),
                    ));
                } else {
                    assert(before.contains_key(id));
                    assert(members(steps, trace_of(before, id)).contains(sid(before, id)));
                }
            } else {
                assert(held_id(after, n, i) == held_id(before, n, i));
            }
        }
    }
    assert(open_differ(after)) by {
        assert forall|n: u64, m: u64|
            #[trigger] after.contains_key(n) && #[trigger] after.contains_key(m) && n
                != m implies sid(after, n) != sid(after, m) by {
            assert(before.contains_key(n) && before.contains_key(m));
        }
    }
    assert(open_not_held(after)) by {
        assert forall|n: u64, m: u64, j: int|
            #[trigger] after.contains_key(n) && after.contains_key(m) && 0 <= j < held_count(
                after,
                m,
            ) implies sid(after, n) != #[trigger] held_id(after, m, j) by {
            assert(before.contains_key(n) && before.contains_key(m) && before.contains_key(id));
            if m == parent {
                if j < hp {
                    assert(sid(before, n) != held_id(before, parent, j));
                } else if j < hp + hx {
                    assert(held_id(after, parent, j) == held_id(before, id, j - hp));
                    assert(sid(before, n) != held_id(before, id, j - hp));
                } else {
                    assert(sid(before, n) != sid(before, id));
                }
            } else {
                assert(sid(before, n) != held_id(before, m, j));
            }
        }
    }
    assert(held_differ(after)) by {
        assert forall|n: u64, i: int, m: u64, j: int|
            after.contains_key(n) && after.contains_key(m) && 0 <= i < held_count(after, n) && 0
                <= j < held_count(after, m) && (n != m || i != j) implies #[trigger] held_id(
                after,
                n,
                i,
            ) != #[trigger] held_id(after, m, j) by {
            assert(before.contains_key(n) && before.contains_key(m) && before.contains_key(id));
            lemma_moved_ids_differ(before, after, id, parent, n, i, m, j);
        }
    }
    assert(members_are_placed(later, after)) by {
        assert forall|trace: u128, span: u128|
            #[trigger] members(later, trace).contains(span) && occupied(
                after,
                trace,
            ) implies is_open(after, trace, span) || is_held(after, trace, span) by {
            let w = choose|n: u64| #[trigger]
                after.contains_key(n) && trace_of(after, n) == trace;
            assert(before.contains_key(w));
            assert(occupied(before, trace));
            assert(members(steps, trace).contains(span));
            if is_open(before, trace, span) {
                let n = choose|n: u64| #[trigger]
                    before.contains_key(n) && trace_of(before, n) == trace && sid(before, n)
                        == span;
                if n == id {
                    assert(after.contains_key(parent));
                    assert(held_id(after, parent, hp + hx) == span);
                    assert(is_held(after, trace, span));
                } else {
                    assert(after.contains_key(n));
                    assert(is_open(after, trace, span));
                }
            } else {
                let (n, i) = choose|n: u64, i: int|
                    before.contains_key(n) && trace_of(before, n) == trace && 0 <= i
                        < held_count(before, n) && #[trigger] held_id(before, n, i) == span;
                if n == id {
                    assert(after.contains_key(parent));
                    assert(held_id(after, parent, hp + i) == held_id(before, id, hp + i - hp));
                    assert(is_held(after, trace, span));
                } else if n == parent {
                    assert(after.contains_key(parent));
                    assert(held_id(after, parent, i) == span);
                    assert(is_held(after, trace, span));
                } else {
                    assert(after.contains_key(n));
                    assert(held_id(after, n, i) == span);
                    assert(is_held(after, trace, span));
                }
            }
        }
    }
}

/// Two places among the spans held after a close hold different spans.
proof fn lemma_moved_ids_differ(
    before: Forest,
    after: Forest,
    id: u64,
    parent: u64,
    n: u64,
    i: int,
    m: u64,
    j: int,
)
    requires
        open_differ(before),
        held_differ(before),
        open_not_held(before),
        before.contains_key(id),
        before.contains_key(parent),
        parent != id,
        before.contains_key(n),
        before.contains_key(m),
        n != id,
        m != id,
        0 <= i < held_count(after, n),
        0 <= j < held_count(after, m),
        n != m || i != j,
        held_count(after, parent) == held_count(before, parent) + held_count(before, id) + 1,
        forall|k: int|
            0 <= k < held_count(before, parent) ==> #[trigger] held_id(after, parent, k)
                == held_id(before, parent, k),
        forall|k: int|
            held_count(before, parent) <= k < held_count(before, parent) + held_count(before, id)
                ==> #[trigger] held_id(after, parent, k) == held_id(
                before,
                id,
                k - held_count(before, parent),
            ),
        held_id(after, parent, held_count(before, parent) + held_count(before, id)) == sid(
            before,
            id,
        ),
        forall|x: u64, k: int|
            before.contains_key(x) && x != id && x != parent ==> #[trigger] held_id(after, x, k)
                == held_id(before, x, k),
        forall|x: u64| #[trigger]
            before.contains_key(x) && x != id && x != parent ==> held_count(after, x)
                == held_count(before, x),
    ensures
        held_id(after, n, i) != held_id(after, m, j),
{
    let hp = held_count(before, parent);
    let hx = held_count(before, id);
    // Where each of the two places came from: a place that was held
    // before, or the closing span itself.
    let from_n = if n != parent || i < hp {
        n
    } else {
        id
    };
    let at_n = if n != parent || i < hp {
        i
    } else {
        i - hp
    };
    let from_m = if m != parent || j < hp {
        m
    } else {
        id
    };
    let at_m = if m != parent || j < hp {
        j
    } else {
        j - hp
    };
    let closing_n = n == parent && i == hp + hx;
    let closing_m = m == parent && j == hp + hx;
    if n != parent {
        assert(held_id(after, n, i) == held_id(before, n, i) && held_count(after, n)
            == held_count(before, n));
    }
    if m != parent {
        assert(held_id(after, m, j) == held_id(before, m, j) && held_count(after, m)
            == held_count(before, m));
    }
    if closing_n && !closing_m {
        assert(held_id(after, m, j) == held_id(before, from_m, at_m));
        assert(sid(before, id) != held_id(before, from_m, at_m));
    } else if closing_m && !closing_n {
        assert(held_id(after, n, i) == held_id(before, from_n, at_n));
        assert(sid(before, id) != held_id(before, from_n, at_n));
    } else if !closing_n && !closing_m {
        assert(held_id(after, n, i) == held_id(before, from_n, at_n));
        assert(held_id(after, m, j) == held_id(before, from_m, at_m));
        assert(from_n != from_m || at_n != at_m);
        assert(held_id(before, from_n, at_n) != held_id(before, from_m, at_m));
    }
}

/// The span that closes as a root is the only tracked span of its trace.
proof fn lemma_root_is_alone(tree: Map<u64, Seq<u64>>, steps: Seq<Step>, step: Step, n: u64)
    requires
        nested(tree),
        sound(tree, steps),
        legal(tree, steps, step),
        step is Close,
        forest_after(steps).contains_key(step->Close_id),
        nearest_tracked(forest_after(steps).remove(step->Close_id), step->Close_ancestors) is None,
        forest_after(steps).contains_key(n),
        trace_of(forest_after(steps), n) == trace_of(forest_after(steps), step->Close_id),
    ensures
        n == step->Close_id,
{
    let before = forest_after(steps);
    let id = step->Close_id;
    lemma_first_tracked(before.remove(id), tree[id]);
    assert(rooted(tree, steps, before, id));
    let r = origin(steps, trace_of(before, id));
    if r != id {
        let k = choose|k: int| 0 <= k < tree[id].len() && tree[id][k] == r;
        assert(!before.remove(id).contains_key(tree[id][k]));
    }
    if n != id {
        lemma_root_outlives(tree, steps, id, n);
    }
}

proof fn lemma_keep_close_root(tree: Map<u64, Seq<u64>>, steps: Seq<Step>, step: Step)
    requires
        nested(tree),
        sound(tree, steps),
        legal(tree, steps, step),
        step is Close,
        forest_after(steps).contains_key(step->Close_id),
        nearest_tracked(forest_after(steps).remove(step->Close_id), step->Close_ancestors) is None,
    ensures
        sound(tree, steps.push(step)),
{
    let before = forest_after(steps);
    let after = step_forest(before, step);
    let later = steps.push(step);
    let id = step->Close_id;
    lemma_unfold_push(steps, step);
    lemma_step_close_root(before, step);
    assert forall|n: u64| #[trigger] after.contains_key(n) implies before.contains_key(n) && n
        != id && after[n] == before[n] by {}
    assert forall|n: u64, i: int| after.contains_key(n) implies #[trigger] held_id(after, n, i)
        == held_id(before, n, i) by {
        assert(before.contains_key(n));
    }
    assert(in_tree(tree, after));
    assert(one_trace_per_branch(tree, after)) by {
        assert forall|n: u64, i: int|
            after.contains_key(n) && 0 <= i < tree[n].len() && after.contains_key(
                #[trigger] tree[n][i],
            ) implies trace_of(after, tree[n][i]) == trace_of(after, n) by {
            assert(before.contains_key(n));
            assert(before.contains_key(tree[n][i]));
        }
    }
    assert(all_rooted(tree, later, after)) by {
        assert forall|n: u64| #[trigger] after.contains_key(n) implies rooted(
            tree,
            later,
            after,
            n,
        ) by {
            assert(before.contains_key(n));
            assert(rooted(tree, steps, before, n));
            lemma_root_outlives(tree, steps, id, n);
            let r = origin(steps, trace_of(before, n));
            assert(origin(later, trace_of(after, n)) == r);
            assert(after.contains_key(r));
            assert(rootless(tree, after, r)) by {
                assert forall|i: int| 0 <= i < tree[r].len() implies !after.contains_key(
                    #[trigger] tree[r][i],
                ) by {
                    assert(!before.contains_key(tree[r][i]));
                }
            }
        }
    }
    assert(open_are_members(later, after)) by {
        assert forall|n: u64| #[trigger] after.contains_key(n) implies members(
            later,
            trace_of(after, n),
        ).contains(sid(after, n)) by {
            assert(before.contains_key(n));
        }
    }
    assert(held_are_members(later, after)) by {
        assert forall|n: u64, i: int|
            after.contains_key(n) && 0 <= i < held_count(after, n) implies members(
                later,
                trace_of(after, n),
            ).contains(#[trigger] held_id(after, n, i)) by {
            assert(before.contains_key(n));
            assert(held_id(after, n, i) == held_id(before, n, i));
        }
    }
    assert(open_differ(after)) by {
        assert forall|n: u64, m: u64|
            #[trigger] after.contains_key(n) && #[trigger] after.contains_key(m) && n
                != m implies sid(after, n) != sid(after, m) by {
            assert(before.contains_key(n) && before.contains_key(m));
        }
    }
    assert(held_differ(after)) by {
        assert forall|n: u64, i: int, m: u64, j: int|
            after.contains_key(n) && after.contains_key(m) && 0 <= i < held_count(after, n) && 0
                <= j < held_count(after, m) && (n != m || i != j) implies #[trigger] held_id(
                after,
                n,
                i,
            ) != #[trigger] held_id(after, m, j) by {
            assert(before.contains_key(n) && before.contains_key(m));
            assert(held_id(before, n, i) != held_id(before, m, j));
        }
    }
    assert(open_not_held(after)) by {
        assert forall|n: u64, m: u64, j: int|
            #[trigger] after.contains_key(n) && after.contains_key(m) && 0 <= j < held_count(
                after,
                m,
            ) implies sid(after, n) != #[trigger] held_id(after, m, j) by {
            assert(before.contains_key(n) && before.contains_key(m));
            assert(sid(before, n) != held_id(before, m, j));
        }
    }
    assert(members_are_placed(later, after)) by {
        assert forall|trace: u128, span: u128|
            #[trigger] members(later, trace).contains(span) && occupied(
                after,
                trace,
            ) implies is_open(after, trace, span) || is_held(after, trace, span) by {
            let w = choose|n: u64| #[trigger]
                after.contains_key(n) && trace_of(after, n) == trace;
            assert(before.contains_key(w));
            assert(occupied(before, trace));
            assert(members(steps, trace).contains(span));
            if trace == trace_of(before, id) {
                lemma_root_is_alone(tree, steps, step, w);
            }
            if is_open(before, trace, span) {
                let n = choose|n: u64| #[trigger]
                    before.contains_key(n) && trace_of(before, n) == trace && sid(before, n)
                        == span;
                assert(after.contains_key(n));
                assert(is_open(after, trace, span));
            } else {
                let (n, i) = choose|n: u64, i: int|
                    before.contains_key(n) && trace_of(before, n) == trace && 0 <= i
                        < held_count(before, n) && #[trigger] held_id(before, n, i) == span;
                assert(after.contains_key(n));
                assert(held_id(after, n, i) == span);
                assert(is_held(after, trace, span));
            }
        }
    }
}

/// Every orderly history keeps the invariant.
proof fn lemma_orderly_is_sound(tree: Map<u64, Seq<u64>>, steps: Seq<Step>)
    requires
        nested(tree),
        orderly(tree, steps),
    ensures
        sound(tree, steps),
    decreases steps.len(),
{
    if steps.len() == 0 {
        let forest = forest_after(steps);
        assert(forest =~= Map::empty());
        assert(!occupied(forest, 0)) by {}
        assert forall|trace: u128| !occupied(forest, trace) by {}
    } else {
        let front = steps.drop_last();
        let step = steps.last();
        let before = forest_after(front);
        lemma_orderly_is_sound(tree, front);
        assert(front.push(step) =~= steps);
        match step {
            Step::Create { id, ancestors, name, attributes, span_id, fresh_trace, now, wall } => {
                if before.contains_key(id) {
                    lemma_step_create_again(before, step);
                    lemma_keep_same_cells(tree, front, step);
                } else {
                    lemma_keep_create(tree, front, step);
                }
            },
            Step::Enter { id, now } => {
                lemma_step_enter_exit(before, step);
                lemma_keep_same_cells(tree, front, step);
            },
            Step::Exit { id, now, wall } => {
                lemma_step_enter_exit(before, step);
                lemma_keep_same_cells(tree, front, step);
            },
            Step::Close { id, ancestors, now } => {
                if !before.contains_key(id) {
                    lemma_step_close_absent(before, step);
                    lemma_keep_same_cells(tree, front, step);
                } else {
                    match nearest_tracked(before.remove(id), ancestors) {
                        Some(parent) => lemma_keep_close_attached(tree, front, step, parent),
                        None => lemma_keep_close_root(tree, front, step),
                    }
                }
            },
        }
    }
}

/// Tree completeness. Take any history of creations, entries, exits and
/// closes in which spans are created after their ancestors and closed
/// after their descendants, and in which no identifier is handed out
/// twice. Where the last step of the history emits a transaction, the
/// spans of that transaction are exactly the spans that the history has
/// tracked in the transaction's trace, but for the root itself, and no
/// span stands among them twice.
pub proof fn lemma_tree_completeness(
    tree: Map<u64, Seq<u64>>,
    history: Seq<Step>,
    transaction: TransactionView,
)
    requires
        nested(tree),
        orderly(tree, history),
        history.len() > 0,
        step_emits(forest_after(history.drop_last()), history.last()) == Some(transaction),
    ensures
        span_ids(transaction.spans).no_duplicates(),
        members(history, transaction.event_id).contains(transaction.root.span_id),
        forall|span: u128|
            span_ids(transaction.spans).contains(span) <==> span != transaction.root.span_id
                && members(history, transaction.event_id).contains(span),
{
    let steps = history.drop_last();
    let step = history.last();
    let before = forest_after(steps);
    assert(steps.push(step) =~= history);
    lemma_orderly_is_sound(tree, steps);
    lemma_unfold_push(steps, step);
    assert(step is Close) by {
        reveal(step_emits);
    }
    let id = step->Close_id;
    assert(before.contains_key(id) && nearest_tracked(before.remove(id), step->Close_ancestors)
        is None) by {
        reveal(step_emits);
    }
    lemma_step_close_root(before, step);
    let trace = trace_of(before, id);
    let ids = span_ids(transaction.spans);
    assert(transaction.spans == before[id].spans);
    assert forall|i: int| 0 <= i < ids.len() implies #[trigger] ids[i] == held_id(before, id, i) by {}
    assert(ids.no_duplicates()) by {
        assert forall|i: int, j: int| 0 <= i < ids.len() && 0 <= j < ids.len() && i != j implies ids[i]
            != ids[j] by {
            assert(held_id(before, id, i) != held_id(before, id, j));
        }
    }
    assert(members(steps, trace).contains(sid(before, id)));
    assert forall|span: u128|
        span_ids(transaction.spans).contains(span) <==> span != transaction.root.span_id
            && members(history, transaction.event_id).contains(span) by {
        if ids.contains(span) {
            let i = choose|i: int| 0 <= i < ids.len() && ids[i] == span;
            assert(held_id(before, id, i) == span);
            assert(members(steps, trace).contains(held_id(before, id, i)));
            assert(sid(before, id) != held_id(before, id, i));
        }
        if span != sid(before, id) && members(steps, trace).contains(span) {
            assert(occupied(before, trace));
            if is_open(before, trace, span) {
                let n = choose|n: u64| #[trigger]
                    before.contains_key(n) && trace_of(before, n) == trace && sid(before, n)
                        == span;
                lemma_root_is_alone(tree, steps, step, n);
            } else {
                let (n, i) = choose|n: u64, i: int|
                    before.contains_key(n) && trace_of(before, n) == trace && 0 <= i
                        < held_count(before, n) && #[trigger] held_id(before, n, i) == span;
                lemma_root_is_alone(tree, steps, step, n);
                assert(ids[i] == span);
            }
        }
    }
}

} // verus!
