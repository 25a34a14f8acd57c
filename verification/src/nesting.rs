//! How the nesting of an outline shows in the events of its walk.

use crate::event::{
    balanced, lemma_counts_push, lemma_wrapped_is_balanced, open_count, wrapped_by_root, Event,
};
use crate::kind::RSyntaxKind;
use crate::outline::{
    open_spans, step_events, walk_events, well_nested_outline, NodeSyntaxKind, SyntaxSpan,
    WalkEvent,
};
use vstd::prelude::*;

verus! {

/// The number of the open nodes that opened a node in the event stream.
pub open spec fn count_opening(open: Seq<SyntaxSpan>) -> nat
    decreases open.len(),
{
    if open.len() == 0 {
        0
    } else if open.last().kind.opens_node() {
        count_opening(open.drop_last()) + 1
    } else {
        count_opening(open.drop_last())
    }
}

/// A node is open after every prefix of the stream but the empty one.
pub open spec fn interior_open(events: Seq<Event>) -> bool {
    forall|n: int| 0 < n <= events.len() ==> open_count(#[trigger] events.take(n)) > 0
}

/// The stream stays open inside when an event is added that leaves a node
/// open.
pub proof fn lemma_interior_push(events: Seq<Event>, event: Event)
    requires
        interior_open(events),
        open_count(events.push(event)) > 0,
    ensures
        interior_open(events.push(event)),
{
    let after = events.push(event);
    assert forall|n: int| 0 < n <= after.len() implies open_count(#[trigger] after.take(n))
        > 0 by {
        if n <= events.len() {
            assert(after.take(n) == events.take(n));
        } else {
            assert(after.take(n) == after);
        }
    }
}

/// The `Finish` that closes the last open node makes the stream one that
/// the root wraps.
pub proof fn lemma_interior_closes(events: Seq<Event>)
    requires
        interior_open(events),
        events.len() >= 1,
        open_count(events) == 1,
    ensures
        wrapped_by_root(events.push(Event::Finish)),
{
    let after = events.push(Event::Finish);
    lemma_counts_push(events, Event::Finish);
    assert forall|n: int| 0 < n < after.len() implies open_count(#[trigger] after.take(n))
        > 0 by {
        assert(after.take(n) == events.take(n));
    }
}

/// Where the whole of `steps` nests, so does each of its prefixes.
pub proof fn lemma_open_spans_prefix(steps: Seq<WalkEvent>, n: int)
    requires
        open_spans(steps) is Some,
        0 <= n <= steps.len(),
    ensures
        open_spans(steps.take(n)) is Some,
    decreases steps.len() - n,
{
    if n == steps.len() {
        assert(steps.take(n) == steps);
    } else {
        lemma_open_spans_prefix(steps, n + 1);
        assert(steps.take(n + 1).drop_last() == steps.take(n));
    }
}

/// No root is among the open nodes.
pub proof fn lemma_open_spans_no_root(steps: Seq<WalkEvent>)
    requires
        open_spans(steps) is Some,
    ensures
        forall|i: int|
            0 <= i < open_spans(steps).unwrap().len() ==> !(#[trigger] open_spans(
                steps,
            ).unwrap()[i]).kind.is_root(),
    decreases steps.len(),
{
    if steps.len() > 0 {
        lemma_open_spans_no_root(steps.drop_last());
    }
}

/// One step inside the root keeps the stream open inside, and leaves as
/// many nodes open as the two of the root and the open nodes of the outline
/// that opened one.
pub proof fn lemma_step_keeps_open(
    events: Seq<Event>,
    step: WalkEvent,
    before: Seq<SyntaxSpan>,
    after: Seq<SyntaxSpan>,
)
    requires
        interior_open(events),
        open_count(events) == 2 + count_opening(before),
        match step {
            WalkEvent::Enter(span) => !span.kind.is_root() && after == before.push(span),
            WalkEvent::Leave(span) => !span.kind.is_root() && before.len() > 0 && before.last()
                == span && after == before.drop_last(),
        },
    ensures
        interior_open(events + step_events(step)),
        open_count(events + step_events(step)) == 2 + count_opening(after),
{
    let added = step_events(step);
    match step {
        WalkEvent::Enter(span) => {
            assert(before.push(span).drop_last() == before);
            if span.kind.opens_node() {
                assert(added.len() == 1);
                assert(events + added =~= events.push(added[0]));
                lemma_counts_push(events, added[0]);
                lemma_interior_push(events, added[0]);
            } else {
                assert(events + added =~= events);
            }
        },
        WalkEvent::Leave(span) => {
            match span.kind {
                NodeSyntaxKind::Comment => {
                    assert(events + added =~= events);
                },
                NodeSyntaxKind::Token(kind) => {
                    assert(events + added =~= events.push(added[0]));
                    lemma_counts_push(events, added[0]);
                    lemma_interior_push(events, added[0]);
                },
                NodeSyntaxKind::Value(kind, token) => {
                    let with_token = events.push(added[0]);
                    assert(events + added =~= with_token.push(added[1]));
                    lemma_counts_push(events, added[0]);
                    lemma_interior_push(events, added[0]);
                    lemma_counts_push(with_token, added[1]);
                    lemma_interior_push(with_token, added[1]);
                },
                NodeSyntaxKind::Node(kind) => {
                    assert(events + added =~= events.push(added[0]));
                    lemma_counts_push(events, added[0]);
                    lemma_interior_push(events, added[0]);
                },
            }
        },
    }
}

/// After the root is entered and `k` more steps are taken, the stream is
/// open inside.
pub proof fn lemma_inner_events_open(steps: Seq<WalkEvent>, k: int)
    requires
        well_nested_outline(steps),
        0 <= k <= steps.len() - 2,
    ensures
        open_spans(steps.subrange(1, steps.len() - 1).take(k)) is Some,
        interior_open(walk_events(steps.take(k + 1))),
        walk_events(steps.take(k + 1)).len() >= 2,
        open_count(walk_events(steps.take(k + 1))) == 2 + count_opening(
            open_spans(steps.subrange(1, steps.len() - 1).take(k)).unwrap(),
        ),
    decreases k,
{
    let inner = steps.subrange(1, steps.len() - 1);
    lemma_open_spans_prefix(inner, k);
    if k == 0 {
        let first = Event::Start { kind: RSyntaxKind::R_ROOT, forward_parent: None };
        let second = Event::Start { kind: RSyntaxKind::R_EXPRESSION_LIST, forward_parent: None };
        let none = Seq::<Event>::empty();
        assert(steps.take(1).drop_last() =~= Seq::<WalkEvent>::empty());
        assert(steps.take(1).last() == steps[0]);
        assert(walk_events(steps.take(1).drop_last()) =~= none);
        assert(walk_events(steps.take(1)) =~= none.push(first).push(second));
        lemma_counts_push(none, first);
        lemma_counts_push(none.push(first), second);
        assert(interior_open(none));
        lemma_interior_push(none, first);
        lemma_interior_push(none.push(first), second);
        assert(inner.take(0) =~= Seq::<WalkEvent>::empty());
    } else {
        lemma_inner_events_open(steps, k - 1);
        lemma_open_spans_prefix(inner, k - 1);
        lemma_open_spans_no_root(inner.take(k - 1));
        lemma_open_spans_no_root(inner.take(k));
        let step = steps[k];
        assert(inner.take(k).drop_last() =~= inner.take(k - 1));
        assert(inner.take(k).last() == step);
        assert(steps.take(k + 1).drop_last() =~= steps.take(k));
        assert(steps.take(k + 1).last() == step);
        let before = open_spans(inner.take(k - 1)).unwrap();
        let after = open_spans(inner.take(k)).unwrap();
        match step {
            WalkEvent::Enter(span) => {},
            WalkEvent::Leave(span) => {
                assert(before.last() == span);
            },
        }
        lemma_step_keeps_open(walk_events(steps.take(k)), step, before, after);
    }
}

/// The events of the walk over a well-nested outline are balanced, and one
/// pair of `Start` and `Finish`, that of the root, wraps them all: there
/// are as many `Start` events as `Finish` events, and after no prefix there
/// are more `Finish` events than `Start` events.
pub proof fn theorem_event_balance(steps: Seq<WalkEvent>)
    requires
        well_nested_outline(steps),
    ensures
        wrapped_by_root(walk_events(steps)),
        balanced(walk_events(steps)),
{
    let n = steps.len() as int;
    let inner = steps.subrange(1, n - 1);
    lemma_inner_events_open(steps, n - 2);
    let events = walk_events(steps.take(n - 1));
    assert(inner.take(n - 2) =~= inner);
    assert(steps.drop_last() =~= steps.take(n - 1));
    assert(count_opening(Seq::<SyntaxSpan>::empty()) == 0);
    assert(walk_events(steps) =~= events.push(Event::Finish).push(Event::Finish));
    lemma_counts_push(events, Event::Finish);
    lemma_interior_push(events, Event::Finish);
    lemma_interior_closes(events.push(Event::Finish));
    lemma_wrapped_is_balanced(walk_events(steps));
}

} // verus!
