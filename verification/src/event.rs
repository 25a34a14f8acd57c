//! The flat stream of events that mirrors a pre-order walk of a syntax tree.

use crate::kind::RSyntaxKind;
use crate::text::TextSize;
use vstd::prelude::*;

verus! {

/// One step of building a tree.
#[derive(Clone, Copy, PartialEq, Eq, Hash, Debug)]
pub enum Event {
    /// Opens a node. Every token up to the matching `Finish` becomes a child
    /// of it. `forward_parent` links the node to a parent that is opened
    /// later in the stream, as a distance in events.
    Start { kind: RSyntaxKind, forward_parent: Option<u32> },
    /// Closes the node opened last.
    Finish,
    /// A single leaf.
    Token {
        kind: RSyntaxKind,
        /// The end offset of the token.
        end: TextSize,
    },
}

/// The number of `Start` events.
pub open spec fn start_count(events: Seq<Event>) -> nat
    decreases events.len(),
{
    if events.len() == 0 {
        0
    } else if events.last() is Start {
        start_count(events.drop_last()) + 1
    } else {
        start_count(events.drop_last())
    }
}

/// The number of `Finish` events.
pub open spec fn finish_count(events: Seq<Event>) -> nat
    decreases events.len(),
{
    if events.len() == 0 {
        0
    } else if events.last() is Finish {
        finish_count(events.drop_last()) + 1
    } else {
        finish_count(events.drop_last())
    }
}

/// The number of nodes that are open after `events`.
pub open spec fn open_count(events: Seq<Event>) -> int {
    start_count(events) - finish_count(events)
}

/// At no prefix of the stream does the number of `Finish` events exceed the
/// number of `Start` events.
pub open spec fn well_nested(events: Seq<Event>) -> bool {
    forall|n: int|
        0 <= n <= events.len() ==> finish_count(#[trigger] events.take(n)) <= start_count(
            events.take(n),
        )
}

/// Every `Token` stands between a `Start` and its `Finish`: a node is open
/// where it comes.
pub open spec fn tokens_inside(events: Seq<Event>) -> bool {
    forall|n: int|
        0 <= n < events.len() && events[n] is Token ==> open_count(#[trigger] events.take(n)) > 0
}

/// Every `Start` has its `Finish`: the stream is well nested and closes all
/// that it opens.
pub open spec fn balanced(events: Seq<Event>) -> bool {
    well_nested(events) && start_count(events) == finish_count(events)
}

/// One pair of `Start` and `Finish` wraps the whole stream: a node is open
/// after every prefix but the empty one and the whole.
pub open spec fn wrapped_by_root(events: Seq<Event>) -> bool {
    &&& events.len() >= 2
    &&& open_count(events) == 0
    &&& forall|n: int| 0 < n < events.len() ==> open_count(#[trigger] events.take(n)) > 0
}

/// The empty stream is balanced.
pub proof fn lemma_empty_is_balanced()
    ensures
        balanced(Seq::<Event>::empty()),
{
    assert forall|n: int| 0 <= n <= 0 implies finish_count(
        #[trigger] Seq::<Event>::empty().take(n),
    ) <= start_count(Seq::<Event>::empty().take(n)) by {
        assert(Seq::<Event>::empty().take(n).len() == 0);
    }
}

/// What one more event adds to the counts.
pub proof fn lemma_counts_push(events: Seq<Event>, event: Event)
    ensures
        start_count(events.push(event)) == start_count(events) + (if event is Start {
            1nat
        } else {
            0nat
        }),
        finish_count(events.push(event)) == finish_count(events) + (if event is Finish {
            1nat
        } else {
            0nat
        }),
{
    assert(events.push(event).drop_last() == events);
}

/// A well-nested stream stays well nested when an event is added, unless
/// the event closes a node where none is open.
pub proof fn lemma_well_nested_push(events: Seq<Event>, event: Event)
    requires
        well_nested(events),
        event is Finish ==> open_count(events) > 0,
    ensures
        well_nested(events.push(event)),
{
    let after = events.push(event);
    lemma_counts_push(events, event);
    assert(events.take(events.len() as int) == events);
    assert forall|n: int| 0 <= n <= after.len() implies finish_count(#[trigger] after.take(n))
        <= start_count(after.take(n)) by {
        if n <= events.len() {
            assert(after.take(n) == events.take(n));
        } else {
            assert(after.take(n) == after);
        }
    }
}

/// A stream whose tokens are inside nodes stays so when an event is added,
/// unless the event is a token where no node is open.
pub proof fn lemma_tokens_inside_push(events: Seq<Event>, event: Event)
    requires
        tokens_inside(events),
        event is Token ==> open_count(events) > 0,
    ensures
        tokens_inside(events.push(event)),
{
    let after = events.push(event);
    assert forall|n: int| 0 <= n < after.len() && after[n] is Token implies open_count(
        #[trigger] after.take(n),
    ) > 0 by {
        if n < events.len() {
            assert(after.take(n) == events.take(n));
            assert(after[n] == events[n]);
        } else {
            assert(after.take(n) == events);
        }
    }
}

/// A stream that `wrapped_by_root` holds of is balanced, and its tokens
/// are inside nodes.
pub proof fn lemma_wrapped_is_balanced(events: Seq<Event>)
    requires
        wrapped_by_root(events),
    ensures
        balanced(events),
        tokens_inside(events),
{
    assert forall|n: int| 0 <= n < events.len() && events[n] is Token implies open_count(
        #[trigger] events.take(n),
    ) > 0 by {
        if n == 0 {
            // The first event opens the root: the stream is open after it.
            assert(events.take(1).drop_last() == events.take(0));
            assert(events.take(0).len() == 0);
            assert(events.take(1).last() == events[0]);
            assert(open_count(events.take(1)) > 0);
        }
    }
    assert forall|n: int| 0 <= n <= events.len() implies finish_count(#[trigger] events.take(n))
        <= start_count(events.take(n)) by {
        if n == 0 {
            assert(events.take(0).len() == 0);
        } else if n == events.len() {
            assert(events.take(n) == events);
        }
    }
}

} // verus!
