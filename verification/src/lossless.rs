//! The leaves of a parse in text order, and the proof that they spell the
//! source text.

use crate::event::Event;
use crate::kind::RSyntaxKind;
use crate::outline::{
    cursor_after, gap_before, leave_trivia, may_trail, outline_fits, significant_end, spans_fit,
    step_events, step_fits, step_trivia, trivia_before, walk_events, walk_trivia, Leaf,
    NodeSyntaxKind, SyntaxSpan, WalkEvent,
};
use crate::text::TextRange;
use crate::trivia::{
    gap_trivia, has_line_break, lemma_gap_trivia_partition, lemma_gap_trivia_trailing_first,
    pieces_partition, Trivia, TriviaPieceKind,
};
use vstd::prelude::*;

verus! {

/// The pieces of trivia as leaves.
pub open spec fn trivia_leaves(trivia: Seq<Trivia>) -> Seq<Leaf> {
    Seq::new(trivia.len(), |i: int| Leaf::Trivia(trivia[i]))
}

/// The token that leaving the node records, as a leaf: the bytes of the
/// node itself.
pub open spec fn token_leaf(span: SyntaxSpan) -> Seq<Leaf> {
    let range = TextRange { start: span.start, end: span.end };
    match span.kind {
        NodeSyntaxKind::Token(kind) => seq![Leaf::Token { kind, range }],
        NodeSyntaxKind::Value(kind, token) => seq![Leaf::Token { kind: token, range }],
        _ => Seq::empty(),
    }
}

/// The leaves that one step adds after `steps`: the trivia it records, then
/// its token.
pub open spec fn step_leaves(
    steps: Seq<WalkEvent>,
    step: WalkEvent,
    text: Seq<u8>,
    token_follows: bool,
) -> Seq<Leaf> {
    match step {
        WalkEvent::Enter(span) => Seq::empty(),
        WalkEvent::Leave(span) => trivia_leaves(leave_trivia(steps, span, text, token_follows))
            + token_leaf(span),
    }
}

/// The leaves of `steps`, the first steps of an outline whose last value or
/// token is left within its first `token_end` steps.
pub open spec fn leaves_before(steps: Seq<WalkEvent>, text: Seq<u8>, token_end: int) -> Seq<Leaf>
    decreases steps.len(),
{
    if steps.len() == 0 {
        Seq::empty()
    } else {
        leaves_before(steps.drop_last(), text, token_end) + step_leaves(
            steps.drop_last(),
            steps.last(),
            text,
            steps.len() - 1 < token_end,
        )
    }
}

/// The leaves of the walk over `steps`, in text order.
pub open spec fn walk_leaves(steps: Seq<WalkEvent>, text: Seq<u8>) -> Seq<Leaf> {
    leaves_before(steps, text, significant_end(steps))
}

/// The pieces of trivia among the leaves, in order.
pub open spec fn leaf_trivia(leaves: Seq<Leaf>) -> Seq<Trivia>
    decreases leaves.len(),
{
    if leaves.len() == 0 {
        Seq::empty()
    } else {
        match leaves.last() {
            Leaf::Trivia(trivia) => leaf_trivia(leaves.drop_last()).push(trivia),
            Leaf::Token { kind, range } => leaf_trivia(leaves.drop_last()),
        }
    }
}

/// The tokens among the leaves, in order: each with its kind and the offset
/// where it ends.
pub open spec fn leaf_tokens(leaves: Seq<Leaf>) -> Seq<(RSyntaxKind, u32)>
    decreases leaves.len(),
{
    if leaves.len() == 0 {
        Seq::empty()
    } else {
        match leaves.last() {
            Leaf::Trivia(trivia) => leaf_tokens(leaves.drop_last()),
            Leaf::Token { kind, range } => leaf_tokens(leaves.drop_last()).push((kind, range.end)),
        }
    }
}

/// The tokens among the events, in order: each with its kind and the offset
/// where it ends.
pub open spec fn event_tokens(events: Seq<Event>) -> Seq<(RSyntaxKind, u32)>
    decreases events.len(),
{
    if events.len() == 0 {
        Seq::empty()
    } else {
        match events.last() {
            Event::Token { kind, end } => event_tokens(events.drop_last()).push((kind, end)),
            _ => event_tokens(events.drop_last()),
        }
    }
}

/// The leaves lie end to end and span exactly the bytes `from..to`.
pub open spec fn leaves_tile(leaves: Seq<Leaf>, from: int, to: int) -> bool {
    &&& from <= to
    &&& leaves.len() == 0 ==> from == to
    &&& leaves.len() > 0 ==> leaves[0].range().start == from && leaves.last().range().end == to
    &&& forall|i: int|
        0 <= i < leaves.len() ==> (#[trigger] leaves[i]).range().start <= leaves[i].range().end
    &&& forall|i: int, j: int|
        0 <= i && j == i + 1 && j < leaves.len() ==> (#[trigger] leaves[i]).range().end
            == (#[trigger] leaves[j]).range().start
}

/// The text of the leaves, one after the other.
pub open spec fn spell(leaves: Seq<Leaf>, text: Seq<u8>) -> Seq<u8>
    decreases leaves.len(),
{
    if leaves.len() == 0 {
        Seq::empty()
    } else {
        spell(leaves.drop_last(), text) + leaves.last().range().slice(text)
    }
}

pub proof fn lemma_tile_concat(a: Seq<Leaf>, b: Seq<Leaf>, from: int, mid: int, to: int)
    requires
        leaves_tile(a, from, mid),
        leaves_tile(b, mid, to),
    ensures
        leaves_tile(a + b, from, to),
{
    let all = a + b;
    assert forall|i: int| 0 <= i < all.len() implies (#[trigger] all[i]).range().start
        <= all[i].range().end by {
        if i < a.len() {
            assert(all[i] == a[i]);
        } else {
            assert(all[i] == b[i - a.len()]);
        }
    }
    assert forall|i: int, j: int| 0 <= i && j == i + 1 && j < all.len() implies (#[trigger] all[i])
        .range().end == (#[trigger] all[j]).range().start by {
        if j < a.len() {
            assert(all[i] == a[i]);
            assert(all[j] == a[j]);
        } else if i < a.len() {
            assert(all[i] == a[i]);
            assert(a[i] == a.last());
            assert(all[j] == b[0]);
        } else {
            assert(all[i] == b[i - a.len()]);
            assert(all[j] == b[j - a.len()]);
        }
    }
    if all.len() > 0 {
        if a.len() > 0 {
            assert(all[0] == a[0]);
        } else {
            assert(all[0] == b[0]);
        }
        if b.len() > 0 {
            assert(all.last() == b.last());
        } else {
            assert(all.last() == a.last());
        }
    }
}

pub proof fn lemma_trivia_tile(pieces: Seq<Trivia>, from: int, to: int)
    requires
        pieces_partition(pieces, from, to),
    ensures
        leaves_tile(trivia_leaves(pieces), from, to),
{
    let leaves = trivia_leaves(pieces);
    assert forall|i: int| 0 <= i < leaves.len() implies (#[trigger] leaves[i]).range().start
        <= leaves[i].range().end by {
        assert(leaves[i].range() == pieces[i].range);
    }
    assert forall|i: int, j: int|
        0 <= i && j == i + 1 && j < leaves.len() implies (#[trigger] leaves[i]).range().end == (
    #[trigger] leaves[j]).range().start by {
        assert(leaves[i].range() == pieces[i].range);
        assert(leaves[j].range() == pieces[j].range);
    }
    if leaves.len() > 0 {
        assert(leaves[0].range() == pieces[0].range);
        assert(leaves.last().range() == pieces.last().range);
        assert(pieces[0].range.start < pieces[0].range.end);
        if pieces.len() > 1 {
            lemma_partition_ordered(pieces, from, to, 0, pieces.len() - 1);
        }
    }
}

/// In a partition an earlier piece ends at or before the start of a later
/// one.
pub proof fn lemma_partition_ordered(pieces: Seq<Trivia>, from: int, to: int, i: int, j: int)
    requires
        pieces_partition(pieces, from, to),
        0 <= i < j < pieces.len(),
    ensures
        pieces[i].range.end <= pieces[j].range.start,
    decreases j - i,
{
    if i + 1 < j {
        lemma_partition_ordered(pieces, from, to, i, j - 1);
        assert(pieces[j - 1].range.start < pieces[j - 1].range.end);
        assert(pieces[j - 1].range.end == pieces[j].range.start);
    } else {
        assert(pieces[i].range.end == pieces[j].range.start);
    }
}

pub proof fn lemma_single_tile(leaf: Leaf)
    requires
        leaf.range().start <= leaf.range().end,
    ensures
        leaves_tile(seq![leaf], leaf.range().start as int, leaf.range().end as int),
{
    let leaves = seq![leaf];
    assert(leaves[0] == leaf);
}

pub proof fn lemma_empty_tile(at: int)
    ensures
        leaves_tile(Seq::<Leaf>::empty(), at, at),
{
}

/// The leaves of one step span the bytes from the cursor before the step to
/// the cursor after it.
pub proof fn lemma_step_leaves_tile(
    steps: Seq<WalkEvent>,
    step: WalkEvent,
    text: Seq<u8>,
    token_follows: bool,
)
    requires
        text.len() <= u32::MAX,
        0 <= cursor_after(steps) <= text.len(),
        step_fits(steps, step, text),
    ensures
        leaves_tile(
            step_leaves(steps, step, text, token_follows),
            cursor_after(steps),
            cursor_after(steps.push(step)),
        ),
        cursor_after(steps.push(step)) <= text.len(),
{
    let cursor = cursor_after(steps);
    assert(steps.push(step).drop_last() == steps);
    match step {
        WalkEvent::Enter(span) => {
            lemma_empty_tile(cursor);
        },
        WalkEvent::Leave(span) => {
            let gap = gap_before(steps, span, text);
            let trailing = may_trail(steps, text) && token_follows;
            match span.kind {
                NodeSyntaxKind::Comment => {
                    let comment = Trivia {
                        kind: TriviaPieceKind::SingleLineComment,
                        range: TextRange { start: span.start, end: span.end },
                        trailing: trailing && !has_line_break(gap),
                    };
                    let before: Seq<Trivia> = if has_line_break(gap) {
                        gap_trivia(gap, cursor, trailing)
                    } else if gap.len() > 0 {
                        seq![
                            Trivia {
                                kind: TriviaPieceKind::Whitespace,
                                range: TextRange { start: cursor as u32, end: span.start },
                                trailing,
                            },
                        ]
                    } else {
                        Seq::empty()
                    };
                    assert(leave_trivia(steps, span, text, token_follows) =~= before.push(comment));
                    assert(trivia_leaves(before.push(comment)) =~= trivia_leaves(before)
                        + seq![Leaf::Trivia(comment)]);
                    if has_line_break(gap) {
                        lemma_gap_trivia_partition(gap, cursor, trailing);
                        lemma_trivia_tile(before, cursor, span.start as int);
                    } else if gap.len() > 0 {
                        assert(trivia_leaves(before) =~= seq![Leaf::Trivia(before[0])]);
                        lemma_single_tile(Leaf::Trivia(before[0]));
                    } else {
                        assert(trivia_leaves(before) =~= Seq::<Leaf>::empty());
                        lemma_empty_tile(cursor);
                    }
                    lemma_single_tile(Leaf::Trivia(comment));
                    lemma_tile_concat(
                        trivia_leaves(before),
                        seq![Leaf::Trivia(comment)],
                        cursor,
                        span.start as int,
                        span.end as int,
                    );
                    assert(step_leaves(steps, step, text, token_follows) =~= trivia_leaves(before)
                        + seq![Leaf::Trivia(comment)]);
                },
                NodeSyntaxKind::Token(_) | NodeSyntaxKind::Value(_, _) => {
                    // The trivia of the gap, then the token itself.
                    lemma_gap_trivia_partition(gap, cursor, trailing);
                    lemma_trivia_tile(gap_trivia(gap, cursor, trailing), cursor, span.start as int);
                    lemma_single_tile(token_leaf(span)[0]);
                    lemma_tile_concat(
                        trivia_leaves(gap_trivia(gap, cursor, trailing)),
                        token_leaf(span),
                        cursor,
                        span.start as int,
                        span.end as int,
                    );
                },
                NodeSyntaxKind::Node(kind) => {
                    if kind == RSyntaxKind::R_ROOT {
                        lemma_gap_trivia_partition(gap, cursor, false);
                        lemma_trivia_tile(gap_trivia(gap, cursor, false), cursor, span.end as int);
                        assert(step_leaves(steps, step, text, token_follows) =~= trivia_leaves(
                            gap_trivia(gap, cursor, false),
                        ));
                    } else {
                        assert(step_leaves(steps, step, text, token_follows) =~= Seq::<Leaf>::empty());
                        lemma_empty_tile(cursor);
                    }
                },
            }
        },
    }
}

/// The leaves of a walk lie end to end from the start of the text to the
/// cursor.
pub proof fn lemma_walk_leaves_tile(steps: Seq<WalkEvent>, text: Seq<u8>, token_end: int)
    requires
        text.len() <= u32::MAX,
        spans_fit(steps, text),
    ensures
        leaves_tile(leaves_before(steps, text, token_end), 0, cursor_after(steps)),
        cursor_after(steps) <= text.len(),
    decreases steps.len(),
{
    if steps.len() == 0 {
        lemma_empty_tile(0);
    } else {
        let done = steps.drop_last();
        lemma_walk_leaves_tile(done, text, token_end);
        lemma_step_leaves_tile(done, steps.last(), text, steps.len() - 1 < token_end);
        assert(done.push(steps.last()) == steps);
        lemma_tile_concat(
            leaves_before(done, text, token_end),
            step_leaves(done, steps.last(), text, steps.len() - 1 < token_end),
            0,
            cursor_after(done),
            cursor_after(steps),
        );
    }
}

/// Leaves that lie end to end from the start of the text spell the text up
/// to where they end.
pub proof fn lemma_tiling_spells_text(leaves: Seq<Leaf>, text: Seq<u8>, to: int)
    requires
        leaves_tile(leaves, 0, to),
        to <= text.len(),
    ensures
        spell(leaves, text) == text.subrange(0, to),
    decreases leaves.len(),
{
    if leaves.len() == 0 {
        assert(text.subrange(0, 0) =~= Seq::<u8>::empty());
    } else {
        let front = leaves.drop_last();
        let last = leaves.last();
        let mid = last.range().start as int;
        assert(leaves_tile(front, 0, mid)) by {
            if front.len() > 0 {
                assert(front[0] == leaves[0]);
                assert(front.last() == leaves[leaves.len() - 2]);
                assert(leaves[leaves.len() - 2].range().end == leaves[leaves.len() - 1].range().start);
                assert forall|i: int| 0 <= i < front.len() implies (#[trigger] front[i]).range().start
                    <= front[i].range().end by {
                    assert(front[i] == leaves[i]);
                }
                assert forall|i: int, j: int|
                    0 <= i && j == i + 1 && j < front.len() implies (#[trigger] front[i]).range().end
                    == (#[trigger] front[j]).range().start by {
                    assert(front[i] == leaves[i]);
                    assert(front[j] == leaves[j]);
                }
                lemma_tile_ordered(front, 0, 0, front.len() - 1);
            }
        }
        lemma_tiling_spells_text(front, text, mid);
        assert(text.subrange(0, mid) + text.subrange(mid, to) =~= text.subrange(0, to));
    }
}

/// In a tiling a leaf starts at or after the start of every leaf before it.
pub proof fn lemma_tile_ordered(leaves: Seq<Leaf>, from: int, i: int, j: int)
    requires
        leaves.len() > 0,
        leaves[0].range().start == from,
        forall|k: int|
            0 <= k < leaves.len() ==> (#[trigger] leaves[k]).range().start <= leaves[k].range().end,
        forall|k: int, l: int|
            0 <= k && l == k + 1 && l < leaves.len() ==> (#[trigger] leaves[k]).range().end == (
            #[trigger] leaves[l]).range().start,
        0 <= i <= j < leaves.len(),
    ensures
        leaves[i].range().start <= leaves[j].range().end,
    decreases j - i,
{
    if i < j {
        lemma_tile_ordered(leaves, from, i, j - 1);
        assert(leaves[j - 1].range().end == leaves[j].range().start);
    }
}

pub proof fn lemma_leaf_trivia_concat(a: Seq<Leaf>, b: Seq<Leaf>)
    ensures
        leaf_trivia(a + b) == leaf_trivia(a) + leaf_trivia(b),
        leaf_tokens(a + b) == leaf_tokens(a) + leaf_tokens(b),
    decreases b.len(),
{
    if b.len() == 0 {
        assert(a + b =~= a);
        assert(leaf_trivia(a) + leaf_trivia(b) =~= leaf_trivia(a));
        assert(leaf_tokens(a) + leaf_tokens(b) =~= leaf_tokens(a));
    } else {
        lemma_leaf_trivia_concat(a, b.drop_last());
        assert((a + b).drop_last() =~= a + b.drop_last());
        assert((a + b).last() == b.last());
        assert(leaf_trivia(a + b) =~= leaf_trivia(a) + leaf_trivia(b));
        assert(leaf_tokens(a + b) =~= leaf_tokens(a) + leaf_tokens(b));
    }
}

pub proof fn lemma_leaves_of_trivia(trivia: Seq<Trivia>)
    ensures
        leaf_trivia(trivia_leaves(trivia)) == trivia,
        leaf_tokens(trivia_leaves(trivia)) == Seq::<(RSyntaxKind, u32)>::empty(),
    decreases trivia.len(),
{
    if trivia.len() > 0 {
        lemma_leaves_of_trivia(trivia.drop_last());
        assert(trivia_leaves(trivia).drop_last() =~= trivia_leaves(trivia.drop_last()));
        assert(trivia_leaves(trivia).last() == Leaf::Trivia(trivia.last()));
        assert(leaf_trivia(trivia_leaves(trivia)) =~= trivia);
    } else {
        assert(leaf_trivia(trivia_leaves(trivia)) =~= trivia);
    }
}

pub proof fn lemma_event_tokens_concat(a: Seq<Event>, b: Seq<Event>)
    ensures
        event_tokens(a + b) == event_tokens(a) + event_tokens(b),
    decreases b.len(),
{
    if b.len() == 0 {
        assert(a + b =~= a);
        assert(event_tokens(a) + event_tokens(b) =~= event_tokens(a));
    } else {
        lemma_event_tokens_concat(a, b.drop_last());
        assert((a + b).drop_last() =~= a + b.drop_last());
        assert((a + b).last() == b.last());
        assert(event_tokens(a + b) =~= event_tokens(a) + event_tokens(b));
    }
}

/// The trivia and the tokens among the leaves of one step are the trivia
/// and the tokens that the step records.
pub proof fn lemma_step_leaves_match(
    steps: Seq<WalkEvent>,
    step: WalkEvent,
    text: Seq<u8>,
    token_follows: bool,
)
    ensures
        leaf_trivia(step_leaves(steps, step, text, token_follows)) == step_trivia(steps, step, text, token_follows),
        leaf_tokens(step_leaves(steps, step, text, token_follows)) == event_tokens(step_events(step)),
{
    reveal_with_fuel(event_tokens, 3);
    reveal_with_fuel(leaf_tokens, 2);
    reveal_with_fuel(leaf_trivia, 2);
    match step {
        WalkEvent::Enter(span) => {
            assert(event_tokens(step_events(step)) =~= Seq::<(RSyntaxKind, u32)>::empty());
        },
        WalkEvent::Leave(span) => {
            let trivia = leave_trivia(steps, span, text, token_follows);
            lemma_leaves_of_trivia(trivia);
            lemma_leaf_trivia_concat(trivia_leaves(trivia), token_leaf(span));
            assert(leaf_trivia(token_leaf(span)) =~= Seq::<Trivia>::empty());
            assert(trivia + Seq::<Trivia>::empty() =~= trivia);
            match span.kind {
                NodeSyntaxKind::Token(kind) => {
                    let events = step_events(step);
                    assert(events.drop_last() =~= Seq::<Event>::empty());
                    assert(event_tokens(events) =~= seq![(kind, span.end)]);
                    assert(leaf_tokens(token_leaf(span)) =~= seq![(kind, span.end)]);
                },
                NodeSyntaxKind::Value(kind, token) => {
                    let events = step_events(step);
                    assert(events.drop_last() =~= seq![Event::Token { kind: token, end: span.end }]);
                    assert(events.drop_last().drop_last() =~= Seq::<Event>::empty());
                    assert(event_tokens(events) =~= seq![(token, span.end)]);
                    assert(leaf_tokens(token_leaf(span)) =~= seq![(token, span.end)]);
                },
                NodeSyntaxKind::Comment => {
                    assert(event_tokens(step_events(step)) =~= Seq::<(RSyntaxKind, u32)>::empty());
                    assert(leaf_tokens(token_leaf(span)) =~= Seq::<(RSyntaxKind, u32)>::empty());
                },
                NodeSyntaxKind::Node(kind) => {
                    let events = step_events(step);
                    if kind == RSyntaxKind::R_ROOT {
                        assert(events.drop_last() =~= seq![Event::Finish]);
                        assert(events.drop_last().drop_last() =~= Seq::<Event>::empty());
                    } else {
                        assert(events.drop_last() =~= Seq::<Event>::empty());
                    }
                    assert(event_tokens(events) =~= Seq::<(RSyntaxKind, u32)>::empty());
                    assert(leaf_tokens(token_leaf(span)) =~= Seq::<(RSyntaxKind, u32)>::empty());
                },
            }
        },
    }
}

/// The trivia among the leaves of a walk is the trivia that the walk
/// records, and the tokens among them are the tokens of its events.
pub proof fn lemma_walk_leaves_match(steps: Seq<WalkEvent>, text: Seq<u8>, token_end: int)
    ensures
        leaf_trivia(leaves_before(steps, text, token_end)) == trivia_before(steps, text, token_end),
        leaf_tokens(leaves_before(steps, text, token_end)) == event_tokens(walk_events(steps)),
    decreases steps.len(),
{
    if steps.len() > 0 {
        let done = steps.drop_last();
        lemma_walk_leaves_match(done, text, token_end);
        lemma_step_leaves_match(done, steps.last(), text, steps.len() - 1 < token_end);
        lemma_leaf_trivia_concat(leaves_before(done, text, token_end), step_leaves(done, steps.last(), text, steps.len() - 1 < token_end));
        lemma_event_tokens_concat(walk_events(done), step_events(steps.last()));
    }
}

/// The leaf is a piece of trailing trivia.
pub open spec fn is_trailing(leaf: Leaf) -> bool {
    leaf matches Leaf::Trivia(trivia) && trivia.trailing
}

/// Trailing trivia can follow the leaf: it is a token or itself trailing.
pub open spec fn can_be_trailed(leaf: Leaf) -> bool {
    leaf is Token || is_trailing(leaf)
}

/// Every piece of trailing trivia comes right after a token or after
/// another piece of trailing trivia: between a token and the trivia that
/// trails it stands nothing that leads.
pub open spec fn trailing_follows_token(leaves: Seq<Leaf>) -> bool {
    &&& leaves.len() > 0 ==> !is_trailing(leaves[0])
    &&& forall|i: int, j: int|
        0 <= j && j + 1 == i && i < leaves.len() && is_trailing(#[trigger] leaves[i])
            ==> can_be_trailed(#[trigger] leaves[j])
}

/// What holds of the leaves of one step: only the first can trail what came
/// before the step, and it does so only where trivia still could and a
/// token follows; and where trivia can still trail after the step, it can
/// trail the last leaf.
proof fn lemma_step_trailing(
    steps: Seq<WalkEvent>,
    step: WalkEvent,
    text: Seq<u8>,
    token_follows: bool,
)
    requires
        text.len() <= u32::MAX,
        0 <= cursor_after(steps) <= text.len(),
        step_fits(steps, step, text),
    ensures
        ({
            let leaves = step_leaves(steps, step, text, token_follows);
            &&& forall|i: int, j: int|
                0 <= j && j + 1 == i && i < leaves.len() && is_trailing(#[trigger] leaves[i])
                    ==> can_be_trailed(#[trigger] leaves[j])
            &&& leaves.len() > 0 && is_trailing(leaves[0]) ==> may_trail(steps, text)
                && token_follows
            &&& may_trail(steps.push(step), text) && token_follows ==> if leaves.len() > 0 {
                can_be_trailed(leaves.last())
            } else {
                may_trail(steps, text)
            }
        }),
{
    let cursor = cursor_after(steps);
    let leaves = step_leaves(steps, step, text, token_follows);
    assert(steps.push(step).drop_last() == steps);
    assert(steps.push(step).last() == step);
    match step {
        WalkEvent::Enter(span) => {
            assert(leaves =~= Seq::<Leaf>::empty());
        },
        WalkEvent::Leave(span) => {
            let gap = gap_before(steps, span, text);
            let trailing = may_trail(steps, text) && token_follows;
            match span.kind {
                NodeSyntaxKind::Comment => {
                    if has_line_break(gap) {
                        lemma_gap_trivia_trailing_first(gap, cursor, trailing);
                        let pieces = leave_trivia(steps, span, text, token_follows);
                        assert(leaves =~= trivia_leaves(pieces));
                        assert forall|i: int, j: int|
                            0 <= j && j + 1 == i && i < leaves.len() && is_trailing(
                                #[trigger] leaves[i],
                            ) implies can_be_trailed(#[trigger] leaves[j]) by {
                            if i < pieces.len() - 1 {
                                assert(pieces[i] == gap_trivia(gap, cursor, trailing)[i]);
                            }
                        }
                        if leaves.len() > 0 && is_trailing(leaves[0]) {
                            if pieces.len() > 1 {
                                assert(pieces[0] == gap_trivia(gap, cursor, trailing)[0]);
                            }
                        }
                    } else {
                        assert(leaves =~= trivia_leaves(leave_trivia(steps, span, text, token_follows)));
                    }
                },
                NodeSyntaxKind::Token(_) | NodeSyntaxKind::Value(_, _) => {
                    lemma_gap_trivia_trailing_first(gap, cursor, trailing);
                    let pieces = gap_trivia(gap, cursor, trailing);
                    assert(leaves.last() == token_leaf(span)[0]);
                    assert forall|i: int, j: int|
                        0 <= j && j + 1 == i && i < leaves.len() && is_trailing(
                            #[trigger] leaves[i],
                        ) implies can_be_trailed(#[trigger] leaves[j]) by {
                        if i < pieces.len() {
                            assert(leaves[i] == Leaf::Trivia(pieces[i]));
                        }
                    }
                    if pieces.len() > 0 {
                        assert(leaves[0] == Leaf::Trivia(pieces[0]));
                    }
                },
                NodeSyntaxKind::Node(kind) => {
                    if kind == RSyntaxKind::R_ROOT {
                        lemma_gap_trivia_trailing_first(gap, cursor, false);
                        let pieces = gap_trivia(gap, cursor, false);
                        assert(leaves =~= trivia_leaves(pieces));
                        assert forall|i: int| 0 <= i < leaves.len() implies !is_trailing(
                            #[trigger] leaves[i],
                        ) by {
                            assert(leaves[i] == Leaf::Trivia(pieces[i]));
                        }
                    } else {
                        assert(leaves =~= Seq::<Leaf>::empty());
                    }
                },
            }
        },
    }
}

/// The trailing trivia of a walk follows its token: every trailing piece
/// comes right after a token or after another trailing piece.
pub proof fn lemma_trailing_follows_token(steps: Seq<WalkEvent>, text: Seq<u8>, token_end: int)
    requires
        text.len() <= u32::MAX,
        spans_fit(steps, text),
    ensures
        trailing_follows_token(leaves_before(steps, text, token_end)),
        may_trail(steps, text) && steps.len() < token_end ==> leaves_before(
            steps,
            text,
            token_end,
        ).len() > 0 && can_be_trailed(leaves_before(steps, text, token_end).last(),
        ),
    decreases steps.len(),
{
    if steps.len() > 0 {
        let done = steps.drop_last();
        let step = steps.last();
        let before = leaves_before(done, text, token_end);
        let added = step_leaves(done, step, text, steps.len() - 1 < token_end);
        let all = leaves_before(steps, text, token_end);
        lemma_trailing_follows_token(done, text, token_end);
        lemma_walk_leaves_tile(done, text, token_end);
        lemma_step_trailing(done, step, text, steps.len() - 1 < token_end);
        assert(done.push(step) == steps);
        assert(all == before + added);
        if all.len() > 0 {
            if before.len() > 0 {
                assert(all[0] == before[0]);
            } else {
                assert(all[0] == added[0]);
                assert(!(may_trail(done, text) && done.len() < token_end));
            }
        }
        assert forall|i: int, j: int|
            0 <= j && j + 1 == i && i < all.len() && is_trailing(
                #[trigger] all[i],
            ) implies can_be_trailed(#[trigger] all[j]) by {
            if i < before.len() {
                assert(all[i] == before[i]);
                assert(all[j] == before[j]);
            } else if i == before.len() {
                assert(all[i] == added[0]);
                assert(may_trail(done, text));
                assert(all[j] == before.last());
            } else {
                assert(all[i] == added[i - before.len()]);
                assert(all[j] == added[j - before.len()]);
            }
        }
        if may_trail(steps, text) && steps.len() < token_end {
            if added.len() > 0 {
                assert(all.last() == added.last());
            } else {
                assert(all =~= before);
            }
        }
    }
}

/// No piece of trivia among the leaves is empty.
pub open spec fn trivia_not_empty(leaves: Seq<Leaf>) -> bool {
    forall|i: int|
        0 <= i < leaves.len() && (#[trigger] leaves[i]) is Trivia ==> leaves[i].range().start
            < leaves[i].range().end
}

/// No piece of trivia among the leaves of one step is empty.
proof fn lemma_step_trivia_not_empty(
    steps: Seq<WalkEvent>,
    step: WalkEvent,
    text: Seq<u8>,
    token_follows: bool,
)
    requires
        text.len() <= u32::MAX,
        0 <= cursor_after(steps) <= text.len(),
        step_fits(steps, step, text),
    ensures
        trivia_not_empty(step_leaves(steps, step, text, token_follows)),
{
    let leaves = step_leaves(steps, step, text, token_follows);
    match step {
        WalkEvent::Enter(span) => {},
        WalkEvent::Leave(span) => {
            let cursor = cursor_after(steps);
            let gap = gap_before(steps, span, text);
            let trailing = may_trail(steps, text) && token_follows;
            let pieces = leave_trivia(steps, span, text, token_follows);
            if span.kind.is_leaf() {
                lemma_gap_trivia_partition(gap, cursor, trailing);
            } else if span.kind.is_root() {
                lemma_gap_trivia_partition(gap, cursor, false);
            }
            assert forall|i: int| 0 <= i < leaves.len() && (#[trigger] leaves[i]) is Trivia implies
                leaves[i].range().start < leaves[i].range().end by {
                if i < pieces.len() {
                    assert(leaves[i] == Leaf::Trivia(pieces[i]));
                    match span.kind {
                        NodeSyntaxKind::Comment => {
                            if has_line_break(gap) && i < pieces.len() - 1 {
                                assert(pieces[i] == gap_trivia(gap, cursor, trailing)[i]);
                            }
                        },
                        _ => {},
                    }
                } else {
                    assert(leaves[i] == token_leaf(span)[i - pieces.len()]);
                }
            }
        },
    }
}

/// No piece of trivia among the leaves of a walk is empty.
pub proof fn lemma_trivia_not_empty(steps: Seq<WalkEvent>, text: Seq<u8>, token_end: int)
    requires
        text.len() <= u32::MAX,
        spans_fit(steps, text),
    ensures
        trivia_not_empty(leaves_before(steps, text, token_end)),
    decreases steps.len(),
{
    if steps.len() > 0 {
        let done = steps.drop_last();
        let before = leaves_before(done, text, token_end);
        let added = step_leaves(done, steps.last(), text, steps.len() - 1 < token_end);
        let all = leaves_before(steps, text, token_end);
        lemma_trivia_not_empty(done, text, token_end);
        lemma_walk_leaves_tile(done, text, token_end);
        lemma_step_trivia_not_empty(done, steps.last(), text, steps.len() - 1 < token_end);
        assert(all == before + added);
        assert forall|i: int| 0 <= i < all.len() && (#[trigger] all[i]) is Trivia implies all[i]
            .range().start < all[i].range().end by {
            if i < before.len() {
                assert(all[i] == before[i]);
            } else {
                assert(all[i] == added[i - before.len()]);
            }
        }
    }
}

/// The index of the last token among the leaves, or -1 where there is
/// none.
pub open spec fn last_token_leaf(leaves: Seq<Leaf>) -> int
    decreases leaves.len(),
{
    if leaves.len() == 0 {
        -1
    } else if leaves.last() is Token {
        leaves.len() - 1
    } else {
        last_token_leaf(leaves.drop_last())
    }
}

/// Trivia trails only between two tokens: after every piece of trailing
/// trivia a token follows, so nothing trails the last token.
pub open spec fn trailing_precedes_token(leaves: Seq<Leaf>) -> bool {
    forall|i: int|
        0 <= i < leaves.len() && is_trailing(#[trigger] leaves[i]) ==> i < last_token_leaf(leaves)
}

/// More leaves do not move the last token to the front.
pub proof fn lemma_last_token_leaf_grows(a: Seq<Leaf>, b: Seq<Leaf>)
    ensures
        last_token_leaf(a) <= last_token_leaf(a + b) < (a + b).len(),
    decreases b.len(),
{
    if b.len() == 0 {
        assert(a + b =~= a);
        lemma_last_token_leaf_bound(a);
    } else {
        lemma_last_token_leaf_grows(a, b.drop_last());
        assert((a + b).drop_last() =~= a + b.drop_last());
        assert((a + b).last() == b.last());
    }
}

pub proof fn lemma_last_token_leaf_bound(leaves: Seq<Leaf>)
    ensures
        -1 <= last_token_leaf(leaves) < leaves.len(),
    decreases leaves.len(),
{
    if leaves.len() > 0 {
        lemma_last_token_leaf_bound(leaves.drop_last());
    }
}

/// Where the outline holds a value or a token, the step that
/// `significant_end` counts last leaves one.
pub proof fn lemma_significant_end(steps: Seq<WalkEvent>)
    ensures
        0 <= significant_end(steps) <= steps.len(),
        significant_end(steps) > 0 ==> steps[significant_end(steps) - 1] is Leave
            && steps[significant_end(steps) - 1]->Leave_0.kind.is_significant(),
    decreases steps.len(),
{
    if steps.len() > 0 {
        lemma_significant_end(steps.drop_last());
        let end = significant_end(steps.drop_last());
        if end > 0 {
            assert(steps.drop_last()[end - 1] == steps[end - 1]);
        }
    }
}

/// Where no token follows a step, none of its leaves is trailing.
proof fn lemma_step_without_token_leads(steps: Seq<WalkEvent>, step: WalkEvent, text: Seq<u8>)
    requires
        text.len() <= u32::MAX,
        0 <= cursor_after(steps) <= text.len(),
        step_fits(steps, step, text),
    ensures
        forall|i: int|
            0 <= i < step_leaves(steps, step, text, false).len() ==> !is_trailing(
                #[trigger] step_leaves(steps, step, text, false)[i],
            ),
{
    let leaves = step_leaves(steps, step, text, false);
    match step {
        WalkEvent::Enter(span) => {},
        WalkEvent::Leave(span) => {
            let cursor = cursor_after(steps);
            let gap = gap_before(steps, span, text);
            let pieces = leave_trivia(steps, span, text, false);
            if span.kind.is_leaf() || span.kind.is_root() {
                lemma_gap_trivia_trailing_first(gap, cursor, false);
            }
            assert forall|i: int| 0 <= i < leaves.len() implies !is_trailing(
                #[trigger] leaves[i],
            ) by {
                if i < pieces.len() {
                    assert(leaves[i] == Leaf::Trivia(pieces[i]));
                    match span.kind {
                        NodeSyntaxKind::Comment => {
                            if has_line_break(gap) && i < pieces.len() - 1 {
                                assert(pieces[i] == gap_trivia(gap, cursor, false)[i]);
                            }
                        },
                        _ => {},
                    }
                } else {
                    assert(leaves[i] == token_leaf(span)[i - pieces.len()]);
                }
            }
        },
    }
}

/// After every piece of trailing trivia among the leaves of `steps` a token
/// follows, once `steps` reaches the step that leaves the last value or
/// token.
pub proof fn lemma_trailing_precedes_token(steps: Seq<WalkEvent>, text: Seq<u8>, token_end: int)
    requires
        text.len() <= u32::MAX,
        spans_fit(steps, text),
        0 < token_end <= steps.len() ==> steps[token_end - 1] is Leave && steps[token_end
            - 1]->Leave_0.kind.is_significant(),
    ensures
        token_end <= steps.len() ==> trailing_precedes_token(
            leaves_before(steps, text, token_end),
        ),
    decreases steps.len(),
{
    if steps.len() > 0 && token_end <= steps.len() {
        let done = steps.drop_last();
        let step = steps.last();
        let follows = steps.len() - 1 < token_end;
        let before = leaves_before(done, text, token_end);
        let added = step_leaves(done, step, text, follows);
        let all = leaves_before(steps, text, token_end);
        assert(all == before + added);
        lemma_walk_leaves_tile(done, text, token_end);
        lemma_last_token_leaf_grows(before, added);
        if follows {
            // This step leaves the last token: its leaf ends the leaves.
            assert(steps[token_end - 1] == step);
            let span = step->Leave_0;
            assert(added.last() == token_leaf(span)[0]);
            assert(all.last() == added.last());
            assert(last_token_leaf(all) == all.len() - 1);
        } else {
            assert(0 < token_end ==> done[token_end - 1] == steps[token_end - 1]);
            lemma_trailing_precedes_token(done, text, token_end);
            lemma_step_without_token_leads(done, step, text);
            assert forall|i: int| 0 <= i < all.len() && is_trailing(
                #[trigger] all[i],
            ) implies i < last_token_leaf(all) by {
                if i < before.len() {
                    assert(all[i] == before[i]);
                } else {
                    assert(all[i] == added[i - before.len()]);
                }
            }
        }
    }
}

/// Nothing is lost: the trivia and the tokens that a parse records are the
/// leaves of one sequence, in the order in which they were recorded, and
/// the texts of those leaves, one after the other, are the source text, byte
/// for byte. No piece of trivia is empty, so the pieces come in strictly
/// rising order, overlap neither each other nor a token, and between two
/// tokens, before the first and after the last they fill the gap exactly.
/// Trailing trivia stands between the token it trails and a token that
/// follows: before the first token and after the last one all trivia
/// leads.
pub proof fn theorem_lossless(steps: Seq<WalkEvent>, text: Seq<u8>)
    requires
        outline_fits(steps, text),
    ensures
        leaf_trivia(walk_leaves(steps, text)) == walk_trivia(steps, text),
        leaf_tokens(walk_leaves(steps, text)) == event_tokens(walk_events(steps)),
        leaves_tile(walk_leaves(steps, text), 0, text.len() as int),
        spell(walk_leaves(steps, text), text) == text,
        trailing_follows_token(walk_leaves(steps, text)),
        trailing_precedes_token(walk_leaves(steps, text)),
        trivia_not_empty(walk_leaves(steps, text)),
{
    let token_end = significant_end(steps);
    lemma_trivia_not_empty(steps, text, token_end);
    lemma_significant_end(steps);
    lemma_trailing_precedes_token(steps, text, token_end);
    lemma_trailing_follows_token(steps, text, token_end);
    lemma_walk_leaves_match(steps, text, token_end);
    lemma_walk_leaves_tile(steps, text, token_end);
    assert(cursor_after(steps) == text.len());
    lemma_tiling_spells_text(walk_leaves(steps, text), text, text.len() as int);
    assert(text.subrange(0, text.len() as int) =~= text);
}

} // verus!
