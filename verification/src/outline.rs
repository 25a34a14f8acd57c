//! The outline of a source text: what a tokenizer's tree says of it, as the
//! sequence of nodes entered and left in a pre-order walk, and what the
//! walk over that sequence records.

use crate::event::Event;
use crate::kind::RSyntaxKind;
use crate::text::TextRange;
use crate::trivia::{gap_trivia, has_line_break, is_trivia_text, Trivia, TriviaPieceKind};
use vstd::prelude::*;

verus! {

/// What a node of the tokenizer's tree stands for.
#[derive(Clone, Copy, PartialEq, Eq, Structural, Hash, Debug)]
pub enum NodeSyntaxKind {
    /// An inner node of the given kind.
    Node(RSyntaxKind),
    /// A leaf that becomes a node of the first kind around one token of the
    /// second kind.
    Value(RSyntaxKind, RSyntaxKind),
    /// A leaf that becomes one token.
    Token(RSyntaxKind),
    /// A comment.
    Comment,
}

/// A node of the tokenizer's tree: its kind and the bytes it spans.
#[derive(Clone, Copy, PartialEq, Eq, Structural, Hash, Debug)]
pub struct SyntaxSpan {
    pub kind: NodeSyntaxKind,
    pub start: u32,
    pub end: u32,
}

/// One step of a pre-order walk.
#[derive(Clone, Copy, PartialEq, Eq, Structural, Hash, Debug)]
pub enum WalkEvent {
    /// The walk comes to the node, before its children.
    Enter(SyntaxSpan),
    /// The walk leaves the node, after its children.
    Leave(SyntaxSpan),
}

/// A leaf of the syntax tree in text order: a piece of trivia, or the text
/// of a token without its trivia.
pub enum Leaf {
    Trivia(Trivia),
    Token { kind: RSyntaxKind, range: TextRange },
}

impl Leaf {
    pub open spec fn range(self) -> TextRange {
        match self {
            Leaf::Trivia(trivia) => trivia.range,
            Leaf::Token { kind, range } => range,
        }
    }
}

impl NodeSyntaxKind {
    /// Tokens, values and comments have no children in the outline.
    pub open spec fn is_leaf(self) -> bool {
        !(self is Node)
    }

    /// Values and tokens carry syntax; comments and inner nodes do not.
    pub open spec fn is_significant(self) -> bool {
        self is Value || self is Token
    }

    /// Inner nodes and values open a node in the event stream.
    pub open spec fn opens_node(self) -> bool {
        self is Node || self is Value
    }

    pub open spec fn is_root(self) -> bool {
        self == NodeSyntaxKind::Node(RSyntaxKind::R_ROOT)
    }
}

/// The nodes that are open after `steps`, outermost first; `None` where a
/// step leaves a node that was not the one entered last, or enters a root.
pub open spec fn open_spans(steps: Seq<WalkEvent>) -> Option<Seq<SyntaxSpan>>
    decreases steps.len(),
{
    if steps.len() == 0 {
        Some(Seq::empty())
    } else {
        match open_spans(steps.drop_last()) {
            None => None,
            Some(open) => match steps.last() {
                WalkEvent::Enter(span) => if span.kind.is_root() {
                    None
                } else {
                    Some(open.push(span))
                },
                WalkEvent::Leave(span) => if open.len() > 0 && open.last() == span {
                    Some(open.drop_last())
                } else {
                    None
                },
            },
        }
    }
}

/// The steps are those of a walk over one tree whose root is the only root
/// node: the first step enters the root, the last one leaves it, and between
/// them every node that is entered is left again, innermost first.
pub open spec fn well_nested_outline(steps: Seq<WalkEvent>) -> bool {
    &&& steps.len() >= 2
    &&& steps[0] is Enter
    &&& steps[0]->Enter_0.kind.is_root()
    &&& steps.last() == WalkEvent::Leave(steps[0]->Enter_0)
    &&& open_spans(steps.subrange(1, steps.len() - 1)) == Some(Seq::<SyntaxSpan>::empty())
}

/// The offset up to which the text is accounted for after `steps`: the end
/// of the leaf left last, the end of the root once it is left, 0 before.
pub open spec fn cursor_after(steps: Seq<WalkEvent>) -> int
    decreases steps.len(),
{
    if steps.len() == 0 {
        0
    } else {
        match steps.last() {
            WalkEvent::Leave(span) => if span.kind.is_leaf() || span.kind.is_root() {
                span.end as int
            } else {
                cursor_after(steps.drop_last())
            },
            WalkEvent::Enter(span) => cursor_after(steps.drop_last()),
        }
    }
}

/// Whether a token was met in `steps`.
pub open spec fn after_token(steps: Seq<WalkEvent>) -> bool
    decreases steps.len(),
{
    if steps.len() == 0 {
        false
    } else {
        match steps.last() {
            WalkEvent::Leave(span) => if span.kind.is_significant() {
                true
            } else if span.kind.is_root() {
                false
            } else {
                after_token(steps.drop_last())
            },
            WalkEvent::Enter(span) => after_token(steps.drop_last()),
        }
    }
}

/// The gap before the node `span`: the bytes from the cursor after `steps`
/// to where the node starts, or, for the root, to where it ends.
pub open spec fn gap_before(steps: Seq<WalkEvent>, span: SyntaxSpan, text: Seq<u8>) -> Seq<u8> {
    if span.kind.is_root() {
        text.subrange(cursor_after(steps), span.end as int)
    } else {
        text.subrange(cursor_after(steps), span.start as int)
    }
}

/// Whether a line break was crossed since the token met last.
pub open spec fn line_crossed(steps: Seq<WalkEvent>, text: Seq<u8>) -> bool
    decreases steps.len(),
{
    if steps.len() == 0 {
        false
    } else {
        match steps.last() {
            WalkEvent::Leave(span) => if span.kind.is_significant() {
                false
            } else if span.kind is Comment {
                line_crossed(steps.drop_last(), text) || has_line_break(
                    gap_before(steps.drop_last(), span, text),
                )
            } else {
                line_crossed(steps.drop_last(), text)
            },
            WalkEvent::Enter(span) => line_crossed(steps.drop_last(), text),
        }
    }
}

/// Whether trivia that comes next is close enough to the token met last to
/// trail it: there is such a token, and no line break was crossed since.
pub open spec fn may_trail(steps: Seq<WalkEvent>, text: Seq<u8>) -> bool {
    after_token(steps) && !line_crossed(steps, text)
}

/// The number of steps up to the one that leaves the last value or token;
/// 0 where the outline holds none. After that many steps no token follows.
pub open spec fn significant_end(steps: Seq<WalkEvent>) -> int
    decreases steps.len(),
{
    if steps.len() == 0 {
        0
    } else {
        match steps.last() {
            WalkEvent::Leave(span) => if span.kind.is_significant() {
                steps.len() as int
            } else {
                significant_end(steps.drop_last())
            },
            WalkEvent::Enter(span) => significant_end(steps.drop_last()),
        }
    }
}

/// The offsets of a step fit the text and what came before: a leaf starts
/// at or after the cursor and lies within the text, a comment is not empty,
/// the root ends with the text, and the gap before it holds nothing but
/// whitespace and line breaks.
pub open spec fn step_fits(steps: Seq<WalkEvent>, step: WalkEvent, text: Seq<u8>) -> bool {
    match step {
        WalkEvent::Enter(span) => true,
        WalkEvent::Leave(span) => if span.kind.is_root() {
            &&& cursor_after(steps) <= span.end == text.len()
            &&& is_trivia_text(gap_before(steps, span, text))
        } else if span.kind.is_leaf() {
            &&& cursor_after(steps) <= span.start <= span.end <= text.len()
            &&& span.kind is Comment ==> span.start < span.end
            &&& is_trivia_text(gap_before(steps, span, text))
        } else {
            true
        },
    }
}

/// Every step fits the text and the steps before it.
pub open spec fn spans_fit(steps: Seq<WalkEvent>, text: Seq<u8>) -> bool
    decreases steps.len(),
{
    steps.len() == 0 || (spans_fit(steps.drop_last(), text) && step_fits(
        steps.drop_last(),
        steps.last(),
        text,
    ))
}

/// The outline is one that the walk accepts for `text`.
pub open spec fn outline_fits(steps: Seq<WalkEvent>, text: Seq<u8>) -> bool {
    &&& text.len() <= u32::MAX
    &&& well_nested_outline(steps)
    &&& spans_fit(steps, text)
}

/// The events that one step records.
pub open spec fn step_events(step: WalkEvent) -> Seq<Event> {
    match step {
        WalkEvent::Enter(span) => match span.kind {
            NodeSyntaxKind::Comment => Seq::empty(),
            NodeSyntaxKind::Token(kind) => Seq::empty(),
            NodeSyntaxKind::Value(kind, token) => seq![Event::Start { kind, forward_parent: None }],
            NodeSyntaxKind::Node(kind) => if kind == RSyntaxKind::R_ROOT {
                seq![
                    Event::Start { kind, forward_parent: None },
                    Event::Start { kind: RSyntaxKind::R_EXPRESSION_LIST, forward_parent: None },
                ]
            } else {
                seq![Event::Start { kind, forward_parent: None }]
            },
        },
        WalkEvent::Leave(span) => match span.kind {
            NodeSyntaxKind::Comment => Seq::empty(),
            NodeSyntaxKind::Token(kind) => seq![Event::Token { kind, end: span.end }],
            NodeSyntaxKind::Value(kind, token) => seq![
                Event::Token { kind: token, end: span.end },
                Event::Finish,
            ],
            NodeSyntaxKind::Node(kind) => if kind == RSyntaxKind::R_ROOT {
                seq![Event::Finish, Event::Finish]
            } else {
                seq![Event::Finish]
            },
        },
    }
}

/// The events that the walk over `steps` records.
pub open spec fn walk_events(steps: Seq<WalkEvent>) -> Seq<Event>
    decreases steps.len(),
{
    if steps.len() == 0 {
        Seq::empty()
    } else {
        walk_events(steps.drop_last()) + step_events(steps.last())
    }
}

/// The trivia that the walk records when it leaves the node `span` after
/// `steps`; `token_follows` says whether a value or a token is left at or
/// after this step.
///
/// Trivia can trail only between two tokens: a token was met, no line
/// break was crossed since, and a token follows. Before the first token
/// and after the last one all trivia leads.
///
/// Before a token, and at the end of the root, the gap is cut as
/// `gap_trivia` says. Before a comment a gap with a line break is cut in the
/// same way, and a gap without one is a single whitespace piece; that piece
/// and the comment trail the last token where trivia can, and lead
/// otherwise.
pub open spec fn leave_trivia(
    steps: Seq<WalkEvent>,
    span: SyntaxSpan,
    text: Seq<u8>,
    token_follows: bool,
) -> Seq<Trivia> {
    let cursor = cursor_after(steps);
    let gap = gap_before(steps, span, text);
    let trailing = may_trail(steps, text) && token_follows;
    match span.kind {
        NodeSyntaxKind::Comment => {
            let comment = Trivia {
                kind: TriviaPieceKind::SingleLineComment,
                range: TextRange { start: span.start, end: span.end },
                trailing: trailing && !has_line_break(gap),
            };
            if has_line_break(gap) {
                gap_trivia(gap, cursor, trailing).push(comment)
            } else if gap.len() > 0 {
                seq![
                    Trivia {
                        kind: TriviaPieceKind::Whitespace,
                        range: TextRange { start: cursor as u32, end: span.start },
                        trailing,
                    },
                    comment,
                ]
            } else {
                seq![comment]
            }
        },
        NodeSyntaxKind::Token(kind) => gap_trivia(gap, cursor, trailing),
        NodeSyntaxKind::Value(kind, token) => gap_trivia(gap, cursor, trailing),
        NodeSyntaxKind::Node(kind) => if kind == RSyntaxKind::R_ROOT {
            gap_trivia(gap, cursor, false)
        } else {
            Seq::empty()
        },
    }
}

/// The trivia that one step records after `steps`.
pub open spec fn step_trivia(
    steps: Seq<WalkEvent>,
    step: WalkEvent,
    text: Seq<u8>,
    token_follows: bool,
) -> Seq<Trivia> {
    match step {
        WalkEvent::Enter(span) => Seq::empty(),
        WalkEvent::Leave(span) => leave_trivia(steps, span, text, token_follows),
    }
}

/// The trivia that the walk records in `steps`, the first steps of an
/// outline whose last value or token is left within its first `token_end`
/// steps.
pub open spec fn trivia_before(steps: Seq<WalkEvent>, text: Seq<u8>, token_end: int) -> Seq<
    Trivia,
>
    decreases steps.len(),
{
    if steps.len() == 0 {
        Seq::empty()
    } else {
        trivia_before(steps.drop_last(), text, token_end) + step_trivia(
            steps.drop_last(),
            steps.last(),
            text,
            steps.len() - 1 < token_end,
        )
    }
}

/// The trivia that the walk over `steps` records.
pub open spec fn walk_trivia(steps: Seq<WalkEvent>, text: Seq<u8>) -> Seq<Trivia> {
    trivia_before(steps, text, significant_end(steps))
}

} // verus!
