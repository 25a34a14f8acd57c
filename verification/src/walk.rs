//! The walk over an outline, which records the events and trivia of a
//! parse.

use crate::event::{balanced, lemma_empty_is_balanced, wrapped_by_root, Event};
use crate::nesting::{
    count_opening, lemma_inner_events_open, lemma_open_spans_no_root, lemma_open_spans_prefix,
    theorem_event_balance,
};
use crate::kind::RSyntaxKind;
use crate::outline::{
    after_token, cursor_after, leave_trivia, line_crossed, open_spans, outline_fits,
    significant_end, spans_fit, step_events, step_fits, step_trivia, trivia_before, walk_events,
    walk_trivia, NodeSyntaxKind, SyntaxSpan, WalkEvent,
};
use crate::parse::RParse;
use crate::text::TextRange;
use crate::trivia::{has_line_break, is_line_break, Trivia, TriviaPieceKind};
use vstd::prelude::*;
use vstd::slice::slice_subrange;
use vstd::string::StringSliceAdditionalSpecFns;

verus! {

/// Whether a line break occurs in `gap`.
pub fn contains_line_break(gap: &[u8]) -> (r: bool)
    ensures
        r == has_line_break(gap@),
{
    let n: usize = gap.len();
    let mut i: usize = 0;
    while i < n
        invariant
            i <= n,
            n == gap@.len(),
            forall|j: int| 0 <= j < i ==> !is_line_break(#[trigger] gap@[j]),
        decreases n - i,
    {
        if gap[i] == 0x0A || gap[i] == 0x0D {
            assert(is_line_break(gap@[i as int]));
            return true;
        }
        i += 1;
    }
    false
}

/// The number of steps up to the one that leaves the last value or token.
pub fn last_token_step(outline: &Vec<WalkEvent>) -> (r: usize)
    ensures
        r == significant_end(outline@),
        r <= outline@.len(),
{
    let mut end: usize = 0;
    let mut i: usize = 0;
    proof {
        assert(outline@.take(0).len() == 0);
    }
    while i < outline.len()
        invariant
            i <= outline@.len(),
            end <= i,
            end == significant_end(outline@.take(i as int)),
        decreases outline@.len() - i,
    {
        proof {
            assert(outline@.take(i + 1).drop_last() == outline@.take(i as int));
            assert(outline@.take(i + 1).last() == outline@[i as int]);
        }
        match outline[i] {
            WalkEvent::Leave(span) => {
                match span.kind {
                    NodeSyntaxKind::Value(_, _) => {
                        end = i + 1;
                    },
                    NodeSyntaxKind::Token(_) => {
                        end = i + 1;
                    },
                    _ => {},
                }
            },
            WalkEvent::Enter(_) => {},
        }
        i += 1;
    }
    proof {
        assert(outline@.take(i as int) == outline@);
    }
    end
}

/// Where all steps fit, each step fits the steps before it.
pub proof fn lemma_spans_fit_prefix(steps: Seq<WalkEvent>, text: Seq<u8>, n: int)
    requires
        spans_fit(steps, text),
        0 <= n <= steps.len(),
    ensures
        spans_fit(steps.take(n), text),
        n < steps.len() ==> step_fits(steps.take(n), steps[n], text),
    decreases steps.len() - n,
{
    if n == steps.len() {
        assert(steps.take(n) == steps);
    } else {
        lemma_spans_fit_prefix(steps, text, n + 1);
        assert(steps.take(n + 1).drop_last() == steps.take(n));
        assert(steps.take(n + 1).last() == steps[n]);
    }
}

/// Whether the walk accepts `outline` for `text`.
pub fn outline_is_fit(outline: &Vec<WalkEvent>, text: &[u8]) -> (r: bool)
    ensures
        r == outline_fits(outline@, text@),
{
    let n: usize = outline.len();
    let ghost steps = outline@;
    let ghost inner = steps.subrange(1, n - 1);
    if text.len() > 0xFFFF_FFFF || n < 2 {
        return false;
    }
    let root = match outline[0] {
        WalkEvent::Enter(span) => span,
        WalkEvent::Leave(_) => {
            return false;
        },
    };
    match root.kind {
        NodeSyntaxKind::Node(RSyntaxKind::R_ROOT) => {},
        _ => {
            return false;
        },
    }
    match outline[n - 1] {
        WalkEvent::Leave(span) => {
            if span != root {
                return false;
            }
        },
        WalkEvent::Enter(_) => {
            return false;
        },
    }
    let mut open: Vec<SyntaxSpan> = Vec::new();
    let mut last_end: u32 = 0;
    proof {
        assert(steps.take(1).drop_last() == steps.take(0));
        assert(steps.take(1).last() == steps[0]);
        assert(steps.take(0).len() == 0);
        assert(inner.take(0).len() == 0);
        assert(spans_fit(steps.take(0), text@));
        assert(cursor_after(steps.take(1)) == cursor_after(steps.take(0)));
    }
    let mut idx: usize = 1;
    while idx < n - 1
        invariant
            1 <= idx <= n - 1,
            n == steps.len(),
            steps == outline@,
            inner == steps.subrange(1, n - 1),
            text@.len() <= u32::MAX,
            open_spans(inner.take(idx - 1)) == Some(open@),
            spans_fit(steps.take(idx as int), text@),
            last_end == cursor_after(steps.take(idx as int)),
            last_end <= text@.len(),
        decreases n - idx,
    {
        let step = outline[idx];
        let ghost done = steps.take(idx as int);
        proof {
            assert(steps.take(idx + 1).drop_last() == done);
            assert(steps.take(idx + 1).last() == step);
            assert(inner.take(idx as int).drop_last() == inner.take(idx - 1));
            assert(inner.take(idx as int).last() == step);
            if open_spans(inner) is Some {
                lemma_open_spans_prefix(inner, idx as int);
            }
            if spans_fit(steps, text@) {
                lemma_spans_fit_prefix(steps, text@, idx as int);
            }
        }
        match step {
            WalkEvent::Enter(span) => {
                match span.kind {
                    NodeSyntaxKind::Node(RSyntaxKind::R_ROOT) => {
                        return false;
                    },
                    _ => {},
                }
                open.push(span);
            },
            WalkEvent::Leave(span) => {
                match open.pop() {
                    None => {
                        return false;
                    },
                    Some(top) => {
                        if top != span {
                            return false;
                        }
                    },
                }
                proof {
                    lemma_open_spans_no_root(inner.take(idx - 1));
                    assert(!span.kind.is_root());
                }
                match span.kind {
                    NodeSyntaxKind::Node(_) => {},
                    _ => {
                        if !(last_end <= span.start && span.start <= span.end && span.end as usize
                            <= text.len()) {
                            return false;
                        }
                        match span.kind {
                            NodeSyntaxKind::Comment => {
                                if span.start == span.end {
                                    return false;
                                }
                            },
                            _ => {},
                        }
                        let gap = slice_subrange(text, last_end as usize, span.start as usize);
                        if !RParse::is_trivia_gap(gap) {
                            return false;
                        }
                        last_end = span.end;
                    },
                }
            },
        }
        idx += 1;
    }
    proof {
        assert(inner.take(n - 2) == inner);
        assert(steps.take(n as int) == steps);
        assert(steps.drop_last() == steps.take(n - 1));
    }
    if open.len() != 0 {
        return false;
    }
    assert(open@ =~= Seq::<SyntaxSpan>::empty());
    if !(last_end <= root.end && root.end as usize == text.len()) {
        return false;
    }
    let gap = slice_subrange(text, last_end as usize, root.end as usize);
    RParse::is_trivia_gap(gap)
}

/// Walks an outline of a text and records the events and the trivia that
/// it stands for.
pub struct RWalk<'src> {
    pub outline: Vec<WalkEvent>,
    pub text: &'src str,
    pub parse: RParse,
}

impl<'src> RWalk<'src> {
    pub fn new(outline: Vec<WalkEvent>, text: &'src str) -> (r: Self)
        ensures
            r.outline@ == outline@,
            r.text == text,
            r.parse.events@ == Seq::<Event>::empty(),
            r.parse.trivia@ == Seq::<Trivia>::empty(),
            r.parse.errors@ == Seq::<crate::diagnostic::ParseDiagnostic>::empty(),
    {
        RWalk { outline, text, parse: RParse::new() }
    }

    /// Records the events and the trivia of the outline.
    ///
    /// Entering a node opens it, and the root opens the expression list
    /// inside it as well. Leaving a token records the trivia of the gap
    /// before it and then the token; leaving a value does the same and
    /// closes the value; leaving a comment records the gap and the comment
    /// as trivia; leaving the root closes the expression list, records the
    /// gap up to the end of the text as leading trivia and closes the root.
    pub fn walk(&mut self)
        requires
            old(self).parse.events@.len() == 0,
            old(self).parse.trivia@.len() == 0,
            outline_fits(old(self).outline@, old(self).text.spec_bytes()),
        ensures
            final(self).outline@ == old(self).outline@,
            final(self).text == old(self).text,
            final(self).parse.events@ == walk_events(old(self).outline@),
            final(self).parse.trivia@ == walk_trivia(
                old(self).outline@,
                old(self).text.spec_bytes(),
            ),
            final(self).parse.errors@ == old(self).parse.errors@,
            wrapped_by_root(final(self).parse.events@),
            balanced(final(self).parse.events@),
    {
        let bytes: &[u8] = self.text.as_bytes();
        let n: usize = self.outline.len();
        let ghost steps = self.outline@;
        let ghost text = self.text.spec_bytes();
        let ghost inner = steps.subrange(1, n - 1);
        let mut last_end: u32 = 0;
        // Trivia trails only between two tokens: up to this step a token
        // still follows.
        let token_end: usize = last_token_step(&self.outline);
        // Whether a token was met, and whether a line break was crossed
        // since.
        let mut between_two_tokens = false;
        let mut line_crossed_since = false;

        let root = match self.outline[0] {
            WalkEvent::Enter(span) => span,
            WalkEvent::Leave(span) => span,
        };
        proof {
            lemma_empty_is_balanced();
            assert(self.parse.events@ =~= Seq::<Event>::empty());
        }
        self.parse.start(RSyntaxKind::R_ROOT);
        self.parse.push_event(
            Event::Start { kind: RSyntaxKind::R_EXPRESSION_LIST, forward_parent: None },
        );
        proof {
            assert(steps.take(1).drop_last() == steps.take(0));
            assert(steps.take(1).last() == steps[0]);
            assert(steps.take(0).len() == 0);
            assert(walk_events(steps.take(0)) =~= Seq::<Event>::empty());
            assert(trivia_before(steps.take(0), text, token_end as int) =~= Seq::<Trivia>::empty());
            assert(self.parse.events@ =~= walk_events(steps.take(1)));
            assert(self.parse.trivia@ =~= trivia_before(steps.take(1), text, token_end as int));
            assert(cursor_after(steps.take(1)) == cursor_after(steps.take(0)));
            assert(after_token(steps.take(1)) == after_token(steps.take(0)));
            assert(line_crossed(steps.take(1), text) == line_crossed(steps.take(0), text));
        }

        let mut idx: usize = 1;
        while idx < n - 1
            invariant
                1 <= idx <= n - 1,
                n == steps.len(),
                steps == self.outline@,
                text == self.text.spec_bytes(),
                bytes@ == text,
                self.text == old(self).text,
                inner == steps.subrange(1, n - 1),
                outline_fits(steps, text),
                self.parse.wf(),
                self.parse.events@ == walk_events(steps.take(idx as int)),
                token_end == significant_end(steps),
                self.parse.trivia@ == trivia_before(steps.take(idx as int), text, token_end as int),
                self.parse.errors@ == old(self).parse.errors@,
                last_end == cursor_after(steps.take(idx as int)),
                between_two_tokens == after_token(steps.take(idx as int)),
                line_crossed_since == line_crossed(steps.take(idx as int), text),
            decreases n - idx,
        {
            let step = self.outline[idx];
            let ghost done = steps.take(idx as int);
            let ghost events_before = self.parse.events@;
            let ghost trivia_so_far = self.parse.trivia@;
            proof {
                assert(steps.take(idx + 1).drop_last() == done);
                assert(steps.take(idx + 1).last() == step);
                lemma_spans_fit_prefix(steps, text, idx as int);
                // Two nodes are open for the root, and one more for each
                // open node of the outline that opened one.
                lemma_inner_events_open(steps, idx - 1);
                lemma_inner_events_open(steps, idx as int);
                lemma_open_spans_no_root(inner.take(idx - 1));
                assert(inner.take(idx as int).drop_last() == inner.take(idx - 1));
                assert(inner.take(idx as int).last() == step);
            }
            match step {
                WalkEvent::Enter(span) => {
                    match span.kind {
                        NodeSyntaxKind::Comment => {
                            // Comments are handled when they are left.
                        },
                        NodeSyntaxKind::Token(_) => {
                            // Tokens are handled when they are left.
                        },
                        NodeSyntaxKind::Value(kind, _) => {
                            self.parse.start(kind);
                        },
                        NodeSyntaxKind::Node(kind) => {
                            self.parse.start(kind);
                        },
                    }
                },
                WalkEvent::Leave(span) => {
                    match span.kind {
                        NodeSyntaxKind::Comment => {
                            let gap = slice_subrange(bytes, last_end as usize, span.start as usize);
                            let crosses = contains_line_break(gap);
                            // The whitespace and the comment trail the last
                            // token, unless a line break lies between, or
                            // there is no token before or after them.
                            let trailing = between_two_tokens && !line_crossed_since && idx < token_end;
                            if crosses {
                                self.parse.derive_trivia(gap, last_end, trailing);
                            } else if span.start != last_end {
                                self.parse.push_trivia(
                                    Trivia::new(
                                        TriviaPieceKind::Whitespace,
                                        TextRange::new(last_end, span.start),
                                        trailing,
                                    ),
                                );
                            }
                            // Comments are single-line even where they follow each other.
                            self.parse.push_trivia(
                                Trivia::new(
                                    TriviaPieceKind::SingleLineComment,
                                    TextRange::new(span.start, span.end),
                                    trailing && !crosses,
                                ),
                            );
                            proof {
                                assert(self.parse.trivia@ =~= trivia_so_far + leave_trivia(
                                    done,
                                    span,
                                    text,
                                    idx < token_end,
                                ));
                            }
                            line_crossed_since = line_crossed_since || crosses;
                            last_end = span.end;
                        },
                        NodeSyntaxKind::Token(kind) => {
                            // The tokenizer hands out every token but trivia, so all
                            // trivia lies between the end of the last token and the
                            // start of this one.
                            let gap = slice_subrange(bytes, last_end as usize, span.start as usize);
                            let trailing = between_two_tokens && !line_crossed_since && idx < token_end;
                            self.parse.derive_trivia(gap, last_end, trailing);
                            self.parse.token(kind, span.end);
                            last_end = span.end;
                            between_two_tokens = true;
                            line_crossed_since = false;
                        },
                        NodeSyntaxKind::Value(_, kind) => {
                            let gap = slice_subrange(bytes, last_end as usize, span.start as usize);
                            let trailing = between_two_tokens && !line_crossed_since && idx < token_end;
                            self.parse.derive_trivia(gap, last_end, trailing);
                            // The token, and then the end of the node around it.
                            self.parse.token(kind, span.end);
                            self.parse.finish();
                            last_end = span.end;
                            between_two_tokens = true;
                            line_crossed_since = false;
                        },
                        NodeSyntaxKind::Node(_) => {
                            self.parse.finish();
                        },
                    }
                },
            }
            proof {
                assert(self.parse.events@ =~= events_before + step_events(step));
                assert(self.parse.trivia@ =~= trivia_so_far + step_trivia(
                    done,
                    step,
                    text,
                    idx < token_end,
                ));
            }
            idx += 1;
        }

        // The root is left: the expression list ends, and what is left of the
        // text leads the end-of-file token.
        let ghost done = steps.take(n - 1);
        let ghost events_before = self.parse.events@;
        let ghost trivia_so_far = self.parse.trivia@;
        proof {
            assert(steps.take(n as int) == steps);
            assert(steps.drop_last() == done);
            lemma_spans_fit_prefix(steps, text, n - 1);
            lemma_inner_events_open(steps, n - 2);
            assert(inner.take(n - 2) == inner);
            assert(count_opening(Seq::<SyntaxSpan>::empty()) == 0);
        }
        self.parse.finish();
        let gap = slice_subrange(bytes, last_end as usize, root.end as usize);
        self.parse.derive_trivia(gap, last_end, false);
        self.parse.finish();
        proof {
            assert(self.parse.events@ =~= events_before + step_events(steps.last()));
            assert(self.parse.trivia@ =~= trivia_so_far + step_trivia(
                done,
                steps.last(),
                text,
                n - 1 < token_end,
            ));
            theorem_event_balance(steps);
        }
    }
}

} // verus!
