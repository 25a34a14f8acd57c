//! Parsing a source text into events and trivia, and the recorder that
//! collects them.

use crate::diagnostic::ParseDiagnostic;
use crate::event::{
    balanced, lemma_counts_push, lemma_empty_is_balanced, lemma_tokens_inside_push,
    lemma_well_nested_push, open_count, tokens_inside, well_nested, wrapped_by_root, Event,
};
use crate::kind::RSyntaxKind;
use crate::outline::{outline_fits, walk_events, walk_trivia, WalkEvent};
use crate::text::{TextRange, TextSize};
use crate::treesitter::{outline_of, outline_spec, tokenize, tokenized};
use crate::trivia::{
    gap_trivia, is_table_whitespace, is_trivia_text, is_whitespace_byte, leading_pieces,
    lemma_whitespace_run_bounds, line_break_from, piece_at, piece_end, piece_kind,
    whitespace_run_end, Trivia, TriviaPieceKind,
};
use crate::walk::{outline_is_fit, RWalk};
use vstd::prelude::*;
use vstd::string::StringSliceAdditionalSpecFns;

verus! {

/// How to parse. There is nothing to choose yet.
#[derive(Clone, Copy, PartialEq, Eq, Debug, Default)]
pub struct RParserOptions {}

/// Why a parse failed as a whole.
#[derive(Clone, Copy, PartialEq, Eq, Structural, Hash, Debug)]
pub enum ParseFailure {
    /// The tokenizer met an error in the text, or built no tree.
    Tokenizer,
    /// The tokenizer's tree has no outline: it holds a node of a type that
    /// stands for nothing, an offset beyond 32 bits, or no single root.
    Unsupported,
    /// The outline of the tokenizer's tree does not fit the text.
    Misfit,
}

impl ParseFailure {
    /// The message of the diagnostic of the failure.
    pub open spec fn spec_message(self) -> Seq<char> {
        match self {
            ParseFailure::Tokenizer => "Tree-sitter failed"@,
            ParseFailure::Unsupported => "The syntax tree holds what is not supported"@,
            ParseFailure::Misfit => "The syntax tree does not fit the text"@,
        }
    }

    /// The message of the diagnostic of the failure.
    pub fn message(self) -> (r: &'static str)
        ensures
            r@ == self.spec_message(),
    {
        match self {
            ParseFailure::Tokenizer => "Tree-sitter failed",
            ParseFailure::Unsupported => "The syntax tree holds what is not supported",
            ParseFailure::Misfit => "The syntax tree does not fit the text",
        }
    }
}

/// What a parse that failed for the reason `failure` hands out: no event,
/// no trivia, and one diagnostic that spans the whole text.
pub open spec fn is_parse_failure(
    events: Seq<Event>,
    trivia: Seq<Trivia>,
    errors: Seq<ParseDiagnostic>,
    text_len: int,
    failure: ParseFailure,
) -> bool {
    &&& events.len() == 0
    &&& trivia.len() == 0
    &&& errors.len() == 1
    &&& errors[0].message@ == failure.spec_message()
    &&& errors[0].range == Some(TextRange { start: 0, end: text_len as u32 })
}

/// What the parse of `text` hands out for the outline `steps`: the events
/// and the trivia that the walk records, and no diagnostic.
pub open spec fn is_parse_of(
    events: Seq<Event>,
    trivia: Seq<Trivia>,
    errors: Seq<ParseDiagnostic>,
    steps: Seq<WalkEvent>,
    text: Seq<u8>,
) -> bool {
    &&& events == walk_events(steps)
    &&& trivia == walk_trivia(steps, text)
    &&& errors.len() == 0
}

/// The result of a parse that failed as a whole for the reason `failure`,
/// for a text of `text_len` bytes.
pub fn parse_failure(failure: ParseFailure, text_len: TextSize) -> (r: (
    Vec<Event>,
    Vec<Trivia>,
    Vec<ParseDiagnostic>,
))
    ensures
        is_parse_failure(r.0@, r.1@, r.2@, text_len as int, failure),
{
    let events: Vec<Event> = Vec::new();
    let trivia: Vec<Trivia> = Vec::new();
    let span: Option<TextRange> = Some(TextRange::new(0, text_len));
    let error = ParseDiagnostic::new(failure.message(), span);
    let mut errors: Vec<ParseDiagnostic> = Vec::new();
    errors.push(error);
    (events, trivia, errors)
}

/// Walks an outline that fits `text` and hands out what the walk records.
pub fn parse_tree(outline: Vec<WalkEvent>, text: &str) -> (r: (
    Vec<Event>,
    Vec<Trivia>,
    Vec<ParseDiagnostic>,
))
    requires
        outline_fits(outline@, text.spec_bytes()),
    ensures
        is_parse_of(r.0@, r.1@, r.2@, outline@, text.spec_bytes()),
        wrapped_by_root(r.0@),
        balanced(r.0@),
{
    let mut walker = RWalk::new(outline, text);
    walker.walk();
    walker.parse.drain()
}

/// Why the parse fails, if it does, given what the tokenizer made of the
/// text: the tokenizer met an error, there is no outline, or the outline
/// does not fit the text.
pub open spec fn failure_of(has_error: bool, outline: Option<Seq<WalkEvent>>, bytes: Seq<u8>) -> Option<
    ParseFailure,
> {
    if has_error {
        Some(ParseFailure::Tokenizer)
    } else {
        match outline {
            None => Some(ParseFailure::Unsupported),
            Some(steps) => if outline_fits(steps, bytes) {
                None
            } else {
                Some(ParseFailure::Misfit)
            },
        }
    }
}

/// The result of the parse of `text`, given what the tokenizer made of it:
/// whether it met an error, and the outline of its tree where it has one.
///
/// The parse fails as a whole where the tokenizer met an error, where there
/// is no outline, and where the outline does not fit the text. Else it
/// hands out what the walk over the outline records.
pub fn parse_outline(has_error: bool, outline: Option<Vec<WalkEvent>>, text: &str) -> (r: (
    Vec<Event>,
    Vec<Trivia>,
    Vec<ParseDiagnostic>,
))
    requires
        text.spec_bytes().len() <= u32::MAX,
    ensures
        match failure_of(
            has_error,
            match outline {
                Some(steps) => Some(steps@),
                None => None,
            },
            text.spec_bytes(),
        ) {
            Some(failure) => is_parse_failure(
                r.0@,
                r.1@,
                r.2@,
                text.spec_bytes().len() as int,
                failure,
            ),
            None => is_parse_of(r.0@, r.1@, r.2@, outline.unwrap()@, text.spec_bytes())
                && wrapped_by_root(r.0@),
        },
        balanced(r.0@),
{
    let text_len: u32 = text.len() as u32;
    proof {
        lemma_empty_is_balanced();
    }
    if has_error {
        let r = parse_failure(ParseFailure::Tokenizer, text_len);
        assert(r.0@ =~= Seq::<Event>::empty());
        return r;
    }
    match outline {
        Some(steps) => {
            if outline_is_fit(&steps, text.as_bytes()) {
                parse_tree(steps, text)
            } else {
                let r = parse_failure(ParseFailure::Misfit, text_len);
                assert(r.0@ =~= Seq::<Event>::empty());
                r
            }
        },
        None => {
            let r = parse_failure(ParseFailure::Unsupported, text_len);
            assert(r.0@ =~= Seq::<Event>::empty());
            r
        },
    }
}

/// What the tokenizer makes of `text`, as the parse takes it: whether it
/// met an error, where building no tree counts as one, and the outline of
/// its tree where the tree has no error and has an outline.
pub open spec fn tokenized_outline(text: Seq<char>) -> (bool, Option<Seq<WalkEvent>>) {
    match tokenized(text) {
        Some((has_error, nodes)) => if has_error {
            (true, None)
        } else {
            (false, outline_spec(nodes))
        },
        None => (true, None),
    }
}

/// Parses `text`: asks the tokenizer for its tree, makes the outline of
/// the tree and walks it.
///
/// Where the tokenizer meets an error anywhere in the text, builds no tree,
/// or builds one whose outline there is none of or does not fit the text,
/// the parse fails as a whole: no event, no trivia, and one diagnostic
/// that spans the text. Else the result is what the walk over the outline
/// records.
pub fn parse_text(text: &str, _options: RParserOptions) -> (r: (
    Vec<Event>,
    Vec<Trivia>,
    Vec<ParseDiagnostic>,
))
    requires
        text.spec_bytes().len() <= u32::MAX,
    ensures
        match failure_of(
            tokenized_outline(text@).0,
            tokenized_outline(text@).1,
            text.spec_bytes(),
        ) {
            Some(failure) => is_parse_failure(
                r.0@,
                r.1@,
                r.2@,
                text.spec_bytes().len() as int,
                failure,
            ),
            None => is_parse_of(
                r.0@,
                r.1@,
                r.2@,
                tokenized_outline(text@).1.unwrap(),
                text.spec_bytes(),
            ) && wrapped_by_root(r.0@),
        },
        balanced(r.0@),
{
    match tokenize(text) {
        Some((has_error, nodes)) => {
            // An error anywhere in the tree fails the parse as a whole.
            let outline = if has_error {
                None
            } else {
                outline_of(&nodes)
            };
            parse_outline(has_error, outline, text)
        },
        None => parse_outline(true, None, text),
    }
}

/// Asks the byte table of `biome_unicode_table` for the class of `byte`
/// (`lookup_byte`) and says whether it is the whitespace class. The table
/// files six bytes under that class: 0x09 to 0x0D and 0x20.
#[verifier::external_body]
fn in_whitespace_class(byte: u8) -> (r: bool)
    ensures
        r == is_table_whitespace(byte),
{
    match biome_unicode_table::lookup_byte(byte) {
        biome_unicode_table::Dispatch::WHS => true,
        _ => false,
    }
}

/// Records the events and the trivia of one parse, in the order in which
/// they are met.
pub struct RParse {
    pub events: Vec<Event>,
    pub trivia: Vec<Trivia>,
    pub errors: Vec<ParseDiagnostic>,
}

impl RParse {
    /// No node was closed that was not open, and no token was recorded
    /// outside a node.
    pub open spec fn wf(&self) -> bool {
        well_nested(self.events@) && tokens_inside(self.events@)
    }

    /// The number of nodes that are open.
    pub open spec fn depth(&self) -> int {
        open_count(self.events@)
    }

    pub fn new() -> (r: RParse)
        ensures
            r.events@ == Seq::<Event>::empty(),
            r.trivia@ == Seq::<Trivia>::empty(),
            r.errors@ == Seq::<ParseDiagnostic>::empty(),
            r.wf(),
            r.depth() == 0,
    {
        let r = RParse { events: Vec::new(), trivia: Vec::new(), errors: Vec::new() };
        proof {
            lemma_empty_is_balanced();
            assert(r.events@ =~= Seq::<Event>::empty());
        }
        r
    }

    /// Opens a node of the given kind.
    pub fn start(&mut self, kind: RSyntaxKind)
        requires
            old(self).wf(),
        ensures
            final(self).events@ == old(self).events@.push(
                Event::Start { kind, forward_parent: None },
            ),
            final(self).trivia@ == old(self).trivia@,
            final(self).errors@ == old(self).errors@,
            final(self).wf(),
            final(self).depth() == old(self).depth() + 1,
    {
        self.push_event(Event::Start { kind, forward_parent: None });
    }

    /// Records a token of the given kind that ends at `end`. A node must
    /// be open.
    pub fn token(&mut self, kind: RSyntaxKind, end: TextSize)
        requires
            old(self).wf(),
            old(self).depth() > 0,
        ensures
            final(self).events@ == old(self).events@.push(Event::Token { kind, end }),
            final(self).trivia@ == old(self).trivia@,
            final(self).errors@ == old(self).errors@,
            final(self).wf(),
            final(self).depth() == old(self).depth(),
    {
        self.push_event(Event::Token { kind, end });
    }

    /// Closes the node that was opened last. A node must be open.
    pub fn finish(&mut self)
        requires
            old(self).wf(),
            old(self).depth() > 0,
        ensures
            final(self).events@ == old(self).events@.push(Event::Finish),
            final(self).trivia@ == old(self).trivia@,
            final(self).errors@ == old(self).errors@,
            final(self).wf(),
            final(self).depth() == old(self).depth() - 1,
    {
        self.push_event(Event::Finish);
    }

    /// Records an event as it is. A `Finish` and a `Token` need an open
    /// node.
    pub fn push_event(&mut self, event: Event)
        requires
            old(self).wf(),
            event is Finish || event is Token ==> old(self).depth() > 0,
        ensures
            final(self).events@ == old(self).events@.push(event),
            final(self).trivia@ == old(self).trivia@,
            final(self).errors@ == old(self).errors@,
            final(self).wf(),
            final(self).depth() == old(self).depth() + (if event is Start {
                1int
            } else if event is Finish {
                -1int
            } else {
                0int
            }),
    {
        proof {
            lemma_well_nested_push(self.events@, event);
            lemma_tokens_inside_push(self.events@, event);
            lemma_counts_push(self.events@, event);
        }
        self.events.push(event);
    }

    /// Records a piece of trivia as it is.
    pub fn push_trivia(&mut self, trivia: Trivia)
        ensures
            final(self).trivia@ == old(self).trivia@.push(trivia),
            final(self).events@ == old(self).events@,
            final(self).errors@ == old(self).errors@,
    {
        self.trivia.push(trivia);
    }

    /// Hands out what was recorded.
    pub fn drain(self) -> (r: (Vec<Event>, Vec<Trivia>, Vec<ParseDiagnostic>))
        ensures
            r.0@ == self.events@,
            r.1@ == self.trivia@,
            r.2@ == self.errors@,
    {
        (self.events, self.trivia, self.errors)
    }

    /// Whether `byte` is whitespace other than a line break, which is
    /// handled on its own.
    pub fn is_whitespace(byte: u8) -> (r: bool)
        ensures
            r == is_whitespace_byte(byte),
    {
        in_whitespace_class(byte) && byte != 0x0D && byte != 0x0A
    }

    /// Whether `gap` holds nothing but whitespace and line breaks.
    pub fn is_trivia_gap(gap: &[u8]) -> (r: bool)
        ensures
            r == is_trivia_text(gap@),
    {
        let n: usize = gap.len();
        let mut i: usize = 0;
        while i < n
            invariant
                i <= n,
                n == gap@.len(),
                forall|j: int| 0 <= j < i ==> is_table_whitespace(#[trigger] gap@[j]),
            decreases n - i,
        {
            if !in_whitespace_class(gap[i]) {
                return false;
            }
            i += 1;
        }
        true
    }

    /// Records the trivia of a gap: the text between two neighbouring
    /// tokens, before the first token or after the last one. `text` holds the
    /// bytes of the gap, nothing but whitespace and line breaks, and `start`
    /// is the offset of its first byte in the source text.
    pub fn derive_trivia(&mut self, text: &[u8], start: TextSize, between_two_tokens: bool)
        requires
            is_trivia_text(text@),
            start + text@.len() <= u32::MAX,
        ensures
            final(self).trivia@ == old(self).trivia@ + gap_trivia(
                text@,
                start as int,
                between_two_tokens,
            ),
            final(self).events@ == old(self).events@,
            final(self).errors@ == old(self).errors@,
    {
        let n: usize = text.len();
        let mut i: usize = 0;
        if between_two_tokens {
            while i < n && text[i] != 0x0D && text[i] != 0x0A
                invariant
                    i <= n,
                    n == text@.len(),
                    line_break_from(text@, i as int) == line_break_from(text@, 0),
                decreases n - i,
            {
                i += 1;
            }
            if i != 0 {
                let range = TextRange::new(start, start + i as u32);
                self.push_trivia(Trivia::new(TriviaPieceKind::Whitespace, range, i < n));
            }
        }
        proof {
            assert(old(self).trivia@ + gap_trivia(text@, start as int, between_two_tokens)
                =~= self.trivia@ + leading_pieces(text@, i as int, start as int));
        }
        while i < n
            invariant
                i <= n,
                n == text@.len(),
                is_trivia_text(text@),
                start + text@.len() <= u32::MAX,
                self.trivia@ + leading_pieces(text@, i as int, start as int) == old(self).trivia@
                    + gap_trivia(text@, start as int, between_two_tokens),
                self.events@ == old(self).events@,
                self.errors@ == old(self).errors@,
            decreases n - i,
        {
            let from: usize = i;
            let byte: u8 = text[i];
            let ghost before = self.trivia@;
            i += 1;
            let kind = if Self::is_whitespace(byte) {
                while i < n && Self::is_whitespace(text[i])
                    invariant
                        from < i <= n,
                        n == text@.len(),
                        whitespace_run_end(text@, i as int) == whitespace_run_end(
                            text@,
                            from as int,
                        ),
                    decreases n - i,
                {
                    i += 1;
                }
                TriviaPieceKind::Whitespace
            } else {
                if byte == 0x0D && i < n && text[i] == 0x0A {
                    i += 1;
                }
                TriviaPieceKind::Newline
            };
            let range = TextRange::new(start + from as u32, start + i as u32);
            self.push_trivia(Trivia::new(kind, range, false));
            proof {
                lemma_whitespace_run_bounds(text@, from as int);
                assert(i == piece_end(text@, from as int));
                assert(kind == piece_kind(text@, from as int));
                let piece = piece_at(kind, start as int, from as int, i as int, false);
                assert(self.trivia@ == before.push(piece));
                assert(before.push(piece) + leading_pieces(text@, i as int, start as int)
                    =~= before + leading_pieces(text@, from as int, start as int));
            }
        }
    }
}

} // verus!
