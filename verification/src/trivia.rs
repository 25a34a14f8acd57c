//! Trivia pieces and the rule that cuts a gap of whitespace and line breaks
//! into them.

use crate::kind::RSyntaxKind;
use crate::text::{TextRange, TextSize};
use vstd::prelude::*;

verus! {

/// What a piece of trivia is.
#[derive(Clone, Copy, PartialEq, Eq, Structural, Hash, Debug)]
pub enum TriviaPieceKind {
    /// A line break: `\n`, `\r` or `\r\n`.
    Newline,
    /// Any whitespace character but a line break.
    Whitespace,
    /// A comment that ends with its line.
    SingleLineComment,
    /// A comment that may span several lines.
    MultiLineComment,
    /// A token that the parser skipped.
    Skipped,
}

/// A piece of whitespace, a line break or a comment in the source text,
/// attached to the token before it (trailing) or after it (leading).
#[derive(Clone, Copy, PartialEq, Eq, Structural, Hash, Debug)]
pub struct Trivia {
    pub kind: TriviaPieceKind,
    pub range: TextRange,
    pub trailing: bool,
}

impl Trivia {
    pub fn new(kind: TriviaPieceKind, range: TextRange, trailing: bool) -> (r: Trivia)
        ensures
            r == (Trivia { kind, range, trailing }),
    {
        Trivia { kind, range, trailing }
    }

    /// The kind of the piece.
    pub fn kind(&self) -> (r: TriviaPieceKind)
        ensures
            r == self.kind,
    {
        self.kind
    }

    /// The length of the piece in bytes.
    pub fn len(&self) -> (r: TextSize)
        requires
            self.range.wf(),
        ensures
            r == self.range.end - self.range.start,
    {
        self.range.len()
    }

    /// The byte offset of the piece in the source text.
    pub fn offset(&self) -> (r: TextSize)
        ensures
            r == self.range.start,
    {
        self.range.start
    }

    /// Whether the piece belongs to the token before it.
    pub fn trailing(&self) -> (r: bool)
        ensures
            r == self.trailing,
    {
        self.trailing
    }

    /// The byte range of the piece.
    pub fn text_range(&self) -> (r: TextRange)
        ensures
            r == self.range,
    {
        self.range
    }
}

/// The trivia piece kind of a trivia token kind.
pub open spec fn trivia_piece_kind_of(kind: RSyntaxKind) -> Option<TriviaPieceKind> {
    match kind {
        RSyntaxKind::NEWLINE => Some(TriviaPieceKind::Newline),
        RSyntaxKind::WHITESPACE => Some(TriviaPieceKind::Whitespace),
        RSyntaxKind::COMMENT => Some(TriviaPieceKind::SingleLineComment),
        _ => None,
    }
}

impl TriviaPieceKind {
    /// Converts a trivia token kind; any other kind is an error.
    pub fn try_from(value: RSyntaxKind) -> (r: Result<TriviaPieceKind, ()>)
        ensures
            r.is_ok() == value.spec_is_trivia(),
            r == match trivia_piece_kind_of(value) {
                Some(kind) => Ok::<TriviaPieceKind, ()>(kind),
                None => Err::<TriviaPieceKind, ()>(()),
            },
    {
        if value.is_trivia() {
            match value {
                RSyntaxKind::NEWLINE => Ok(TriviaPieceKind::Newline),
                RSyntaxKind::WHITESPACE => Ok(TriviaPieceKind::Whitespace),
                _ => Ok(TriviaPieceKind::SingleLineComment),
            }
        } else {
            Err(())
        }
    }
}

/// The bytes that the byte table files under whitespace: tab, line feed,
/// vertical tab, form feed, carriage return and space.
pub open spec fn is_table_whitespace(byte: u8) -> bool {
    byte == 0x09 || byte == 0x0A || byte == 0x0B || byte == 0x0C || byte == 0x0D || byte == 0x20
}

/// A byte of a line break: line feed or carriage return.
pub open spec fn is_line_break(byte: u8) -> bool {
    byte == 0x0A || byte == 0x0D
}

/// A whitespace byte that is no line break.
pub open spec fn is_whitespace_byte(byte: u8) -> bool {
    is_table_whitespace(byte) && !is_line_break(byte)
}

/// A gap holds nothing but whitespace and line breaks.
pub open spec fn is_trivia_text(text: Seq<u8>) -> bool {
    forall|i: int| 0 <= i < text.len() ==> is_table_whitespace(#[trigger] text[i])
}

/// Whether a line break occurs in `text`.
pub open spec fn has_line_break(text: Seq<u8>) -> bool {
    exists|i: int| 0 <= i < text.len() && is_line_break(#[trigger] text[i])
}

/// The index of the first line break at or after `i`, or the length of
/// `text` where there is none.
pub open spec fn line_break_from(text: Seq<u8>, i: int) -> int
    decreases text.len() - i,
{
    if 0 <= i < text.len() && !is_line_break(text[i]) {
        line_break_from(text, i + 1)
    } else {
        i
    }
}

/// The end of the run of whitespace bytes that starts at `i`.
pub open spec fn whitespace_run_end(text: Seq<u8>, i: int) -> int
    decreases text.len() - i,
{
    if 0 <= i < text.len() && is_whitespace_byte(text[i]) {
        whitespace_run_end(text, i + 1)
    } else {
        i
    }
}

/// The end of the piece that starts at `i`: a whole run of whitespace, or one
/// line break, where `\r\n` counts as one.
pub open spec fn piece_end(text: Seq<u8>, i: int) -> int {
    if is_whitespace_byte(text[i]) {
        whitespace_run_end(text, i)
    } else if text[i] == 0x0D && i + 1 < text.len() && text[i + 1] == 0x0A {
        i + 2
    } else {
        i + 1
    }
}

/// The kind of the piece that starts at `i`.
pub open spec fn piece_kind(text: Seq<u8>, i: int) -> TriviaPieceKind {
    if is_whitespace_byte(text[i]) {
        TriviaPieceKind::Whitespace
    } else {
        TriviaPieceKind::Newline
    }
}

/// A piece over the bytes `from..to` of a gap whose first byte lies at
/// offset `start` of the source text.
pub open spec fn piece_at(
    kind: TriviaPieceKind,
    start: int,
    from: int,
    to: int,
    trailing: bool,
) -> Trivia {
    Trivia {
        kind,
        range: TextRange { start: (start + from) as u32, end: (start + to) as u32 },
        trailing,
    }
}

pub proof fn lemma_whitespace_run_bounds(text: Seq<u8>, i: int)
    requires
        0 <= i <= text.len(),
    ensures
        i <= whitespace_run_end(text, i) <= text.len(),
        0 <= i < text.len() && is_whitespace_byte(text[i]) ==> i < whitespace_run_end(text, i),
        forall|j: int| i <= j < whitespace_run_end(text, i) ==> is_whitespace_byte(#[trigger] text[j]),
        whitespace_run_end(text, i) < text.len() ==> !is_whitespace_byte(
            text[whitespace_run_end(text, i)],
        ),
    decreases text.len() - i,
{
    if i < text.len() && is_whitespace_byte(text[i]) {
        lemma_whitespace_run_bounds(text, i + 1);
    }
}

pub proof fn lemma_line_break_from_bounds(text: Seq<u8>, i: int)
    requires
        0 <= i <= text.len(),
    ensures
        i <= line_break_from(text, i) <= text.len(),
        forall|j: int| i <= j < line_break_from(text, i) ==> !is_line_break(#[trigger] text[j]),
        line_break_from(text, i) < text.len() ==> is_line_break(text[line_break_from(text, i)]),
    decreases text.len() - i,
{
    if i < text.len() && !is_line_break(text[i]) {
        lemma_line_break_from_bounds(text, i + 1);
    }
}

/// The leading pieces of the bytes of a gap from index `i` on: every run of
/// whitespace is one piece, every line break is one piece.
pub open spec fn leading_pieces(text: Seq<u8>, i: int, start: int) -> Seq<Trivia>
    decreases text.len() - i,
{
    if 0 <= i < text.len() {
        proof {
            lemma_whitespace_run_bounds(text, i);
        }
        seq![piece_at(piece_kind(text, i), start, i, piece_end(text, i), false)] + leading_pieces(
            text,
            piece_end(text, i),
            start,
        )
    } else {
        Seq::empty()
    }
}

/// The trivia of a gap whose first byte lies at offset `start`.
///
/// Before the first token and after the last one every piece is leading.
/// Between two tokens the bytes before the first line break form one
/// whitespace piece, which is trailing where a line break follows it and
/// leading where none does; the line break and all that follows is leading.
pub open spec fn gap_trivia(gap: Seq<u8>, start: int, between_two_tokens: bool) -> Seq<Trivia> {
    let k = line_break_from(gap, 0);
    if between_two_tokens && k > 0 {
        seq![piece_at(TriviaPieceKind::Whitespace, start, 0, k, k < gap.len())] + leading_pieces(
            gap,
            k,
            start,
        )
    } else {
        leading_pieces(gap, 0, start)
    }
}

/// The pieces lie end to end and span exactly the bytes `from..to`: the
/// first starts at `from`, each next one starts where the one before it
/// ends, the last ends at `to`, and none is empty.
pub open spec fn pieces_partition(pieces: Seq<Trivia>, from: int, to: int) -> bool {
    &&& pieces.len() == 0 ==> from == to
    &&& pieces.len() > 0 ==> pieces[0].range.start == from && pieces.last().range.end == to
    &&& forall|i: int|
        0 <= i < pieces.len() ==> (#[trigger] pieces[i]).range.start < pieces[i].range.end
    &&& forall|i: int, j: int|
        0 <= i && j == i + 1 && j < pieces.len() ==> (#[trigger] pieces[i]).range.end
            == (#[trigger] pieces[j]).range.start
}

/// A piece that ends where a partition starts extends the partition.
pub proof fn lemma_partition_prepend(first: Trivia, rest: Seq<Trivia>, from: int, to: int)
    requires
        first.range.start == from,
        first.range.start < first.range.end,
        pieces_partition(rest, first.range.end as int, to),
    ensures
        pieces_partition(seq![first] + rest, from, to),
{
    let all = seq![first] + rest;
    assert(all[0] == first);
    assert forall|i: int| 0 <= i < all.len() implies (#[trigger] all[i]).range.start
        < all[i].range.end by {
        if i > 0 {
            assert(all[i] == rest[i - 1]);
        }
    }
    assert forall|i: int, j: int| 0 <= i && j == i + 1 && j < all.len() implies (#[trigger] all[i])
        .range.end == (#[trigger] all[j]).range.start by {
        assert(all[j] == rest[j - 1]);
        if i > 0 {
            assert(all[i] == rest[i - 1]);
        }
    }
    if rest.len() > 0 {
        assert(all.last() == rest[rest.len() - 1]);
    }
}

/// The leading pieces of a gap lie end to end and span it exactly, and none
/// of them is trailing.
pub proof fn lemma_leading_pieces_partition(text: Seq<u8>, i: int, start: int)
    requires
        is_trivia_text(text),
        0 <= i <= text.len(),
        0 <= start,
        start + text.len() <= u32::MAX,
    ensures
        pieces_partition(leading_pieces(text, i, start), start + i, start + text.len()),
        forall|j: int|
            0 <= j < leading_pieces(text, i, start).len() ==> !(#[trigger] leading_pieces(
                text,
                i,
                start,
            )[j]).trailing,
    decreases text.len() - i,
{
    if i < text.len() {
        lemma_whitespace_run_bounds(text, i);
        let j = piece_end(text, i);
        let first = piece_at(piece_kind(text, i), start, i, j, false);
        let rest = leading_pieces(text, j, start);
        lemma_leading_pieces_partition(text, j, start);
        lemma_partition_prepend(first, rest, start + i, start + text.len());
        let all = leading_pieces(text, i, start);
        assert(all == seq![first] + rest);
        assert forall|n: int| 0 <= n < all.len() implies !(#[trigger] all[n]).trailing by {
            if n > 0 {
                assert(all[n] == rest[n - 1]);
            }
        }
    }
}

/// The trivia pieces of a gap are contiguous, do not overlap and span the
/// gap exactly, whatever the context of the gap.
pub proof fn lemma_gap_trivia_partition(gap: Seq<u8>, start: int, between_two_tokens: bool)
    requires
        is_trivia_text(gap),
        0 <= start,
        start + gap.len() <= u32::MAX,
    ensures
        pieces_partition(gap_trivia(gap, start, between_two_tokens), start, start + gap.len()),
{
    let k = line_break_from(gap, 0);
    lemma_line_break_from_bounds(gap, 0);
    if between_two_tokens && k > 0 {
        let first = piece_at(TriviaPieceKind::Whitespace, start, 0, k, k < gap.len());
        let rest = leading_pieces(gap, k, start);
        lemma_leading_pieces_partition(gap, k, start);
        lemma_partition_prepend(first, rest, start, start + gap.len());
    } else {
        lemma_leading_pieces_partition(gap, 0, start);
    }
}

/// In the trivia of a gap only the first piece can be trailing, and it is
/// so only between two tokens and before a line break.
pub proof fn lemma_gap_trivia_trailing_first(gap: Seq<u8>, start: int, between_two_tokens: bool)
    requires
        is_trivia_text(gap),
        0 <= start,
        start + gap.len() <= u32::MAX,
    ensures
        forall|i: int|
            0 <= i < gap_trivia(gap, start, between_two_tokens).len() && (#[trigger] gap_trivia(
                gap,
                start,
                between_two_tokens,
            )[i]).trailing ==> i == 0 && between_two_tokens && has_line_break(gap),
{
    let k = line_break_from(gap, 0);
    lemma_line_break_from_bounds(gap, 0);
    let all = gap_trivia(gap, start, between_two_tokens);
    if between_two_tokens && k > 0 {
        let rest = leading_pieces(gap, k, start);
        lemma_leading_pieces_partition(gap, k, start);
        assert forall|i: int| 0 <= i < all.len() && (#[trigger] all[i]).trailing implies i == 0
            && has_line_break(gap) by {
            if i > 0 {
                assert(all[i] == rest[i - 1]);
            } else {
                assert(k < gap.len());
                assert(is_line_break(gap[k]));
            }
        }
    } else {
        lemma_leading_pieces_partition(gap, 0, start);
    }
}

/// The text of a piece is what its kind says: a whitespace piece holds
/// whitespace and no line break, and a line-break piece is `\n`, `\r\n`, or
/// a `\r` that no `\n` follows.
pub open spec fn piece_fits_kind(piece: Trivia, gap: Seq<u8>, start: int) -> bool {
    let from = piece.range.start - start;
    let to = piece.range.end - start;
    &&& 0 <= from < to <= gap.len()
    &&& piece.kind == TriviaPieceKind::Whitespace || piece.kind == TriviaPieceKind::Newline
    &&& piece.kind == TriviaPieceKind::Whitespace ==> forall|k: int|
        from <= k < to ==> is_whitespace_byte(#[trigger] gap[k])
    &&& piece.kind == TriviaPieceKind::Newline ==> {
        ||| to == from + 1 && gap[from] == 0x0A
        ||| to == from + 2 && gap[from] == 0x0D && gap[from + 1] == 0x0A
        ||| to == from + 1 && gap[from] == 0x0D && (to < gap.len() ==> gap[to] != 0x0A)
    }
}

/// A run of whitespace is one piece: where a whitespace piece ends, the
/// gap ends or a line break follows.
pub open spec fn piece_is_whole(piece: Trivia, gap: Seq<u8>, start: int) -> bool {
    piece.kind == TriviaPieceKind::Whitespace && piece.range.end - start < gap.len()
        ==> is_line_break(gap[piece.range.end - start])
}

/// Every leading piece of a gap has the text that its kind says, and every
/// run of whitespace is one piece.
pub proof fn lemma_leading_pieces_fit_kind(text: Seq<u8>, i: int, start: int)
    requires
        is_trivia_text(text),
        0 <= i <= text.len(),
        0 <= start,
        start + text.len() <= u32::MAX,
    ensures
        forall|j: int|
            0 <= j < leading_pieces(text, i, start).len() ==> piece_fits_kind(
                #[trigger] leading_pieces(text, i, start)[j],
                text,
                start,
            ) && piece_is_whole(leading_pieces(text, i, start)[j], text, start),
    decreases text.len() - i,
{
    if i < text.len() {
        lemma_whitespace_run_bounds(text, i);
        let j = piece_end(text, i);
        let first = piece_at(piece_kind(text, i), start, i, j, false);
        let rest = leading_pieces(text, j, start);
        let all = leading_pieces(text, i, start);
        lemma_leading_pieces_fit_kind(text, j, start);
        assert(all == seq![first] + rest);
        assert(is_table_whitespace(text[i]));
        if j < text.len() {
            assert(is_table_whitespace(text[j]));
        }
        assert(piece_fits_kind(first, text, start));
        assert(piece_is_whole(first, text, start));
        assert forall|n: int| 0 <= n < all.len() implies piece_fits_kind(
            #[trigger] all[n],
            text,
            start,
        ) && piece_is_whole(all[n], text, start) by {
            if n > 0 {
                assert(all[n] == rest[n - 1]);
            } else {
                assert(all[0] == first);
            }
        }
    }
}

/// Every piece of the trivia of a gap has the text that its kind says:
/// whitespace pieces hold whitespace and no line break, each line break is
/// a piece of its own, `\r\n` is one piece, and every run of whitespace is
/// one piece.
pub proof fn lemma_gap_trivia_fits_kind(gap: Seq<u8>, start: int, between_two_tokens: bool)
    requires
        is_trivia_text(gap),
        0 <= start,
        start + gap.len() <= u32::MAX,
    ensures
        forall|j: int|
            0 <= j < gap_trivia(gap, start, between_two_tokens).len() ==> piece_fits_kind(
                #[trigger] gap_trivia(gap, start, between_two_tokens)[j],
                gap,
                start,
            ) && piece_is_whole(gap_trivia(gap, start, between_two_tokens)[j], gap, start),
{
    let k = line_break_from(gap, 0);
    lemma_line_break_from_bounds(gap, 0);
    let all = gap_trivia(gap, start, between_two_tokens);
    if between_two_tokens && k > 0 {
        let first = piece_at(TriviaPieceKind::Whitespace, start, 0, k, k < gap.len());
        let rest = leading_pieces(gap, k, start);
        lemma_leading_pieces_fit_kind(gap, k, start);
        assert forall|n: int| 0 <= n < k implies is_whitespace_byte(#[trigger] gap[n]) by {
            assert(is_table_whitespace(gap[n]));
        }
        assert(piece_fits_kind(first, gap, start));
        assert(piece_is_whole(first, gap, start));
        assert forall|n: int| 0 <= n < all.len() implies piece_fits_kind(
            #[trigger] all[n],
            gap,
            start,
        ) && piece_is_whole(all[n], gap, start) by {
            if n > 0 {
                assert(all[n] == rest[n - 1]);
            } else {
                assert(all[0] == first);
            }
        }
    } else {
        lemma_leading_pieces_fit_kind(gap, 0, start);
    }
}

} // verus!
