use biome_r_parser::parse::RParse;
use biome_r_parser::text::TextRange;
use biome_r_parser::trivia::{Trivia, TriviaPieceKind};

fn derive(gap: &[u8], start: u32, between_two_tokens: bool) -> Vec<Trivia> {
    let mut parse = RParse::new();
    parse.derive_trivia(gap, start, between_two_tokens);
    let (events, trivia, errors) = parse.drain();
    assert!(events.is_empty());
    assert!(errors.is_empty());
    trivia
}

fn piece(kind: TriviaPieceKind, start: u32, end: u32, trailing: bool) -> Trivia {
    Trivia::new(kind, TextRange::new(start, end), trailing)
}

fn assert_partition(pieces: &[Trivia], from: u32, to: u32) {
    let mut at = from;
    for piece in pieces {
        assert_eq!(piece.offset(), at);
        assert!(piece.len() > 0);
        at = piece.text_range().end();
    }
    assert_eq!(at, to);
}

#[test]
fn whitespace_bytes() {
    for byte in 0..=255u8 {
        let expected = matches!(byte, 0x09 | 0x0B | 0x0C | 0x20);
        assert_eq!(RParse::is_whitespace(byte), expected, "byte {byte}");
    }
}

#[test]
fn trivia_gaps_are_recognised() {
    assert!(RParse::is_trivia_gap(b""));
    assert!(RParse::is_trivia_gap(b" \t\r\n\x0B\x0C"));
    assert!(!RParse::is_trivia_gap(b" a "));
    assert!(!RParse::is_trivia_gap(b"#"));
    assert!(!RParse::is_trivia_gap(&[0xC2, 0xA0]));
}

#[test]
fn empty_gap_has_no_trivia() {
    assert_eq!(derive(b"", 7, true), vec![]);
    assert_eq!(derive(b"", 7, false), vec![]);
}

#[test]
fn gap_between_tokens_without_line_break_is_leading() {
    assert_eq!(
        derive(b" \t ", 1, true),
        vec![piece(TriviaPieceKind::Whitespace, 1, 4, false)]
    );
}

#[test]
fn gap_between_tokens_trails_up_to_the_line_break() {
    assert_eq!(
        derive(b"  \n\t\n", 3, true),
        vec![
            piece(TriviaPieceKind::Whitespace, 3, 5, true),
            piece(TriviaPieceKind::Newline, 5, 6, false),
            piece(TriviaPieceKind::Whitespace, 6, 7, false),
            piece(TriviaPieceKind::Newline, 7, 8, false),
        ]
    );
}

#[test]
fn gap_that_starts_with_a_line_break_is_all_leading() {
    assert_eq!(
        derive(b"\n  ", 1, true),
        vec![
            piece(TriviaPieceKind::Newline, 1, 2, false),
            piece(TriviaPieceKind::Whitespace, 2, 4, false),
        ]
    );
}

#[test]
fn gap_outside_two_tokens_is_all_leading() {
    assert_eq!(
        derive(b"  \n ", 0, false),
        vec![
            piece(TriviaPieceKind::Whitespace, 0, 2, false),
            piece(TriviaPieceKind::Newline, 2, 3, false),
            piece(TriviaPieceKind::Whitespace, 3, 4, false),
        ]
    );
}

#[test]
fn carriage_returns_are_line_breaks() {
    assert_eq!(
        derive(b"\r\n\r\r\n\n", 10, false),
        vec![
            piece(TriviaPieceKind::Newline, 10, 12, false),
            piece(TriviaPieceKind::Newline, 12, 13, false),
            piece(TriviaPieceKind::Newline, 13, 15, false),
            piece(TriviaPieceKind::Newline, 15, 16, false),
        ]
    );
    assert_eq!(
        derive(b" \r ", 0, true),
        vec![
            piece(TriviaPieceKind::Whitespace, 0, 1, true),
            piece(TriviaPieceKind::Newline, 1, 2, false),
            piece(TriviaPieceKind::Whitespace, 2, 3, false),
        ]
    );
}

#[test]
fn trivia_is_appended_to_what_was_recorded() {
    let mut parse = RParse::new();
    parse.derive_trivia(b" ", 0, false);
    parse.derive_trivia(b"\n", 4, true);
    let (_, trivia, _) = parse.drain();
    assert_eq!(
        trivia,
        vec![
            piece(TriviaPieceKind::Whitespace, 0, 1, false),
            piece(TriviaPieceKind::Newline, 4, 5, false),
        ]
    );
}

#[test]
fn pieces_of_a_gap_partition_it() {
    let gaps: [&[u8]; 8] = [
        b"",
        b" ",
        b"\n",
        b"\r\n",
        b" \t\x0B\x0C",
        b"  \r\n\t\t\n\r ",
        b"\n\n\n",
        b"\r \r\n \n",
    ];
    for gap in gaps {
        for between in [false, true] {
            let pieces = derive(gap, 100, between);
            assert_partition(&pieces, 100, 100 + gap.len() as u32);
            for (index, piece) in pieces.iter().enumerate() {
                if piece.trailing() {
                    assert!(between);
                    assert_eq!(index, 0);
                    assert_eq!(piece.kind(), TriviaPieceKind::Whitespace);
                }
            }
        }
    }
}

#[test]
fn trivia_accessors() {
    let trivia = piece(TriviaPieceKind::SingleLineComment, 3, 9, true);
    assert_eq!(trivia.kind(), TriviaPieceKind::SingleLineComment);
    assert_eq!(trivia.offset(), 3);
    assert_eq!(trivia.len(), 6);
    assert!(trivia.trailing());
    assert_eq!(trivia.text_range(), TextRange::new(3, 9));
    assert_eq!(trivia.text_range().start(), 3);
    assert_eq!(trivia.text_range().end(), 9);
    assert!(!trivia.text_range().is_empty());
    assert!(TextRange::new(4, 4).is_empty());
}
