use biome_r_parser::event::Event;
use biome_r_parser::kind::RSyntaxKind;
use biome_r_parser::parse::{parse_text, RParserOptions};
use biome_r_parser::text::{TextRange, TextSize};
use biome_r_parser::trivia::{Trivia, TriviaPieceKind};

enum Pos {
    Leading,
    Trailing,
}

fn trivia(text: &str) -> Vec<Trivia> {
    let (_events, trivia, _errors) = parse_text(text, RParserOptions::default());
    trivia
}

fn ws(start: u32, end: u32, position: Pos) -> Trivia {
    Trivia::new(
        TriviaPieceKind::Whitespace,
        TextRange::new(TextSize::from(start), TextSize::from(end)),
        matches!(position, Pos::Trailing),
    )
}

fn nl(start: u32, end: u32) -> Trivia {
    Trivia::new(
        TriviaPieceKind::Newline,
        TextRange::new(TextSize::from(start), TextSize::from(end)),
        false,
    )
}

fn cmt(start: u32, end: u32, position: Pos) -> Trivia {
    Trivia::new(
        TriviaPieceKind::SingleLineComment,
        TextRange::new(TextSize::from(start), TextSize::from(end)),
        matches!(position, Pos::Trailing),
    )
}

#[test]
fn test_parse_smoke_test() {
    let (events, trivia, _errors) = parse_text("1+1", RParserOptions::default());

    let expect = vec![
        Event::Start {
            kind: RSyntaxKind::R_ROOT,
            forward_parent: None,
        },
        Event::Start {
            kind: RSyntaxKind::R_EXPRESSION_LIST,
            forward_parent: None,
        },
        Event::Start {
            kind: RSyntaxKind::R_BINARY_EXPRESSION,
            forward_parent: None,
        },
        Event::Start {
            kind: RSyntaxKind::R_DOUBLE_VALUE,
            forward_parent: None,
        },
        Event::Token {
            kind: RSyntaxKind::R_DOUBLE_LITERAL,
            end: TextSize::from(1u32),
        },
        Event::Finish,
        Event::Token {
            kind: RSyntaxKind::PLUS,
            end: TextSize::from(2u32),
        },
        Event::Start {
            kind: RSyntaxKind::R_DOUBLE_VALUE,
            forward_parent: None,
        },
        Event::Token {
            kind: RSyntaxKind::R_DOUBLE_LITERAL,
            end: TextSize::from(3u32),
        },
        Event::Finish,
        Event::Finish,
        Event::Finish,
        Event::Finish,
    ];

    assert_eq!(events, expect);
    assert!(trivia.is_empty());
}

#[test]
fn test_parse_trivia_smoke_test() {
    assert_eq!(
        trivia("1 + 1"),
        vec![ws(1, 2, Pos::Leading), ws(3, 4, Pos::Leading)]
    );
}

#[test]
fn test_parse_trivia_tab_test() {
    assert_eq!(
        trivia("1\t+\t\n\t1"),
        vec![
            ws(1, 2, Pos::Leading),
            ws(3, 4, Pos::Trailing),
            nl(4, 5),
            ws(5, 6, Pos::Leading)
        ]
    );
}

#[test]
fn test_parse_trivia_trailing_test() {
    assert_eq!(
        trivia("1 + \n1"),
        vec![ws(1, 2, Pos::Leading), ws(3, 4, Pos::Trailing), nl(4, 5)]
    );
}

#[test]
fn test_parse_trivia_trailing_trivia_test() {
    // Trivia between the last token and the end of the file is always
    // leading: it belongs to the end-of-file token.
    assert_eq!(
        trivia("1  \n "),
        vec![ws(1, 3, Pos::Leading), nl(3, 4), ws(4, 5, Pos::Leading)]
    );
}

#[test]
fn test_parse_trivia_trailing_crlf_test() {
    assert_eq!(
        trivia("1 + \r\n1"),
        vec![ws(1, 2, Pos::Leading), ws(3, 4, Pos::Trailing), nl(4, 6)]
    );
}

#[test]
fn test_parse_trivia_before_first_token() {
    assert_eq!(trivia("  \n1"), vec![ws(0, 2, Pos::Leading), nl(2, 3)]);
}

#[test]
fn test_parse_trivia_comment_test() {
    // After the last token all trivia is leading: it belongs to the
    // end-of-file token.
    assert_eq!(
        trivia("1 #"),
        vec![ws(1, 2, Pos::Leading), cmt(2, 3, Pos::Leading)]
    );
}

#[test]
fn test_parse_trivia_comment_nothing_else_test() {
    assert_eq!(trivia("#"), vec![cmt(0, 1, Pos::Leading)]);
}

#[test]
fn test_parse_trivia_comment_end_of_document_test() {
    assert_eq!(trivia("1\n#"), vec![nl(1, 2), cmt(2, 3, Pos::Leading)]);
}

#[test]
fn test_parse_trivia_whitespace_between_comments_test() {
    let text = "
1 #
#
2
"
    .trim();
    assert_eq!(
        trivia(text),
        vec![
            ws(1, 2, Pos::Trailing),
            cmt(2, 3, Pos::Trailing),
            nl(3, 4),
            cmt(4, 5, Pos::Leading),
            nl(5, 6),
        ]
    );
}

#[test]
fn test_parse_trivia_comment_beginning_of_document_test() {
    assert_eq!(trivia("#\n1"), vec![cmt(0, 1, Pos::Leading), nl(1, 2)]);
}

#[test]
fn test_parse_trivia_comment_beginning_of_document_with_whitespace_test() {
    assert_eq!(
        trivia(" \n \n#"),
        vec![
            ws(0, 1, Pos::Leading),
            nl(1, 2),
            ws(2, 3, Pos::Leading),
            nl(3, 4),
            cmt(4, 5, Pos::Leading),
        ]
    );
}
