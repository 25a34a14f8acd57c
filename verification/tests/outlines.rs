use biome_r_parser::diagnostic::ParseDiagnostic;
use biome_r_parser::event::Event;
use biome_r_parser::kind::RSyntaxKind;
use biome_r_parser::outline::{NodeSyntaxKind, SyntaxSpan, WalkEvent};
use biome_r_parser::parse::{
    parse_failure, parse_outline, parse_text, parse_tree, ParseFailure, RParse, RParserOptions,
};
use biome_r_parser::text::TextRange;
use biome_r_parser::treesitter::{outline_of, syntax_kind, syntax_span, SourceNode};
use biome_r_parser::trivia::{Trivia, TriviaPieceKind};
use biome_r_parser::walk::{contains_line_break, last_token_step, outline_is_fit, RWalk};

fn span(kind: NodeSyntaxKind, start: u32, end: u32) -> SyntaxSpan {
    SyntaxSpan { kind, start, end }
}

fn root(end: u32) -> SyntaxSpan {
    span(NodeSyntaxKind::Node(RSyntaxKind::R_ROOT), 0, end)
}

fn double(start: u32, end: u32) -> SyntaxSpan {
    span(
        NodeSyntaxKind::Value(RSyntaxKind::R_DOUBLE_VALUE, RSyntaxKind::R_DOUBLE_LITERAL),
        start,
        end,
    )
}

fn plus(start: u32) -> SyntaxSpan {
    span(NodeSyntaxKind::Token(RSyntaxKind::PLUS), start, start + 1)
}

fn comment(start: u32, end: u32) -> SyntaxSpan {
    span(NodeSyntaxKind::Comment, start, end)
}

fn leaf(span: SyntaxSpan) -> [WalkEvent; 2] {
    [WalkEvent::Enter(span), WalkEvent::Leave(span)]
}

fn outline_of_leaves(text: &str, leaves: &[SyntaxSpan]) -> Vec<WalkEvent> {
    let root = root(text.len() as u32);
    let mut outline = vec![WalkEvent::Enter(root)];
    for span in leaves {
        outline.extend(leaf(*span));
    }
    outline.push(WalkEvent::Leave(root));
    outline
}

fn piece(kind: TriviaPieceKind, start: u32, end: u32, trailing: bool) -> Trivia {
    Trivia::new(kind, TextRange::new(start, end), trailing)
}

fn start(kind: RSyntaxKind) -> Event {
    Event::Start {
        kind,
        forward_parent: None,
    }
}

fn assert_failure(
    result: (Vec<Event>, Vec<Trivia>, Vec<ParseDiagnostic>),
    text: &str,
    failure: ParseFailure,
) {
    let (events, trivia, errors) = result;
    assert!(events.is_empty());
    assert!(trivia.is_empty());
    assert_eq!(errors.len(), 1);
    assert_eq!(errors[0].message(), failure.message());
    assert_eq!(errors[0].range(), Some(TextRange::new(0, text.len() as u32)));
}

/// Spells the text again from the trivia and the tokens of a parse: each
/// token reaches from the end of what came before it to its own end.
fn respell(text: &str, events: &[Event], trivia: &[Trivia]) -> String {
    let mut out = String::new();
    let mut at = 0u32;
    let mut next = 0usize;
    let mut eat = |at: &mut u32, next: &mut usize, out: &mut String| {
        while *next < trivia.len() && trivia[*next].offset() == *at {
            let range = trivia[*next].text_range();
            out.push_str(&text[range.start() as usize..range.end() as usize]);
            *at = range.end();
            *next += 1;
        }
    };
    for event in events {
        if let Event::Token { end, .. } = event {
            eat(&mut at, &mut next, &mut out);
            out.push_str(&text[at as usize..*end as usize]);
            at = *end;
        }
    }
    eat(&mut at, &mut next, &mut out);
    assert_eq!(next, trivia.len());
    out
}

fn assert_balanced(events: &[Event]) {
    let mut open = 0i64;
    for (index, event) in events.iter().enumerate() {
        match event {
            Event::Start { .. } => open += 1,
            Event::Finish => open -= 1,
            Event::Token { .. } => assert!(open > 0),
        }
        assert!(open >= 0);
        if index + 1 < events.len() {
            assert!(open > 0);
        }
    }
    assert_eq!(open, 0);
}

#[test]
fn walk_records_nodes_values_and_tokens() {
    let text = "1 + 2";
    let binary = span(NodeSyntaxKind::Node(RSyntaxKind::R_BINARY_EXPRESSION), 0, 5);
    let root = root(5);
    let mut outline = vec![WalkEvent::Enter(root), WalkEvent::Enter(binary)];
    outline.extend(leaf(double(0, 1)));
    outline.extend(leaf(plus(2)));
    outline.extend(leaf(double(4, 5)));
    outline.push(WalkEvent::Leave(binary));
    outline.push(WalkEvent::Leave(root));
    assert!(outline_is_fit(&outline, text.as_bytes()));

    let (events, trivia, errors) = parse_tree(outline, text);
    assert_eq!(
        events,
        vec![
            start(RSyntaxKind::R_ROOT),
            start(RSyntaxKind::R_EXPRESSION_LIST),
            start(RSyntaxKind::R_BINARY_EXPRESSION),
            start(RSyntaxKind::R_DOUBLE_VALUE),
            Event::Token {
                kind: RSyntaxKind::R_DOUBLE_LITERAL,
                end: 1
            },
            Event::Finish,
            Event::Token {
                kind: RSyntaxKind::PLUS,
                end: 3
            },
            start(RSyntaxKind::R_DOUBLE_VALUE),
            Event::Token {
                kind: RSyntaxKind::R_DOUBLE_LITERAL,
                end: 5
            },
            Event::Finish,
            Event::Finish,
            Event::Finish,
            Event::Finish,
        ]
    );
    assert_eq!(
        trivia,
        vec![
            piece(TriviaPieceKind::Whitespace, 1, 2, false),
            piece(TriviaPieceKind::Whitespace, 3, 4, false),
        ]
    );
    assert!(errors.is_empty());
}

#[test]
fn walker_keeps_its_outline_and_text() {
    let text = "1";
    let outline = outline_of_leaves(text, &[double(0, 1)]);
    let mut walker = RWalk::new(outline.clone(), text);
    walker.walk();
    assert_eq!(walker.outline, outline);
    assert_eq!(walker.text, text);
    assert_eq!(walker.parse.events.len(), 7);
    assert!(walker.parse.trivia.is_empty());
}

#[test]
fn comment_between_tokens_trails_with_its_whitespace() {
    let text = "1  # c\n2";
    let outline = outline_of_leaves(text, &[double(0, 1), comment(3, 6), double(7, 8)]);
    let (_, trivia, _) = parse_outline(false, Some(outline), text);
    assert_eq!(
        trivia,
        vec![
            piece(TriviaPieceKind::Whitespace, 1, 3, true),
            piece(TriviaPieceKind::SingleLineComment, 3, 6, true),
            piece(TriviaPieceKind::Newline, 6, 7, false),
        ]
    );
}

#[test]
fn nothing_trails_the_last_token() {
    let text = "1  # c";
    let outline = outline_of_leaves(text, &[double(0, 1), comment(3, 6)]);
    let (_, trivia, _) = parse_outline(false, Some(outline), text);
    assert_eq!(
        trivia,
        vec![
            piece(TriviaPieceKind::Whitespace, 1, 3, false),
            piece(TriviaPieceKind::SingleLineComment, 3, 6, false),
        ]
    );

    let text = "1 \n#";
    let outline = outline_of_leaves(text, &[double(0, 1), comment(3, 4)]);
    let (_, trivia, _) = parse_outline(false, Some(outline), text);
    assert_eq!(
        trivia,
        vec![
            piece(TriviaPieceKind::Whitespace, 1, 2, false),
            piece(TriviaPieceKind::Newline, 2, 3, false),
            piece(TriviaPieceKind::SingleLineComment, 3, 4, false),
        ]
    );

    let text = "1 + 2 # a\n # b";
    let outline = outline_of_leaves(
        text,
        &[double(0, 1), plus(2), double(4, 5), comment(6, 9), comment(11, 14)],
    );
    let (_, trivia, _) = parse_outline(false, Some(outline), text);
    assert!(trivia.iter().all(|piece| !piece.trailing()));
    assert_eq!(trivia.len(), 7);
}

#[test]
fn nothing_trails_where_there_is_no_token() {
    let text = " # a\n# b";
    let outline = outline_of_leaves(text, &[comment(1, 4), comment(5, 8)]);
    let (_, trivia, _) = parse_outline(false, Some(outline), text);
    assert_eq!(
        trivia,
        vec![
            piece(TriviaPieceKind::Whitespace, 0, 1, false),
            piece(TriviaPieceKind::SingleLineComment, 1, 4, false),
            piece(TriviaPieceKind::Newline, 4, 5, false),
            piece(TriviaPieceKind::SingleLineComment, 5, 8, false),
        ]
    );
}

#[test]
fn comment_after_line_break_leads() {
    let text = "1 \n # c\n2";
    let outline = outline_of_leaves(text, &[double(0, 1), comment(4, 7), double(8, 9)]);
    let (_, trivia, _) = parse_outline(false, Some(outline), text);
    assert_eq!(
        trivia,
        vec![
            piece(TriviaPieceKind::Whitespace, 1, 2, true),
            piece(TriviaPieceKind::Newline, 2, 3, false),
            piece(TriviaPieceKind::Whitespace, 3, 4, false),
            piece(TriviaPieceKind::SingleLineComment, 4, 7, false),
            piece(TriviaPieceKind::Newline, 7, 8, false),
        ]
    );
}

#[test]
fn nothing_trails_once_a_line_break_was_crossed() {
    // After the first comment a line break lies behind, so the whitespace
    // before the next line break and the second comment lead what follows.
    let text = "1\n#a \n#b";
    let outline = outline_of_leaves(text, &[double(0, 1), comment(2, 4), comment(6, 8)]);
    let (_, trivia, _) = parse_outline(false, Some(outline), text);
    assert_eq!(
        trivia,
        vec![
            piece(TriviaPieceKind::Newline, 1, 2, false),
            piece(TriviaPieceKind::SingleLineComment, 2, 4, false),
            piece(TriviaPieceKind::Whitespace, 4, 5, false),
            piece(TriviaPieceKind::Newline, 5, 6, false),
            piece(TriviaPieceKind::SingleLineComment, 6, 8, false),
        ]
    );
}

#[test]
fn carriage_return_before_comment_is_a_line_break() {
    let text = "1 \r#\r2";
    let outline = outline_of_leaves(text, &[double(0, 1), comment(3, 4), double(5, 6)]);
    let (_, trivia, _) = parse_outline(false, Some(outline), text);
    assert_eq!(
        trivia,
        vec![
            piece(TriviaPieceKind::Whitespace, 1, 2, true),
            piece(TriviaPieceKind::Newline, 2, 3, false),
            piece(TriviaPieceKind::SingleLineComment, 3, 4, false),
            piece(TriviaPieceKind::Newline, 4, 5, false),
        ]
    );
}

#[test]
fn tokenizer_error_fails_the_parse() {
    let text = "1 + 2";
    let outline = outline_of_leaves(text, &[double(0, 1), plus(2), double(4, 5)]);
    assert_failure(
        parse_outline(true, Some(outline), text),
        text,
        ParseFailure::Tokenizer,
    );
    assert_failure(parse_outline(true, None, text), text, ParseFailure::Tokenizer);
    assert_failure(parse_outline(false, None, text), text, ParseFailure::Unsupported);
    assert_failure(
        parse_failure(ParseFailure::Tokenizer, 5),
        text,
        ParseFailure::Tokenizer,
    );
    assert_failure(parse_failure(ParseFailure::Misfit, 5), text, ParseFailure::Misfit);
    assert_eq!(ParseFailure::Tokenizer.message(), "Tree-sitter failed");
    assert_eq!(
        ParseFailure::Unsupported.message(),
        "The syntax tree holds what is not supported"
    );
    assert_eq!(
        ParseFailure::Misfit.message(),
        "The syntax tree does not fit the text"
    );
}

#[test]
fn outline_that_does_not_fit_fails_the_parse() {
    let text = "1 + 2";
    // A gap that holds more than whitespace.
    let outline = outline_of_leaves(text, &[double(0, 1), double(4, 5)]);
    assert!(!outline_is_fit(&outline, text.as_bytes()));
    assert_failure(
        parse_outline(false, Some(outline), text),
        text,
        ParseFailure::Misfit,
    );
    // A token that starts before the last one ended.
    let outline = outline_of_leaves(text, &[double(0, 3), plus(2), double(4, 5)]);
    assert!(!outline_is_fit(&outline, text.as_bytes()));
    // An empty comment.
    let outline = outline_of_leaves(text, &[double(0, 1), comment(1, 1), plus(2), double(4, 5)]);
    assert!(!outline_is_fit(&outline, text.as_bytes()));
    // A token beyond the text.
    let outline = outline_of_leaves(text, &[double(0, 1), plus(2), double(4, 6)]);
    assert!(!outline_is_fit(&outline, text.as_bytes()));
    // A root that ends before the text.
    let mut outline = outline_of_leaves("1 + ", &[double(0, 1), plus(2)]);
    assert!(outline_is_fit(&outline, b"1 + "));
    assert!(!outline_is_fit(&outline, text.as_bytes()));
    // A node that is left but was not entered.
    outline.insert(1, WalkEvent::Leave(plus(2)));
    assert!(!outline_is_fit(&outline, b"1 + "));
    // No root at all.
    assert!(!outline_is_fit(&[].to_vec(), b""));
    assert!(!outline_is_fit(&leaf(double(0, 1)).to_vec(), b"1"));
    // A root inside the root.
    let inner = outline_of_leaves("1", &[double(0, 1)]);
    let mut nested = vec![WalkEvent::Enter(root(1))];
    nested.extend(inner);
    nested.push(WalkEvent::Leave(root(1)));
    assert!(!outline_is_fit(&nested, b"1"));
    // A node that is entered and never left.
    let open = span(NodeSyntaxKind::Node(RSyntaxKind::R_PARAMETERS), 0, 1);
    let unclosed = vec![
        WalkEvent::Enter(root(1)),
        WalkEvent::Enter(open),
        WalkEvent::Leave(root(1)),
    ];
    assert!(!outline_is_fit(&unclosed, b" "));
}

#[test]
fn empty_text_has_only_the_root() {
    let outline = outline_of_leaves("", &[]);
    let (events, trivia, errors) = parse_outline(false, Some(outline), "");
    assert_eq!(
        events,
        vec![
            start(RSyntaxKind::R_ROOT),
            start(RSyntaxKind::R_EXPRESSION_LIST),
            Event::Finish,
            Event::Finish,
        ]
    );
    assert!(trivia.is_empty());
    assert!(errors.is_empty());
}

#[test]
fn line_breaks_are_found() {
    assert!(!contains_line_break(b""));
    assert!(!contains_line_break(b" \t "));
    assert!(contains_line_break(b" \n"));
    assert!(contains_line_break(b"\r "));
}

#[test]
fn node_types_of_the_grammar() {
    assert_eq!(
        syntax_kind("program"),
        Some(NodeSyntaxKind::Node(RSyntaxKind::R_ROOT))
    );
    assert_eq!(
        syntax_kind("binary_operator"),
        Some(NodeSyntaxKind::Node(RSyntaxKind::R_BINARY_EXPRESSION))
    );
    assert_eq!(
        syntax_kind("float"),
        Some(NodeSyntaxKind::Value(
            RSyntaxKind::R_DOUBLE_VALUE,
            RSyntaxKind::R_DOUBLE_LITERAL
        ))
    );
    assert_eq!(
        syntax_kind("true"),
        Some(NodeSyntaxKind::Value(
            RSyntaxKind::R_LOGICAL_VALUE,
            RSyntaxKind::R_LOGICAL_LITERAL
        ))
    );
    assert_eq!(syntax_kind("false"), syntax_kind("true"));
    assert_eq!(syntax_kind("comment"), Some(NodeSyntaxKind::Comment));
    assert_eq!(
        syntax_kind("+"),
        Some(NodeSyntaxKind::Token(RSyntaxKind::PLUS))
    );
    assert_eq!(
        syntax_kind("function"),
        Some(NodeSyntaxKind::Token(RSyntaxKind::FUNCTION_KW))
    );
    assert_eq!(syntax_kind("while_statement"), None);
    assert_eq!(syntax_kind(""), None);
    assert_eq!(
        syntax_span("+", 3, 4),
        Some(plus(3))
    );
    assert_eq!(syntax_span("call", 3, 4), None);
}

#[test]
fn parse_of_text_is_balanced_and_lossless() {
    let texts = [
        "",
        "1",
        "1+1",
        "1 + 1",
        "  1\t+\t\n\t1  \n",
        "1 + \r\n1",
        "# only a comment",
        "1 # trailing\n# leading\n2 # again",
        "\n\n1\n\n",
        "function(a, b) a + b",
        "x + 'text' + TRUE + NULL + 2L",
        "# caf\u{e9}\n1",
    ];
    for text in texts {
        let (events, trivia, errors) = parse_text(text, RParserOptions::default());
        if errors.is_empty() {
            assert_balanced(&events);
            assert_eq!(respell(text, &events, &trivia), text);
            assert!(matches!(
                events.first(),
                Some(Event::Start {
                    kind: RSyntaxKind::R_ROOT,
                    ..
                })
            ));
        } else {
            assert!(events.is_empty());
            assert!(trivia.is_empty());
            assert_eq!(errors.len(), 1);
        }
    }
    let (events, _, errors) = parse_text("1 + 1", RParserOptions::default());
    assert!(errors.is_empty());
    assert_eq!(events.len(), 13);
}

#[test]
fn syntax_error_fails_the_parse() {
    for text in ["1 +", "(", "1 + + )", "function("] {
        assert_failure(
            parse_text(text, RParserOptions::default()),
            text,
            ParseFailure::Tokenizer,
        );
    }
}

#[test]
fn syntax_without_a_kind_fails_the_parse() {
    for text in ["f(x)", "while (TRUE) 1", "x[1]"] {
        assert_failure(
            parse_text(text, RParserOptions::default()),
            text,
            ParseFailure::Unsupported,
        );
    }
}

#[test]
fn trailing_trivia_follows_its_token() {
    let texts = [
        "1 + 1",
        "1 # a\n2",
        "1  \n  2 # b\n\n# c\n3 ",
        "# a\n# b\n1 # c",
    ];
    for text in texts {
        let (events, trivia, errors) = parse_text(text, RParserOptions::default());
        assert!(errors.is_empty());
        let ends: Vec<u32> = events
            .iter()
            .filter_map(|event| match event {
                Event::Token { end, .. } => Some(*end),
                _ => None,
            })
            .collect();
        for (index, piece) in trivia.iter().enumerate() {
            if piece.trailing() {
                let after_token = ends.contains(&piece.offset());
                let after_trailing = index > 0
                    && trivia[index - 1].trailing()
                    && trivia[index - 1].text_range().end() == piece.offset();
                assert!(after_token || after_trailing);
            }
        }
    }
}

#[test]
fn recorder_keeps_what_it_is_given_in_order() {
    let mut parse = RParse::new();
    parse.start(RSyntaxKind::R_ROOT);
    parse.token(RSyntaxKind::IDENT, 3);
    parse.push_trivia(piece(TriviaPieceKind::Whitespace, 3, 4, true));
    parse.push_event(Event::Start {
        kind: RSyntaxKind::R_PARAMETER,
        forward_parent: Some(2),
    });
    parse.push_event(Event::Token {
        kind: RSyntaxKind::COMMA,
        end: 5,
    });
    parse.finish();
    parse.push_event(Event::Finish);
    let (events, trivia, errors) = parse.drain();
    assert_eq!(
        events,
        vec![
            start(RSyntaxKind::R_ROOT),
            Event::Token {
                kind: RSyntaxKind::IDENT,
                end: 3
            },
            Event::Start {
                kind: RSyntaxKind::R_PARAMETER,
                forward_parent: Some(2)
            },
            Event::Token {
                kind: RSyntaxKind::COMMA,
                end: 5
            },
            Event::Finish,
            Event::Finish,
        ]
    );
    assert_balanced(&events);
    assert_eq!(trivia, vec![piece(TriviaPieceKind::Whitespace, 3, 4, true)]);
    assert!(errors.is_empty());
}

fn source(name: &str, start: usize, end: usize, depth: usize) -> SourceNode {
    SourceNode {
        name: name.to_string(),
        start,
        end,
        depth,
    }
}

#[test]
fn outline_of_a_tree() {
    // The tree of `1 + 'a'`, nodes below the string among them.
    let nodes = vec![
        source("program", 0, 7, 0),
        source("binary_operator", 0, 7, 1),
        source("float", 0, 1, 2),
        source("+", 2, 3, 2),
        source("string", 4, 7, 2),
        source("'", 4, 5, 3),
        source("string_content", 5, 6, 3),
        source("'", 6, 7, 3),
    ];
    let binary = span(NodeSyntaxKind::Node(RSyntaxKind::R_BINARY_EXPRESSION), 0, 7);
    let string = span(
        NodeSyntaxKind::Value(RSyntaxKind::R_STRING_VALUE, RSyntaxKind::R_STRING_LITERAL),
        4,
        7,
    );
    let mut expected = vec![WalkEvent::Enter(root(7)), WalkEvent::Enter(binary)];
    expected.extend(leaf(double(0, 1)));
    expected.extend(leaf(plus(2)));
    expected.extend(leaf(string));
    expected.push(WalkEvent::Leave(binary));
    expected.push(WalkEvent::Leave(root(7)));
    let outline = outline_of(&nodes).unwrap();
    assert_eq!(outline, expected);
    assert!(outline_is_fit(&outline, b"1 + 'a'"));
    assert_eq!(last_token_step(&outline), 8);
}

#[test]
fn outline_leaves_nodes_as_the_depth_falls() {
    let nodes = vec![
        source("program", 0, 9, 0),
        source("function_definition", 0, 5, 1),
        source("parameters", 0, 3, 2),
        source("(", 0, 1, 3),
        source(")", 2, 3, 3),
        source("identifier", 4, 5, 2),
        source("comment", 6, 9, 1),
    ];
    let function = span(NodeSyntaxKind::Node(RSyntaxKind::R_FUNCTION_DEFINITION), 0, 5);
    let parameters = span(NodeSyntaxKind::Node(RSyntaxKind::R_PARAMETERS), 0, 3);
    let identifier = span(
        NodeSyntaxKind::Value(RSyntaxKind::R_IDENTIFIER, RSyntaxKind::IDENT),
        4,
        5,
    );
    let mut expected = vec![
        WalkEvent::Enter(root(9)),
        WalkEvent::Enter(function),
        WalkEvent::Enter(parameters),
    ];
    expected.extend(leaf(span(NodeSyntaxKind::Token(RSyntaxKind::L_PAREN), 0, 1)));
    expected.extend(leaf(span(NodeSyntaxKind::Token(RSyntaxKind::R_PAREN), 2, 3)));
    expected.push(WalkEvent::Leave(parameters));
    expected.extend(leaf(identifier));
    expected.push(WalkEvent::Leave(function));
    expected.extend(leaf(comment(6, 9)));
    expected.push(WalkEvent::Leave(root(9)));
    let outline = outline_of(&nodes).unwrap();
    assert_eq!(outline, expected);
    assert_eq!(last_token_step(&outline), 10);
}

#[test]
fn trees_without_an_outline() {
    // No node at all.
    assert_eq!(outline_of(&Vec::new()), None);
    // A type that stands for nothing.
    assert_eq!(
        outline_of(&vec![source("program", 0, 4, 0), source("call", 0, 4, 1)]),
        None
    );
    // A type that stands for nothing, below a leaf: it is passed over.
    assert!(outline_of(&vec![
        source("program", 0, 4, 0),
        source("string", 0, 4, 1),
        source("call", 1, 3, 2),
    ])
    .is_some());
    // A first node that is no root.
    assert_eq!(outline_of(&vec![source("float", 0, 1, 0)]), None);
    // A second root, below the first or beside it.
    assert_eq!(
        outline_of(&vec![source("program", 0, 1, 0), source("program", 0, 1, 1)]),
        None
    );
    assert_eq!(
        outline_of(&vec![source("program", 0, 1, 0), source("program", 0, 1, 0)]),
        None
    );
    // A node beside the root.
    assert_eq!(
        outline_of(&vec![source("program", 0, 1, 0), source("float", 0, 1, 0)]),
        None
    );
    // An offset beyond 32 bits.
    assert_eq!(
        outline_of(&vec![
            source("program", 0, 1, 0),
            source("float", 0, 1 << 32, 1)
        ]),
        None
    );
    // The root alone.
    assert_eq!(
        outline_of(&vec![source("program", 0, 0, 0)]),
        Some(vec![WalkEvent::Enter(root(0)), WalkEvent::Leave(root(0))])
    );
}

#[test]
fn last_token_of_an_outline() {
    assert_eq!(last_token_step(&Vec::new()), 0);
    assert_eq!(last_token_step(&outline_of_leaves("#", &[comment(0, 1)])), 0);
    assert_eq!(
        last_token_step(&outline_of_leaves("1 #", &[double(0, 1), comment(2, 3)])),
        3
    );
    assert_eq!(
        last_token_step(&outline_of_leaves("# 1", &[comment(0, 1), double(2, 3)])),
        5
    );
}
