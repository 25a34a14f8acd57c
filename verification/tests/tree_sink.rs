use biome_parser::event::Event;
use biome_parser::prelude::Trivia;
use biome_parser::tree_sink::LosslessTreeSink;
use biome_r_parser::kind::{RSyntaxKind, LAST_RAW, ROOT_RAW};
use biome_r_parser::parse::{parse_text, RParserOptions};
use biome_r_parser::trivia::TriviaPieceKind as PieceKind;
use biome_rowan::{
    AstNode, Direction, Language, ParsedChildren, RawSyntaxKind, RawSyntaxNode, SyntaxFactory,
    SyntaxKind, SyntaxKindSet, SyntaxNode, TextRange, TextSize, TriviaPieceKind,
};

#[derive(Clone, Copy, PartialEq, Eq, PartialOrd, Ord, Hash, Debug)]
struct Kind(RSyntaxKind);

impl SyntaxKind for Kind {
    const TOMBSTONE: Self = Kind(RSyntaxKind::TOMBSTONE);
    const EOF: Self = Kind(RSyntaxKind::EOF);

    fn is_bogus(&self) -> bool {
        self.0.is_bogus()
    }

    fn to_bogus(&self) -> Self {
        Kind(self.0.to_bogus())
    }

    fn to_raw(&self) -> RawSyntaxKind {
        RawSyntaxKind(self.0.to_raw())
    }

    fn from_raw(raw: RawSyntaxKind) -> Self {
        assert!(raw.0 <= LAST_RAW);
        Kind(RSyntaxKind::from_raw(raw.0))
    }

    fn is_root(&self) -> bool {
        self.0.is_root()
    }

    fn is_list(&self) -> bool {
        self.0.is_list()
    }

    fn is_trivia(self) -> bool {
        self.0.is_trivia()
    }

    fn to_string(&self) -> Option<&'static str> {
        self.0.to_string()
    }
}

#[derive(Debug, Default, Hash, Copy, Eq, Ord, PartialEq, PartialOrd, Clone)]
struct RLanguage;

impl Language for RLanguage {
    type Kind = Kind;
    type Root = RRoot;
}

#[derive(Clone, Debug, PartialEq, Eq)]
struct RRoot {
    syntax: SyntaxNode<RLanguage>,
}

impl AstNode for RRoot {
    type Language = RLanguage;

    const KIND_SET: SyntaxKindSet<RLanguage> = SyntaxKindSet::from_raw(RawSyntaxKind(ROOT_RAW));

    fn can_cast(kind: Kind) -> bool {
        kind.0.is_root()
    }

    fn cast(syntax: SyntaxNode<RLanguage>) -> Option<Self> {
        if Self::can_cast(syntax.kind()) {
            Some(Self { syntax })
        } else {
            None
        }
    }

    fn syntax(&self) -> &SyntaxNode<RLanguage> {
        &self.syntax
    }

    fn into_syntax(self) -> SyntaxNode<RLanguage> {
        self.syntax
    }
}

#[derive(Debug)]
struct RSyntaxFactory;

impl SyntaxFactory for RSyntaxFactory {
    type Kind = Kind;

    fn make_syntax(kind: Kind, children: ParsedChildren<Kind>) -> RawSyntaxNode<Kind> {
        RawSyntaxNode::new(kind, children.into_iter().map(Some))
    }
}

fn range(range: biome_r_parser::text::TextRange) -> TextRange {
    TextRange::new(TextSize::from(range.start()), TextSize::from(range.end()))
}

/// Builds the tree of `text` from the events and the trivia of its parse.
fn tree(text: &str) -> (SyntaxNode<RLanguage>, usize) {
    let (events, trivia, errors) = parse_text(text, RParserOptions::default());
    assert!(errors.is_empty());
    let events: Vec<Event<Kind>> = events
        .into_iter()
        .map(|event| match event {
            biome_r_parser::event::Event::Start { kind, .. } => Event::Start {
                kind: Kind(kind),
                forward_parent: None,
            },
            biome_r_parser::event::Event::Finish => Event::Finish,
            biome_r_parser::event::Event::Token { kind, end } => Event::Token {
                kind: Kind(kind),
                end: TextSize::from(end),
            },
        })
        .collect();
    let trivia: Vec<Trivia> = trivia
        .into_iter()
        .map(|piece| {
            let kind = match piece.kind() {
                PieceKind::Newline => TriviaPieceKind::Newline,
                PieceKind::Whitespace => TriviaPieceKind::Whitespace,
                PieceKind::SingleLineComment => TriviaPieceKind::SingleLineComment,
                PieceKind::MultiLineComment => TriviaPieceKind::MultiLineComment,
                PieceKind::Skipped => TriviaPieceKind::Skipped,
            };
            Trivia::new(kind, range(piece.text_range()), piece.trailing())
        })
        .collect();
    let mut sink = LosslessTreeSink::<RLanguage, RSyntaxFactory>::new(text, &trivia);
    biome_parser::event::process(&mut sink, events, Vec::new());
    let (root, errors) = sink.finish();
    assert!(errors.is_empty());
    (root, trivia.len())
}

const TEXTS: [&str; 14] = [
    "",
    "1",
    "1+1",
    "1 + 1",
    "1\t+\t\n\t1",
    "1 + \r\n1",
    "  \n1",
    "1  \n ",
    "1 #",
    "#",
    "1\n#",
    "1 #\n#\n2",
    " \n \n#",
    "function(a, b) a + 'x' # sum\n\n# done\n",
];

#[test]
fn tree_spells_the_source_text() {
    for text in TEXTS {
        let (root, _) = tree(text);
        assert_eq!(root.to_string(), text);
        assert_eq!(root.kind(), Kind(RSyntaxKind::R_ROOT));
        let mut spelled = String::new();
        for token in root.descendants_tokens(Direction::Next) {
            spelled.push_str(token.text());
        }
        assert_eq!(spelled, text);
    }
}

#[test]
fn tree_holds_every_piece_of_trivia() {
    for text in TEXTS {
        let (root, pieces) = tree(text);
        let mut attached = 0;
        let mut trimmed = String::new();
        for token in root.descendants_tokens(Direction::Next) {
            attached += token.leading_trivia().pieces().count();
            attached += token.trailing_trivia().pieces().count();
            trimmed.push_str(token.text_trimmed());
        }
        assert_eq!(attached, pieces);
        assert!(!trimmed.contains(' '));
        assert!(!trimmed.contains('\n'));
        assert!(!trimmed.contains('#'));
    }
}

#[test]
fn trailing_trivia_stays_with_its_token() {
    let (root, _) = tree("1 # one\n2");
    let tokens: Vec<_> = root.descendants_tokens(Direction::Next).collect();
    assert_eq!(tokens[0].text_trimmed(), "1");
    assert_eq!(tokens[0].trailing_trivia().text(), " # one");
    assert_eq!(tokens[1].leading_trivia().text(), "\n");
    assert_eq!(tokens[1].text_trimmed(), "2");
    assert_eq!(tokens[2].kind(), Kind(RSyntaxKind::EOF));
}
