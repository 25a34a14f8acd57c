//! The closed set of token and node kinds of an R syntax tree, and the total
//! classification functions over it.

use crate::strings::{slice_str, str_eq};
use vstd::prelude::*;
use vstd::string::StringSliceAdditionalSpecFns;
use vstd::utf8::{decode_utf8, encode_utf8_decode_utf8, is_char_boundary};

verus! {

/// The kind of a syntax element: a token such as `FUNCTION_KW` or `IDENT`, or
/// a node such as `R_ROOT` or `R_PARAMETER_LIST`.
#[allow(non_camel_case_types, bad_style)]
#[derive(Clone, Copy, PartialEq, Eq, Structural, PartialOrd, Ord, Hash, Debug)]
pub enum RSyntaxKind {
    TOMBSTONE,
    /// Marks the end of the file. May have trivia attached.
    EOF,
    /// Any Unicode BOM character that may be present at the start of a file.
    UNICODE_BOM,
    SEMICOLON,
    COMMA,
    L_CURLY,
    R_CURLY,
    L_BRACK,
    R_BRACK,
    L_PAREN,
    R_PAREN,
    PLUS,
    FUNCTION_KW,
    R_INTEGER_LITERAL,
    R_DOUBLE_LITERAL,
    R_STRING_LITERAL,
    R_LOGICAL_LITERAL,
    R_NULL_LITERAL,
    NEWLINE,
    WHITESPACE,
    IDENT,
    COMMENT,
    R_ROOT,
    R_IDENTIFIER,
    R_BINARY_EXPRESSION,
    R_FUNCTION_DEFINITION,
    R_PARAMETERS,
    R_PARAMETER_LIST,
    R_PARAMETER,
    R_EXPRESSION_LIST,
    R_INTEGER_VALUE,
    R_DOUBLE_VALUE,
    R_STRING_VALUE,
    R_LOGICAL_VALUE,
    R_NULL_VALUE,
    R_BOGUS,
    R_BOGUS_VALUE,
    R_BOGUS_PARAMETER,
    __LAST,
}

/// The raw number of the last kind, `__LAST`.
pub const LAST_RAW: u16 = 38;

/// The raw number of the root kind, `R_ROOT`.
pub const ROOT_RAW: u16 = 22;

impl RSyntaxKind {
    /// Punctuation tokens.
    pub open spec fn spec_is_punct(self) -> bool {
        self == RSyntaxKind::SEMICOLON || self == RSyntaxKind::COMMA || self
            == RSyntaxKind::L_CURLY || self == RSyntaxKind::R_CURLY || self == RSyntaxKind::L_BRACK
            || self == RSyntaxKind::R_BRACK || self == RSyntaxKind::L_PAREN || self
            == RSyntaxKind::R_PAREN || self == RSyntaxKind::PLUS
    }

    /// Literal values and the tokens that spell them.
    pub open spec fn spec_is_literal(self) -> bool {
        self.is_value() || self == RSyntaxKind::R_INTEGER_LITERAL || self
            == RSyntaxKind::R_DOUBLE_LITERAL || self == RSyntaxKind::R_STRING_LITERAL || self
            == RSyntaxKind::R_LOGICAL_LITERAL || self == RSyntaxKind::R_NULL_LITERAL
    }

    /// The five well-formed value kinds.
    pub open spec fn is_value(self) -> bool {
        self == RSyntaxKind::R_INTEGER_VALUE || self == RSyntaxKind::R_DOUBLE_VALUE || self
            == RSyntaxKind::R_STRING_VALUE || self == RSyntaxKind::R_LOGICAL_VALUE || self
            == RSyntaxKind::R_NULL_VALUE
    }

    /// Nodes whose children are a homogeneous list.
    pub open spec fn spec_is_list(self) -> bool {
        self == RSyntaxKind::R_PARAMETER_LIST || self == RSyntaxKind::R_EXPRESSION_LIST
    }

    /// The kinds that stand in for a construct that failed to parse.
    pub open spec fn spec_is_bogus(&self) -> bool {
        *self == RSyntaxKind::R_BOGUS || *self == RSyntaxKind::R_BOGUS_VALUE || *self
            == RSyntaxKind::R_BOGUS_PARAMETER
    }

    /// Token kinds that never carry syntax: whitespace, line breaks, comments.
    pub open spec fn spec_is_trivia(self) -> bool {
        self == RSyntaxKind::NEWLINE || self == RSyntaxKind::WHITESPACE || self
            == RSyntaxKind::COMMENT
    }

    pub open spec fn spec_is_root(&self) -> bool {
        *self == RSyntaxKind::R_ROOT
    }

    /// The bogus kind that replaces `self` when recovery gives up its shape:
    /// a value becomes a bogus value, a parameter a bogus parameter, every
    /// other kind the catch-all bogus kind.
    pub open spec fn spec_to_bogus(&self) -> RSyntaxKind {
        if self.is_value() || *self == RSyntaxKind::R_BOGUS_VALUE {
            RSyntaxKind::R_BOGUS_VALUE
        } else if *self == RSyntaxKind::R_PARAMETER || *self == RSyntaxKind::R_BOGUS_PARAMETER {
            RSyntaxKind::R_BOGUS_PARAMETER
        } else {
            RSyntaxKind::R_BOGUS
        }
    }

    /// The position of the kind in the declaration, counted from zero.
    pub open spec fn spec_to_raw(&self) -> u16 {
        match self {
            RSyntaxKind::TOMBSTONE => 0,
            RSyntaxKind::EOF => 1,
            RSyntaxKind::UNICODE_BOM => 2,
            RSyntaxKind::SEMICOLON => 3,
            RSyntaxKind::COMMA => 4,
            RSyntaxKind::L_CURLY => 5,
            RSyntaxKind::R_CURLY => 6,
            RSyntaxKind::L_BRACK => 7,
            RSyntaxKind::R_BRACK => 8,
            RSyntaxKind::L_PAREN => 9,
            RSyntaxKind::R_PAREN => 10,
            RSyntaxKind::PLUS => 11,
            RSyntaxKind::FUNCTION_KW => 12,
            RSyntaxKind::R_INTEGER_LITERAL => 13,
            RSyntaxKind::R_DOUBLE_LITERAL => 14,
            RSyntaxKind::R_STRING_LITERAL => 15,
            RSyntaxKind::R_LOGICAL_LITERAL => 16,
            RSyntaxKind::R_NULL_LITERAL => 17,
            RSyntaxKind::NEWLINE => 18,
            RSyntaxKind::WHITESPACE => 19,
            RSyntaxKind::IDENT => 20,
            RSyntaxKind::COMMENT => 21,
            RSyntaxKind::R_ROOT => 22,
            RSyntaxKind::R_IDENTIFIER => 23,
            RSyntaxKind::R_BINARY_EXPRESSION => 24,
            RSyntaxKind::R_FUNCTION_DEFINITION => 25,
            RSyntaxKind::R_PARAMETERS => 26,
            RSyntaxKind::R_PARAMETER_LIST => 27,
            RSyntaxKind::R_PARAMETER => 28,
            RSyntaxKind::R_EXPRESSION_LIST => 29,
            RSyntaxKind::R_INTEGER_VALUE => 30,
            RSyntaxKind::R_DOUBLE_VALUE => 31,
            RSyntaxKind::R_STRING_VALUE => 32,
            RSyntaxKind::R_LOGICAL_VALUE => 33,
            RSyntaxKind::R_NULL_VALUE => 34,
            RSyntaxKind::R_BOGUS => 35,
            RSyntaxKind::R_BOGUS_VALUE => 36,
            RSyntaxKind::R_BOGUS_PARAMETER => 37,
            RSyntaxKind::__LAST => 38,
        }
    }

    #[verifier::when_used_as_spec(spec_is_punct)]
    pub fn is_punct(self) -> (r: bool)
        ensures
            r == self.spec_is_punct(),
    {
        match self {
            RSyntaxKind::SEMICOLON
            | RSyntaxKind::COMMA
            | RSyntaxKind::L_CURLY
            | RSyntaxKind::R_CURLY
            | RSyntaxKind::L_BRACK
            | RSyntaxKind::R_BRACK
            | RSyntaxKind::L_PAREN
            | RSyntaxKind::R_PAREN
            | RSyntaxKind::PLUS => true,
            _ => false,
        }
    }

    #[verifier::when_used_as_spec(spec_is_literal)]
    pub fn is_literal(self) -> (r: bool)
        ensures
            r == self.spec_is_literal(),
    {
        match self {
            RSyntaxKind::R_INTEGER_VALUE
            | RSyntaxKind::R_DOUBLE_VALUE
            | RSyntaxKind::R_STRING_VALUE
            | RSyntaxKind::R_LOGICAL_VALUE
            | RSyntaxKind::R_NULL_VALUE
            | RSyntaxKind::R_INTEGER_LITERAL
            | RSyntaxKind::R_DOUBLE_LITERAL
            | RSyntaxKind::R_STRING_LITERAL
            | RSyntaxKind::R_LOGICAL_LITERAL
            | RSyntaxKind::R_NULL_LITERAL => true,
            _ => false,
        }
    }

    #[verifier::when_used_as_spec(spec_is_list)]
    pub fn is_list(self) -> (r: bool)
        ensures
            r == self.spec_is_list(),
    {
        match self {
            RSyntaxKind::R_PARAMETER_LIST | RSyntaxKind::R_EXPRESSION_LIST => true,
            _ => false,
        }
    }

    #[verifier::when_used_as_spec(spec_is_bogus)]
    pub fn is_bogus(&self) -> (r: bool)
        ensures
            r == self.spec_is_bogus(),
    {
        match self {
            RSyntaxKind::R_BOGUS
            | RSyntaxKind::R_BOGUS_VALUE
            | RSyntaxKind::R_BOGUS_PARAMETER => true,
            _ => false,
        }
    }

    #[verifier::when_used_as_spec(spec_to_bogus)]
    pub fn to_bogus(&self) -> (r: RSyntaxKind)
        ensures
            r == self.spec_to_bogus(),
            r.spec_is_bogus(),
    {
        match self {
            RSyntaxKind::R_INTEGER_VALUE
            | RSyntaxKind::R_DOUBLE_VALUE
            | RSyntaxKind::R_STRING_VALUE
            | RSyntaxKind::R_LOGICAL_VALUE
            | RSyntaxKind::R_NULL_VALUE
            | RSyntaxKind::R_BOGUS_VALUE => RSyntaxKind::R_BOGUS_VALUE,
            RSyntaxKind::R_PARAMETER | RSyntaxKind::R_BOGUS_PARAMETER => {
                RSyntaxKind::R_BOGUS_PARAMETER
            },
            _ => RSyntaxKind::R_BOGUS,
        }
    }

    #[verifier::when_used_as_spec(spec_is_root)]
    pub fn is_root(&self) -> (r: bool)
        ensures
            r == self.spec_is_root(),
    {
        match self {
            RSyntaxKind::R_ROOT => true,
            _ => false,
        }
    }

    #[verifier::when_used_as_spec(spec_is_trivia)]
    pub fn is_trivia(self) -> (r: bool)
        ensures
            r == self.spec_is_trivia(),
    {
        match self {
            RSyntaxKind::NEWLINE | RSyntaxKind::WHITESPACE | RSyntaxKind::COMMENT => true,
            _ => false,
        }
    }

    #[verifier::when_used_as_spec(spec_to_raw)]
    pub fn to_raw(&self) -> (r: u16)
        ensures
            r == self.spec_to_raw(),
            r <= LAST_RAW,
    {
        match self {
            RSyntaxKind::TOMBSTONE => 0,
            RSyntaxKind::EOF => 1,
            RSyntaxKind::UNICODE_BOM => 2,
            RSyntaxKind::SEMICOLON => 3,
            RSyntaxKind::COMMA => 4,
            RSyntaxKind::L_CURLY => 5,
            RSyntaxKind::R_CURLY => 6,
            RSyntaxKind::L_BRACK => 7,
            RSyntaxKind::R_BRACK => 8,
            RSyntaxKind::L_PAREN => 9,
            RSyntaxKind::R_PAREN => 10,
            RSyntaxKind::PLUS => 11,
            RSyntaxKind::FUNCTION_KW => 12,
            RSyntaxKind::R_INTEGER_LITERAL => 13,
            RSyntaxKind::R_DOUBLE_LITERAL => 14,
            RSyntaxKind::R_STRING_LITERAL => 15,
            RSyntaxKind::R_LOGICAL_LITERAL => 16,
            RSyntaxKind::R_NULL_LITERAL => 17,
            RSyntaxKind::NEWLINE => 18,
            RSyntaxKind::WHITESPACE => 19,
            RSyntaxKind::IDENT => 20,
            RSyntaxKind::COMMENT => 21,
            RSyntaxKind::R_ROOT => 22,
            RSyntaxKind::R_IDENTIFIER => 23,
            RSyntaxKind::R_BINARY_EXPRESSION => 24,
            RSyntaxKind::R_FUNCTION_DEFINITION => 25,
            RSyntaxKind::R_PARAMETERS => 26,
            RSyntaxKind::R_PARAMETER_LIST => 27,
            RSyntaxKind::R_PARAMETER => 28,
            RSyntaxKind::R_EXPRESSION_LIST => 29,
            RSyntaxKind::R_INTEGER_VALUE => 30,
            RSyntaxKind::R_DOUBLE_VALUE => 31,
            RSyntaxKind::R_STRING_VALUE => 32,
            RSyntaxKind::R_LOGICAL_VALUE => 33,
            RSyntaxKind::R_NULL_VALUE => 34,
            RSyntaxKind::R_BOGUS => 35,
            RSyntaxKind::R_BOGUS_VALUE => 36,
            RSyntaxKind::R_BOGUS_PARAMETER => 37,
            RSyntaxKind::__LAST => 38,
        }
    }

    /// The keyword that `ident` spells, if it spells one.
    pub fn from_keyword(ident: &str) -> (r: Option<RSyntaxKind>)
        ensures
            r == if ident@ == "function"@ {
                Some(RSyntaxKind::FUNCTION_KW)
            } else {
                None
            },
    {
        if str_eq(ident, "function") {
            Some(RSyntaxKind::FUNCTION_KW)
        } else {
            None
        }
    }

    /// How the kind is spelled in the source text, for the kinds that have
    /// one spelling.
    pub open spec fn spelling(&self) -> Option<Seq<char>> {
        match self {
            RSyntaxKind::SEMICOLON => Some(";"@),
            RSyntaxKind::COMMA => Some(","@),
            RSyntaxKind::L_CURLY => Some("{"@),
            RSyntaxKind::R_CURLY => Some("}"@),
            RSyntaxKind::L_BRACK => Some("["@),
            RSyntaxKind::R_BRACK => Some("]"@),
            RSyntaxKind::L_PAREN => Some("("@),
            RSyntaxKind::R_PAREN => Some(")"@),
            RSyntaxKind::PLUS => Some("+"@),
            RSyntaxKind::FUNCTION_KW => Some("function"@),
            RSyntaxKind::R_STRING_VALUE => Some("string value"@),
            _ => None,
        }
    }

    /// The text of a punctuation or keyword token, and a name for string
    /// values.
    pub fn to_string(&self) -> (r: Option<&'static str>)
        ensures
            r is Some == self.spelling() is Some,
            r is Some ==> r.unwrap()@ == self.spelling().unwrap(),
    {
        let tok = match self {
            RSyntaxKind::SEMICOLON => ";",
            RSyntaxKind::COMMA => ",",
            RSyntaxKind::L_CURLY => "{",
            RSyntaxKind::R_CURLY => "}",
            RSyntaxKind::L_BRACK => "[",
            RSyntaxKind::R_BRACK => "]",
            RSyntaxKind::L_PAREN => "(",
            RSyntaxKind::R_PAREN => ")",
            RSyntaxKind::PLUS => "+",
            RSyntaxKind::FUNCTION_KW => "function",
            RSyntaxKind::R_STRING_VALUE => "string value",
            _ => {
                return None;
            },
        };
        Some(tok)
    }

    /// The kind with the raw number `raw`.
    pub fn from_raw(raw: u16) -> (r: RSyntaxKind)
        requires
            raw <= LAST_RAW,
        ensures
            r.spec_to_raw() == raw,
    {
        match raw {
            0 => RSyntaxKind::TOMBSTONE,
            1 => RSyntaxKind::EOF,
            2 => RSyntaxKind::UNICODE_BOM,
            3 => RSyntaxKind::SEMICOLON,
            4 => RSyntaxKind::COMMA,
            5 => RSyntaxKind::L_CURLY,
            6 => RSyntaxKind::R_CURLY,
            7 => RSyntaxKind::L_BRACK,
            8 => RSyntaxKind::R_BRACK,
            9 => RSyntaxKind::L_PAREN,
            10 => RSyntaxKind::R_PAREN,
            11 => RSyntaxKind::PLUS,
            12 => RSyntaxKind::FUNCTION_KW,
            13 => RSyntaxKind::R_INTEGER_LITERAL,
            14 => RSyntaxKind::R_DOUBLE_LITERAL,
            15 => RSyntaxKind::R_STRING_LITERAL,
            16 => RSyntaxKind::R_LOGICAL_LITERAL,
            17 => RSyntaxKind::R_NULL_LITERAL,
            18 => RSyntaxKind::NEWLINE,
            19 => RSyntaxKind::WHITESPACE,
            20 => RSyntaxKind::IDENT,
            21 => RSyntaxKind::COMMENT,
            22 => RSyntaxKind::R_ROOT,
            23 => RSyntaxKind::R_IDENTIFIER,
            24 => RSyntaxKind::R_BINARY_EXPRESSION,
            25 => RSyntaxKind::R_FUNCTION_DEFINITION,
            26 => RSyntaxKind::R_PARAMETERS,
            27 => RSyntaxKind::R_PARAMETER_LIST,
            28 => RSyntaxKind::R_PARAMETER,
            29 => RSyntaxKind::R_EXPRESSION_LIST,
            30 => RSyntaxKind::R_INTEGER_VALUE,
            31 => RSyntaxKind::R_DOUBLE_VALUE,
            32 => RSyntaxKind::R_STRING_VALUE,
            33 => RSyntaxKind::R_LOGICAL_VALUE,
            34 => RSyntaxKind::R_NULL_VALUE,
            35 => RSyntaxKind::R_BOGUS,
            36 => RSyntaxKind::R_BOGUS_VALUE,
            37 => RSyntaxKind::R_BOGUS_PARAMETER,
            _ => RSyntaxKind::__LAST,
        }
    }
}

impl From<RSyntaxKind> for u16 {
    /// The raw number of the kind.
    fn from(k: RSyntaxKind) -> (r: u16) {
        k.to_raw()
    }
}

impl vstd::std_specs::convert::FromSpecImpl<RSyntaxKind> for u16 {
    open spec fn obeys_from_spec() -> bool {
        true
    }

    open spec fn from_spec(k: RSyntaxKind) -> u16 {
        k.spec_to_raw()
    }
}

/// The bytes of the text of a token without what delimits it: all but the
/// first and the last byte of a string value, and every byte of any other
/// token.
pub open spec fn inner_bytes(kind: RSyntaxKind, text: Seq<u8>) -> Seq<u8> {
    if kind == RSyntaxKind::R_STRING_VALUE {
        text.subrange(1, text.len() - 1)
    } else {
        text
    }
}

/// The text of a token of the given kind without its trivia: `text`,
/// without the delimiters at its start and at its end where the token is a
/// string value.
pub fn inner_string_text<'a>(kind: RSyntaxKind, text: &'a str) -> (r: &'a str)
    requires
        kind == RSyntaxKind::R_STRING_VALUE ==> text.spec_bytes().len() >= 2 && is_char_boundary(
            text.spec_bytes(),
            1,
        ) && is_char_boundary(text.spec_bytes(), text.spec_bytes().len() - 1),
    ensures
        r.spec_bytes() == inner_bytes(kind, text.spec_bytes()),
        r@ == decode_utf8(inner_bytes(kind, text.spec_bytes())),
{
    proof {
        encode_utf8_decode_utf8(text@);
    }
    match kind {
        RSyntaxKind::R_STRING_VALUE => slice_str(text, 1, text.as_bytes().len() - 1),
        _ => text,
    }
}

/// `to_bogus` lands on a bogus kind for every kind, and leaves a bogus kind
/// as it is.
pub proof fn lemma_to_bogus_total_idempotent(kind: RSyntaxKind)
    ensures
        kind.spec_to_bogus().spec_is_bogus(),
        kind.spec_is_bogus() ==> kind.spec_to_bogus() == kind,
        kind.spec_to_bogus().spec_to_bogus() == kind.spec_to_bogus(),
{
}

/// The named raw numbers are those of their kinds.
pub proof fn lemma_named_raw_numbers()
    ensures
        RSyntaxKind::R_ROOT.spec_to_raw() == ROOT_RAW,
        RSyntaxKind::__LAST.spec_to_raw() == LAST_RAW,
{
}

/// Two kinds with the same raw number are the same kind.
pub proof fn lemma_raw_injective(a: RSyntaxKind, b: RSyntaxKind)
    requires
        a.spec_to_raw() == b.spec_to_raw(),
    ensures
        a == b,
{
}

} // verus!
