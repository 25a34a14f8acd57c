//! The lossless parsing core of the R language: the kinds of its syntax
//! tree, the rule that attaches whitespace and comments to tokens, the
//! stream of events that a tree is built from, and the walk that turns a
//! tokenizer's outline of a source text into events and trivia. Every byte
//! of the text ends up in exactly one token or one piece of trivia.
//!
//! Beside it stand the settings of the language and the naming convention
//! of file names.

pub mod diagnostic;
pub mod event;
pub mod filenaming;
pub mod kind;
pub mod lossless;
pub mod nesting;
pub mod outline;
pub mod parse;
pub mod settings;
pub mod strings;
pub mod text;
pub mod treesitter;
pub mod trivia;
pub mod walk;

pub use diagnostic::ParseDiagnostic;
pub use event::Event;
pub use kind::{inner_string_text, RSyntaxKind};
pub use parse::{parse_text, RParserOptions};
pub use text::{TextRange, TextSize};
pub use trivia::{Trivia, TriviaPieceKind};
