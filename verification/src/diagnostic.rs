//! What a parse reports besides its events.

use crate::text::TextRange;
use vstd::prelude::*;

verus! {

/// A message about the source text, with the byte range it is about where
/// there is one.
#[derive(Clone, PartialEq, Eq, Debug)]
pub struct ParseDiagnostic {
    pub message: String,
    pub range: Option<TextRange>,
}

impl ParseDiagnostic {
    pub fn new(message: &str, range: Option<TextRange>) -> (r: ParseDiagnostic)
        ensures
            r.message@ == message@,
            r.range == range,
    {
        ParseDiagnostic { message: message.to_owned(), range }
    }

    /// The text of the message.
    pub fn message(&self) -> (r: &str)
        ensures
            r@ == self.message@,
    {
        self.message.as_str()
    }

    /// The range the message is about.
    pub fn range(&self) -> (r: Option<TextRange>)
        ensures
            r == self.range,
    {
        self.range
    }
}

} // verus!
