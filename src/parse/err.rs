use vstd::prelude::*;
use crate::tokenize::kind::TokenKind;
use crate::tokenize::token::{Token, TokenView};

verus! {

/// Why a token sequence is not a document.
#[derive(Debug, Clone)]
pub enum ParseError {
    /// A token of kind `expected` was needed; `found` stood there.
    UnexpectedToken { expected: TokenKind, found: Token },
    /// The word `expected` was needed; `found` stood there.
    UnexpectedText { expected: String, found: String },
    /// A closing tag's name differs from its opening tag's name.
    TagMissMatch { open: String, close: String },
    /// A state that well-formed parsing never reaches.
    Unknown,
}

/// A parse error as mathematical values.
pub enum ErrorView {
    UnexpectedToken { expected: TokenKind, found: TokenView },
    UnexpectedText { expected: Seq<char>, found: Seq<char> },
    TagMissMatch { open: Seq<char>, close: Seq<char> },
    Unknown,
}

impl ParseError {
    pub open spec fn view(&self) -> ErrorView {
        match self {
            ParseError::UnexpectedToken { expected, found } => ErrorView::UnexpectedToken {
                expected: *expected,
                found: found@,
            },
            ParseError::UnexpectedText { expected, found } => ErrorView::UnexpectedText {
                expected: expected@,
                found: found@,
            },
            ParseError::TagMissMatch { open, close } => ErrorView::TagMissMatch {
                open: open@,
                close: close@,
            },
            ParseError::Unknown => ErrorView::Unknown,
        }
    }
}

} // verus!
