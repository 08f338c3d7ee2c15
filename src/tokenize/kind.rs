use vstd::prelude::*;

verus! {

/// The lexical class of a token.
#[derive(Debug, Clone, Copy, PartialEq, Eq, Structural)]
pub enum TokenKind {
    Illegal,
    Eof,
    Whitespace,
    /// `<`
    TagBegin,
    /// `>`
    TagEnd,
    /// `!`
    Exclamation,
    /// `=`
    Assign,
    /// `-`
    Hyphen,
    /// `/`
    Slash,
    /// `&`
    Amp,
    String,
    Integer,
    Decimal,
    Text,
}

/// The kind of the one-character symbol `c`, or `Illegal` when `c` is no symbol.
pub open spec fn char_symbol_kind(c: char) -> TokenKind {
    if c == '<' {
        TokenKind::TagBegin
    } else if c == '>' {
        TokenKind::TagEnd
    } else if c == '!' {
        TokenKind::Exclamation
    } else if c == '=' {
        TokenKind::Assign
    } else if c == '-' {
        TokenKind::Hyphen
    } else if c == '/' {
        TokenKind::Slash
    } else if c == '&' {
        TokenKind::Amp
    } else {
        TokenKind::Illegal
    }
}

pub open spec fn is_symbol_char(c: char) -> bool {
    char_symbol_kind(c) != TokenKind::Illegal
}

/// The kind of a symbol written as a string: only a one-character string can be one.
pub open spec fn spec_symbol_kind(s: Seq<char>) -> TokenKind {
    if s.len() == 1 {
        char_symbol_kind(s[0])
    } else {
        TokenKind::Illegal
    }
}

pub fn char_kind(c: char) -> (r: TokenKind)
    ensures
        r == char_symbol_kind(c),
{
    if c == '<' {
        TokenKind::TagBegin
    } else if c == '>' {
        TokenKind::TagEnd
    } else if c == '!' {
        TokenKind::Exclamation
    } else if c == '=' {
        TokenKind::Assign
    } else if c == '-' {
        TokenKind::Hyphen
    } else if c == '/' {
        TokenKind::Slash
    } else if c == '&' {
        TokenKind::Amp
    } else {
        TokenKind::Illegal
    }
}

/// Classifies a symbol string such as `"<"` or `"/"`.
pub fn symbol_kind(symbol: &str) -> (r: TokenKind)
    ensures
        r == spec_symbol_kind(symbol@),
{
    if symbol.unicode_len() == 1 {
        char_kind(symbol.get_char(0))
    } else {
        TokenKind::Illegal
    }
}

} // verus!
