use vstd::prelude::*;
use crate::tokenize::kind::TokenKind;
use crate::tokenize::position::Position;

verus! {

/// One classified lexical unit. `imm_s` holds the token's text: the whitespace
/// run, the symbol, the unquoted string content, the word, or the digits of a
/// number. `imm_i` holds the value of an integer literal (saturated at
/// `i64::MAX`), and 0 for every other kind.
#[derive(Debug, Clone, PartialEq)]
pub struct Token {
    pub kind: TokenKind,
    pub pos: Position,
    pub imm_s: String,
    pub imm_i: i64,
}

/// What a token holds, as plain mathematical values.
pub struct TokenView {
    pub kind: TokenKind,
    pub line_no: nat,
    pub at_line: nat,
    pub at_whole: nat,
    pub text: Seq<char>,
    pub value: int,
}

impl Token {
    pub open spec fn view(&self) -> TokenView {
        TokenView {
            kind: self.kind,
            line_no: self.pos.line_no as nat,
            at_line: self.pos.at_line as nat,
            at_whole: self.pos.at_whole as nat,
            text: self.imm_s@,
            value: self.imm_i as int,
        }
    }

    pub fn new(kind: TokenKind, pos: Position, imm_s: String, imm_i: i64) -> (r: Token)
        ensures
            r.kind == kind,
            r.pos == pos,
            r.imm_s@ == imm_s@,
            r.imm_i == imm_i,
    {
        Token { kind, pos, imm_s, imm_i }
    }

    /// A token equal to this one.
    pub fn copied(&self) -> (r: Token)
        ensures
            r@ == self@,
    {
        Token { kind: self.kind, pos: self.pos, imm_s: self.imm_s.clone(), imm_i: self.imm_i }
    }
}

/// The views of a sequence of tokens.
pub open spec fn tokens_view(toks: Seq<Token>) -> Seq<TokenView> {
    toks.map_values(|t: Token| t@)
}

} // verus!
