use vstd::prelude::*;
use crate::text::{alphanumeric, is_alphanumeric, push_char};
use crate::tokenize::kind::{char_kind, char_symbol_kind, is_symbol_char, TokenKind};
use crate::tokenize::position::Position;
use crate::tokenize::token::{tokens_view, Token, TokenView};

verus! {

pub open spec fn is_white_char(c: char) -> bool {
    c == ' ' || c == '\t' || c == '\n'
}

pub open spec fn is_digit_char(c: char) -> bool {
    '0' <= c && c <= '9'
}

pub open spec fn is_word_char(c: char) -> bool {
    alphanumeric(c) || c == '_'
}

pub open spec fn is_quote_char(c: char) -> bool {
    c == '\'' || c == '"'
}

/// Line number and offset within the line after reading the first `i`
/// characters of `s`.
pub open spec fn pos_at(s: Seq<char>, i: int) -> (nat, nat)
    decreases i,
{
    if i <= 0 {
        (1, 0)
    } else {
        let p = pos_at(s, i - 1);
        if s[i - 1] == '\n' {
            (p.0 + 1, 0)
        } else {
            (p.0, p.1 + 1)
        }
    }
}

/// End of the run of whitespace that starts at `i`.
pub open spec fn white_end(s: Seq<char>, i: int) -> int
    decreases s.len() - i,
{
    if 0 <= i < s.len() && is_white_char(s[i]) {
        white_end(s, i + 1)
    } else {
        i
    }
}

/// End of the run of word characters that starts at `i`.
pub open spec fn word_end(s: Seq<char>, i: int) -> int
    decreases s.len() - i,
{
    if 0 <= i < s.len() && is_word_char(s[i]) {
        word_end(s, i + 1)
    } else {
        i
    }
}

/// Index of the first `q` at or after `i`, or the length of `s` if there is none.
pub open spec fn quote_end(s: Seq<char>, i: int, q: char) -> int
    decreases s.len() - i,
{
    if 0 <= i < s.len() && s[i] != q {
        quote_end(s, i + 1, q)
    } else {
        i
    }
}

/// End of the run of digits, with at most one `.`, that starts at `i`.
pub open spec fn number_end(s: Seq<char>, i: int, dot: bool) -> int
    decreases s.len() - i,
{
    if 0 <= i < s.len() && (is_digit_char(s[i]) || (s[i] == '.' && !dot)) {
        number_end(s, i + 1, dot || s[i] == '.')
    } else {
        i
    }
}

/// The decimal value of a string of digits.
pub open spec fn digits_value(t: Seq<char>) -> int
    decreases t.len(),
{
    if t.len() == 0 {
        0
    } else {
        digits_value(t.drop_last()) * 10 + (t.last() as int - '0' as int)
    }
}

pub open spec fn saturate(v: int) -> int {
    if v > i64::MAX {
        i64::MAX as int
    } else {
        v
    }
}

/// Where the token that starts at `i` (with `0 <= i < s.len()`) ends.
pub open spec fn token_end(s: Seq<char>, i: int) -> int {
    let c = s[i];
    if is_white_char(c) {
        white_end(s, i)
    } else if is_symbol_char(c) {
        i + 1
    } else if is_quote_char(c) {
        let q = quote_end(s, i + 1, c);
        if q < s.len() {
            q + 1
        } else {
            s.len() as int
        }
    } else if is_digit_char(c) {
        number_end(s, i, false)
    } else if is_word_char(c) {
        word_end(s, i)
    } else {
        i + 1
    }
}

/// The kind, text and integer value of the token that starts at `i`.
pub open spec fn token_content(s: Seq<char>, i: int) -> (TokenKind, Seq<char>, int) {
    let c = s[i];
    let e = token_end(s, i);
    if is_white_char(c) {
        (TokenKind::Whitespace, s.subrange(i, e), 0)
    } else if is_symbol_char(c) {
        (char_symbol_kind(c), seq![c], 0)
    } else if is_quote_char(c) {
        (TokenKind::String, s.subrange(i + 1, quote_end(s, i + 1, c)), 0)
    } else if is_digit_char(c) {
        let t = s.subrange(i, e);
        if t.contains('.') {
            (TokenKind::Decimal, t, 0)
        } else {
            (TokenKind::Integer, t, saturate(digits_value(t)))
        }
    } else {
        (TokenKind::Text, s.subrange(i, e), 0)
    }
}

/// A token of kind `kind` placed after the first `e` characters of `s`.
pub open spec fn token_view_at(s: Seq<char>, e: int, kind: TokenKind, text: Seq<char>, value: int) -> TokenView {
    TokenView {
        kind,
        line_no: pos_at(s, e).0,
        at_line: pos_at(s, e).1,
        at_whole: e as nat,
        text,
        value,
    }
}

/// The token that starts at `i`; it carries the position where it ends.
pub open spec fn token_at(s: Seq<char>, i: int) -> TokenView {
    let c = token_content(s, i);
    token_view_at(s, token_end(s, i), c.0, c.1, c.2)
}

/// The end-of-input token of `s`.
pub open spec fn eof_token(s: Seq<char>) -> TokenView {
    token_view_at(s, s.len() as int, TokenKind::Eof, Seq::empty(), 0)
}

/// The tokens of `s` from offset `i` on, ending with the end-of-input token.
pub open spec fn tokens_from(s: Seq<char>, i: int) -> Seq<TokenView>
    decreases s.len() - i,
{
    if 0 <= i < s.len() {
        proof {
            lemma_token_end_advances(s, i);
        }
        seq![token_at(s, i)] + tokens_from(s, token_end(s, i))
    } else {
        seq![eof_token(s)]
    }
}

/// The tokens of the whole of `s`.
pub open spec fn tokens_of(s: Seq<char>) -> Seq<TokenView> {
    tokens_from(s, 0)
}

proof fn lemma_white_end(s: Seq<char>, i: int)
    requires
        0 <= i <= s.len(),
    ensures
        i <= white_end(s, i) <= s.len(),
    decreases s.len() - i,
{
    if i < s.len() && is_white_char(s[i]) {
        lemma_white_end(s, i + 1);
    }
}

proof fn lemma_word_end(s: Seq<char>, i: int)
    requires
        0 <= i <= s.len(),
    ensures
        i <= word_end(s, i) <= s.len(),
    decreases s.len() - i,
{
    if i < s.len() && is_word_char(s[i]) {
        lemma_word_end(s, i + 1);
    }
}

proof fn lemma_quote_end(s: Seq<char>, i: int, q: char)
    requires
        0 <= i <= s.len(),
    ensures
        i <= quote_end(s, i, q) <= s.len(),
    decreases s.len() - i,
{
    if i < s.len() && s[i] != q {
        lemma_quote_end(s, i + 1, q);
    }
}

proof fn lemma_number_end(s: Seq<char>, i: int, dot: bool)
    requires
        0 <= i <= s.len(),
    ensures
        i <= number_end(s, i, dot) <= s.len(),
    decreases s.len() - i,
{
    if i < s.len() && (is_digit_char(s[i]) || (s[i] == '.' && !dot)) {
        lemma_number_end(s, i + 1, dot || s[i] == '.');
    }
}

/// Every token consumes at least one character and stays within the text.
pub proof fn lemma_token_end_advances(s: Seq<char>, i: int)
    requires
        0 <= i < s.len(),
    ensures
        i < token_end(s, i) <= s.len(),
{
    lemma_white_end(s, i + 1);
    lemma_word_end(s, i + 1);
    lemma_quote_end(s, i + 1, s[i]);
    lemma_number_end(s, i + 1, s[i] == '.');
}

proof fn lemma_tokens_from_end_in_one_eof(s: Seq<char>, i: int)
    requires
        0 <= i <= s.len(),
    ensures
        tokens_from(s, i).len() >= 1,
        tokens_from(s, i).last().kind == TokenKind::Eof,
        forall|k: int|
            0 <= k < tokens_from(s, i).len() - 1 ==> tokens_from(s, i)[k].kind != TokenKind::Eof,
    decreases s.len() - i,
{
    if i < s.len() {
        lemma_token_end_advances(s, i);
        let e = token_end(s, i);
        lemma_tokens_from_end_in_one_eof(s, e);
        let rest = tokens_from(s, e);
        assert(tokens_from(s, i) == seq![token_at(s, i)] + rest);
        assert forall|k: int| 0 <= k < tokens_from(s, i).len() - 1 implies tokens_from(s, i)[k].kind
            != TokenKind::Eof by {
            if k > 0 {
                assert(tokens_from(s, i)[k] == rest[k - 1]);
            }
        }
    }
}

/// Tokenizing any text yields a sequence that ends in exactly one
/// end-of-input token: no token before the last one marks the end of input.
pub proof fn lemma_tokenize_ends_in_one_eof(s: Seq<char>)
    ensures
        tokens_of(s).len() >= 1,
        tokens_of(s).last().kind == TokenKind::Eof,
        forall|k: int| 0 <= k < tokens_of(s).len() - 1 ==> tokens_of(s)[k].kind != TokenKind::Eof,
{
    lemma_tokens_from_end_in_one_eof(s, 0);
}

proof fn lemma_pos_bounds(s: Seq<char>, i: int)
    requires
        0 <= i,
    ensures
        1 <= pos_at(s, i).0 <= i + 1,
        pos_at(s, i).1 <= i,
    decreases i,
{
    if i > 0 {
        lemma_pos_bounds(s, i - 1);
    }
}

/// Scans text into tokens, tracking the position of each.
pub struct Tokenizer {
    target: String,
    n_chars: usize,
    pos: Position,
}

impl Tokenizer {
    /// The text being scanned.
    pub closed spec fn text(&self) -> Seq<char> {
        self.target@
    }

    /// How many characters have been consumed so far.
    pub closed spec fn offset(&self) -> int {
        self.pos.at_whole as int
    }

    pub closed spec fn wf(&self) -> bool {
        &&& self.n_chars == self.target@.len()
        &&& self.n_chars < usize::MAX
        &&& self.pos.at_whole <= self.n_chars
        &&& self.pos.line_no as nat == pos_at(self.target@, self.pos.at_whole as int).0
        &&& self.pos.at_line as nat == pos_at(self.target@, self.pos.at_whole as int).1
    }

    pub fn new(target: &str) -> (r: Tokenizer)
        requires
            target@.len() < usize::MAX,
        ensures
            r.wf(),
            r.text() == target@,
            r.offset() == 0,
    {
        let n_chars = target.unicode_len();
        let t = String::from_str(target);
        Tokenizer { target: t, n_chars, pos: Position::new(1, 0, 0) }
    }

    fn is_eof(&self) -> (r: bool)
        requires
            self.wf(),
        ensures
            r == (self.offset() >= self.text().len()),
    {
        self.pos.at_whole >= self.n_chars
    }

    fn move_horizon(&mut self, n: usize)
        requires
            old(self).pos.at_whole + n <= old(self).n_chars,
            old(self).pos.at_line + n <= old(self).n_chars,
            old(self).n_chars < usize::MAX,
        ensures
            final(self).target == old(self).target,
            final(self).n_chars == old(self).n_chars,
            final(self).pos.line_no == old(self).pos.line_no,
            final(self).pos.at_line == old(self).pos.at_line + n,
            final(self).pos.at_whole == old(self).pos.at_whole + n,
    {
        self.pos.at_line = self.pos.at_line + n;
        self.pos.at_whole = self.pos.at_whole + n;
    }

    fn move_line(&mut self, n: usize)
        requires
            old(self).pos.at_whole + n <= old(self).n_chars,
            old(self).pos.line_no + n <= old(self).n_chars + 1,
            old(self).n_chars < usize::MAX,
        ensures
            final(self).target == old(self).target,
            final(self).n_chars == old(self).n_chars,
            final(self).pos.line_no == old(self).pos.line_no + n,
            final(self).pos.at_line == 0,
            final(self).pos.at_whole == old(self).pos.at_whole + n,
    {
        self.pos.at_line = 0;
        self.pos.at_whole = self.pos.at_whole + n;
        self.pos.line_no = self.pos.line_no + n;
    }

    /// Advances past the current character, keeping the position in step.
    fn advance(&mut self)
        requires
            old(self).wf(),
            old(self).offset() < old(self).text().len(),
        ensures
            final(self).wf(),
            final(self).text() == old(self).text(),
            final(self).offset() == old(self).offset() + 1,
    {
        proof {
            lemma_pos_bounds(self.target@, self.pos.at_whole as int);
        }
        if self.current() == '\n' {
            self.move_line(1);
        } else {
            self.move_horizon(1);
        }
    }

    fn current(&self) -> (r: char)
        requires
            self.wf(),
            self.offset() < self.text().len(),
        ensures
            r == self.text()[self.offset()],
    {
        self.target.as_str().get_char(self.pos.at_whole)
    }

    fn is_white(&self) -> (r: bool)
        requires
            self.wf(),
            self.offset() < self.text().len(),
        ensures
            r == is_white_char(self.text()[self.offset()]),
    {
        let c = self.current();
        c == '\n' || c == '\t' || c == ' '
    }

    fn is_number(&self) -> (r: bool)
        requires
            self.wf(),
            self.offset() < self.text().len(),
        ensures
            r == is_digit_char(self.text()[self.offset()]),
    {
        let c = self.current();
        '0' <= c && c <= '9'
    }

    fn is_symbol(&self) -> (r: bool)
        requires
            self.wf(),
            self.offset() < self.text().len(),
        ensures
            r == is_symbol_char(self.text()[self.offset()]),
    {
        char_kind(self.current()) != TokenKind::Illegal
    }

    fn is_alphanum_(&self) -> (r: bool)
        requires
            self.wf(),
            self.offset() < self.text().len(),
        ensures
            r == is_word_char(self.text()[self.offset()]),
    {
        let c = self.current();
        is_alphanumeric(c) || c == '_'
    }

    fn consume_white(&mut self) -> (r: String)
        requires
            old(self).wf(),
            old(self).offset() < old(self).text().len(),
            is_white_char(old(self).text()[old(self).offset()]),
        ensures
            final(self).wf(),
            final(self).text() == old(self).text(),
            final(self).offset() == white_end(old(self).text(), old(self).offset()),
            r@ == old(self).text().subrange(old(self).offset(), final(self).offset()),
    {
        let ghost text = self.text();
        let ghost start = self.offset();
        let mut s = String::new();
        while !self.is_eof()
            invariant
                self.wf(),
                self.text() == text,
                0 <= start <= self.offset() <= text.len(),
                white_end(text, start) == white_end(text, self.offset()),
                s@ == text.subrange(start, self.offset()),
            ensures
                white_end(text, self.offset()) == self.offset(),
            decreases text.len() - self.offset(),
        {
            if self.is_white() {
                let c = self.current();
                push_char(&mut s, c);
                assert(text.subrange(start, self.offset() + 1) =~= text.subrange(start, self.offset()).push(c));
                self.advance();
            } else {
                break;
            }
        }
        s
    }

    fn consume_symbol(&mut self) -> (r: String)
        requires
            old(self).wf(),
            old(self).offset() < old(self).text().len(),
        ensures
            final(self).wf(),
            final(self).text() == old(self).text(),
            final(self).offset() == old(self).offset() + 1,
            r@ == seq![old(self).text()[old(self).offset()]],
    {
        let mut s = String::new();
        push_char(&mut s, self.current());
        self.advance();
        s
    }

    fn consume_text(&mut self) -> (r: String)
        requires
            old(self).wf(),
            old(self).offset() < old(self).text().len(),
        ensures
            final(self).wf(),
            final(self).text() == old(self).text(),
            final(self).offset() == if is_word_char(old(self).text()[old(self).offset()]) {
                word_end(old(self).text(), old(self).offset())
            } else {
                old(self).offset() + 1
            },
            r@ == old(self).text().subrange(old(self).offset(), final(self).offset()),
    {
        let ghost text = self.text();
        let ghost start = self.offset();
        let mut s = String::new();
        if !self.is_alphanum_() {
            let c = self.current();
            push_char(&mut s, c);
            assert(text.subrange(start, start + 1) =~= seq![c]);
            self.advance();
            return s;
        }
        while !self.is_eof()
            invariant
                self.wf(),
                self.text() == text,
                0 <= start <= self.offset() <= text.len(),
                word_end(text, start) == word_end(text, self.offset()),
                s@ == text.subrange(start, self.offset()),
            ensures
                word_end(text, self.offset()) == self.offset(),
            decreases text.len() - self.offset(),
        {
            if self.is_alphanum_() {
                let c = self.current();
                push_char(&mut s, c);
                assert(text.subrange(start, self.offset() + 1) =~= text.subrange(start, self.offset()).push(c));
                self.advance();
            } else {
                break;
            }
        }
        s
    }

    /// Consumes a quoted string, the opening quote being the current
    /// character; an unterminated string runs to the end of the text.
    fn consume_string(&mut self, is_single: bool) -> (r: String)
        requires
            old(self).wf(),
            old(self).offset() < old(self).text().len(),
            old(self).text()[old(self).offset()] == (if is_single { '\'' } else { '"' }),
        ensures
            final(self).wf(),
            final(self).text() == old(self).text(),
            final(self).offset() == token_end(old(self).text(), old(self).offset()),
            r@ == old(self).text().subrange(
                old(self).offset() + 1,
                quote_end(old(self).text(), old(self).offset() + 1, old(self).text()[old(self).offset()]),
            ),
    {
        let ghost text = self.text();
        let ghost start = self.offset();
        let q: char = if is_single { '\'' } else { '"' };
        let mut s = String::new();
        self.advance();
        while !self.is_eof()
            invariant
                self.wf(),
                self.text() == text,
                0 <= start,
                start + 1 <= self.offset() <= text.len(),
                quote_end(text, start + 1, q) == quote_end(text, self.offset(), q),
                s@ == text.subrange(start + 1, self.offset()),
            ensures
                quote_end(text, self.offset(), q) == self.offset(),
            decreases text.len() - self.offset(),
        {
            let c = self.current();
            if c == q {
                break;
            }
            push_char(&mut s, c);
            assert(text.subrange(start + 1, self.offset() + 1) =~= text.subrange(start + 1, self.offset()).push(c));
            self.advance();
        }
        if !self.is_eof() {
            self.advance();
        }
        s
    }

    /// Consumes a number: its digits (with at most one `.`), whether a `.`
    /// was seen, and the value of the digits saturated at `i64::MAX`.
    fn consume_numeric(&mut self) -> (r: (String, bool, i64))
        requires
            old(self).wf(),
            old(self).offset() < old(self).text().len(),
            is_digit_char(old(self).text()[old(self).offset()]),
        ensures
            final(self).wf(),
            final(self).text() == old(self).text(),
            final(self).offset() == number_end(old(self).text(), old(self).offset(), false),
            r.0@ == old(self).text().subrange(old(self).offset(), final(self).offset()),
            r.1 == r.0@.contains('.'),
            !r.1 ==> r.2 as int == saturate(digits_value(r.0@)),
    {
        let ghost text = self.text();
        let ghost start = self.offset();
        let mut s = String::new();
        let mut include_dot = false;
        let mut value: i64 = 0;
        while !self.is_eof()
            invariant
                self.wf(),
                self.text() == text,
                0 <= start <= self.offset() <= text.len(),
                number_end(text, start, false) == number_end(text, self.offset(), include_dot),
                s@ == text.subrange(start, self.offset()),
                include_dot == s@.contains('.'),
                !include_dot ==> value as int == saturate(digits_value(s@)),
                !include_dot ==> digits_value(s@) >= 0,
            ensures
                number_end(text, self.offset(), include_dot) == self.offset(),
            decreases text.len() - self.offset(),
        {
            let c = self.current();
            let ghost old_s = s@;
            if '0' <= c && c <= '9' {
                let d = (c as u32 - '0' as u32) as i64;
                value = match value.checked_mul(10) {
                    Some(m) => match m.checked_add(d) {
                        Some(a) => a,
                        None => i64::MAX,
                    },
                    None => i64::MAX,
                };
                push_char(&mut s, c);
                assert(s@.drop_last() =~= old_s);
                assert(!s@.contains('.') <==> !old_s.contains('.')) by {
                    if s@.contains('.') {
                        let k = choose|k: int| 0 <= k < s@.len() && s@[k] == '.';
                        if k < old_s.len() {
                            assert(old_s[k] == '.');
                        }
                    }
                    if old_s.contains('.') {
                        let k = choose|k: int| 0 <= k < old_s.len() && old_s[k] == '.';
                        assert(s@[k] == '.');
                    }
                }
            } else if c == '.' && !include_dot {
                include_dot = true;
                push_char(&mut s, c);
                assert(s@[s@.len() - 1] == '.');
                assert(s@.drop_last() =~= old_s);
            } else {
                break;
            }
            assert(text.subrange(start, self.offset() + 1) =~= old_s.push(c));
            self.advance();
        }
        (s, include_dot, value)
    }

    /// Scans the rest of the text into tokens, the last of which marks the
    /// end of input.
    pub fn tokenize(&mut self) -> (r: Vec<Token>)
        requires
            old(self).wf(),
        ensures
            final(self).wf(),
            final(self).text() == old(self).text(),
            final(self).offset() == old(self).text().len(),
            tokens_view(r@) == tokens_from(old(self).text(), old(self).offset()),
    {
        let ghost text = self.text();
        let ghost start = self.offset();
        let mut toks: Vec<Token> = Vec::new();
        while !self.is_eof()
            invariant
                self.wf(),
                self.text() == text,
                0 <= self.offset() <= text.len(),
                tokens_view(toks@) + tokens_from(text, self.offset()) == tokens_from(text, start),
            decreases text.len() - self.offset(),
        {
            let ghost i = self.offset();
            proof {
                lemma_token_end_advances(text, i);
            }
            let tok: Token;
            if self.is_white() {
                let ws = self.consume_white();
                tok = Token::new(TokenKind::Whitespace, self.pos, ws, 0);
            } else if self.is_symbol() {
                let c = self.current();
                let sym = self.consume_symbol();
                tok = Token::new(char_kind(c), self.pos, sym, 0);
            } else if self.current() == '\'' {
                let s = self.consume_string(true);
                tok = Token::new(TokenKind::String, self.pos, s, 0);
            } else if self.current() == '"' {
                let s = self.consume_string(false);
                tok = Token::new(TokenKind::String, self.pos, s, 0);
            } else if self.is_number() {
                let (digits, include_dot, value) = self.consume_numeric();
                if include_dot {
                    tok = Token::new(TokenKind::Decimal, self.pos, digits, 0);
                } else {
                    tok = Token::new(TokenKind::Integer, self.pos, digits, value);
                }
            } else {
                let s = self.consume_text();
                tok = Token::new(TokenKind::Text, self.pos, s, 0);
            }
            assert(tok@ == token_at(text, i));
            let ghost prev = toks@;
            toks.push(tok);
            assert(tokens_view(toks@) =~= tokens_view(prev).push(tok@));
            assert(tokens_view(toks@) + tokens_from(text, self.offset()) =~= tokens_view(prev) + tokens_from(text, i));
        }
        toks.push(Token::new(TokenKind::Eof, self.pos, String::new(), 0));
        proof {
            assert(tokens_view(toks@) =~= tokens_from(text, start));
        }
        toks
    }
}

} // verus!
