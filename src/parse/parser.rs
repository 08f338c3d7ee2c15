use vstd::prelude::*;
use crate::parse::err::{ErrorView, ParseError};
use crate::parse::kind::NodeKind;
use crate::parse::node::{
    children_of, children_shaped, forest_of, forest_shaped, pairs_of, param_shaped, params_of, params_shaped, shaped, tree_of,
    Node, Tree,
};
use crate::text::{lower_of, lowercase};
use crate::tokenize::kind::TokenKind;
use crate::tokenize::token::{tokens_view, Token, TokenView};

verus! {

/// The kind of the token at `i`; past the end, the end of input.
pub open spec fn kind_at(ts: Seq<TokenView>, i: int) -> TokenKind {
    if 0 <= i < ts.len() {
        ts[i].kind
    } else {
        TokenKind::Eof
    }
}

/// The token at `i`; past the end, the last one.
pub open spec fn tok_at(ts: Seq<TokenView>, i: int) -> TokenView {
    if 0 <= i < ts.len() {
        ts[i]
    } else {
        ts.last()
    }
}

/// Skips one whitespace token at `i`, if there is one.
pub open spec fn skip_ws(ts: Seq<TokenView>, i: int) -> int {
    if kind_at(ts, i) == TokenKind::Whitespace {
        i + 1
    } else {
        i
    }
}

pub open spec fn unexpected(ts: Seq<TokenView>, i: int, expected: TokenKind) -> ErrorView {
    ErrorView::UnexpectedToken { expected, found: tok_at(ts, i) }
}

/// The concatenated text of the run of text tokens that starts at `i`, and
/// where the run ends.
pub open spec fn text_run(ts: Seq<TokenView>, i: int) -> (Seq<char>, int)
    decreases ts.len() - i,
{
    if 0 <= i < ts.len() && ts[i].kind == TokenKind::Text {
        let r = text_run(ts, i + 1);
        (ts[i].text + r.0, r.1)
    } else {
        (Seq::empty(), i)
    }
}

pub open spec fn prefixed(a: Seq<char>, r: Result<(Seq<char>, int), int>) -> Result<(Seq<char>, int), int> {
    match r {
        Ok((t, e)) => Ok((a + t, e)),
        Err(k) => Err(k),
    }
}

/// The text of a comment whose body starts at `i`, and the index after its
/// closing `-->`; or the index of the end of input when it is not closed.
/// A hyphen that does not start `-->` stays as written, whitespace becomes
/// one space, and any other token contributes its text.
pub open spec fn comment_body(ts: Seq<TokenView>, i: int) -> Result<(Seq<char>, int), int>
    decreases ts.len() - i,
{
    if !(0 <= i < ts.len()) || ts[i].kind == TokenKind::Eof {
        Err(i)
    } else if ts[i].kind == TokenKind::Hyphen {
        if kind_at(ts, i + 1) == TokenKind::Hyphen {
            if kind_at(ts, i + 2) == TokenKind::TagEnd {
                Ok((Seq::empty(), i + 3))
            } else {
                prefixed(seq!['-', '-'], comment_body(ts, i + 2))
            }
        } else {
            prefixed(seq!['-'], comment_body(ts, i + 1))
        }
    } else if ts[i].kind == TokenKind::Whitespace {
        prefixed(seq![' '], comment_body(ts, i + 1))
    } else {
        prefixed(ts[i].text, comment_body(ts, i + 1))
    }
}

pub open spec fn doctype_word() -> Seq<char> {
    seq!['d', 'o', 'c', 't', 'y', 'p', 'e']
}

/// A declaration `<!...>` whose body starts at `i` (after the `!`): a comment
/// or a doctype.
pub open spec fn decl(ts: Seq<TokenView>, i: int) -> Result<(Tree, int), ErrorView> {
    if kind_at(ts, i) == TokenKind::Hyphen {
        if kind_at(ts, i + 1) != TokenKind::Hyphen {
            Err(unexpected(ts, i + 1, TokenKind::Hyphen))
        } else {
            match comment_body(ts, i + 2) {
                Ok((t, e)) => Ok((Tree::Comment { text: t }, e)),
                Err(k) => Err(unexpected(ts, k, TokenKind::Text)),
            }
        }
    } else if kind_at(ts, i) != TokenKind::Text {
        Err(unexpected(ts, i, TokenKind::Text))
    } else if lower_of(ts[i].text) != doctype_word() {
        Err(ErrorView::UnexpectedText { expected: doctype_word(), found: ts[i].text })
    } else if kind_at(ts, i + 1) != TokenKind::Whitespace {
        Err(unexpected(ts, i + 1, TokenKind::Whitespace))
    } else if kind_at(ts, i + 2) != TokenKind::Text {
        Err(unexpected(ts, i + 2, TokenKind::Text))
    } else if kind_at(ts, i + 3) != TokenKind::TagEnd {
        Err(unexpected(ts, i + 3, TokenKind::TagEnd))
    } else {
        Ok((Tree::Doctype { value: lower_of(ts[i + 2].text) }, i + 4))
    }
}

/// The attributes `key="value"` that start at `i`, up to a `>` or `/`.
pub open spec fn params(ts: Seq<TokenView>, i: int) -> Result<(Seq<(Seq<char>, Seq<char>)>, int), ErrorView>
    decreases ts.len() - i,
{
    if !(0 <= i < ts.len()) || ts[i].kind == TokenKind::Eof {
        Ok((Seq::empty(), i))
    } else {
        let j = skip_ws(ts, i);
        if kind_at(ts, j) == TokenKind::TagEnd || kind_at(ts, j) == TokenKind::Slash {
            Ok((Seq::empty(), j))
        } else {
            let j2 = skip_ws(ts, j);
            if kind_at(ts, j2) != TokenKind::Text {
                Err(unexpected(ts, j2, TokenKind::Text))
            } else if kind_at(ts, j2 + 1) != TokenKind::Assign {
                Err(unexpected(ts, j2 + 1, TokenKind::Assign))
            } else if kind_at(ts, j2 + 2) != TokenKind::String {
                Err(unexpected(ts, j2 + 2, TokenKind::String))
            } else {
                match params(ts, skip_ws(ts, j2 + 3)) {
                    Ok((ps, e)) => Ok((seq![(ts[j2].text, ts[j2 + 2].text)] + ps, e)),
                    Err(x) => Err(x),
                }
            }
        }
    }
}

/// The sibling nodes that start at `i`, and where they end: at the end of
/// input, or just after the `<` of a closing tag.
pub open spec fn forest(ts: Seq<TokenView>, i: int) -> Result<(Seq<Tree>, int), ErrorView>
    decreases ts.len() - i,
{
    if !(0 <= i < ts.len()) || ts[i].kind == TokenKind::Eof {
        Ok((Seq::empty(), i))
    } else {
        let j = skip_ws(ts, i);
        if kind_at(ts, j) == TokenKind::Eof {
            Ok((Seq::empty(), j))
        } else if kind_at(ts, j) == TokenKind::TagBegin {
            match tag(ts, j + 1) {
                Err(x) => Err(x),
                Ok((None, k)) => Ok((Seq::empty(), k)),
                Ok((Some(t), k)) => {
                    let k2 = skip_ws(ts, k);
                    if i < k2 <= ts.len() {
                        match forest(ts, k2) {
                            Ok((rest, e)) => Ok((seq![t] + rest, e)),
                            Err(x) => Err(x),
                        }
                    } else {
                        Err(ErrorView::Unknown)
                    }
                },
            }
        } else {
            let (t, k) = text_run(ts, j);
            if k == j {
                Err(unexpected(ts, j, TokenKind::Text))
            } else {
                let k2 = skip_ws(ts, k);
                if i < k2 <= ts.len() {
                    match forest(ts, k2) {
                        Ok((rest, e)) => Ok((seq![Tree::Text { text: t }] + rest, e)),
                        Err(x) => Err(x),
                    }
                } else {
                    Err(ErrorView::Unknown)
                }
            }
        }
    }
}

/// The construct whose body starts at `i`, just after a `<`: a declaration,
/// a self-closing tag, or a tag with its content and matching closing tag.
/// `None` when a closing tag begins there.
pub open spec fn tag(ts: Seq<TokenView>, i: int) -> Result<(Option<Tree>, int), ErrorView>
    decreases ts.len() - i,
{
    if kind_at(ts, i) == TokenKind::Exclamation {
        match decl(ts, i + 1) {
            Ok((t, e)) => Ok((Some(t), e)),
            Err(x) => Err(x),
        }
    } else if kind_at(ts, i) == TokenKind::Slash {
        Ok((None, i))
    } else if kind_at(ts, i) != TokenKind::Text {
        Err(unexpected(ts, i, TokenKind::Text))
    } else {
        let name = lower_of(ts[i].text);
        match params(ts, skip_ws(ts, i + 1)) {
            Err(x) => Err(x),
            Ok((ps, k)) => {
                let k2 = skip_ws(ts, k);
                if kind_at(ts, k2) == TokenKind::Slash {
                    if kind_at(ts, k2 + 1) == TokenKind::TagEnd {
                        Ok((Some(Tree::Solo { name, params: ps }), k2 + 2))
                    } else {
                        Err(unexpected(ts, k2 + 1, TokenKind::TagEnd))
                    }
                } else if kind_at(ts, k2) != TokenKind::TagEnd {
                    Err(unexpected(ts, k2, TokenKind::TagEnd))
                } else if k2 < i {
                    Err(ErrorView::Unknown)
                } else {
                    match forest(ts, k2 + 1) {
                        Err(x) => Err(x),
                        Ok((cs, m)) => {
                            if kind_at(ts, m) != TokenKind::Slash {
                                Err(unexpected(ts, m, TokenKind::Slash))
                            } else if kind_at(ts, m + 1) != TokenKind::Text {
                                Err(unexpected(ts, m + 1, TokenKind::Text))
                            } else if kind_at(ts, m + 2) != TokenKind::TagEnd {
                                Err(unexpected(ts, m + 2, TokenKind::TagEnd))
                            } else if name != lower_of(ts[m + 1].text) {
                                Err(ErrorView::TagMissMatch { open: name, close: lower_of(ts[m + 1].text) })
                            } else {
                                Ok((Some(Tree::Tag { name, params: ps, children: cs }), m + 3))
                            }
                        },
                    }
                }
            },
        }
    }
}

pub open spec fn opt_tree(n: Option<Box<Node>>) -> Option<Tree> {
    match n {
        Some(b) => Some(tree_of(*b)),
        None => None,
    }
}

/// The document that a token sequence holds, or the first error in it.
pub open spec fn parse_doc(ts: Seq<TokenView>) -> Result<Seq<Tree>, ErrorView> {
    match forest(ts, 0) {
        Ok((f, _)) => Ok(f),
        Err(x) => Err(x),
    }
}

proof fn lemma_prefixed_assoc(a: Seq<char>, b: Seq<char>, r: Result<(Seq<char>, int), int>)
    ensures
        prefixed(a, prefixed(b, r)) == prefixed(a + b, r),
{
    match r {
        Ok((t, e)) => {
            assert(a + (b + t) =~= (a + b) + t);
        },
        Err(_) => {},
    }
}

/// Builds a document tree from a token sequence.
pub struct Parser {
    tokens: Vec<Token>,
}

impl Parser {
    spec fn ts(&self) -> Seq<TokenView> {
        tokens_view(self.tokens@)
    }

    spec fn wf(&self) -> bool {
        &&& self.tokens@.len() > 0
        &&& self.tokens@.last().kind == TokenKind::Eof
        &&& self.tokens@.len() < usize::MAX - 4
    }

    pub fn new() -> Parser {
        Parser { tokens: Vec::new() }
    }

    proof fn lemma_in_range(&self, i: int)
        requires
            self.wf(),
            kind_at(self.ts(), i) != TokenKind::Eof,
        ensures
            0 <= i < self.ts().len() - 1,
            self.ts().len() == self.tokens@.len(),
    {
        assert(self.ts()[self.ts().len() - 1] == self.tokens@.last()@);
    }

    fn kind(&self, i: usize) -> (r: TokenKind)
        ensures
            r == kind_at(self.ts(), i as int),
    {
        if i < self.tokens.len() {
            self.tokens[i].kind
        } else {
            TokenKind::Eof
        }
    }

    fn is_eof(&self, i: usize) -> (r: bool)
        ensures
            r == (kind_at(self.ts(), i as int) == TokenKind::Eof),
    {
        self.kind(i) == TokenKind::Eof
    }

    fn skip_ws(&self, i: usize) -> (r: usize)
        requires
            self.wf(),
            i < self.tokens@.len(),
        ensures
            r == skip_ws(self.ts(), i as int),
            i <= r < self.tokens@.len(),
    {
        if self.kind(i) == TokenKind::Whitespace {
            proof {
                self.lemma_in_range(i as int);
            }
            i + 1
        } else {
            i
        }
    }

    fn unexpected(&self, i: usize, expected: TokenKind) -> (r: ParseError)
        requires
            self.wf(),
        ensures
            r@ == unexpected(self.ts(), i as int, expected),
    {
        let found = if i < self.tokens.len() {
            self.tokens[i].copied()
        } else {
            self.tokens[self.tokens.len() - 1].copied()
        };
        ParseError::UnexpectedToken { expected, found }
    }

    fn parse_text(&self, i: usize) -> (r: (String, usize))
        requires
            self.wf(),
            i < self.tokens@.len(),
        ensures
            text_run(self.ts(), i as int) == (r.0@, r.1 as int),
            i <= r.1 < self.tokens@.len(),
    {
        let ghost ts = self.ts();
        let mut text = String::new();
        let mut p = i;
        while self.kind(p) == TokenKind::Text
            invariant
                self.wf(),
                ts == self.ts(),
                i <= p < self.tokens@.len(),
                text_run(ts, i as int) == (text@ + text_run(ts, p as int).0, text_run(ts, p as int).1),
            decreases self.tokens@.len() - p,
        {
            proof {
                self.lemma_in_range(p as int);
                let r = text_run(ts, p as int + 1);
                assert(text@ + (ts[p as int].text + r.0) =~= (text@ + ts[p as int].text) + r.0);
            }
            text.append(self.tokens[p].imm_s.as_str());
            p = p + 1;
        }
        (text, p)
    }

    /// Reads a comment body up to its closing `-->`; on reaching the end of
    /// input first, gives the index of the end-of-input token.
    fn parse_comment(&self, i: usize) -> (r: Result<(String, usize), usize>)
        requires
            self.wf(),
            i < self.tokens@.len(),
        ensures
            match r {
                Ok((t, e)) => comment_body(self.ts(), i as int) == Ok::<(Seq<char>, int), int>((t@, e as int))
                    && i < e < self.tokens@.len(),
                Err(k) => comment_body(self.ts(), i as int) == Err::<(Seq<char>, int), int>(k as int)
                    && k < self.tokens@.len(),
            },
    {
        let ghost ts = self.ts();
        let mut comment = String::new();
        let mut p = i;
        while !self.is_eof(p)
            invariant
                self.wf(),
                ts == self.ts(),
                i <= p < self.tokens@.len(),
                comment_body(ts, i as int) == prefixed(comment@, comment_body(ts, p as int)),
            decreases self.tokens@.len() - p,
        {
            proof {
                self.lemma_in_range(p as int);
            }
            let ghost before = comment@;
            if self.kind(p) == TokenKind::Hyphen {
                if self.kind(p + 1) == TokenKind::Hyphen {
                    proof {
                        self.lemma_in_range(p as int + 1);
                    }
                    if self.kind(p + 2) == TokenKind::TagEnd {
                        proof {
                            self.lemma_in_range(p as int + 2);
                            assert(comment@ + Seq::<char>::empty() =~= comment@);
                        }
                        return Ok((comment, p + 3));
                    }
                    comment.append("--");
                    proof {
                        reveal_strlit("--");
                        assert("--"@ =~= seq!['-', '-']);
                        lemma_prefixed_assoc(before, seq!['-', '-'], comment_body(ts, p as int + 2));
                    }
                    p = p + 2;
                } else {
                    comment.append("-");
                    proof {
                        reveal_strlit("-");
                        assert("-"@ =~= seq!['-']);
                        lemma_prefixed_assoc(before, seq!['-'], comment_body(ts, p as int + 1));
                    }
                    p = p + 1;
                }
            } else if self.kind(p) == TokenKind::Whitespace {
                comment.append(" ");
                proof {
                    reveal_strlit(" ");
                    assert(" "@ =~= seq![' ']);
                    lemma_prefixed_assoc(before, seq![' '], comment_body(ts, p as int + 1));
                }
                p = p + 1;
            } else {
                comment.append(self.tokens[p].imm_s.as_str());
                proof {
                    lemma_prefixed_assoc(before, ts[p as int].text, comment_body(ts, p as int + 1));
                }
                p = p + 1;
            }
        }
        Err(p)
    }

    fn parse_decl_tag(&self, i: usize) -> (r: Result<(Box<Node>, usize), ParseError>)
        requires
            self.wf(),
            i < self.tokens@.len(),
        ensures
            match r {
                Ok((n, e)) => decl(self.ts(), i as int) == Ok::<(Tree, int), ErrorView>((tree_of(*n), e as int))
                    && i < e < self.tokens@.len() && shaped(*n),
                Err(x) => decl(self.ts(), i as int) == Err::<(Tree, int), ErrorView>(x@),
            },
    {
        let ghost ts = self.ts();
        if self.kind(i) == TokenKind::Hyphen {
            proof {
                self.lemma_in_range(i as int);
            }
            if self.kind(i + 1) != TokenKind::Hyphen {
                return Err(self.unexpected(i + 1, TokenKind::Hyphen));
            }
            proof {
                self.lemma_in_range(i as int + 1);
            }
            return match self.parse_comment(i + 2) {
                Ok((text, e)) => Ok((Box::new(Node::new(NodeKind::CommentTag, None, None, None, None, text)), e)),
                Err(k) => Err(self.unexpected(k, TokenKind::Text)),
            };
        }
        if self.kind(i) != TokenKind::Text {
            return Err(self.unexpected(i, TokenKind::Text));
        }
        proof {
            self.lemma_in_range(i as int);
        }
        let word = lowercase(self.tokens[i].imm_s.as_str());
        let expected = String::from_str("doctype");
        proof {
            reveal_strlit("doctype");
            assert(expected@ =~= doctype_word());
        }
        if word != expected {
            return Err(ParseError::UnexpectedText { expected, found: self.tokens[i].imm_s.clone() });
        }
        if self.kind(i + 1) != TokenKind::Whitespace {
            return Err(self.unexpected(i + 1, TokenKind::Whitespace));
        }
        proof {
            self.lemma_in_range(i as int + 1);
        }
        if self.kind(i + 2) != TokenKind::Text {
            return Err(self.unexpected(i + 2, TokenKind::Text));
        }
        proof {
            self.lemma_in_range(i as int + 2);
        }
        let value = lowercase(self.tokens[i + 2].imm_s.as_str());
        if self.kind(i + 3) != TokenKind::TagEnd {
            return Err(self.unexpected(i + 3, TokenKind::TagEnd));
        }
        proof {
            self.lemma_in_range(i as int + 3);
        }
        Ok((Box::new(Node::new(NodeKind::DoctypeTag, None, None, None, None, value)), i + 4))
    }

    fn parse_tag_parameters(&self, i: usize) -> (r: Result<(Option<Box<Node>>, usize), ParseError>)
        requires
            self.wf(),
            i < self.tokens@.len(),
        ensures
            match r {
                Ok((n, e)) => params(self.ts(), i as int) == Ok::<(Seq<(Seq<char>, Seq<char>)>, int), ErrorView>(
                    (params_of(n), e as int),
                ) && i <= e < self.tokens@.len() && params_shaped(n),
                Err(x) => params(self.ts(), i as int) == Err::<(Seq<(Seq<char>, Seq<char>)>, int), ErrorView>(x@),
            },
    {
        let ghost ts = self.ts();
        let mut children: Vec<Option<Box<Node>>> = Vec::new();
        let mut p = i;
        while !self.is_eof(p)
            invariant
                self.wf(),
                ts == self.ts(),
                i <= p < self.tokens@.len(),
                params(ts, i as int) == match params(ts, p as int) {
                    Ok((ps, e)) => Ok((pairs_of(children@) + ps, e)),
                    Err(x) => Err(x),
                },
                forall|m: int| 0 <= m < children@.len() ==> #[trigger] param_shaped(children@[m]),
            ensures
                params(ts, p as int) == Ok::<(Seq<(Seq<char>, Seq<char>)>, int), ErrorView>((Seq::empty(), p as int)),
            decreases self.tokens@.len() - p,
        {
            proof {
                self.lemma_in_range(p as int);
            }
            let j = self.skip_ws(p);
            if self.kind(j) == TokenKind::TagEnd || self.kind(j) == TokenKind::Slash {
                p = j;
                break;
            }
            let j2 = self.skip_ws(j);
            if self.kind(j2) != TokenKind::Text {
                return Err(self.unexpected(j2, TokenKind::Text));
            }
            proof {
                self.lemma_in_range(j2 as int);
            }
            if self.kind(j2 + 1) != TokenKind::Assign {
                return Err(self.unexpected(j2 + 1, TokenKind::Assign));
            }
            proof {
                self.lemma_in_range(j2 as int + 1);
            }
            if self.kind(j2 + 2) != TokenKind::String {
                return Err(self.unexpected(j2 + 2, TokenKind::String));
            }
            proof {
                self.lemma_in_range(j2 as int + 2);
            }
            let key = Node::new(NodeKind::Identifier, None, None, None, None, self.tokens[j2].imm_s.clone());
            let value = Node::new(NodeKind::VString, None, None, None, None, self.tokens[j2 + 2].imm_s.clone());
            let param = Node::new(
                NodeKind::Parameter,
                Some(Box::new(key)),
                Some(Box::new(value)),
                None,
                None,
                String::new(),
            );
            let ghost before = children@;
            children.push(Some(Box::new(param)));
            let ghost p_old = p;
            p = j2 + 3;
            if self.kind(p) == TokenKind::Whitespace {
                proof {
                    self.lemma_in_range(p as int);
                }
                p = p + 1;
            }
            proof {
                let pair = (ts[j2 as int].text, ts[j2 as int + 2].text);
                assert(pairs_of(children@) =~= pairs_of(before).push(pair));
                assert(p == skip_ws(ts, j2 as int + 3));
                assert(params(ts, p_old as int) == match params(ts, p as int) {
                    Ok((ps, e)) => Ok((seq![pair] + ps, e)),
                    Err(x) => Err(x),
                });
                match params(ts, p as int) {
                    Ok((ps, e)) => {
                        assert(pairs_of(before) + (seq![pair] + ps) =~= pairs_of(before).push(pair) + ps);
                    },
                    Err(_) => {},
                }
            }
        }
        proof {
            assert(pairs_of(children@) + Seq::empty() =~= pairs_of(children@));
        }
        if children.len() == 0 {
            proof {
                assert(pairs_of(children@) =~= Seq::empty());
            }
            return Ok((None, p));
        }
        Ok((Some(Box::new(Node::new(NodeKind::Parameters, None, None, Some(children), None, String::new()))), p))
    }

    fn parse_tag(&self, i: usize) -> (r: Result<(Option<Box<Node>>, usize), ParseError>)
        requires
            self.wf(),
            i < self.tokens@.len(),
        ensures
            match r {
                Ok((n, e)) => tag(self.ts(), i as int) == Ok::<(Option<Tree>, int), ErrorView>((opt_tree(n), e as int))
                    && i <= e < self.tokens@.len() && (n is Some ==> i < e) && match n {
                    Some(b) => shaped(*b),
                    None => true,
                },
                Err(x) => tag(self.ts(), i as int) == Err::<(Option<Tree>, int), ErrorView>(x@),
            },
        decreases self.tokens@.len() - i,
    {
        let ghost ts = self.ts();
        if self.kind(i) == TokenKind::Exclamation {
            proof {
                self.lemma_in_range(i as int);
            }
            return match self.parse_decl_tag(i + 1) {
                Ok((n, e)) => Ok((Some(n), e)),
                Err(x) => Err(x),
            };
        }
        if self.kind(i) == TokenKind::Slash {
            return Ok((None, i));
        }
        if self.kind(i) != TokenKind::Text {
            return Err(self.unexpected(i, TokenKind::Text));
        }
        proof {
            self.lemma_in_range(i as int);
        }
        let name = lowercase(self.tokens[i].imm_s.as_str());
        let j = self.skip_ws(i + 1);
        let (params, k) = match self.parse_tag_parameters(j) {
            Ok(pk) => pk,
            Err(x) => {
                return Err(x);
            },
        };
        let k2 = self.skip_ws(k);
        if self.kind(k2) == TokenKind::Slash {
            proof {
                self.lemma_in_range(k2 as int);
            }
            if self.kind(k2 + 1) != TokenKind::TagEnd {
                return Err(self.unexpected(k2 + 1, TokenKind::TagEnd));
            }
            proof {
                self.lemma_in_range(k2 as int + 1);
            }
            return Ok((Some(Box::new(Node::new(NodeKind::SoloTag, None, None, None, params, name))), k2 + 2));
        }
        if self.kind(k2) != TokenKind::TagEnd {
            return Err(self.unexpected(k2, TokenKind::TagEnd));
        }
        proof {
            self.lemma_in_range(k2 as int);
        }
        let (children, m) = match self.parse_(k2 + 1) {
            Ok(cm) => cm,
            Err(x) => {
                return Err(x);
            },
        };
        if self.kind(m) != TokenKind::Slash {
            return Err(self.unexpected(m, TokenKind::Slash));
        }
        proof {
            self.lemma_in_range(m as int);
        }
        if self.kind(m + 1) != TokenKind::Text {
            return Err(self.unexpected(m + 1, TokenKind::Text));
        }
        proof {
            self.lemma_in_range(m as int + 1);
        }
        let close = lowercase(self.tokens[m + 1].imm_s.as_str());
        if self.kind(m + 2) != TokenKind::TagEnd {
            return Err(self.unexpected(m + 2, TokenKind::TagEnd));
        }
        proof {
            self.lemma_in_range(m as int + 2);
        }
        if name != close {
            return Err(ParseError::TagMissMatch { open: name, close });
        }
        Ok((Some(Box::new(Node::new(NodeKind::Tag, None, None, children, params, name))), m + 3))
    }

    /// Parses sibling nodes from `i` on, up to the end of input or the start
    /// of a closing tag.
    fn parse_(&self, i: usize) -> (r: Result<(Option<Vec<Option<Box<Node>>>>, usize), ParseError>)
        requires
            self.wf(),
            i < self.tokens@.len(),
        ensures
            match r {
                Ok((c, e)) => forest(self.ts(), i as int) == Ok::<(Seq<Tree>, int), ErrorView>(
                    (children_of(c), e as int),
                ) && i <= e < self.tokens@.len() && children_shaped(c),
                Err(x) => forest(self.ts(), i as int) == Err::<(Seq<Tree>, int), ErrorView>(x@),
            },
        decreases self.tokens@.len() - i,
    {
        let ghost ts = self.ts();
        let mut nodes: Vec<Option<Box<Node>>> = Vec::new();
        let mut p = i;
        while !self.is_eof(p)
            invariant
                self.wf(),
                ts == self.ts(),
                i <= p < self.tokens@.len(),
                forest(ts, i as int) == match forest(ts, p as int) {
                    Ok((f, e)) => Ok((forest_of(nodes@) + f, e)),
                    Err(x) => Err(x),
                },
                forest_shaped(nodes@),
            decreases self.tokens@.len() - p,
        {
            proof {
                self.lemma_in_range(p as int);
            }
            let ghost p_old = p;
            let ghost before = nodes@;
            let j = self.skip_ws(p);
            let node: Box<Node>;
            let k: usize;
            if self.is_eof(j) {
                proof {
                    assert(forest_of(nodes@) + Seq::empty() =~= forest_of(nodes@));
                }
                return Ok((Self::wrap(nodes), j));
            } else if self.kind(j) == TokenKind::TagBegin {
                proof {
                    self.lemma_in_range(j as int);
                }
                match self.parse_tag(j + 1) {
                    Err(x) => {
                        return Err(x);
                    },
                    Ok((None, e)) => {
                        proof {
                            assert(forest_of(nodes@) + Seq::empty() =~= forest_of(nodes@));
                        }
                        return Ok((Self::wrap(nodes), e));
                    },
                    Ok((Some(n), e)) => {
                        node = n;
                        k = e;
                    },
                }
            } else {
                let (text, e) = self.parse_text(j);
                if e == j {
                    return Err(self.unexpected(j, TokenKind::Text));
                }
                node = Box::new(Node::new(NodeKind::Text, None, None, None, None, text));
                k = e;
            }
            let ghost t = tree_of(*node);
            let ghost shape = shaped(*node);
            nodes.push(Some(node));
            p = self.skip_ws(k);
            proof {
                assert(nodes@.subrange(0, nodes@.len() - 1) =~= before);
                assert(forest_of(nodes@) == forest_of(before) + seq![t]);
                assert(forest_shaped(nodes@) == (forest_shaped(before) && shape));
                match forest(ts, p as int) {
                    Ok((f, e)) => {
                        assert(forest_of(before) + (seq![t] + f) =~= forest_of(nodes@) + f);
                    },
                    Err(_) => {},
                }
            }
        }
        proof {
            assert(forest_of(nodes@) + Seq::empty() =~= forest_of(nodes@));
        }
        Ok((Self::wrap(nodes), p))
    }

    /// No sequence when there are no nodes.
    fn wrap(nodes: Vec<Option<Box<Node>>>) -> (r: Option<Vec<Option<Box<Node>>>>)
        ensures
            children_of(r) == forest_of(nodes@),
            r is Some ==> nodes@.len() > 0,
            forest_shaped(nodes@) ==> children_shaped(r),
    {
        if nodes.len() == 0 {
            proof {
                assert(forest_of(nodes@) == Seq::<Tree>::empty());
            }
            None
        } else {
            Some(nodes)
        }
    }

    /// Parses a token sequence, which ends with the end-of-input token, into
    /// the document's top-level nodes; `None` when there are none.
    pub fn parse(&mut self, tokens: Vec<Token>) -> (r: Result<Option<Vec<Option<Box<Node>>>>, ParseError>)
        requires
            tokens@.len() > 0,
            tokens@.last().kind == TokenKind::Eof,
            tokens@.len() < usize::MAX - 4,
        ensures
            match r {
                Ok(c) => parse_doc(tokens_view(tokens@)) == Ok::<Seq<Tree>, ErrorView>(children_of(c))
                    && children_shaped(c),
                Err(x) => parse_doc(tokens_view(tokens@)) == Err::<Seq<Tree>, ErrorView>(x@),
            },
    {
        self.tokens = tokens;
        match self.parse_(0) {
            Ok((c, _)) => Ok(c),
            Err(x) => Err(x),
        }
    }
}

} // verus!
