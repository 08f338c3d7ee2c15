use htmlfmt::tokenize::kind::{symbol_kind, TokenKind};
use htmlfmt::tokenize::position::Position;
use htmlfmt::tokenize::token::Token;
use htmlfmt::tokenize::tokenizer::Tokenizer;

fn kinds(tokens: &[Token]) -> Vec<TokenKind> {
    tokens.iter().map(|t| t.kind).collect()
}

fn texts(tokens: &[Token]) -> Vec<String> {
    tokens.iter().map(|t| t.imm_s.clone()).collect()
}

#[test]
fn tokenize() {
    let input = "<h1>hello, world</h1>";
    let mut tokenizer = Tokenizer::new(input);
    let tokens = tokenizer.tokenize();
    println!("{:#?}", tokens);
    assert_eq!(
        kinds(&tokens),
        vec![
            TokenKind::TagBegin,
            TokenKind::Text,
            TokenKind::TagEnd,
            TokenKind::Text,
            TokenKind::Text,
            TokenKind::Whitespace,
            TokenKind::Text,
            TokenKind::TagBegin,
            TokenKind::Slash,
            TokenKind::Text,
            TokenKind::TagEnd,
            TokenKind::Eof,
        ]
    );
    assert_eq!(
        texts(&tokens),
        vec!["<", "h1", ">", "hello", ",", " ", "world", "<", "/", "h1", ">", ""]
    );
}

#[test]
fn empty_input_is_only_end_of_input() {
    let mut tokenizer = Tokenizer::new("");
    let tokens = tokenizer.tokenize();
    assert_eq!(tokens.len(), 1);
    assert_eq!(tokens[0].kind, TokenKind::Eof);
    assert_eq!(tokens[0].pos, Position::new(1, 0, 0));
}

#[test]
fn exactly_one_end_of_input_at_the_end() {
    for input in ["<a>", "x y\nz", "'open", "1.2.3", "&&--!!", "\t\n\n ", "é_1 ü"] {
        let mut tokenizer = Tokenizer::new(input);
        let tokens = tokenizer.tokenize();
        assert_eq!(tokens.last().unwrap().kind, TokenKind::Eof);
        assert_eq!(tokens.iter().filter(|t| t.kind == TokenKind::Eof).count(), 1);
    }
}

#[test]
fn whitespace_run_keeps_newlines_and_tracks_lines() {
    let mut tokenizer = Tokenizer::new("a \n\tb");
    let tokens = tokenizer.tokenize();
    assert_eq!(kinds(&tokens), vec![TokenKind::Text, TokenKind::Whitespace, TokenKind::Text, TokenKind::Eof]);
    assert_eq!(tokens[1].imm_s, " \n\t");
    // positions are taken after each token
    assert_eq!(tokens[0].pos, Position::new(1, 1, 1));
    assert_eq!(tokens[1].pos, Position::new(2, 1, 4));
    assert_eq!(tokens[2].pos, Position::new(2, 2, 5));
    assert_eq!(tokens[3].pos, Position::new(2, 2, 5));
}

#[test]
fn quoted_strings_are_unquoted() {
    let mut tokenizer = Tokenizer::new("'it' \"say 'hi'\"");
    let tokens = tokenizer.tokenize();
    assert_eq!(kinds(&tokens), vec![TokenKind::String, TokenKind::Whitespace, TokenKind::String, TokenKind::Eof]);
    assert_eq!(tokens[0].imm_s, "it");
    assert_eq!(tokens[2].imm_s, "say 'hi'");
}

#[test]
fn unterminated_string_runs_to_end() {
    let mut tokenizer = Tokenizer::new("\"abc <d>");
    let tokens = tokenizer.tokenize();
    assert_eq!(kinds(&tokens), vec![TokenKind::String, TokenKind::Eof]);
    assert_eq!(tokens[0].imm_s, "abc <d>");
    assert_eq!(tokens[1].pos.at_whole, 8);
}

#[test]
fn numbers_integer_and_decimal() {
    let mut tokenizer = Tokenizer::new("123 4.5 1.2.3");
    let tokens = tokenizer.tokenize();
    assert_eq!(
        kinds(&tokens),
        vec![
            TokenKind::Integer,
            TokenKind::Whitespace,
            TokenKind::Decimal,
            TokenKind::Whitespace,
            TokenKind::Decimal,
            TokenKind::Text,
            TokenKind::Integer,
            TokenKind::Eof,
        ]
    );
    assert_eq!(tokens[0].imm_i, 123);
    assert_eq!(tokens[0].imm_s, "123");
    assert_eq!(tokens[2].imm_s, "4.5");
    assert_eq!(tokens[4].imm_s, "1.2");
    assert_eq!(tokens[5].imm_s, ".");
    assert_eq!(tokens[6].imm_i, 3);
}

#[test]
fn huge_integer_saturates() {
    let mut tokenizer = Tokenizer::new("99999999999999999999");
    let tokens = tokenizer.tokenize();
    assert_eq!(tokens[0].kind, TokenKind::Integer);
    assert_eq!(tokens[0].imm_i, i64::MAX);
    let mut tokenizer = Tokenizer::new("9223372036854775807");
    let tokens = tokenizer.tokenize();
    assert_eq!(tokens[0].imm_i, i64::MAX);
    let mut tokenizer = Tokenizer::new("9223372036854775806");
    let tokens = tokenizer.tokenize();
    assert_eq!(tokens[0].imm_i, 9223372036854775806);
}

#[test]
fn words_and_fallback_characters() {
    let mut tokenizer = Tokenizer::new("a_b1 héllo,.");
    let tokens = tokenizer.tokenize();
    assert_eq!(
        kinds(&tokens),
        vec![TokenKind::Text, TokenKind::Whitespace, TokenKind::Text, TokenKind::Text, TokenKind::Text, TokenKind::Eof]
    );
    assert_eq!(texts(&tokens), vec!["a_b1", " ", "héllo", ",", ".", ""]);
}

#[test]
fn symbols_each_one_token() {
    let mut tokenizer = Tokenizer::new("<>!=-/&");
    let tokens = tokenizer.tokenize();
    assert_eq!(
        kinds(&tokens),
        vec![
            TokenKind::TagBegin,
            TokenKind::TagEnd,
            TokenKind::Exclamation,
            TokenKind::Assign,
            TokenKind::Hyphen,
            TokenKind::Slash,
            TokenKind::Amp,
            TokenKind::Eof,
        ]
    );
}

#[test]
fn symbol_kind_of_strings() {
    assert_eq!(symbol_kind("<"), TokenKind::TagBegin);
    assert_eq!(symbol_kind(">"), TokenKind::TagEnd);
    assert_eq!(symbol_kind("!"), TokenKind::Exclamation);
    assert_eq!(symbol_kind("="), TokenKind::Assign);
    assert_eq!(symbol_kind("-"), TokenKind::Hyphen);
    assert_eq!(symbol_kind("/"), TokenKind::Slash);
    assert_eq!(symbol_kind("&"), TokenKind::Amp);
    assert_eq!(symbol_kind("a"), TokenKind::Illegal);
    assert_eq!(symbol_kind("<<"), TokenKind::Illegal);
    assert_eq!(symbol_kind(""), TokenKind::Illegal);
}

#[test]
fn token_new_keeps_fields() {
    let t = Token::new(TokenKind::Text, Position::new(3, 2, 9), "abc".to_string(), 0);
    assert_eq!(t.kind, TokenKind::Text);
    assert_eq!(t.pos, Position::new(3, 2, 9));
    assert_eq!(t.imm_s, "abc");
    assert_eq!(t.imm_i, 0);
}
