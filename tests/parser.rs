use htmlfmt::parse::err::ParseError;
use htmlfmt::parse::kind::NodeKind;
use htmlfmt::parse::node::Node;
use htmlfmt::parse::parser::Parser;
use htmlfmt::tokenize::kind::TokenKind;
use htmlfmt::tokenize::tokenizer::Tokenizer;

fn parse_str(input: &str) -> Result<Option<Vec<Option<Box<Node>>>>, ParseError> {
    let mut tokenizer = Tokenizer::new(input);
    let tokens = tokenizer.tokenize();
    let mut parser = Parser::new();
    parser.parse(tokens)
}

fn nodes_of(input: &str) -> Vec<Box<Node>> {
    parse_str(input).unwrap().unwrap().into_iter().map(|n| n.unwrap()).collect()
}

fn children(node: &Node) -> Vec<&Node> {
    node.children.as_ref().unwrap().iter().map(|n| n.as_deref().unwrap()).collect()
}

fn params(node: &Node) -> Vec<(String, String)> {
    match &node.params {
        None => vec![],
        Some(p) => {
            assert!(matches!(p.kind, NodeKind::Parameters));
            p.children
                .as_ref()
                .unwrap()
                .iter()
                .map(|q| {
                    let q = q.as_ref().unwrap();
                    assert!(matches!(q.kind, NodeKind::Parameter));
                    let k = q.lhs.as_ref().unwrap();
                    let v = q.rhs.as_ref().unwrap();
                    assert!(matches!(k.kind, NodeKind::Identifier));
                    assert!(matches!(v.kind, NodeKind::VString));
                    (k.imm_s.clone(), v.imm_s.clone())
                })
                .collect()
        }
    }
}

#[test]
fn parse_only_decl() {
    let html = "<!doctype html><!-- hello, w--orld -->";
    let nodes = nodes_of(html);
    println!("{:#?}", nodes);
    assert_eq!(nodes.len(), 2);
    assert!(matches!(nodes[0].kind, NodeKind::DoctypeTag));
    assert_eq!(nodes[0].imm_s, "html");
    assert!(matches!(nodes[1].kind, NodeKind::CommentTag));
    assert_eq!(nodes[1].imm_s, " hello, w--orld ");
}

#[test]
fn parse_html_tag() {
    let nodes = nodes_of("<html></html>");
    println!("{:#?}", nodes);
    assert_eq!(nodes.len(), 1);
    assert!(matches!(nodes[0].kind, NodeKind::Tag));
    assert_eq!(nodes[0].imm_s, "html");
    assert!(nodes[0].children.is_none());
    assert!(nodes[0].params.is_none());
}

#[test]
fn parse_html_body() {
    let nodes = nodes_of("<html><body></body></html>");
    println!("{:#?}", nodes);
    assert_eq!(nodes.len(), 1);
    assert_eq!(nodes[0].imm_s, "html");
    let body = children(&nodes[0]);
    assert_eq!(body.len(), 1);
    assert!(matches!(body[0].kind, NodeKind::Tag));
    assert_eq!(body[0].imm_s, "body");
    assert!(body[0].children.is_none());
}

#[test]
fn parse_html_body_h1_img() {
    let html = "<!DOCTYPE html> \
        <html>\
        <body>\
        <h1>hello</h1>\
        <img src=\"https://google.com\"/>\
        </body>\
        </html>";
    let nodes = nodes_of(html);
    println!("{:#?}", nodes);
    assert_eq!(nodes.len(), 2);
    assert!(matches!(nodes[0].kind, NodeKind::DoctypeTag));
    assert_eq!(nodes[0].imm_s, "html");
    assert_eq!(nodes[1].imm_s, "html");
    let body = children(&nodes[1]);
    assert_eq!(body.len(), 1);
    assert_eq!(body[0].imm_s, "body");
    let inner = children(body[0]);
    assert_eq!(inner.len(), 2);
    assert!(matches!(inner[0].kind, NodeKind::Tag));
    assert_eq!(inner[0].imm_s, "h1");
    let text = children(inner[0]);
    assert_eq!(text.len(), 1);
    assert!(matches!(text[0].kind, NodeKind::Text));
    assert_eq!(text[0].imm_s, "hello");
    assert!(matches!(inner[1].kind, NodeKind::SoloTag));
    assert_eq!(inner[1].imm_s, "img");
    assert_eq!(params(inner[1]), vec![("src".to_string(), "https://google.com".to_string())]);
}

#[test]
fn mismatched_closing_tag() {
    match parse_str("<a></b>") {
        Err(ParseError::TagMissMatch { open, close }) => {
            assert_eq!(open, "a");
            assert_eq!(close, "b");
        }
        other => panic!("unexpected result: {:?}", other),
    }
}

#[test]
fn solo_tag_with_attribute() {
    let nodes = nodes_of("<img src=\"https://example.com\" />");
    assert_eq!(nodes.len(), 1);
    assert!(matches!(nodes[0].kind, NodeKind::SoloTag));
    assert_eq!(nodes[0].imm_s, "img");
    assert!(nodes[0].children.is_none());
    assert_eq!(params(&nodes[0]), vec![("src".to_string(), "https://example.com".to_string())]);
}

#[test]
fn doctype_then_comment() {
    let nodes = nodes_of("<!doctype html><!-- hi -->");
    assert_eq!(nodes.len(), 2);
    assert!(matches!(nodes[0].kind, NodeKind::DoctypeTag));
    assert_eq!(nodes[0].imm_s, "html");
    assert!(matches!(nodes[1].kind, NodeKind::CommentTag));
    assert_eq!(nodes[1].imm_s, " hi ");
}

#[test]
fn nested_tags() {
    let nodes = nodes_of("<html><body><h1>hello</h1></body></html>");
    assert_eq!(nodes.len(), 1);
    assert_eq!(nodes[0].imm_s, "html");
    let body = children(&nodes[0]);
    assert_eq!(body.len(), 1);
    assert_eq!(body[0].imm_s, "body");
    let h1 = children(body[0]);
    assert_eq!(h1.len(), 1);
    assert_eq!(h1[0].imm_s, "h1");
    let text = children(h1[0]);
    assert_eq!(text.len(), 1);
    assert!(matches!(text[0].kind, NodeKind::Text));
    assert_eq!(text[0].imm_s, "hello");
}

#[test]
fn tag_names_are_lowercased() {
    let nodes = nodes_of("<HTML><Body></BODY></html>");
    assert_eq!(nodes[0].imm_s, "html");
    assert_eq!(children(&nodes[0])[0].imm_s, "body");
}

#[test]
fn several_attributes_in_order() {
    let nodes = nodes_of("<a href='x' id=\"y\">t</a>");
    assert!(matches!(nodes[0].kind, NodeKind::Tag));
    assert_eq!(
        params(&nodes[0]),
        vec![("href".to_string(), "x".to_string()), ("id".to_string(), "y".to_string())]
    );
    assert_eq!(children(&nodes[0])[0].imm_s, "t");
}

#[test]
fn text_runs_split_at_whitespace() {
    let nodes = nodes_of("<p>hello, world</p>");
    let words = children(&nodes[0]);
    assert_eq!(words.len(), 2);
    assert_eq!(words[0].imm_s, "hello,");
    assert_eq!(words[1].imm_s, "world");
}

#[test]
fn empty_document() {
    assert!(parse_str("").unwrap().is_none());
    assert!(parse_str("  \n ").unwrap().is_none());
}

#[test]
fn doctype_keyword_checked() {
    match parse_str("<!foo html>") {
        Err(ParseError::UnexpectedText { expected, found }) => {
            assert_eq!(expected, "doctype");
            assert_eq!(found, "foo");
        }
        other => panic!("unexpected result: {:?}", other),
    }
}

#[test]
fn missing_tag_end() {
    match parse_str("<a") {
        Err(ParseError::UnexpectedToken { expected, found }) => {
            assert_eq!(expected, TokenKind::TagEnd);
            assert_eq!(found.kind, TokenKind::Eof);
        }
        other => panic!("unexpected result: {:?}", other),
    }
}

#[test]
fn attribute_value_must_be_quoted() {
    match parse_str("<a href=x>") {
        Err(ParseError::UnexpectedToken { expected, found }) => {
            assert_eq!(expected, TokenKind::String);
            assert_eq!(found.kind, TokenKind::Text);
            assert_eq!(found.imm_s, "x");
        }
        other => panic!("unexpected result: {:?}", other),
    }
}

#[test]
fn unclosed_tag_reports_end_of_input() {
    match parse_str("<a>text") {
        Err(ParseError::UnexpectedToken { expected, found }) => {
            assert_eq!(expected, TokenKind::Slash);
            assert_eq!(found.kind, TokenKind::Eof);
        }
        other => panic!("unexpected result: {:?}", other),
    }
}

#[test]
fn unterminated_comment() {
    match parse_str("<!-- never closed") {
        Err(ParseError::UnexpectedToken { expected, found }) => {
            assert_eq!(expected, TokenKind::Text);
            assert_eq!(found.kind, TokenKind::Eof);
        }
        other => panic!("unexpected result: {:?}", other),
    }
}

#[test]
fn number_in_content_is_rejected() {
    match parse_str("<p>42</p>") {
        Err(ParseError::UnexpectedToken { expected, found }) => {
            assert_eq!(expected, TokenKind::Text);
            assert_eq!(found.kind, TokenKind::Integer);
            assert_eq!(found.imm_i, 42);
        }
        other => panic!("unexpected result: {:?}", other),
    }
}

#[test]
fn node_new_keeps_fields() {
    let n = Node::new(NodeKind::Text, None, None, None, None, "x".to_string());
    assert!(matches!(n.kind, NodeKind::Text));
    assert_eq!(n.imm_s, "x");
    assert!(n.lhs.is_none() && n.rhs.is_none() && n.children.is_none() && n.params.is_none());
}

#[test]
fn bare_tag_has_no_children_and_no_params() {
    let nodes = nodes_of("<A></a>");
    assert_eq!(nodes.len(), 1);
    assert!(matches!(nodes[0].kind, NodeKind::Tag));
    assert_eq!(nodes[0].imm_s, "a");
    assert!(nodes[0].children.is_none());
    assert!(nodes[0].params.is_none());
    assert!(nodes[0].lhs.is_none() && nodes[0].rhs.is_none());
}
