use htmlfmt::format::config::Config;
use htmlfmt::format::formatter::Formatter;
use htmlfmt::parse::node::Node;
use htmlfmt::parse::parser::Parser;
use htmlfmt::tokenize::tokenizer::Tokenizer;

fn parse_nodes(input: &str) -> Vec<Option<Box<Node>>> {
    let mut tokenizer = Tokenizer::new(input);
    let tokens = tokenizer.tokenize();
    let mut parser = Parser::new();
    parser.parse(tokens).unwrap().unwrap_or_default()
}

fn render(input: &str, width: usize) -> String {
    Formatter::new(Config::new(width)).format(parse_nodes(input))
}

fn indent_of(line: &str) -> usize {
    line.len() - line.trim_start().len()
}

#[test]
fn format_1() {
    let html = "<!DOCTYPE html> \
        <html>\
        <body>\
        <h1>hello</h1>\
        <img src=\"https://google.com\"/>\
        </body>\
        </html>";
    let nodes = parse_nodes(html);
    let formatter = Formatter::new(Config::default());
    let s = formatter.format(nodes);
    println!("{}", s);
    assert_eq!(
        s,
        "<!doctype html>\n\
         <html>\n    \
         <body>\n        \
         <h1>\n            \
         hello\n        \
         </h1>\n        \
         <img src=\"https://google.com\"/>\n    \
         </body>\n\
         </html>\n"
    );
}

#[test]
fn nested_tags_indent_and_align() {
    let s = render("<html><body><h1>hello</h1></body></html>", 2);
    assert_eq!(s, "<html>\n  <body>\n    <h1>\n      hello\n    </h1>\n  </body>\n</html>\n");
    let lines: Vec<&str> = s.lines().collect();
    let find = |t: &str| lines.iter().position(|l| l.trim() == t).unwrap();
    assert!(indent_of(lines[find("<h1>")]) > indent_of(lines[find("<body>")]));
    assert!(indent_of(lines[find("hello")]) > indent_of(lines[find("<h1>")]));
    for (open, close) in [("<html>", "</html>"), ("<body>", "</body>"), ("<h1>", "</h1>")] {
        assert_eq!(indent_of(lines[find(open)]), indent_of(lines[find(close)]));
    }
}

#[test]
fn rendering_twice_is_stable() {
    let once = render("<html><body><h1>hello</h1></body></html>", 4);
    let twice = render(&once, 4);
    assert_eq!(once, twice);
    let once = render("<!doctype html><!-- hi --><div class=\"c\"><br/>x</div>", 2);
    assert_eq!(render(&once, 2), once);
}

#[test]
fn sibling_tags_render_back() {
    let once = render("<body><h1>hello</h1><p>a b</p></body>", 4);
    assert_eq!(
        once,
        "<body>\n    <h1>\n        hello\n    </h1>\n    <p>\n        a\n        b\n    </p>\n</body>\n"
    );
    let mut tokenizer = Tokenizer::new(&once);
    let tokens = tokenizer.tokenize();
    let mut parser = Parser::new();
    let nodes = parser.parse(tokens).unwrap().unwrap();
    assert_eq!(nodes.len(), 1);
    assert_eq!(Formatter::new(Config::new(4)).format(nodes), once);
}

#[test]
fn leaves_and_attributes() {
    let s = render("<!DOCTYPE HTML><!--note--><br/><img a=\"1\" b='2' />", 4);
    assert_eq!(s, "<!doctype html>\n<!--note-->\n<br/>\n<img a=\"1\" b=\"2\"/>\n");
}

#[test]
fn open_tag_with_attributes() {
    let s = render("<a href=\"x\">go</a>", 3);
    assert_eq!(s, "<a href=\"x\">\n   go\n</a>\n");
}

#[test]
fn zero_width_and_empty_input() {
    assert_eq!(render("<a><b>t</b></a>", 0), "<a>\n<b>\nt\n</b>\n</a>\n");
    assert_eq!(render("", 4), "");
}

#[test]
fn sibling_tags_close_before_the_next_opens() {
    let s = render("<a></a><b></b>", 2);
    assert_eq!(s, "<a>\n</a>\n<b>\n</b>\n");
    assert_eq!(render(&s, 2), s);
}

#[test]
fn default_width_is_four() {
    assert_eq!(Config::default().ident, 4);
}
