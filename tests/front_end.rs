use kml::conversion::html::to_html;
use kml::conversion::markdown::to_markdown;
use kml::lexer::{lex, tokenize_line, Token};
use kml::nodes::{ContentNode, Node};
use kml::parser::{concatenate_consecutive_text_tokens, parse, ParseError};
use kml::KMLDocument;

const HELLO: &str = "title:
    Hello World

date:
    2023-01-01
description:
    A small page
content:
    p:
        Some text
        on two lines
    link:https://example.com
        Example
    image:https://example.com/a.png
        A picture
";

fn text(s: &str) -> Token {
    Token::Text(s.to_string())
}

fn hello_tree() -> Node {
    Node::Document(vec![
        Node::Title("Hello World".to_string()),
        Node::Date("2023-01-01".to_string()),
        Node::Description("A small page".to_string()),
        Node::Content(vec![
            ContentNode::Paragraph(vec![ContentNode::Text("Some text on two lines".to_string())]),
            ContentNode::Link(
                "https://example.com".to_string(),
                vec![ContentNode::Text("Example".to_string())],
            ),
            ContentNode::Image("https://example.com/a.png".to_string(), "A picture".to_string()),
        ]),
    ])
}

fn depth_never_negative(tokens: &[Token]) -> bool {
    let mut depth: i64 = 0;
    for t in tokens {
        match t {
            Token::Indent => depth += 1,
            Token::Dedent => depth -= 1,
            _ => {}
        }
        if depth < 0 {
            return false;
        }
    }
    true
}

#[test]
fn test_tokenize() {
    let tokens = lex(HELLO);
    let expected = vec![
        Token::Title,
        Token::Indent,
        text("Hello World"),
        Token::Dedent,
        Token::Date,
        Token::Indent,
        text("2023-01-01"),
        Token::Dedent,
        Token::Description,
        Token::Indent,
        text("A small page"),
        Token::Dedent,
        Token::Content,
        Token::Indent,
        Token::Paragraph,
        Token::Indent,
        text("Some text"),
        text("on two lines"),
        Token::Dedent,
        Token::Link("https://example.com".to_string()),
        Token::Indent,
        text("Example"),
        Token::Dedent,
        Token::Image("https://example.com/a.png".to_string()),
        Token::Indent,
        text("A picture"),
    ];
    assert_eq!(tokens, expected);
}

#[test]
fn test() {
    let nodes = parse(lex(HELLO)).unwrap();
    assert_eq!(nodes, hello_tree());
}

#[test]
fn test_html_conversion() {
    let document = parse(lex(HELLO)).unwrap();
    let html = to_html(&document);
    assert_eq!(
        html,
        "<div id='document'><h1 id='title'>Hello World</h1><h2 id='date'>2023-01-01</h2>\
         <p id='description'>A small page</p><div id='content'>\
         <p id='paragraph'>Some text on two lines</p>\
         <a href='https://example.com'>Example</a>\
         <figure><img src='https://example.com/a.png'><figcaption>A picture</figcaption></figure>\
         </div></div>"
    );
}

#[test]
fn test_markdown_conversion() {
    let document = parse(lex(HELLO)).unwrap();
    let md = to_markdown(&document);
    assert_eq!(
        md,
        "# Hello World #\n## 2023-01-01 ##\n### A small page ###\n\
         Some text on two lines\n\n[Example](https://example.com)\
         | ![](https://example.com/a.png) |\n|:--:|\n| *A picture* |\n\n"
    );
}

#[test]
fn document_renders_html() {
    let doc = KMLDocument::new(HELLO).unwrap();
    assert_eq!(doc.to_html(), to_html(&hello_tree()));
}

#[test]
fn document_reports_errors() {
    assert_eq!(KMLDocument::new("content:\np:").err(), Some(ParseError::MissingIndent));
}

#[test]
fn blank_input_yields_nothing() {
    let tokens = lex("\n   \n\t\n  \r\n");
    assert!(tokens.is_empty());
    assert_eq!(parse(tokens), Ok(Node::Document(vec![])));
    assert_eq!(parse(lex("")), Ok(Node::Document(vec![])));
}

#[test]
fn indent_depth_never_negative() {
    let input = "a\n    b\n        c\n  d\n            e\nf\n    g\n";
    let tokens = lex(input);
    assert!(depth_never_negative(&tokens));
    assert_eq!(
        tokens,
        vec![
            text("a"),
            Token::Indent,
            text("b"),
            Token::Indent,
            text("c"),
            Token::Dedent,
            Token::Dedent,
            text("d"),
            Token::Indent,
            text("e"),
            Token::Dedent,
            text("f"),
            Token::Indent,
            text("g"),
        ]
    );
    assert!(depth_never_negative(&lex(HELLO)));
}

#[test]
fn title_round_trip() {
    let tokens = lex("title:\n    Hello");
    assert_eq!(tokens, vec![Token::Title, Token::Indent, text("Hello")]);
    assert_eq!(
        parse(tokens),
        Ok(Node::Document(vec![Node::Title("Hello".to_string())]))
    );
}

#[test]
fn paragraph_lines_coalesce() {
    let tree = parse(lex("content:\n    p:\n        first line\n        second line\n")).unwrap();
    assert_eq!(
        tree,
        Node::Document(vec![Node::Content(vec![ContentNode::Paragraph(vec![
            ContentNode::Text("first line second line".to_string())
        ])])])
    );
}

#[test]
fn image_caption() {
    let tree = parse(lex("content:\n    image:http://x\n        caption text")).unwrap();
    assert_eq!(
        tree,
        Node::Document(vec![Node::Content(vec![ContentNode::Image(
            "http://x".to_string(),
            "caption text".to_string()
        )])])
    );
}

#[test]
fn image_body_must_be_text() {
    let r = parse(lex("content:\n    image:http://x\n        p:\n            a"));
    assert_eq!(r, Err(ParseError::MalformedImageBody));
    let r = parse(vec![
        Token::Content,
        Token::Indent,
        Token::Image("u".to_string()),
        Token::Indent,
        text("a"),
        Token::Indent,
        text("b"),
    ]);
    assert_eq!(r, Err(ParseError::MalformedImageBody));
}

#[test]
fn content_without_indent() {
    assert_eq!(parse(lex("content:\ntitle:\n    x")), Err(ParseError::MissingIndent));
    assert_eq!(parse(lex("content:")), Err(ParseError::MissingIndent));
    assert_eq!(parse(lex("title:\ndate:")), Err(ParseError::MissingIndent));
}

#[test]
fn unexpected_tokens() {
    assert_eq!(parse(lex("content:\n    title:")), Err(ParseError::UnexpectedToken));
    assert_eq!(parse(lex("title:\n    p:")), Err(ParseError::UnexpectedToken));
}

#[test]
fn unterminated_header() {
    assert_eq!(
        parse(vec![Token::Title, Token::Indent]),
        Err(ParseError::UnterminatedBlock)
    );
}

#[test]
fn stray_tokens_at_root_are_skipped() {
    let tree = parse(lex("hello\n    world\ntitle:\n    T")).unwrap();
    assert_eq!(tree, Node::Document(vec![Node::Title("T".to_string())]));
}

#[test]
fn nested_blocks_close_at_their_dedent() {
    let input = "content:\n    p:\n        a\n        link:u\n            b\n        c\n    d\ntitle:\n    T";
    let tree = parse(lex(input)).unwrap();
    assert_eq!(
        tree,
        Node::Document(vec![
            Node::Content(vec![
                ContentNode::Paragraph(vec![
                    ContentNode::Text("a".to_string()),
                    ContentNode::Link("u".to_string(), vec![ContentNode::Text("b".to_string())]),
                    ContentNode::Text("c".to_string()),
                ]),
                ContentNode::Text("d".to_string()),
            ]),
            Node::Title("T".to_string()),
        ])
    );
}

#[test]
fn coalesce_twice() {
    let tokens = vec![text("a"), text("b"), Token::Indent, text("c"), Token::Dedent, text("d"), text("e")];
    let once = concatenate_consecutive_text_tokens(tokens);
    assert_eq!(
        once,
        vec![text("a b"), Token::Indent, text("c"), Token::Dedent, text("d e")]
    );
    let again = concatenate_consecutive_text_tokens(vec![
        text("a b"),
        Token::Indent,
        text("c"),
        Token::Dedent,
        text("d e"),
    ]);
    assert_eq!(again, once);
}

#[test]
fn tokenize_line_cases() {
    assert_eq!(tokenize_line("title:"), Token::Title);
    assert_eq!(tokenize_line("date:"), Token::Date);
    assert_eq!(tokenize_line("description:"), Token::Description);
    assert_eq!(tokenize_line("content:"), Token::Content);
    assert_eq!(tokenize_line("p:"), Token::Paragraph);
    assert_eq!(tokenize_line("link:  http://a.b  "), Token::Link("http://a.b".to_string()));
    assert_eq!(tokenize_line("image:pic.png"), Token::Image("pic.png".to_string()));
    assert_eq!(tokenize_line("  plain words \t"), text("plain words"));
    assert_eq!(tokenize_line("title: "), text("title:"));
}

#[test]
fn crlf_line_endings() {
    let tokens = lex("title:\r\n    Hi\r\n");
    assert_eq!(tokens, vec![Token::Title, Token::Indent, text("Hi")]);
}

#[test]
fn tabs_count_as_one_column() {
    let tokens = lex("a\n\tb\n    c\n");
    assert_eq!(
        tokens,
        vec![text("a"), Token::Indent, text("b"), Token::Indent, text("c")]
    );
}

#[test]
fn markdown_of_links_and_titles() {
    let tree = parse(lex("title:\n    T\ncontent:\n    link:u\n        go")).unwrap();
    assert_eq!(to_markdown(&tree), "# T #\n[go](u)\n");
    assert_eq!(
        to_html(&tree),
        "<div id='document'><h1 id='title'>T</h1><div id='content'><a href='u'>go</a></div></div>"
    );
}

#[test]
fn document_exposes_tree() {
    let doc = KMLDocument::new(HELLO).unwrap();
    assert_eq!(doc.document(), &hello_tree());
}
