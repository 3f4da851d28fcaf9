use write_html::attributes::Attribute;
use write_html::content::{write_nodes, Node, Tag};
use write_html::escapes::{HtmlEscaper, StringEscaper};
use write_html::{
    html, is_valid_attribute_name, silent_tag, tag, Compactability, Delimiter, Empty, Html, HtmlEnv,
    HtmlStr, HtmlTextStr, AsHtml, SinkEnv, Sum, TagOpening, TextSink, ToHtmlString, Token, WriteError,
};

/// Refuses the first write that would take it past `limit` characters, and
/// accepts every write after that one.
struct FailsOnce {
    out: String,
    limit: usize,
    refused: usize,
}

impl TextSink for FailsOnce {
    fn try_write(&mut self, s: &str) -> bool {
        if self.refused == 0 && self.out.chars().count() + s.chars().count() > self.limit {
            self.refused += 1;
            return false;
        }
        self.out.push_str(s);
        true
    }
}

/// Accepts writes while they fit in `limit` characters, and refuses every
/// write from the first one that does not.
struct StopsAt {
    out: String,
    limit: usize,
    stopped: bool,
}

impl TextSink for StopsAt {
    fn try_write(&mut self, s: &str) -> bool {
        if self.stopped || self.out.chars().count() + s.chars().count() > self.limit {
            self.stopped = true;
            return false;
        }
        self.out.push_str(s);
        true
    }
}

fn escape_attr(s: &str) -> String {
    let mut out = String::new();
    StringEscaper::new().write_str(&mut out, s).unwrap();
    out
}

fn escape_text(s: &str) -> String {
    let mut out = String::new();
    HtmlEscaper::new().write_str(&mut out, s).unwrap();
    out
}

#[test]
fn attribute_escapes() {
    assert_eq!(escape_attr("Hello, \"world\""), "Hello, \\\"world\\\"");
    assert_eq!(escape_attr("'\\\r\n\t"), "\\'\\\\\\r\\n\\t");
    assert_eq!(escape_attr("plain <&>"), "plain <&>");
}

#[test]
fn text_escapes() {
    assert_eq!(escape_text("<h1>H1</h1>"), "&lt;h1&gt;H1&lt;/h1&gt;");
    assert_eq!(escape_text("a & b\nc"), "a &amp; b<br>c");
    assert_eq!(escape_text("\"quoted\" 'x'"), "\"quoted\" 'x'");
}

#[test]
fn escaping_twice_differs() {
    let once = escape_attr("\"");
    assert_eq!(once, "\\\"");
    let twice = escape_attr(&once);
    assert_eq!(twice, "\\\\\\\"");
    assert_ne!(once, twice);
}

#[test]
fn escaper_stops_at_refused_write() {
    let mut sink = SinkEnv::new(StopsAt { out: String::new(), limit: 5, stopped: false });
    assert!(HtmlEscaper::new().write_str(&mut sink, "ab<cd").is_err());
    assert_eq!(sink.sink().out, "ab");
}

#[test]
fn non_compactable_empty_tags() {
    for name in ["div", "p", "footer", "my-tag"] {
        let t = tag(name, Empty, Empty, Compactability::No);
        assert_eq!(t.to_html_string().unwrap(), format!("<{}></{}>", name, name));
    }
}

#[test]
fn compactable_tags() {
    let t = tag("br", Empty, Empty, Compactability::Yes { final_slash: false });
    assert_eq!(t.to_html_string().unwrap(), "<br>");
    let t = tag("br", Empty, Empty, Compactability::Yes { final_slash: true });
    assert_eq!(t.to_html_string().unwrap(), "<br/>");
    let t = tag("img", Empty, "x".as_html_text(), Compactability::Yes { final_slash: true });
    assert_eq!(t.to_html_string().unwrap(), "<img>x</img>");
    let t = tag("img", Empty, Sum(Empty, Empty), Compactability::Yes { final_slash: false });
    assert_eq!(t.to_html_string().unwrap(), "<img></img>");
}

#[test]
fn tag_builders() {
    let t = tag("div", Empty, Empty, Compactability::No)
        .attr("class", "container")
        .attr("hidden", ())
        .child(tag("p", Empty, Empty, Compactability::No).child("Hello, world!".as_html()))
        .child(HtmlTextStr("1 < 2".to_string()));
    assert_eq!(
        t.to_html_string().unwrap(),
        "<div class=\"container\" hidden><p>Hello, world!</p>1 &lt; 2</div>"
    );
    let attrs = vec![
        Attribute { name: "id".to_string(), value: Some("main".to_string()) },
        Attribute { name: "title".to_string(), value: Some("a \"b\"".to_string()) },
    ];
    let t = tag("section", Empty, Empty, Compactability::No).attributes(attrs);
    assert_eq!(t.to_html_string().unwrap(), "<section id=\"main\" title=\"a \\\"b\\\"\"></section>");
}

#[test]
fn silent_tag_writes_content_only() {
    let t = silent_tag(Sum(HtmlStr("<x>".to_string()), "y".as_html_text()));
    assert_eq!(t.to_html_string().unwrap(), "<x>y");
    assert_eq!(silent_tag(Empty).to_html_string().unwrap(), "");
    assert!(Empty.is_unit());
    assert!(!Sum(Empty, Empty).is_unit());
}

#[test]
fn tag_opening_state_machine() {
    let mut s = String::new();
    let o = TagOpening::new("h1", &mut s, Compactability::No).unwrap();
    o.attr(&mut s, "id", Some("my-id")).unwrap();
    let inside = o.inner_html(&mut s).unwrap();
    inside.write_str(&mut s, "Hello, world!").unwrap();
    inside.close(&mut s).unwrap();
    assert_eq!(s, "<h1 id=\"my-id\">Hello, world!</h1>");

    let mut s = String::new();
    let attrs = vec![Attribute { name: "checked".to_string(), value: None }];
    let o = TagOpening::new("input", &mut s, Compactability::Yes { final_slash: true }).unwrap();
    let o = o.with_attributes(&mut s, &attrs).unwrap();
    o.close(&mut s).unwrap();
    assert_eq!(s, "<input checked/>");
    assert!(Compactability::Yes { final_slash: false }.is_compactable());
    assert!(!Compactability::No.is_compactable());
}

#[test]
fn attribute_names() {
    assert!(is_valid_attribute_name("data-x_1"));
    assert!(is_valid_attribute_name("a"));
    assert!(!is_valid_attribute_name(""));
    assert!(!is_valid_attribute_name("1a"));
    assert!(!is_valid_attribute_name("-a"));
    assert!(!is_valid_attribute_name(" a"));
    assert!(!is_valid_attribute_name("a b"));
    assert!(!is_valid_attribute_name("é"));
}

fn list_tokens() -> Vec<Token> {
    let lit = |s: &str| Token::Literal(format!("\"{}\"", s));
    vec![
        Token::Ident("ol".to_string()),
        Token::Group(
            Delimiter::Brace,
            vec![
                Token::Ident("li".to_string()),
                Token::Group(Delimiter::Brace, vec![lit("Item 1")]),
                Token::Ident("li".to_string()),
                Token::Group(Delimiter::Brace, vec![lit("Item 2")]),
                Token::Ident("li".to_string()),
                Token::Ident("style".to_string()),
                Token::Punct('='),
                lit("color: red"),
                Token::Group(Delimiter::Brace, vec![lit("Item 3")]),
            ],
        ),
        Token::Ident("h1".to_string()),
        Token::Punct('#'),
        Token::Ident("x".to_string()),
        Token::Group(Delimiter::Brace, vec![lit("H1")]),
    ]
}

/// Whether every tag opened in `s` is closed, innermost first.
fn balanced(s: &str) -> bool {
    let mut stack: Vec<String> = Vec::new();
    let chars: Vec<char> = s.chars().collect();
    let mut i = 0;
    while i < chars.len() {
        if chars[i] == '<' {
            let closing = i + 1 < chars.len() && chars[i + 1] == '/';
            let mut j = if closing { i + 2 } else { i + 1 };
            let mut name = String::new();
            while j < chars.len() && (chars[j].is_alphanumeric() || chars[j] == '-') {
                name.push(chars[j]);
                j += 1;
            }
            if closing {
                if stack.pop() != Some(name) {
                    return false;
                }
            } else if !name.is_empty() {
                stack.push(name);
            }
            i = j;
        } else {
            i += 1;
        }
    }
    stack.is_empty()
}

#[test]
fn closure_under_failure() {
    let t = html(&list_tokens(), &Vec::new()).unwrap();
    let full = t.to_html_string().unwrap();
    assert!(balanced(&full));
    let n = full.chars().count();
    for limit in 0..n {
        let mut sink = SinkEnv::new(FailsOnce { out: String::new(), limit, refused: 0 });
        let t = html(&list_tokens(), &Vec::new()).unwrap();
        assert!(t.write_html(&mut sink).is_err());
        assert_eq!(sink.sink().refused, 1);
        assert!(balanced(&sink.sink().out), "limit {}: {}", limit, sink.sink().out);
    }
}

#[test]
fn closure_under_failure_exact_text() {
    let lit = |s: &str| Token::Literal(format!("\"{}\"", s));
    let tokens = vec![
        Token::Ident("ol".to_string()),
        Token::Group(
            Delimiter::Brace,
            vec![
                Token::Ident("li".to_string()),
                Token::Group(Delimiter::Brace, vec![lit("Item 1")]),
                Token::Ident("li".to_string()),
                Token::Group(Delimiter::Brace, vec![lit("Item 2")]),
            ],
        ),
    ];
    // "<ol><li>Item 1</li><li>" is 23 characters: the "I" of "Item 2" is refused.
    let mut sink = SinkEnv::new(FailsOnce { out: String::new(), limit: 23, refused: 0 });
    let t = html(&tokens, &Vec::new()).unwrap();
    assert_eq!(t.write_html(&mut sink), Err(WriteError));
    assert_eq!(sink.sink().out, "<ol><li>Item 1</li><li></li></ol>");
    // Refused inside the attributes of an opening tag: it is ended as a
    // tag without content.
    let nodes = vec![Node::Element(Tag {
        name: "p".to_string(),
        attributes: vec![Attribute { name: "title".to_string(), value: Some("t".to_string()) }],
        content: Some(vec![Node::Text("x".to_string())]),
        compactability: Compactability::No,
        silent: false,
    })];
    let mut sink = SinkEnv::new(FailsOnce { out: String::new(), limit: 2, refused: 0 });
    assert!(write_nodes(&nodes, &mut sink).is_err());
    assert_eq!(sink.sink().out, "<p></p>");
}

#[test]
fn stopped_sink_keeps_a_prefix() {
    let t = html(&list_tokens(), &Vec::new()).unwrap();
    let full = t.to_html_string().unwrap();
    for limit in 0..full.chars().count() {
        let mut sink = SinkEnv::new(StopsAt { out: String::new(), limit, stopped: false });
        let t = html(&list_tokens(), &Vec::new()).unwrap();
        assert!(t.write_html(&mut sink).is_err());
        assert!(full.starts_with(&sink.sink().out));
    }
}

#[test]
fn string_sink_writes_raw_and_doctype() {
    let mut s = String::new();
    s.doctype().unwrap();
    HtmlStr("<b>".to_string()).write_html(&mut s).unwrap();
    assert_eq!(s, "<!DOCTYPE html><b>");
}

#[test]
fn with_attr_and_refused_attribute() {
    let mut s = String::new();
    let o = TagOpening::new("a", &mut s, Compactability::No).unwrap();
    let o = o.with_attr(&mut s, "href", Some("x\"y")).unwrap();
    o.close(&mut s).unwrap();
    assert_eq!(s, "<a href=\"x\\\"y\"></a>");

    let mut sink = SinkEnv::new(FailsOnce { out: String::new(), limit: 4, refused: 0 });
    let o = TagOpening::new("a", &mut sink, Compactability::Yes { final_slash: true }).unwrap();
    assert!(o.with_attr(&mut sink, "href", Some("x")).is_err());
    assert_eq!(sink.sink().out, "<a />");
}

#[test]
fn compactability_conversions() {
    assert_eq!(Compactability::from(true), Compactability::Yes { final_slash: true });
    assert_eq!(Compactability::from(false), Compactability::No);
    assert!(bool::from(Compactability::Yes { final_slash: false }));
    assert!(!bool::from(Compactability::No));
}

#[test]
fn escaping_in_pieces_matches_escaping_whole() {
    let mut pieces = String::new();
    HtmlEscaper::new().write_str(&mut pieces, "a<").unwrap();
    HtmlEscaper::new().write_str(&mut pieces, "b&\n").unwrap();
    assert_eq!(pieces, escape_text("a<b&\n"));
    assert_eq!(pieces, "a&lt;b&amp;<br>");
}
