use write_html::content::write_tag;
use write_html::generate::{compactability_of, is_ident};
use write_html::literal::string_literal_value;
use write_html::parser::{parse_multiple_elements, Element};
use write_html::{html, Compactability, DefaultMeta, Delimiter, Doctype, TemplateError, ToHtmlString, Token};

fn ident(s: &str) -> Token {
    Token::Ident(s.to_string())
}

fn lit(s: &str) -> Token {
    Token::Literal(format!("\"{}\"", s))
}

fn punct(c: char) -> Token {
    Token::Punct(c)
}

fn brace(v: Vec<Token>) -> Token {
    Token::Group(Delimiter::Brace, v)
}

fn paren(v: Vec<Token>) -> Token {
    Token::Group(Delimiter::Parenthesis, v)
}

fn render(tokens: Vec<Token>) -> Result<String, TemplateError> {
    let t = html(&tokens, &Vec::new())?;
    Ok(t.to_html_string().unwrap())
}

#[test]
fn heading_with_id_shorthand() {
    // h1 #some-id { "H1" }
    let tokens = vec![ident("h1"), punct('#'), ident("some"), punct('-'), ident("id"), brace(vec![lit("H1")])];
    assert_eq!(render(tokens).unwrap(), "<h1 id=\"some-id\">H1</h1>");
}

#[test]
fn void_image_is_compacted() {
    // img src="img.jpg" alt="Awesome image" {}
    let tokens = vec![
        ident("img"),
        ident("src"),
        punct('='),
        lit("img.jpg"),
        ident("alt"),
        punct('='),
        lit("Awesome image"),
        brace(vec![]),
    ];
    assert_eq!(render(tokens).unwrap(), "<img src=\"img.jpg\" alt=\"Awesome image\">");
}

#[test]
fn ordered_list() {
    // ol { li { "Item 1" } li { "Item 2" } li style="color: red" { "Item 3" } }
    let tokens = vec![
        ident("ol"),
        brace(vec![
            ident("li"),
            brace(vec![lit("Item 1")]),
            ident("li"),
            brace(vec![lit("Item 2")]),
            ident("li"),
            ident("style"),
            punct('='),
            lit("color: red"),
            brace(vec![lit("Item 3")]),
        ]),
    ];
    assert_eq!(
        render(tokens).unwrap(),
        "<ol><li>Item 1</li><li>Item 2</li><li style=\"color: red\">Item 3</li></ol>"
    );
}

#[test]
fn self_terminated_footer() {
    let tokens = vec![ident("footer"), punct(';')];
    assert_eq!(render(tokens).unwrap(), "<footer></footer>");
}

#[test]
fn default_meta_on_empty_sink() {
    assert_eq!(
        DefaultMeta.to_html_string().unwrap(),
        "<meta http-equiv=\"X-UA-Compatible\" content=\"ie=edge\"><meta charset=\"UTF-8\"><meta name=\"viewport\" content=\"width=device-width, initial-scale=1.0\">"
    );
}

#[test]
fn doctype_text() {
    assert_eq!(Doctype.to_html_string().unwrap(), "<!DOCTYPE html>");
}

#[test]
fn class_shorthand_and_bare_attribute() {
    // div .big hidden { "x" }
    let tokens = vec![ident("div"), punct('.'), ident("big"), ident("hidden"), brace(vec![lit("x")])];
    assert_eq!(render(tokens).unwrap(), "<div class=\"big\" hidden>x</div>");
}

#[test]
fn identifier_shaped_value_and_dashed_name() {
    // my-tag data-x=some-value;
    let tokens = vec![
        ident("my"),
        punct('-'),
        ident("tag"),
        ident("data"),
        punct('-'),
        ident("x"),
        punct('='),
        ident("some"),
        punct('-'),
        ident("value"),
        punct(';'),
    ];
    assert_eq!(render(tokens).unwrap(), "<my-tag data-x=\"some-value\"></my-tag>");
}

#[test]
fn text_literal_is_escaped() {
    let tokens = vec![ident("p"), brace(vec![lit("a < b & c\\nd")])];
    assert_eq!(render(tokens).unwrap(), "<p>a &lt; b &amp; c<br>d</p>");
}

#[test]
fn expression_takes_splices_in_order() {
    // p lang=(x) { (y) "t" }
    let tokens = vec![
        ident("p"),
        ident("lang"),
        punct('='),
        paren(vec![ident("x")]),
        brace(vec![paren(vec![ident("y")]), lit("t")]),
    ];
    let splices = vec!["en".to_string(), "<b>raw</b>".to_string()];
    let t = html(&tokens, &splices).unwrap();
    assert_eq!(t.to_html_string().unwrap(), "<p lang=\"en\"><b>raw</b>t</p>");
}

#[test]
fn missing_splice_is_reported() {
    let tokens = vec![paren(vec![ident("x")])];
    assert_eq!(html(&tokens, &Vec::new()).err(), Some(TemplateError::MissingSplice));
}

#[test]
fn tag_without_tail_is_invalid() {
    let tokens = vec![ident("div"), ident("id")];
    assert_eq!(html(&tokens, &Vec::new()).err(), Some(TemplateError::InvalidSyntax));
}

#[test]
fn brace_at_element_position_is_invalid() {
    let tokens = vec![brace(vec![])];
    assert_eq!(html(&tokens, &Vec::new()).err(), Some(TemplateError::InvalidSyntax));
}

#[test]
fn punctuation_at_element_position_is_invalid() {
    let tokens = vec![punct(';')];
    assert!(parse_multiple_elements(&tokens).is_none());
}

#[test]
fn numeric_literal_value_is_unsupported() {
    let tokens = vec![ident("td"), ident("colspan"), punct('='), Token::Literal("2".to_string()), punct(';')];
    assert_eq!(html(&tokens, &Vec::new()).err(), Some(TemplateError::UnsupportedLiteral));
}

#[test]
fn invalid_attribute_name_is_reported() {
    // div _x;
    let tokens = vec![ident("div"), ident("_x"), punct(';')];
    assert_eq!(html(&tokens, &Vec::new()).err(), Some(TemplateError::InvalidAttributeName));
}

#[test]
fn two_words_end_an_identifier() {
    let tokens = vec![ident("a"), ident("b"), ident("c"), punct(';')];
    let es = parse_multiple_elements(&tokens).unwrap();
    assert_eq!(es.len(), 1);
    match &es[0] {
        Element::Tag(t) => {
            assert_eq!(t.identifier, "a");
            assert_eq!(t.attributes.len(), 2);
            assert_eq!(t.attributes[0].name, "b");
            assert_eq!(t.attributes[1].name, "c");
        }
        _ => panic!("expected a tag"),
    }
}

#[test]
fn two_dashes_end_an_identifier() {
    // a - - b ;  reads as tag "a-" with an attribute "-b"
    let tokens = vec![ident("a"), punct('-'), punct('-'), ident("b"), punct(';')];
    let es = parse_multiple_elements(&tokens).unwrap();
    match &es[0] {
        Element::Tag(t) => {
            assert_eq!(t.identifier, "a-");
            assert_eq!(t.attributes[0].name, "-b");
        }
        _ => panic!("expected a tag"),
    }
    assert_eq!(html(&tokens, &Vec::new()).err(), Some(TemplateError::InvalidAttributeName));
}

#[test]
fn plain_identifiers() {
    assert!(is_ident("h1"));
    assert!(is_ident("_x"));
    assert!(!is_ident("1h"));
    assert!(!is_ident("my-tag"));
    assert!(!is_ident(""));
    assert!(is_ident("ünïcode"));
}

#[test]
fn compaction_table() {
    assert_eq!(compactability_of("br"), Compactability::Yes { final_slash: false });
    assert_eq!(compactability_of("img"), Compactability::Yes { final_slash: false });
    assert_eq!(compactability_of("div"), Compactability::No);
    assert_eq!(compactability_of("my-br"), Compactability::No);
}

#[test]
fn nested_fragment_document() {
    // (Doctype) html lang="en" { body { br; } }
    let tokens = vec![
        paren(vec![ident("Doctype")]),
        ident("html"),
        ident("lang"),
        punct('='),
        lit("en"),
        brace(vec![ident("body"), brace(vec![ident("br"), punct(';')])]),
    ];
    let doctype = Doctype.to_html_string().unwrap();
    let t = html(&tokens, &vec![doctype]).unwrap();
    let mut s = String::new();
    write_tag(&t, &mut s).unwrap();
    assert_eq!(s, "<!DOCTYPE html><html lang=\"en\"><body><br></body></html>");
}

#[test]
fn string_literal_values() {
    assert_eq!(string_literal_value("\"H1\""), Some("H1".to_string()));
    assert_eq!(string_literal_value("\"a\\\"b\\\\c\\td\""), Some("a\"b\\c\td".to_string()));
    assert_eq!(string_literal_value("\"\""), Some(String::new()));
    assert_eq!(string_literal_value("42"), None);
    assert_eq!(string_literal_value("\"a\\x41\""), Some("aA".to_string()));
    assert_eq!(string_literal_value("\"a\"b\""), None);
    assert_eq!(string_literal_value("\""), None);
}

#[test]
fn every_string_literal_form() {
    assert_eq!(string_literal_value("r\"a\\b\""), Some("a\\b".to_string()));
    assert_eq!(string_literal_value("r#\"say \"hi\"\"#"), Some("say \"hi\"".to_string()));
    assert_eq!(string_literal_value("r##\"a\"#b\"##"), Some("a\"#b".to_string()));
    assert_eq!(string_literal_value("\"\\x41\\x7e\""), Some("A~".to_string()));
    assert_eq!(string_literal_value("\"\\x80\""), None);
    assert_eq!(string_literal_value("\"\\u{e9}\\u{1F600}\\u{1_0}\""), Some("\u{e9}\u{1F600}\u{10}".to_string()));
    assert_eq!(string_literal_value("\"\\u{D800}\""), None);
    assert_eq!(string_literal_value("\"\\u{110000}\""), None);
    assert_eq!(string_literal_value("\"\\u{}\""), None);
    assert_eq!(string_literal_value("\"\\u{1234567}\""), None);
    assert_eq!(string_literal_value("\"\\u{_1}\""), None);
    assert_eq!(string_literal_value("\"a\\\n    b\""), Some("ab".to_string()));
    assert_eq!(string_literal_value("r#\"x\""), None);
    assert_eq!(string_literal_value("b\"x\""), None);
    assert_eq!(string_literal_value("'x'"), None);
}

#[test]
fn raw_and_unicode_literals_render() {
    // p { r"a\b" "\u{e9}" }
    let tokens = vec![
        ident("p"),
        brace(vec![Token::Literal("r\"a\\b\"".to_string()), Token::Literal("\"\\u{e9}\"".to_string())]),
    ];
    assert_eq!(render(tokens).unwrap(), "<p>a\\b\u{e9}</p>");
}
