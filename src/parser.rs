//! Recursive-descent parser of the template language.
//!
//! ```text
//! elements  := element*
//! element   := tag | literal | '(' tokens ')'
//! tag       := identifier attribute* (';' | '{' elements '}')
//! attribute := '.' identifier | '#' identifier
//!            | identifier ['=' (identifier | literal | '(' tokens ')')]
//! ```
//! An identifier is a run of words and single `-` that alternate; two words or
//! two dashes in a row end it. Any failure fails the whole parse.
use vstd::prelude::*;
use crate::token::{Delimiter, Token, TokenView, tokens_view, copy_tokens};

verus! {

/// The value given to an attribute.
#[derive(Debug)]
pub enum AttrValue {
    /// An identifier-shaped value, or the name given by `.name` / `#name`.
    Text(String),
    /// A literal token, as its source text.
    Literal(String),
    /// The tokens of a parenthesized group.
    Expression(Vec<Token>),
}

#[derive(Debug)]
pub struct ParsedAttribute {
    pub name: String,
    pub value: Option<AttrValue>,
}

/// A parsed tag: its identifier, its attributes in order and its children.
#[derive(Debug)]
pub struct TagElement {
    pub identifier: String,
    pub attributes: Vec<ParsedAttribute>,
    pub children: Vec<Element>,
}

/// One parsed element.
#[derive(Debug)]
pub enum Element {
    /// The tokens of a parenthesized group, left unevaluated.
    Expression(Vec<Token>),
    /// A literal token, as its source text.
    Literal(String),
    Tag(TagElement),
}

pub enum AttrValueView {
    Text(Seq<char>),
    Literal(Seq<char>),
    Expression(Seq<TokenView>),
}

pub type AttributeView = (Seq<char>, Option<AttrValueView>);

pub enum ElementView {
    Expression(Seq<TokenView>),
    Literal(Seq<char>),
    Tag(Seq<char>, Seq<AttributeView>, Seq<ElementView>),
}

pub open spec fn attr_value_view(v: AttrValue) -> AttrValueView {
    match v {
        AttrValue::Text(s) => AttrValueView::Text(s@),
        AttrValue::Literal(s) => AttrValueView::Literal(s@),
        AttrValue::Expression(t) => AttrValueView::Expression(tokens_view(t@)),
    }
}

pub open spec fn attribute_view(a: ParsedAttribute) -> AttributeView {
    (
        a.name@,
        match a.value {
            Some(v) => Some(attr_value_view(v)),
            None => None,
        },
    )
}

pub open spec fn attributes_view(s: Seq<ParsedAttribute>) -> Seq<AttributeView> {
    s.map_values(|a: ParsedAttribute| attribute_view(a))
}

pub open spec fn element_view(e: Element) -> ElementView
    decreases e,
{
    match e {
        Element::Expression(t) => ElementView::Expression(tokens_view(t@)),
        Element::Literal(s) => ElementView::Literal(s@),
        Element::Tag(t) => ElementView::Tag(
            t.identifier@,
            attributes_view(t.attributes@),
            elements_view(t.children@),
        ),
    }
}

pub open spec fn elements_view(s: Seq<Element>) -> Seq<ElementView>
    decreases s,
{
    if s.len() == 0 {
        Seq::empty()
    } else {
        elements_view(s.subrange(0, s.len() - 1)).push(element_view(s[s.len() - 1]))
    }
}

pub open spec fn is_punct(t: Token, c: char) -> bool {
    match t {
        Token::Punct(p) => p == c,
        _ => false,
    }
}

/// The greedy identifier scan from `i`: the text read and where it stopped.
/// `prev` is the class of the token read last: `Some(true)` for a word,
/// `Some(false)` for a dash.
pub open spec fn ident_scan(ts: Seq<Token>, i: int, prev: Option<bool>) -> (Seq<char>, int)
    decreases ts.len() - i,
{
    if i < 0 || i >= ts.len() {
        (Seq::empty(), i)
    } else {
        match ts[i] {
            Token::Ident(s) => if prev == Some(true) {
                (Seq::empty(), i)
            } else {
                let (t, j) = ident_scan(ts, i + 1, Some(true));
                (s@ + t, j)
            },
            Token::Punct(c) => if c == '-' && prev != Some(false) {
                let (t, j) = ident_scan(ts, i + 1, Some(false));
                (seq!['-'] + t, j)
            } else {
                (Seq::empty(), i)
            },
            _ => (Seq::empty(), i),
        }
    }
}

/// An identifier starting at `i`, and the index after it.
pub open spec fn spec_parse_identifier(ts: Seq<Token>, i: int) -> Option<(Seq<char>, int)> {
    let (t, j) = ident_scan(ts, i, None);
    if j == i || t.len() == 0 {
        None
    } else {
        Some((t, j))
    }
}

/// An attribute starting at `j`, and the index after it.
pub open spec fn spec_parse_attribute(ts: Seq<Token>, j: int) -> Option<(AttributeView, int)> {
    if j < 0 || j >= ts.len() {
        None
    } else if is_punct(ts[j], '.') || is_punct(ts[j], '#') {
        let name = if is_punct(ts[j], '.') {
            "class"@
        } else {
            "id"@
        };
        match spec_parse_identifier(ts, j + 1) {
            Some((v, k)) => Some(((name, Some(AttrValueView::Text(v))), k)),
            None => None,
        }
    } else {
        match spec_parse_identifier(ts, j) {
            None => None,
            Some((name, k)) => if k < ts.len() && is_punct(ts[k], '=') {
                match spec_parse_identifier(ts, k + 1) {
                    Some((v, l)) => Some(((name, Some(AttrValueView::Text(v))), l)),
                    None => if k + 1 >= ts.len() {
                        Some(((name, None), k + 1))
                    } else {
                        match ts[k + 1] {
                            Token::Literal(s) => Some(
                                ((name, Some(AttrValueView::Literal(s@))), k + 2),
                            ),
                            Token::Group(d, v) => if d == Delimiter::Parenthesis {
                                Some(
                                    (
                                        (name, Some(AttrValueView::Expression(tokens_view(v@)))),
                                        k + 2,
                                    ),
                                )
                            } else {
                                Some(((name, None), k))
                            },
                            _ => Some(((name, None), k + 1)),
                        }
                    },
                }
            } else {
                Some(((name, None), k))
            },
        }
    }
}

/// The elements from `i` to the end of `ts`.
pub open spec fn spec_parse_elements(ts: Seq<Token>, i: int) -> Option<Seq<ElementView>>
    decreases ts, 4int, ts.len() - i,
{
    if i < 0 || i >= ts.len() {
        Some(Seq::empty())
    } else {
        match spec_parse_element(ts, i) {
            None => None,
            Some((e, j)) => if j <= i || j > ts.len() {
                None
            } else {
                match spec_parse_elements(ts, j) {
                    None => None,
                    Some(rest) => Some(seq![e] + rest),
                }
            },
        }
    }
}

/// The element at `i`, and the index after it.
pub open spec fn spec_parse_element(ts: Seq<Token>, i: int) -> Option<(ElementView, int)>
    decreases ts, 3int, 0int,
{
    if i < 0 || i >= ts.len() {
        None
    } else {
        match ts[i] {
            Token::Ident(_) => match spec_parse_tag(ts, i) {
                Some((id, attrs, children, j)) => Some((ElementView::Tag(id, attrs, children), j)),
                None => None,
            },
            Token::Literal(s) => Some((ElementView::Literal(s@), i + 1)),
            Token::Punct(_) => None,
            Token::Group(d, v) => if d == Delimiter::Parenthesis {
                Some((ElementView::Expression(tokens_view(v@)), i + 1))
            } else {
                None
            },
        }
    }
}

/// The tag at `i`: identifier, attributes, children, and the index after it.
pub open spec fn spec_parse_tag(ts: Seq<Token>, i: int) -> Option<
    (Seq<char>, Seq<AttributeView>, Seq<ElementView>, int),
>
    decreases ts, 2int, 0int,
{
    match spec_parse_identifier(ts, i) {
        None => None,
        Some((id, j)) => spec_parse_tag_rest(ts, j, id, Seq::empty()),
    }
}

/// The attributes and the tail of a tag whose identifier and first
/// attributes `attrs` have been read, from `j` on.
pub open spec fn spec_parse_tag_rest(
    ts: Seq<Token>,
    j: int,
    id: Seq<char>,
    attrs: Seq<AttributeView>,
) -> Option<(Seq<char>, Seq<AttributeView>, Seq<ElementView>, int)>
    decreases ts, 1int, ts.len() - j,
{
    if j < 0 || j >= ts.len() {
        None
    } else {
        match spec_parse_tag_inner(ts, j) {
            Some((children, k)) => Some((id, attrs, children, k)),
            None => match spec_parse_attribute(ts, j) {
                None => None,
                Some((a, k)) => if k <= j || k > ts.len() {
                    None
                } else {
                    spec_parse_tag_rest(ts, k, id, attrs.push(a))
                },
            },
        }
    }
}

/// The tail of a tag at `j`: `;`, or a brace group of elements.
pub open spec fn spec_parse_tag_inner(ts: Seq<Token>, j: int) -> Option<(Seq<ElementView>, int)>
    decreases ts, 0int, 0int,
{
    if j < 0 || j >= ts.len() {
        None
    } else {
        match ts[j] {
            Token::Group(d, v) => if d == Delimiter::Brace {
                match spec_parse_elements(v@, 0) {
                    Some(c) => Some((c, j + 1)),
                    None => None,
                }
            } else {
                None
            },
            Token::Punct(c) => if c == ';' {
                Some((Seq::empty(), j + 1))
            } else {
                None
            },
            _ => None,
        }
    }
}


/// An identifier scan never moves backwards nor past the end.
pub proof fn lemma_ident_scan_bounds(ts: Seq<Token>, i: int, prev: Option<bool>)
    requires
        0 <= i <= ts.len(),
    ensures
        i <= ident_scan(ts, i, prev).1 <= ts.len(),
    decreases ts.len() - i,
{
    if i < ts.len() {
        match ts[i] {
            Token::Ident(_) => {
                lemma_ident_scan_bounds(ts, i + 1, Some(true));
            },
            Token::Punct(_) => {
                lemma_ident_scan_bounds(ts, i + 1, Some(false));
            },
            _ => {},
        }
    }
}

/// An attribute, once read, has consumed at least one token.
pub proof fn lemma_attribute_progress(ts: Seq<Token>, j: int)
    requires
        0 <= j <= ts.len(),
    ensures
        spec_parse_attribute(ts, j) matches Some((_, k)) ==> j < k <= ts.len(),
{
    if j < ts.len() {
        lemma_ident_scan_bounds(ts, j, None);
        lemma_ident_scan_bounds(ts, j + 1, None);
        let k = ident_scan(ts, j, None).1;
        if k + 1 <= ts.len() {
            lemma_ident_scan_bounds(ts, k + 1, None);
        }
    }
}

/// The rest of a tag, once read, ends after where it started.
pub proof fn lemma_tag_rest_progress(
    ts: Seq<Token>,
    j: int,
    id: Seq<char>,
    attrs: Seq<AttributeView>,
)
    requires
        0 <= j <= ts.len(),
    ensures
        spec_parse_tag_rest(ts, j, id, attrs) matches Some((_, _, _, k)) ==> j < k <= ts.len(),
    decreases ts.len() - j,
{
    if j < ts.len() && spec_parse_tag_inner(ts, j) is None {
        lemma_attribute_progress(ts, j);
        if let Some((a, k)) = spec_parse_attribute(ts, j) {
            lemma_tag_rest_progress(ts, k, id, attrs.push(a));
        }
    }
}

/// An element, once read, has consumed at least one token.
pub proof fn lemma_element_progress(ts: Seq<Token>, i: int)
    requires
        0 <= i <= ts.len(),
    ensures
        spec_parse_element(ts, i) matches Some((_, j)) ==> i < j <= ts.len(),
{
    if i < ts.len() {
        lemma_ident_scan_bounds(ts, i, None);
        if let Some((id, j)) = spec_parse_identifier(ts, i) {
            lemma_tag_rest_progress(ts, j, id, Seq::empty());
        }
    }
}

pub open spec fn ident_result(r: Option<(String, usize)>) -> Option<(Seq<char>, int)> {
    match r {
        Some((s, j)) => Some((s@, j as int)),
        None => None,
    }
}

pub open spec fn attr_result(r: Option<(ParsedAttribute, usize)>) -> Option<(AttributeView, int)> {
    match r {
        Some((a, j)) => Some((attribute_view(a), j as int)),
        None => None,
    }
}

pub open spec fn inner_result(r: Option<(Vec<Element>, usize)>) -> Option<(Seq<ElementView>, int)> {
    match r {
        Some((c, j)) => Some((elements_view(c@), j as int)),
        None => None,
    }
}

pub open spec fn tag_result(r: Option<(TagElement, usize)>) -> Option<
    (Seq<char>, Seq<AttributeView>, Seq<ElementView>, int),
> {
    match r {
        Some((t, j)) => Some(
            (t.identifier@, attributes_view(t.attributes@), elements_view(t.children@), j as int),
        ),
        None => None,
    }
}

pub open spec fn element_result(r: Option<(Element, usize)>) -> Option<(ElementView, int)> {
    match r {
        Some((e, j)) => Some((element_view(e), j as int)),
        None => None,
    }
}

pub open spec fn elements_result(r: Option<Vec<Element>>) -> Option<Seq<ElementView>> {
    match r {
        Some(v) => Some(elements_view(v@)),
        None => None,
    }
}

/// Reads an identifier at `start`: alternating words and single dashes.
pub fn parse_html_identifier(tokens: &Vec<Token>, start: usize) -> (r: Option<(String, usize)>)
    ensures
        ident_result(r) == spec_parse_identifier(tokens@, start as int),
{
    let ghost ts = tokens@;
    let mut identifier = String::new();
    let mut i: usize = start;
    let mut prev: Option<bool> = None;
    while i < tokens.len()
        invariant
            start <= i,
            ts == tokens@,
            ident_scan(ts, start as int, None) == (
                identifier@ + ident_scan(ts, i as int, prev).0,
                ident_scan(ts, i as int, prev).1,
            ),
        ensures
            ident_scan(ts, start as int, None) == (identifier@, i as int),
        decreases tokens@.len() - i,
    {
        match &tokens[i] {
            Token::Ident(s) => {
                if let Some(true) = prev {
                    assert(identifier@ + Seq::<char>::empty() =~= identifier@);
                    break;
                }
                let ghost before = identifier@;
                identifier.append(s.as_str());
                assert(before + ident_scan(ts, i as int, prev).0 =~= identifier@ + ident_scan(
                    ts,
                    i + 1,
                    Some(true),
                ).0);
                prev = Some(true);
            },
            Token::Punct(c) => {
                let dash_ok = match prev {
                    Some(false) => false,
                    _ => true,
                };
                if *c == '-' && dash_ok {
                    let ghost before = identifier@;
                    identifier.append("-");
                    proof {
                        reveal_strlit("-");
                        assert("-"@ =~= seq!['-']);
                    }
                    assert(before + ident_scan(ts, i as int, prev).0 =~= identifier@
                        + ident_scan(ts, i + 1, Some(false)).0);
                    prev = Some(false);
                } else {
                    assert(identifier@ + Seq::<char>::empty() =~= identifier@);
                    break;
                }
            },
            _ => {
                assert(identifier@ + Seq::<char>::empty() =~= identifier@);
                break;
            },
        }
        i = i + 1;
    }
    proof {
        if i >= tokens@.len() {
            assert(identifier@ + Seq::<char>::empty() =~= identifier@);
        }
    }
    if i == start || identifier.unicode_len() == 0 {
        None
    } else {
        Some((identifier, i))
    }
}

/// Reads an attribute at `j`: `.name` and `#name` stand for a `class` and an
/// `id` attribute; otherwise a name, optionally followed by `=` and a value.
pub fn parse_attribute(tokens: &Vec<Token>, j: usize) -> (r: Option<(ParsedAttribute, usize)>)
    ensures
        attr_result(r) == spec_parse_attribute(tokens@, j as int),
{
    let ghost ts = tokens@;
    if j >= tokens.len() {
        return None;
    }
    let shorthand: Option<&str> = match &tokens[j] {
        Token::Punct(c) => if *c == '.' {
            Some("class")
        } else if *c == '#' {
            Some("id")
        } else {
            None
        },
        _ => None,
    };
    if let Some(name) = shorthand {
        return match parse_html_identifier(tokens, j + 1) {
            Some((v, k)) => Some(
                (ParsedAttribute { name: String::from_str(name), value: Some(AttrValue::Text(v)) }, k),
            ),
            None => None,
        };
    }
    let (name, k) = match parse_html_identifier(tokens, j) {
        Some(x) => x,
        None => {
            return None;
        },
    };
    proof {
        lemma_ident_scan_bounds(ts, j as int, None);
    }
    if k >= tokens.len() || !is_punct_token(&tokens[k], '=') {
        return Some((ParsedAttribute { name, value: None }, k));
    }
    if let Some((v, l)) = parse_html_identifier(tokens, k + 1) {
        return Some((ParsedAttribute { name, value: Some(AttrValue::Text(v)) }, l));
    }
    if k + 1 >= tokens.len() {
        return Some((ParsedAttribute { name, value: None }, k + 1));
    }
    match &tokens[k + 1] {
        Token::Literal(s) => Some(
            (ParsedAttribute { name, value: Some(AttrValue::Literal(s.clone())) }, k + 2),
        ),
        Token::Group(d, v) => match d {
            Delimiter::Parenthesis => Some(
                (ParsedAttribute { name, value: Some(AttrValue::Expression(copy_tokens(v))) }, k + 2),
            ),
            _ => Some((ParsedAttribute { name, value: None }, k)),
        },
        _ => Some((ParsedAttribute { name, value: None }, k + 1)),
    }
}

fn is_punct_token(t: &Token, c: char) -> (r: bool)
    ensures
        r == is_punct(*t, c),
{
    match t {
        Token::Punct(p) => *p == c,
        _ => false,
    }
}

/// Reads the tail of a tag at `j`: `;` for no children, or a brace group
/// whose tokens are parsed as elements.
pub fn parse_tag_inner(tokens: &Vec<Token>, j: usize) -> (r: Option<(Vec<Element>, usize)>)
    ensures
        inner_result(r) == spec_parse_tag_inner(tokens@, j as int),
    decreases tokens@, 0int,
{
    if j >= tokens.len() {
        return None;
    }
    match &tokens[j] {
        Token::Group(d, v) => match d {
            Delimiter::Brace => match parse_multiple_elements(v) {
                Some(children) => Some((children, j + 1)),
                None => None,
            },
            _ => None,
        },
        Token::Punct(c) => if *c == ';' {
            let children: Vec<Element> = Vec::new();
            assert(elements_view(children@) =~= Seq::<ElementView>::empty());
            Some((children, j + 1))
        } else {
            None
        },
        _ => None,
    }
}

/// Reads a tag at `i`: its identifier, then attributes until a tail.
pub fn parse_tag_element(tokens: &Vec<Token>, i: usize) -> (r: Option<(TagElement, usize)>)
    ensures
        tag_result(r) == spec_parse_tag(tokens@, i as int),
    decreases tokens@, 2int,
{
    let ghost ts = tokens@;
    let (identifier, next) = match parse_html_identifier(tokens, i) {
        Some(x) => x,
        None => {
            return None;
        },
    };
    let mut attributes: Vec<ParsedAttribute> = Vec::new();
    let mut idx: usize = next;
    assert(attributes_view(attributes@) =~= Seq::<AttributeView>::empty());
    proof {
        lemma_ident_scan_bounds(ts, i as int, None);
    }
    while idx < tokens.len()
        invariant
            ts == tokens@,
            idx <= ts.len(),
            spec_parse_tag(ts, i as int) == spec_parse_tag_rest(
                ts,
                idx as int,
                identifier@,
                attributes_view(attributes@),
            ),
        decreases ts.len() - idx,
    {
        if let Some((children, k)) = parse_tag_inner(tokens, idx) {
            return Some((TagElement { identifier, attributes, children }, k));
        }
        match parse_attribute(tokens, idx) {
            Some((a, k)) => {
                proof {
                    lemma_attribute_progress(ts, idx as int);
                }
                let ghost before = attributes@;
                attributes.push(a);
                assert(attributes_view(attributes@) =~= attributes_view(before).push(
                    attribute_view(a),
                ));
                idx = k;
            },
            None => {
                return None;
            },
        }
    }
    None
}

/// Reads the element at `i`: a tag, a literal, or a parenthesized group.
pub fn parse_element(tokens: &Vec<Token>, i: usize) -> (r: Option<(Element, usize)>)
    ensures
        element_result(r) == spec_parse_element(tokens@, i as int),
    decreases tokens@, 3int,
{
    if i >= tokens.len() {
        return None;
    }
    match &tokens[i] {
        Token::Ident(_) => match parse_tag_element(tokens, i) {
            Some((t, j)) => Some((Element::Tag(t), j)),
            None => None,
        },
        Token::Literal(s) => Some((Element::Literal(s.clone()), i + 1)),
        Token::Punct(_) => None,
        Token::Group(d, v) => match d {
            Delimiter::Parenthesis => Some((Element::Expression(copy_tokens(v)), i + 1)),
            _ => None,
        },
    }
}

/// Reads elements until the tokens are exhausted; `None` if any of them is
/// not well formed.
pub fn parse_multiple_elements(tokens: &Vec<Token>) -> (r: Option<Vec<Element>>)
    ensures
        elements_result(r) == spec_parse_elements(tokens@, 0),
    decreases tokens@, 4int,
{
    let ghost ts = tokens@;
    let mut elements: Vec<Element> = Vec::new();
    let mut idx: usize = 0;
    assert(elements_view(elements@) =~= Seq::<ElementView>::empty());
    while idx < tokens.len()
        invariant
            ts == tokens@,
            idx <= ts.len(),
            spec_parse_elements(ts, 0) == match spec_parse_elements(ts, idx as int) {
                Some(rest) => Some(elements_view(elements@) + rest),
                None => None,
            },
        decreases ts.len() - idx,
    {
        match parse_element(tokens, idx) {
            Some((e, j)) => {
                proof {
                    lemma_element_progress(ts, idx as int);
                }
                let ghost before = elements@;
                elements.push(e);
                assert(elements@.subrange(0, elements@.len() - 1) =~= before);
                proof {
                    if let Some(rest) = spec_parse_elements(ts, j as int) {
                        assert(elements_view(before) + (seq![element_view(e)] + rest)
                            =~= elements_view(elements@) + rest);
                    }
                }
                idx = j;
            },
            None => {
                return None;
            },
        }
    }
    assert(elements_view(elements@) + Seq::<ElementView>::empty() =~= elements_view(elements@));
    Some(elements)
}

} // verus!
