//! Turns parsed elements into content: the template language's interpreter.
use vstd::prelude::*;
use crate::attributes::{Attribute, valid_attribute_name};
use crate::content::{Node, Tag, html_node, html_nodes, html_tag, wf_node, wf_nodes, wf_tag};
use crate::literal::{literal_value, string_literal_value};
use crate::parser::{
    AttrValue,
    AttrValueView,
    AttributeView,
    Element,
    ElementView,
    ParsedAttribute,
    attribute_view,
    attributes_view,
    element_view,
    elements_view,
    parse_multiple_elements,
    spec_parse_elements,
};
use crate::tag::{
    Compactability,
    attr_text,
    attrs_text,
    attribute_value_view,
    compact_close,
    end_tag,
    open_text,
    valid_attributes,
};
use crate::token::Token;

verus! {

/// Why a template could not be turned into content.
#[derive(Debug, Clone, Copy, PartialEq, Eq)]
pub enum TemplateError {
    /// The tokens do not follow the grammar.
    InvalidSyntax,
    /// A literal where text is expected is not a string literal.
    UnsupportedLiteral,
    /// An attribute name does not start with an ASCII letter and go on with
    /// ASCII letters, digits, `-` and `_`.
    InvalidAttributeName,
    /// There are more parenthesized expressions than values given for them.
    MissingSplice,
}

/// Whether `c` is alphanumeric in the sense of Unicode.
pub uninterp spec fn char_is_alphanumeric(c: char) -> bool;

/// Whether `c` is numeric in the sense of Unicode.
pub uninterp spec fn char_is_numeric(c: char) -> bool;

/// Relies on `char::is_alphanumeric`, whose answer depends on `c` alone.
#[verifier::external_body]
fn is_alphanumeric(c: char) -> (r: bool)
    ensures
        r == char_is_alphanumeric(c),
{
    c.is_alphanumeric()
}

/// Relies on `char::is_numeric`, whose answer depends on `c` alone.
#[verifier::external_body]
fn is_numeric(c: char) -> (r: bool)
    ensures
        r == char_is_numeric(c),
{
    c.is_numeric()
}

/// A plain identifier: not empty, not starting with a numeric character, and
/// made of alphanumeric characters and `_` only.
pub open spec fn spec_is_ident(s: Seq<char>) -> bool {
    &&& s.len() > 0
    &&& !char_is_numeric(s[0])
    &&& forall|i: int| 0 <= i < s.len() ==> char_is_alphanumeric(#[trigger] s[i]) || s[i] == '_'
}

/// Whether `id` is a plain identifier, the kind of name that the tag
/// catalogue uses, as opposed to a custom name such as `my-tag`.
pub fn is_ident(id: &str) -> (r: bool)
    ensures
        r == spec_is_ident(id@),
{
    let len = id.unicode_len();
    if len == 0 {
        return false;
    }
    if is_numeric(id.get_char(0)) {
        return false;
    }
    let mut i: usize = 0;
    while i < len
        invariant
            len == id@.len(),
            i <= len,
            forall|j: int| 0 <= j < i ==> char_is_alphanumeric(#[trigger] id@[j]) || id@[j] == '_',
        decreases len - i,
    {
        let c = id.get_char(i);
        if !is_alphanumeric(c) && c != '_' {
            return false;
        }
        i = i + 1;
    }
    true
}

/// The element kinds that have no content in HTML5 and so may be compacted.
pub open spec fn is_void_element(name: Seq<char>) -> bool {
    name == "area"@ || name == "base"@ || name == "br"@ || name == "col"@ || name == "embed"@
        || name == "hr"@ || name == "img"@ || name == "input"@ || name == "link"@ || name
        == "meta"@ || name == "param"@ || name == "source"@ || name == "track"@ || name == "wbr"@
}

/// The compactability of a tag kind: void elements are compacted without a
/// final slash; every other kind is never compacted.
pub open spec fn compactability_for(name: Seq<char>) -> Compactability {
    if is_void_element(name) {
        Compactability::Yes { final_slash: false }
    } else {
        Compactability::No
    }
}

fn str_eq(a: &str, b: &str) -> (r: bool)
    ensures
        r == (a@ == b@),
{
    let n = a.unicode_len();
    if n != b.unicode_len() {
        return false;
    }
    let mut i: usize = 0;
    while i < n
        invariant
            n == a@.len(),
            n == b@.len(),
            i <= n,
            forall|j: int| 0 <= j < i ==> a@[j] == b@[j],
        decreases n - i,
    {
        if a.get_char(i) != b.get_char(i) {
            return false;
        }
        i = i + 1;
    }
    assert(a@ =~= b@);
    true
}

/// Whether `name` is one of the void element kinds.
pub fn is_void(name: &str) -> (r: bool)
    ensures
        r == is_void_element(name@),
{
    str_eq(name, "area") || str_eq(name, "base") || str_eq(name, "br") || str_eq(name, "col")
        || str_eq(name, "embed") || str_eq(name, "hr") || str_eq(name, "img") || str_eq(
        name,
        "input",
    ) || str_eq(name, "link") || str_eq(name, "meta") || str_eq(name, "param") || str_eq(
        name,
        "source",
    ) || str_eq(name, "track") || str_eq(name, "wbr")
}

/// The compactability that the tag kind `name` is declared with.
pub fn compactability_of(name: &str) -> (r: Compactability)
    ensures
        r == compactability_for(name@),
{
    if is_void(name) {
        Compactability::Yes { final_slash: false }
    } else {
        Compactability::No
    }
}

pub open spec fn splices_view(s: Seq<String>) -> Seq<Seq<char>> {
    s.map_values(|x: String| x@)
}

/// `h` before whatever `r` produced.
pub open spec fn after<T>(h: Seq<char>, r: Result<(Seq<char>, T), TemplateError>) -> Result<
    (Seq<char>, T),
    TemplateError,
> {
    match r {
        Ok((x, k)) => Ok((h + x, k)),
        Err(e) => Err(e),
    }
}

/// The value an attribute gets, and the index of the next unused splice.
pub open spec fn gen_value(v: Option<AttrValueView>, sp: Seq<Seq<char>>, k: int) -> Result<
    (Option<Seq<char>>, int),
    TemplateError,
> {
    match v {
        None => Ok((None, k)),
        Some(AttrValueView::Text(s)) => Ok((Some(s), k)),
        Some(AttrValueView::Literal(raw)) => match literal_value(raw) {
            Some(x) => Ok((Some(x), k)),
            None => Err(TemplateError::UnsupportedLiteral),
        },
        Some(AttrValueView::Expression(_)) => if 0 <= k < sp.len() {
            Ok((Some(sp[k]), k + 1))
        } else {
            Err(TemplateError::MissingSplice)
        },
    }
}

/// The text of parsed attributes, taking splices from `k` on.
pub open spec fn gen_attrs(attrs: Seq<AttributeView>, sp: Seq<Seq<char>>, k: int) -> Result<
    (Seq<char>, int),
    TemplateError,
>
    decreases attrs.len(),
{
    if attrs.len() == 0 {
        Ok((Seq::empty(), k))
    } else if !valid_attribute_name(attrs[0].0) {
        Err(TemplateError::InvalidAttributeName)
    } else {
        match gen_value(attrs[0].1, sp, k) {
            Err(e) => Err(e),
            Ok((v, k1)) => after(
                attr_text(attrs[0].0, v),
                gen_attrs(attrs.subrange(1, attrs.len() as int), sp, k1),
            ),
        }
    }
}

/// The text that parsed elements render to, taking splices from `k` on: a
/// literal is text, an expression is the next splice as markup, and a tag
/// with no children is compacted as its kind allows.
pub open spec fn gen_elements(es: Seq<ElementView>, sp: Seq<Seq<char>>, k: int) -> Result<
    (Seq<char>, int),
    TemplateError,
>
    decreases es,
{
    if es.len() == 0 {
        Ok((Seq::empty(), k))
    } else {
        match gen_element(es[0], sp, k) {
            Err(e) => Err(e),
            Ok((h, k1)) => after(h, gen_elements(es.subrange(1, es.len() as int), sp, k1)),
        }
    }
}

pub open spec fn gen_element(e: ElementView, sp: Seq<Seq<char>>, k: int) -> Result<
    (Seq<char>, int),
    TemplateError,
>
    decreases e,
{
    match e {
        ElementView::Literal(raw) => match literal_value(raw) {
            Some(x) => Ok((crate::escapes::html_escape(x), k)),
            None => Err(TemplateError::UnsupportedLiteral),
        },
        ElementView::Expression(_) => if 0 <= k < sp.len() {
            Ok((sp[k], k + 1))
        } else {
            Err(TemplateError::MissingSplice)
        },
        ElementView::Tag(id, attrs, children) => match gen_attrs(attrs, sp, k) {
            Err(e) => Err(e),
            Ok((at, k1)) => match gen_elements(children, sp, k1) {
                Err(e) => Err(e),
                Ok((hc, k2)) => Ok(
                    (
                        open_text(id) + at + if children.len() == 0 {
                            compact_close(id, compactability_for(id))
                        } else {
                            seq!['>'] + hc + end_tag(id)
                        },
                        k2,
                    ),
                ),
            },
        },
    }
}

pub proof fn lemma_elements_view(s: Seq<Element>)
    ensures
        elements_view(s).len() == s.len(),
        forall|i: int| 0 <= i < s.len() ==> #[trigger] elements_view(s)[i] == element_view(s[i]),
    decreases s.len(),
{
    if s.len() > 0 {
        lemma_elements_view(s.subrange(0, s.len() - 1));
    }
}

fn gen_attributes(attrs: &Vec<ParsedAttribute>, splices: &Vec<String>, k: usize) -> (r: Result<
    (Vec<Attribute>, usize),
    TemplateError,
>)
    requires
        k <= splices@.len(),
    ensures
        match r {
            Ok((v, k2)) => valid_attributes(v@) && k2 <= splices@.len() && gen_attrs(
                attributes_view(attrs@),
                splices_view(splices@),
                k as int,
            ) == Ok::<(Seq<char>, int), TemplateError>((attrs_text(v@), k2 as int)),
            Err(e) => gen_attrs(attributes_view(attrs@), splices_view(splices@), k as int) == Err::<
                (Seq<char>, int),
                TemplateError,
            >(e),
        },
{
    let ghost sp = splices_view(splices@);
    let ghost av = attributes_view(attrs@);
    let mut out: Vec<Attribute> = Vec::new();
    let mut j: usize = k;
    let mut i: usize = 0;
    proof {
        assert(av.subrange(0, av.len() as int) =~= av);
        if let Ok((x, _)) = gen_attrs(av, sp, k as int) {
            assert(attrs_text(out@) + x =~= x);
        }
    }
    while i < attrs.len()
        invariant
            i <= attrs@.len(),
            j <= splices@.len(),
            sp == splices_view(splices@),
            av == attributes_view(attrs@),
            valid_attributes(out@),
            gen_attrs(av, sp, k as int) == after(
                attrs_text(out@),
                gen_attrs(av.subrange(i as int, av.len() as int), sp, j as int),
            ),
        decreases attrs@.len() - i,
    {
        let a = &attrs[i];
        let ghost rest = av.subrange(i as int, av.len() as int);
        assert(rest[0] == attribute_view(*a));
        assert(rest.subrange(1, rest.len() as int) =~= av.subrange(i + 1, av.len() as int));
        if !crate::attributes::is_valid_attribute_name(a.name.as_str()) {
            return Err(TemplateError::InvalidAttributeName);
        }
        let value: Option<String> = match &a.value {
            None => None,
            Some(AttrValue::Text(s)) => Some(s.clone()),
            Some(AttrValue::Literal(raw)) => match string_literal_value(raw.as_str()) {
                Some(v) => Some(v),
                None => {
                    return Err(TemplateError::UnsupportedLiteral);
                },
            },
            Some(AttrValue::Expression(_)) => {
                if j >= splices.len() {
                    return Err(TemplateError::MissingSplice);
                }
                let v = splices[j].clone();
                j = j + 1;
                Some(v)
            },
        };
        let ghost before = out@;
        out.push(Attribute { name: a.name.clone(), value });
        proof {
            assert(out@.subrange(0, out@.len() - 1) =~= before);
            let tail = gen_attrs(av.subrange(i + 1, av.len() as int), sp, j as int);
            if let Ok((x, k2)) = tail {
                assert(attrs_text(before) + (attr_text(a.name@, attribute_value_view(value)) + x)
                    =~= attrs_text(out@) + x);
            }
            assert forall|t: int| 0 <= t < out@.len() implies valid_attribute_name(
                #[trigger] out@[t].name@,
            ) by {
                if t < before.len() {
                    assert(out@[t] == before[t]);
                }
            }
        }
        i = i + 1;
    }
    assert(attrs_text(out@) + Seq::<char>::empty() =~= attrs_text(out@));
    Ok((out, j))
}

fn gen_node(e: &Element, splices: &Vec<String>, k: usize) -> (r: Result<(Node, usize), TemplateError>)
    requires
        k <= splices@.len(),
    ensures
        match r {
            Ok((n, k2)) => wf_node(n) && k2 <= splices@.len() && gen_element(
                element_view(*e),
                splices_view(splices@),
                k as int,
            ) == Ok::<(Seq<char>, int), TemplateError>((html_node(n), k2 as int)),
            Err(err) => gen_element(element_view(*e), splices_view(splices@), k as int) == Err::<
                (Seq<char>, int),
                TemplateError,
            >(err),
        },
    decreases e,
{
    match e {
        Element::Literal(raw) => match string_literal_value(raw.as_str()) {
            Some(v) => Ok((Node::Text(v), k)),
            None => Err(TemplateError::UnsupportedLiteral),
        },
        Element::Expression(_) => {
            if k >= splices.len() {
                return Err(TemplateError::MissingSplice);
            }
            Ok((Node::Raw(splices[k].clone()), k + 1))
        },
        Element::Tag(t) => {
            let (attributes, k1) = match gen_attributes(&t.attributes, splices, k) {
                Ok(x) => x,
                Err(err) => {
                    return Err(err);
                },
            };
            let (children, k2) = match gen_nodes(&t.children, splices, k1) {
                Ok(x) => x,
                Err(err) => {
                    return Err(err);
                },
            };
            proof {
                lemma_elements_view(t.children@);
            }
            let content = if t.children.len() == 0 {
                None
            } else {
                Some(children)
            };
            let node = Node::Element(
                Tag {
                    name: t.identifier.clone(),
                    attributes,
                    content,
                    compactability: compactability_of(t.identifier.as_str()),
                    silent: false,
                },
            );
            proof {
                let id = t.identifier@;
                let at = attrs_text(attributes@);
                if t.children.len() == 0 {
                    assert(html_node(node) == open_text(id) + at + compact_close(id, compactability_for(id)));
                } else {
                    assert(html_node(node) =~= open_text(id) + at + (seq!['>'] + html_nodes(children@) + end_tag(id)));
                }
            }
            Ok((node, k2))
        },
    }
}

fn gen_nodes(es: &Vec<Element>, splices: &Vec<String>, k: usize) -> (r: Result<
    (Vec<Node>, usize),
    TemplateError,
>)
    requires
        k <= splices@.len(),
    ensures
        match r {
            Ok((v, k2)) => wf_nodes(v@) && k2 <= splices@.len() && gen_elements(
                elements_view(es@),
                splices_view(splices@),
                k as int,
            ) == Ok::<(Seq<char>, int), TemplateError>((html_nodes(v@), k2 as int)),
            Err(e) => gen_elements(elements_view(es@), splices_view(splices@), k as int) == Err::<
                (Seq<char>, int),
                TemplateError,
            >(e),
        },
    decreases es,
{
    let ghost sp = splices_view(splices@);
    let ghost ev = elements_view(es@);
    proof {
        lemma_elements_view(es@);
    }
    let mut out: Vec<Node> = Vec::new();
    let mut j: usize = k;
    let mut i: usize = 0;
    proof {
        assert(ev.subrange(0, ev.len() as int) =~= ev);
        if let Ok((x, _)) = gen_elements(ev, sp, k as int) {
            assert(html_nodes(out@) + x =~= x);
        }
    }
    while i < es.len()
        invariant
            i <= es@.len(),
            j <= splices@.len(),
            sp == splices_view(splices@),
            ev == elements_view(es@),
            ev.len() == es@.len(),
            forall|t: int| 0 <= t < es@.len() ==> #[trigger] ev[t] == element_view(es@[t]),
            wf_nodes(out@),
            gen_elements(ev, sp, k as int) == after(
                html_nodes(out@),
                gen_elements(ev.subrange(i as int, ev.len() as int), sp, j as int),
            ),
        decreases es@.len() - i,
    {
        let ghost rest = ev.subrange(i as int, ev.len() as int);
        assert(rest[0] == element_view(es@[i as int]));
        assert(rest.subrange(1, rest.len() as int) =~= ev.subrange(i + 1, ev.len() as int));
        let (n, j2) = match gen_node(&es[i], splices, j) {
            Ok(x) => x,
            Err(e) => {
                return Err(e);
            },
        };
        let ghost before = out@;
        out.push(n);
        proof {
            assert(out@.subrange(0, out@.len() - 1) =~= before);
            let tail = gen_elements(ev.subrange(i + 1, ev.len() as int), sp, j2 as int);
            if let Ok((x, k2)) = tail {
                assert(html_nodes(before) + (html_node(n) + x) =~= html_nodes(out@) + x);
            }
            assert forall|t: int| 0 <= t < out@.len() implies wf_node(#[trigger] out@[t]) by {
                if t < before.len() {
                    assert(out@[t] == before[t]);
                }
            }
        }
        j = j2;
        i = i + 1;
    }
    assert(html_nodes(out@) + Seq::<char>::empty() =~= html_nodes(out@));
    Ok((out, j))
}

/// Parses a template and turns it into content: a silent tag whose content
/// is the template's elements. Each parenthesized expression, in document
/// order, takes the next of `splices`: as markup where it stands for content,
/// as the value where it stands for an attribute value.
pub fn html(tokens: &Vec<Token>, splices: &Vec<String>) -> (r: Result<Tag, TemplateError>)
    ensures
        match spec_parse_elements(tokens@, 0) {
            None => r == Err::<Tag, TemplateError>(TemplateError::InvalidSyntax),
            Some(es) => match gen_elements(es, splices_view(splices@), 0) {
                Ok((h, _)) => r matches Ok(t) && wf_tag(t) && html_tag(t) == h,
                Err(e) => r == Err::<Tag, TemplateError>(e),
            },
        },
{
    let elements = match parse_multiple_elements(tokens) {
        Some(es) => es,
        None => {
            return Err(TemplateError::InvalidSyntax);
        },
    };
    let (nodes, _) = match gen_nodes(&elements, splices, 0) {
        Ok(x) => x,
        Err(e) => {
            return Err(e);
        },
    };
    Ok(
        Tag {
            name: String::new(),
            attributes: Vec::new(),
            content: Some(nodes),
            compactability: Compactability::No,
            silent: true,
        },
    )
}

} // verus!
