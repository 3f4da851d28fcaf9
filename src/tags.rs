//! Building tags, and the helpers for a document head.
use vstd::prelude::*;
use crate::attributes::{
    Attribute,
    AttributeName,
    AttributeValue,
    Attributes,
    attribute_pairs,
    valid_attribute_name,
    valid_pairs,
};
use crate::content::{Node, Tag, closers_node, closers_nodes, closers_tag, html_nodes, html_tag, wf_nodes, wf_tag, html_node};
use crate::html_trait::{
    Html,
    items,
    join_content,
    lemma_html_nodes_append,
    lemma_html_single,
    lemma_wf_nodes_append,
};
use crate::tag::{Compactability, attr_text, attrs_text, open_text, valid_attributes};

verus! {

proof fn lemma_valid_from_pairs(s: Seq<Attribute>)
    requires
        valid_pairs(attribute_pairs(s)),
    ensures
        valid_attributes(s),
{
    assert forall|i: int| 0 <= i < s.len() implies valid_attribute_name(#[trigger] s[i].name@) by {
        assert(attribute_pairs(s)[i].0 == s[i].name@);
    }
}

/// Creates a tag named `name` with the given attributes, content and
/// compactability.
pub fn tag<A: Attributes, I: Html>(
    name: &str,
    attributes: A,
    inner_html: I,
    compactability: Compactability,
) -> (r: Tag)
    requires
        valid_pairs(attributes.pairs()),
        inner_html.wf(),
    ensures
        r.name@ == name@,
        attribute_pairs(r.attributes@) == attributes.pairs(),
        r.compactability == compactability,
        !r.silent,
        (r.content is None) == inner_html.no_content(),
        html_nodes(items(r.content)) == inner_html.html(),
        wf_tag(r),
{
    let attributes = attributes.into_attributes();
    proof {
        lemma_valid_from_pairs(attributes@);
    }
    Tag {
        name: String::from_str(name),
        attributes,
        content: inner_html.into_content(),
        compactability,
        silent: false,
    }
}

/// Creates a tag that writes its content only: no name, no attributes.
pub fn silent_tag<I: Html>(inner_html: I) -> (r: Tag)
    requires
        inner_html.wf(),
    ensures
        r.silent,
        r.attributes@.len() == 0,
        (r.content is None) == inner_html.no_content(),
        html_tag(r) == inner_html.html(),
        wf_tag(r),
{
    let content = inner_html.into_content();
    let r = Tag {
        name: String::new(),
        attributes: Vec::new(),
        content,
        compactability: Compactability::No,
        silent: true,
    };
    proof {
        if r.content is None {
            assert(html_nodes(items(r.content)) == html_nodes(Seq::<Node>::empty()));
        }
    }
    r
}

impl Tag {
    /// Adds `child` after the content the tag already has.
    pub fn child<C: Html>(self, child: C) -> (r: Tag)
        requires
            wf_tag(self),
            child.wf(),
        ensures
            r.name == self.name,
            r.attributes == self.attributes,
            r.compactability == self.compactability,
            r.silent == self.silent,
            r.content is Some,
            html_nodes(items(r.content)) == html_nodes(items(self.content)) + child.html(),
            wf_tag(r),
    {
        let c = child.into_content();
        proof {
            lemma_html_nodes_append(items(self.content), items(c));
            lemma_wf_nodes_append(items(self.content), items(c));
        }
        Tag {
            name: self.name,
            attributes: self.attributes,
            content: Some(join_content(self.content, c)),
            compactability: self.compactability,
            silent: self.silent,
        }
    }

    /// Adds `attributes` after the attributes the tag already has.
    pub fn attributes<B: Attributes>(self, attributes: B) -> (r: Tag)
        requires
            wf_tag(self),
            valid_pairs(attributes.pairs()),
        ensures
            r.name == self.name,
            attribute_pairs(r.attributes@) == attribute_pairs(self.attributes@) + attributes.pairs(),
            r.content == self.content,
            r.compactability == self.compactability,
            r.silent == self.silent,
            wf_tag(r),
    {
        let mut a = self.attributes;
        let mut b = attributes.into_attributes();
        let ghost av = a@;
        let ghost bv = b@;
        a.append(&mut b);
        proof {
            assert(attribute_pairs(a@) =~= attribute_pairs(av) + attribute_pairs(bv));
            lemma_valid_from_pairs(av);
            assert forall|i: int| 0 <= i < a@.len() implies valid_attribute_name(
                #[trigger] a@[i].name@,
            ) by {
                if i < av.len() {
                    assert(a@[i] == av[i]);
                } else {
                    assert(attribute_pairs(a@)[i].0 == a@[i].name@);
                }
            }
        }
        Tag {
            name: self.name,
            attributes: a,
            content: self.content,
            compactability: self.compactability,
            silent: self.silent,
        }
    }

    /// Adds one attribute after the attributes the tag already has.
    pub fn attr<N: AttributeName, V: AttributeValue>(self, name: N, value: V) -> (r: Tag)
        requires
            wf_tag(self),
            valid_attribute_name(name.name_view()),
        ensures
            r.name == self.name,
            attribute_pairs(r.attributes@) == attribute_pairs(self.attributes@).push(
                (name.name_view(), value.value_view()),
            ),
            r.content == self.content,
            r.compactability == self.compactability,
            r.silent == self.silent,
            wf_tag(r),
    {
        let mut a = self.attributes;
        let ghost av = a@;
        let n = name.into_attribute_name();
        let v = value.into_attribute_value();
        a.push(Attribute { name: n, value: v });
        proof {
            assert(attribute_pairs(a@) =~= attribute_pairs(av).push(
                (name.name_view(), value.value_view()),
            ));
            assert forall|i: int| 0 <= i < a@.len() implies valid_attribute_name(
                #[trigger] a@[i].name@,
            ) by {
                if i < av.len() {
                    assert(a@[i] == av[i]);
                }
            }
        }
        Tag {
            name: self.name,
            attributes: a,
            content: self.content,
            compactability: self.compactability,
            silent: self.silent,
        }
    }
}

impl Html for Tag {
    open spec fn html(&self) -> Seq<char> {
        html_tag(*self)
    }

    open spec fn no_content(&self) -> bool {
        false
    }

    open spec fn wf(&self) -> bool {
        wf_tag(*self)
    }

    open spec fn closers(&self, n: int) -> Seq<Seq<char>> {
        closers_tag(*self, n)
    }

    fn is_unit(&self) -> (r: bool) {
        false
    }

    fn into_content(self) -> (r: Option<Vec<Node>>) {
        let v = vec![Node::Element(self)];
        proof {
            lemma_html_single(v@[0]);
            assert(v@ =~= seq![v@[0]]);
            assert(!self.no_content());
            assert(wf_nodes(v@));
            assert forall|n: int| 0 < n <= self.html().len() implies #[trigger] closers_nodes(
                v@,
                n,
            ) == self.closers(n) by {
                crate::html_trait::lemma_closers_single(v@[0], n);
            }
        }
        Some(v)
    }
}

/// A tag kind that is never compacted, given no attributes and content that
/// writes nothing, is written as `<name></name>`.
pub proof fn lemma_non_compactable_empty(t: Tag)
    requires
        t.compactability == Compactability::No,
        !t.silent,
        t.attributes@.len() == 0,
        html_nodes(items(t.content)) == Seq::<char>::empty(),
    ensures
        html_tag(t) == seq!['<'] + t.name@ + seq!['>', '<', '/'] + t.name@ + seq!['>'],
{
    assert(attrs_text(t.attributes@) == Seq::<char>::empty());
    assert(html_tag(t) =~= seq!['<'] + t.name@ + seq!['>', '<', '/'] + t.name@ + seq!['>']);
}

/// A compactable tag kind given no content and no attributes is written as
/// `<name/>` with a final slash and `<name>` without; given content, even
/// content that writes nothing, it is written in full as
/// `<name attributes>content</name>`.
pub proof fn lemma_compactable(t: Tag, final_slash: bool)
    requires
        t.compactability == (Compactability::Yes { final_slash }),
        !t.silent,
    ensures
        t.content is None && t.attributes@.len() == 0 ==> html_tag(t) == seq!['<'] + t.name@ + (
        if final_slash {
            seq!['/', '>']
        } else {
            seq!['>']
        }),
        t.content is Some ==> html_tag(t) == seq!['<'] + t.name@ + attrs_text(t.attributes@)
            + seq!['>'] + html_nodes(items(t.content)) + seq!['<', '/'] + t.name@ + seq!['>'],
{
    if t.content is None && t.attributes@.len() == 0 {
        assert(attrs_text(t.attributes@) == Seq::<char>::empty());
        assert(html_tag(t) =~= seq!['<'] + t.name@ + (if final_slash {
            seq!['/', '>']
        } else {
            seq!['>']
        }));
    }
    if t.content is Some {
        assert(html_tag(t) =~= seq!['<'] + t.name@ + attrs_text(t.attributes@) + seq!['>']
            + html_nodes(items(t.content)) + seq!['<', '/'] + t.name@ + seq!['>']);
    }
}

/// Writes the default HTML5 `<meta>` tags: compatibility, character set and
/// viewport, in that order.
#[derive(Debug, Clone, Copy)]
pub struct DefaultMeta;

pub open spec fn meta_open() -> Seq<char> {
    open_text("meta"@)
}

/// What ends a `<meta` tag that is still opening when a refused write ends
/// at position `k` of it.
pub open spec fn meta_closers(k: int) -> Seq<Seq<char>> {
    if k > 5 {
        seq![seq!['>']]
    } else {
        Seq::empty()
    }
}

pub open spec fn meta_compatibility() -> Seq<char> {
    meta_open() + attr_text("http-equiv"@, Some("X-UA-Compatible"@)) + attr_text(
        "content"@,
        Some("ie=edge"@),
    ) + seq!['>']
}

pub open spec fn meta_charset() -> Seq<char> {
    meta_open() + attr_text("charset"@, Some("UTF-8"@)) + seq!['>']
}

pub open spec fn meta_viewport() -> Seq<char> {
    meta_open() + attr_text("name"@, Some("viewport"@)) + attr_text(
        "content"@,
        Some("width=device-width, initial-scale=1.0"@),
    ) + seq!['>']
}

fn meta(attributes: Vec<Attribute>) -> (r: Node)
    requires
        valid_attributes(attributes@),
    ensures
        html_node(r) == open_text("meta"@) + attrs_text(attributes@) + seq!['>'],
        crate::content::wf_node(r),
        forall|k: int| #[trigger] closers_node(r, k) == meta_closers(k),
{
    let r = Node::Element(
        Tag {
            name: String::from_str("meta"),
            attributes,
            content: None,
            compactability: Compactability::Yes { final_slash: false },
            silent: false,
        },
    );
    proof {
        reveal_strlit("meta");
        assert(open_text("meta"@).len() == 5);
    }
    r
}

fn pair(name: &str, value: &str) -> (r: Attribute)
    ensures
        r.name@ == name@,
        r.value matches Some(v) && v@ == value@,
{
    Attribute { name: String::from_str(name), value: Some(String::from_str(value)) }
}

proof fn lemma_two_attrs(a: Attribute, b: Attribute)
    ensures
        attrs_text(seq![a, b]) == attr_text(a.name@, crate::tag::attribute_value_view(a.value))
            + attr_text(b.name@, crate::tag::attribute_value_view(b.value)),
{
    assert(seq![a, b].drop_last() =~= seq![a]);
    assert(seq![a, b].last() == b);
    lemma_one_attr(a);
}

proof fn lemma_one_attr(a: Attribute)
    ensures
        attrs_text(seq![a]) == attr_text(a.name@, crate::tag::attribute_value_view(a.value)),
{
    assert(seq![a].drop_last() =~= Seq::<Attribute>::empty());
    assert(seq![a].last() == a);
    assert(attrs_text(Seq::<Attribute>::empty()) == Seq::<char>::empty());
    assert(Seq::<char>::empty() + attr_text(a.name@, crate::tag::attribute_value_view(a.value))
        =~= attr_text(a.name@, crate::tag::attribute_value_view(a.value)));
}

proof fn lemma_three_nodes(a: Node, b: Node, c: Node)
    ensures
        html_nodes(seq![a, b, c]) == html_node(a) + html_node(b) + html_node(c),
{
    assert(seq![a, b, c].subrange(0, 2) =~= seq![a, b]);
    assert(seq![a, b].subrange(0, 1) =~= seq![a]);
    lemma_html_single(a);
    assert(html_nodes(seq![a, b]) == html_nodes(seq![a]) + html_node(b));
}

proof fn lemma_three_closers(a: Node, b: Node, c: Node, n: int)
    requires
        0 < n,
    ensures
        closers_nodes(seq![a, b, c], n) == if n <= html_node(a).len() {
            closers_node(a, n)
        } else if n <= html_node(a).len() + html_node(b).len() {
            closers_node(b, n - html_node(a).len())
        } else {
            closers_node(c, n - html_node(a).len() - html_node(b).len())
        },
{
    assert(seq![a, b, c].subrange(0, 2) =~= seq![a, b]);
    assert(seq![a, b].subrange(0, 1) =~= seq![a]);
    lemma_html_single(a);
    crate::html_trait::lemma_closers_single(a, n);
    assert(html_nodes(seq![a, b]) == html_nodes(seq![a]) + html_node(b));
    assert(seq![a, b, c][2] == c);
    assert(seq![a, b][1] == b);
    let k = html_nodes(seq![a, b]).len() as int;
    assert(closers_nodes(seq![a, b, c], n) == if n <= k {
        closers_nodes(seq![a, b], n)
    } else {
        closers_node(c, n - k)
    });
    let k1 = html_nodes(seq![a]).len() as int;
    assert(closers_nodes(seq![a, b], n) == if n <= k1 {
        closers_nodes(seq![a], n)
    } else {
        closers_node(b, n - k1)
    });
}

impl Html for DefaultMeta {
    open spec fn html(&self) -> Seq<char> {
        meta_compatibility() + meta_charset() + meta_viewport()
    }

    open spec fn closers(&self, n: int) -> Seq<Seq<char>> {
        let l1 = meta_compatibility().len() as int;
        let l2 = meta_charset().len() as int;
        if n <= l1 {
            meta_closers(n)
        } else if n <= l1 + l2 {
            meta_closers(n - l1)
        } else {
            meta_closers(n - l1 - l2)
        }
    }

    open spec fn no_content(&self) -> bool {
        false
    }

    open spec fn wf(&self) -> bool {
        true
    }

    fn is_unit(&self) -> (r: bool) {
        false
    }

    fn into_content(self) -> (r: Option<Vec<Node>>) {
        proof {
            reveal_strlit("http-equiv");
            reveal_strlit("content");
            reveal_strlit("charset");
            reveal_strlit("name");
            assert("http-equiv"@ =~= seq!['h', 't', 't', 'p', '-', 'e', 'q', 'u', 'i', 'v']);
            assert("content"@ =~= seq!['c', 'o', 'n', 't', 'e', 'n', 't']);
            assert("charset"@ =~= seq!['c', 'h', 'a', 'r', 's', 'e', 't']);
            assert("name"@ =~= seq!['n', 'a', 'm', 'e']);
            assert(valid_attribute_name("http-equiv"@));
            assert(valid_attribute_name("content"@));
            assert(valid_attribute_name("charset"@));
            assert(valid_attribute_name("name"@));
        }
        let a1 = pair("http-equiv", "X-UA-Compatible");
        let a2 = pair("content", "ie=edge");
        let a3 = pair("charset", "UTF-8");
        let a4 = pair("name", "viewport");
        let a5 = pair("content", "width=device-width, initial-scale=1.0");
        let v1 = vec![a1, a2];
        let v2 = vec![a3];
        let v3 = vec![a4, a5];
        proof {
            assert(v1@ =~= seq![v1@[0], v1@[1]]);
            assert(v2@ =~= seq![v2@[0]]);
            assert(v3@ =~= seq![v3@[0], v3@[1]]);
            lemma_two_attrs(v1@[0], v1@[1]);
            lemma_one_attr(v2@[0]);
            lemma_two_attrs(v3@[0], v3@[1]);
        }
        let m1 = meta(v1);
        let m2 = meta(v2);
        let m3 = meta(v3);
        let v = vec![m1, m2, m3];
        proof {
            assert(v@ =~= seq![v@[0], v@[1], v@[2]]);
            lemma_three_nodes(v@[0], v@[1], v@[2]);
            assert(html_node(v@[0]) =~= meta_compatibility());
            assert(html_node(v@[1]) =~= meta_charset());
            assert(html_node(v@[2]) =~= meta_viewport());
            assert(html_nodes(v@) =~= self.html());
            assert forall|n: int| 0 < n <= self.html().len() implies #[trigger] closers_nodes(
                v@,
                n,
            ) == self.closers(n) by {
                lemma_three_closers(v@[0], v@[1], v@[2], n);
            }
            assert(!self.no_content());
        }
        Some(v)
    }
}

} // verus!
