//! Content items and their rendering: text, verbatim markup and tags with
//! attributes and nested content.
use vstd::prelude::*;
use crate::attributes::Attribute;
use crate::env::{HtmlEnv, WriteError, wrote, failed_write};
use crate::escapes::{HtmlEscaper, html_escape};
use crate::tag::{
    Compactability,
    TagOpening,
    open_text,
    end_tag,
    compact_close,
    attrs_text,
    valid_attributes,
    failed_then,
    lemma_failed_write_then,
    lemma_then_cleanup,
    lemma_then_shift,
};

verus! {

/// One item of content.
#[derive(Debug)]
pub enum Node {
    /// Text, escaped when written.
    Text(String),
    /// Markup, written verbatim.
    Raw(String),
    /// A tag with its attributes and content.
    Element(Tag),
}

/// A tag to be written: its name, its attributes in order, and its content.
///
/// `content` is `None` when no content was ever given, which lets a
/// compactable tag collapse; `Some` of an empty list is content that happens
/// to write nothing. A silent tag writes its content only.
#[derive(Debug)]
pub struct Tag {
    pub name: String,
    pub attributes: Vec<Attribute>,
    pub content: Option<Vec<Node>>,
    pub compactability: Compactability,
    pub silent: bool,
}

/// The text that a list of content items writes.
pub open spec fn html_nodes(ns: Seq<Node>) -> Seq<char>
    decreases ns,
{
    if ns.len() == 0 {
        Seq::empty()
    } else {
        html_nodes(ns.subrange(0, ns.len() - 1)) + html_node(ns[ns.len() - 1])
    }
}

/// The text that one content item writes.
pub open spec fn html_node(n: Node) -> Seq<char>
    decreases n,
{
    match n {
        Node::Text(s) => html_escape(s@),
        Node::Raw(s) => s@,
        Node::Element(t) => html_tag(t),
    }
}

/// The text that a tag writes.
pub open spec fn html_tag(t: Tag) -> Seq<char>
    decreases t,
{
    match t.content {
        Some(c) => if t.silent {
            html_nodes(c@)
        } else {
            open_text(t.name@) + attrs_text(t.attributes@) + seq!['>'] + html_nodes(c@) + end_tag(
                t.name@,
            )
        },
        None => if t.silent {
            Seq::empty()
        } else {
            open_text(t.name@) + attrs_text(t.attributes@) + compact_close(t.name@, t.compactability)
        },
    }
}

/// The cleanup writes that end the tags of `ns` that are open when a refused
/// write ends at position `n` of `html_nodes(ns)`, innermost first.
pub open spec fn closers_nodes(ns: Seq<Node>, n: int) -> Seq<Seq<char>>
    decreases ns,
{
    if ns.len() == 0 {
        Seq::empty()
    } else {
        let init = ns.subrange(0, ns.len() - 1);
        let k = html_nodes(init).len() as int;
        if n <= k {
            closers_nodes(init, n)
        } else {
            closers_node(ns[ns.len() - 1], n - k)
        }
    }
}

/// The cleanup writes that end the tags of `nd` that are open when a refused
/// write ends at position `n` of `html_node(nd)`, innermost first.
pub open spec fn closers_node(nd: Node, n: int) -> Seq<Seq<char>>
    decreases nd,
{
    match nd {
        Node::Element(t) => closers_tag(t, n),
        _ => Seq::empty(),
    }
}

/// The cleanup writes that end `t` and the tags inside it that are open when
/// a refused write ends at position `n` of `html_tag(t)`, innermost first.
///
/// A tag is open from the end of its `<name` on. Up to and including its `>`
/// it is still opening and is ended as `TagOpening::close` ends it; inside its
/// content it is ended by `</name>`; a refused ending leaves it open, so the
/// ending is written once more.
pub open spec fn closers_tag(t: Tag, n: int) -> Seq<Seq<char>>
    decreases t,
{
    let a = open_text(t.name@).len() as int;
    let p = a + attrs_text(t.attributes@).len();
    match t.content {
        Some(c) => if t.silent {
            closers_nodes(c@, n)
        } else if a < n <= p + 1 {
            seq![compact_close(t.name@, t.compactability)]
        } else if p + 1 < n <= p + 1 + html_nodes(c@).len() {
            closers_nodes(c@, n - (p + 1)).push(end_tag(t.name@))
        } else if p + 1 + html_nodes(c@).len() < n {
            seq![end_tag(t.name@)]
        } else {
            Seq::empty()
        },
        None => if !t.silent && a < n {
            seq![compact_close(t.name@, t.compactability)]
        } else {
            Seq::empty()
        },
    }
}

/// Every attribute name in the content is valid.
pub open spec fn wf_nodes(ns: Seq<Node>) -> bool
    decreases ns,
{
    forall|i: int| 0 <= i < ns.len() ==> wf_node(#[trigger] ns[i])
}

pub open spec fn wf_node(n: Node) -> bool
    decreases n,
{
    match n {
        Node::Element(t) => wf_tag(t),
        _ => true,
    }
}

pub open spec fn wf_tag(t: Tag) -> bool
    decreases t,
{
    valid_attributes(t.attributes@) && match t.content {
        Some(c) => wf_nodes(c@),
        None => true,
    }
}

/// The text of a prefix of the items is a prefix of the text of all of them.
pub proof fn lemma_nodes_prefix(ns: Seq<Node>, j: int)
    requires
        0 <= j <= ns.len(),
    ensures
        html_nodes(ns.take(j)).len() <= html_nodes(ns).len(),
        html_nodes(ns).take(html_nodes(ns.take(j)).len() as int) == html_nodes(ns.take(j)),
    decreases ns.len(),
{
    if j == ns.len() {
        assert(ns.take(j) =~= ns);
        assert(html_nodes(ns).take(html_nodes(ns).len() as int) =~= html_nodes(ns));
    } else {
        let init = ns.subrange(0, ns.len() - 1);
        assert(init.take(j) =~= ns.take(j));
        lemma_nodes_prefix(init, j);
        let e = html_nodes(ns.take(j));
        assert(html_nodes(ns).take(e.len() as int) =~= html_nodes(init).take(e.len() as int));
    }
}

/// A failure inside a prefix of the items is closed as within that prefix.
pub proof fn lemma_closers_prefix(ns: Seq<Node>, j: int, n: int)
    requires
        0 <= j <= ns.len(),
        n <= html_nodes(ns.take(j)).len(),
    ensures
        closers_nodes(ns, n) == closers_nodes(ns.take(j), n),
    decreases ns.len(),
{
    if j == ns.len() {
        assert(ns.take(j) =~= ns);
    } else {
        let init = ns.subrange(0, ns.len() - 1);
        assert(init.take(j) =~= ns.take(j));
        lemma_nodes_prefix(init, j);
        lemma_closers_prefix(init, j, n);
    }
}

/// Writes one content item.
///
/// If every write is accepted, exactly `html_node(*node)` is added. If one is
/// refused, nothing more of the content is written: the only writes after it
/// are the endings `closers_node(*node, n)` of the tags still open, innermost
/// first, one write each, each accepted or refused.
pub fn write_node<W: HtmlEnv>(node: &Node, w: &mut W) -> (r: Result<(), WriteError>)
    requires
        wf_node(*node),
    ensures
        r is Ok ==> wrote(*old(w), *final(w), html_node(*node)),
        r is Err ==> exists|m: int, n: int|
            failed_then(*old(w), *final(w), html_node(*node), m, n, closers_node(*node, n)),
    decreases node,
{
    let ghost w0 = *w;
    let ghost h = html_node(*node);
    match node {
        Node::Text(s) => {
            let esc = HtmlEscaper::new();
            let r = esc.write_str(w, s.as_str());
            proof {
                if r is Err {
                    let (m, n) = choose|m: int, n: int| failed_write(w0, *w, html_escape(s@), m, n);
                    lemma_failed_write_then(w0, *w, h, m, n);
                    assert(closers_node(*node, n) == Seq::<Seq<char>>::empty());
                    assert(failed_then(w0, *w, h, m, n, closers_node(*node, n)));
                }
            }
            r
        },
        Node::Raw(s) => {
            if s.unicode_len() == 0 {
                assert(w.text() =~= w0.text() + h);
                return Ok(());
            }
            let r = w.write_str(s.as_str());
            proof {
                if r is Err {
                    assert(h.take(0) =~= Seq::<char>::empty());
                    assert(w.text() =~= w0.text() + h.take(0));
                    lemma_failed_write_then(w0, *w, h, 0, h.len() as int);
                    assert(closers_node(*node, h.len() as int) == Seq::<Seq<char>>::empty());
                    assert(failed_then(w0, *w, h, 0, h.len() as int, closers_node(*node, h.len() as int)));
                }
            }
            r
        },
        Node::Element(t) => {
            let r = write_tag(t, w);
            proof {
                if r is Err {
                    let (m, n) = choose|m: int, n: int|
                        failed_then(w0, *w, html_tag(*t), m, n, closers_tag(*t, n));
                    assert(failed_then(w0, *w, h, m, n, closers_node(*node, n)));
                }
            }
            r
        },
    }
}

/// Writes one tag: its opening, attributes, content and ending.
///
/// The contract is that of `write_node`, for `Node::Element(*t)`.
#[verifier::rlimit(40)]
pub fn write_tag<W: HtmlEnv>(t: &Tag, w: &mut W) -> (r: Result<(), WriteError>)
    requires
        wf_tag(*t),
    ensures
        r is Ok ==> wrote(*old(w), *final(w), html_tag(*t)),
        r is Err ==> exists|m: int, n: int|
            failed_then(*old(w), *final(w), html_tag(*t), m, n, closers_tag(*t, n)),
    decreases t,
{
    let ghost w0 = *w;
    let ghost h = html_tag(*t);
    if t.silent {
        return match &t.content {
            Some(children) => {
                let r = write_nodes(children, w);
                proof {
                    if r is Err {
                        let (m, n) = choose|m: int, n: int|
                            failed_then(w0, *w, html_nodes(children@), m, n, closers_nodes(children@, n));
                        assert(failed_then(w0, *w, h, m, n, closers_tag(*t, n)));
                    }
                }
                r
            },
            None => {
                assert(w.text() =~= w0.text() + h);
                Ok(())
            },
        };
    }
    let ghost ot = open_text(t.name@);
    let ghost at = attrs_text(t.attributes@);
    let ghost cc = compact_close(t.name@, t.compactability);
    let ghost a = ot.len() as int;
    let ghost p = a + at.len();
    let opening = match TagOpening::new(t.name.as_str(), w, t.compactability) {
        Ok(o) => o,
        Err(e) => {
            proof {
                let m: int = 0;
                let n: int = ot.len() as int;
                lemma_failed_write_then(w0, *w, ot, m, n);
                let rest = h.subrange(a, h.len() as int);
                assert(h =~= Seq::<char>::empty() + ot + rest);
                assert(w0.text() =~= w0.text() + Seq::<char>::empty());
                lemma_then_shift(w0, w0, *w, Seq::empty(), ot, rest, m, n, Seq::empty());
                assert(closers_tag(*t, n) == Seq::<Seq<char>>::empty());
            }
            return Err(e);
        },
    };
    let ghost w1 = *w;
    let opening = match opening.with_attributes(w, &t.attributes) {
        Ok(o) => o,
        Err(e) => {
            proof {
                let (m, n) = choose|m: int, n: int| failed_then(w1, *w, at, m, n, seq![cc]);
                let rest = h.subrange(p, h.len() as int);
                assert(h =~= ot + at + rest);
                lemma_then_shift(w0, w1, *w, ot, at, rest, m, n, seq![cc]);
                assert(closers_tag(*t, a + n) == seq![cc]);
            }
            return Err(e);
        },
    };
    let ghost w2 = *w;
    match &t.content {
        None => {
            let r = opening.close(w);
            proof {
                assert(h =~= ot + at + cc);
                if r is Err {
                    assert(w2.text() =~= w0.text() + (ot + at));
                    lemma_then_shift(w0, w2, *w, ot + at, cc, Seq::empty(), 0, cc.len() as int, seq![cc]);
                    assert(ot + at + cc + Seq::<char>::empty() =~= h);
                    assert(closers_tag(*t, p + cc.len()) == seq![cc]);
                } else {
                    assert(w.text() =~= w0.text() + h);
                }
            }
            r
        },
        Some(children) => {
            let ghost hc = html_nodes(children@);
            let ghost et = end_tag(t.name@);
            let inside = match opening.inner_html(w) {
                Ok(i) => i,
                Err(e) => {
                    proof {
                        let rest = h.subrange(p + 1, h.len() as int);
                        assert(h =~= (ot + at) + seq!['>'] + rest);
                        assert(w2.text() =~= w0.text() + (ot + at));
                        lemma_then_shift(
                            w0,
                            w2,
                            *w,
                            ot + at,
                            seq!['>'],
                            rest,
                            0,
                            1,
                            seq![cc],
                        );
                        assert(closers_tag(*t, p + 1) == seq![cc]);
                    }
                    return Err(e);
                },
            };
            let ghost w3 = *w;
            let ghost pre = ot + at + seq!['>'];
            assert(w3.text() =~= w0.text() + pre);
            match write_nodes(children, w) {
                Ok(()) => {},
                Err(e) => {
                    let ghost wf = *w;
                    let released = inside.release(w);
                    proof {
                        let (m, n) = choose|m: int, n: int|
                            failed_then(w3, wf, hc, m, n, closers_nodes(children@, n));
                        lemma_then_cleanup(
                            w3,
                            wf,
                            *w,
                            hc,
                            m,
                            n,
                            closers_nodes(children@, n),
                            et,
                            released is Ok,
                        );
                        lemma_then_shift(
                            w0,
                            w3,
                            *w,
                            pre,
                            hc,
                            et,
                            m,
                            n,
                            closers_nodes(children@, n).push(et),
                        );
                        assert(h =~= pre + hc + et);
                        assert(closers_tag(*t, p + 1 + n) == closers_nodes(children@, n).push(et));
                    }
                    return Err(e);
                },
            }
            let ghost w4 = *w;
            let r = inside.close(w);
            proof {
                assert(h =~= (pre + hc) + et);
                if r is Err {
                    assert(w4.text() =~= w0.text() + (pre + hc));
                    lemma_then_shift(w0, w4, *w, pre + hc, et, Seq::empty(), 0, et.len() as int, seq![et]);
                    assert(pre + hc + et + Seq::<char>::empty() =~= h);
                    assert(closers_tag(*t, p + 1 + hc.len() + et.len()) == seq![et]);
                } else {
                    assert(w.text() =~= w0.text() + h);
                }
            }
            r
        },
    }
}

/// Writes a list of content items, in order.
///
/// If every write is accepted, exactly `html_nodes(nodes@)` is added. If one
/// is refused, nothing more of the content is written, later items included:
/// the only writes after it are the endings `closers_nodes(nodes@, n)` of the
/// tags still open, innermost first, one write each, each accepted or
/// refused. If the sink accepts them, every tag opened is closed.
pub fn write_nodes<W: HtmlEnv>(nodes: &Vec<Node>, w: &mut W) -> (r: Result<(), WriteError>)
    requires
        wf_nodes(nodes@),
    ensures
        r is Ok ==> wrote(*old(w), *final(w), html_nodes(nodes@)),
        r is Err ==> exists|m: int, n: int|
            failed_then(
                *old(w),
                *final(w),
                html_nodes(nodes@),
                m,
                n,
                closers_nodes(nodes@, n),
            ),
    decreases nodes,
{
    let ghost w0 = *w;
    let ghost h = html_nodes(nodes@);
    let mut i: usize = 0;
    while i < nodes.len()
        invariant
            i <= nodes@.len(),
            wf_nodes(nodes@),
            w0 == *old(w),
            h == html_nodes(nodes@),
            wrote(w0, *w, html_nodes(nodes@.take(i as int))),
        decreases nodes@.len() - i,
    {
        let ghost wi = *w;
        let ghost ti = nodes@.take(i as int);
        assert(nodes@.take(i + 1).subrange(0, i as int) =~= ti);
        assert(html_nodes(nodes@.take(i + 1)) == html_nodes(ti) + html_node(nodes@[i as int]));
        match write_node(&nodes[i], w) {
            Ok(()) => {
                assert(w.text() =~= w0.text() + html_nodes(nodes@.take(i + 1)));
            },
            Err(e) => {
                proof {
                    let nd = nodes@[i as int];
                    let (m, n) = choose|m: int, n: int|
                        failed_then(wi, *w, html_node(nd), m, n, closers_node(nd, n));
                    lemma_nodes_prefix(nodes@, i + 1);
                    let k = html_nodes(ti).len() as int;
                    let rest = h.subrange(html_nodes(nodes@.take(i + 1)).len() as int, h.len() as int);
                    assert(h =~= html_nodes(ti) + html_node(nd) + rest);
                    lemma_then_shift(w0, wi, *w, html_nodes(ti), html_node(nd), rest, m, n, closers_node(nd, n));
                    lemma_closers_prefix(nodes@, i + 1, k + n);
                    assert(closers_nodes(nodes@.take(i + 1), k + n) == closers_node(nd, n));
                }
                return Err(e);
            },
        }
        i = i + 1;
    }
    assert(nodes@.take(nodes@.len() as int) =~= nodes@);
    Ok(())
}

} // verus!
