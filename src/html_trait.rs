//! Content that can be written as HTML, and its composition.
use vstd::prelude::*;
use crate::content::{Node, closers_node, closers_nodes, html_nodes, wf_nodes, write_nodes};
use crate::env::{HtmlEnv, WriteError, wrote};
use crate::escapes::html_escape;
use crate::tag::failed_then;

verus! {

/// Stands for no content at all, as distinct from content that writes
/// nothing: a tag given `Empty` may be compacted.
#[derive(Debug, Clone, Copy)]
pub struct Empty;

/// The content of `A` followed by the content of `B`.
#[derive(Debug, Clone, Copy)]
pub struct Sum<A, B>(pub A, pub B);

pub open spec fn items(c: Option<Vec<Node>>) -> Seq<Node> {
    match c {
        Some(v) => v@,
        None => Seq::empty(),
    }
}

/// Something that can be written as HTML.
pub trait Html: Sized {
    /// The text that writing it adds.
    spec fn html(&self) -> Seq<char>;

    /// Whether it is the marker of no content.
    spec fn no_content(&self) -> bool;

    /// Whether it can be written: every attribute name in it is valid.
    spec fn wf(&self) -> bool;

    /// The cleanup writes that end the tags still open when a refused write
    /// ends at position `n` of `html()`, innermost first.
    spec fn closers(&self, n: int) -> Seq<Seq<char>>;

    /// Tells whether `self` is the marker of no content.
    fn is_unit(&self) -> (r: bool)
        ensures
            r == self.no_content(),
    ;

    /// The content items that `self` stands for; `None` for the marker of no
    /// content.
    fn into_content(self) -> (r: Option<Vec<Node>>)
        requires
            self.wf(),
        ensures
            (r is None) == self.no_content(),
            wf_nodes(items(r)),
            html_nodes(items(r)) == self.html(),
            forall|n: int|
                0 < n <= self.html().len() ==> #[trigger] closers_nodes(items(r), n)
                    == self.closers(n),
    ;

    /// Writes `self` to `w`. If a write is refused, nothing more of the content
    /// is written: the only writes after it are the endings `closers(n)` of
    /// the tags still open, one write each, each accepted or refused.
    fn write_html<W: HtmlEnv>(self, w: &mut W) -> (r: Result<(), WriteError>)
        requires
            self.wf(),
        ensures
            r is Ok ==> wrote(*old(w), *final(w), self.html()),
            r is Err ==> exists|m: int, n: int|
                failed_then(*old(w), *final(w), self.html(), m, n, self.closers(n)),
    {
        let ghost h = self.html();
        let ghost w0 = *w;
        match self.into_content() {
            Some(v) => {
                let r = write_nodes(&v, w);
                proof {
                    if r is Err {
                        let (m, n) = choose|m: int, n: int|
                            failed_then(w0, *w, html_nodes(v@), m, n, closers_nodes(v@, n));
                        assert(closers_nodes(items(Some(v)), n) == self.closers(n));
                        assert(failed_then(w0, *w, h, m, n, self.closers(n)));
                    }
                }
                r
            },
            None => {
                assert(w.text() =~= w0.text() + h);
                Ok(())
            },
        }
    }
}

impl Html for Empty {
    open spec fn html(&self) -> Seq<char> {
        Seq::empty()
    }

    open spec fn no_content(&self) -> bool {
        true
    }

    open spec fn wf(&self) -> bool {
        true
    }

    open spec fn closers(&self, n: int) -> Seq<Seq<char>> {
        Seq::empty()
    }

    fn is_unit(&self) -> (r: bool) {
        true
    }

    fn into_content(self) -> (r: Option<Vec<Node>>) {
        assert(self.no_content());
        None
    }
}

/// Concatenation of two lists of items writes the concatenation of their texts.
pub proof fn lemma_html_nodes_append(a: Seq<Node>, b: Seq<Node>)
    ensures
        html_nodes(a + b) == html_nodes(a) + html_nodes(b),
    decreases b.len(),
{
    if b.len() == 0 {
        assert(a + b =~= a);
        assert(html_nodes(a) + html_nodes(b) =~= html_nodes(a));
    } else {
        let b0 = b.subrange(0, b.len() - 1);
        assert((a + b).subrange(0, (a + b).len() - 1) =~= a + b0);
        lemma_html_nodes_append(a, b0);
        assert(html_nodes(a + b) =~= html_nodes(a) + html_nodes(b));
    }
}

/// A failure inside a joined list is closed as within the part it falls in.
pub proof fn lemma_closers_append(a: Seq<Node>, b: Seq<Node>, n: int)
    requires
        0 < n <= html_nodes(a + b).len(),
    ensures
        closers_nodes(a + b, n) == if n <= html_nodes(a).len() {
            closers_nodes(a, n)
        } else {
            closers_nodes(b, n - html_nodes(a).len())
        },
    decreases b.len(),
{
    lemma_html_nodes_append(a, b);
    if n <= html_nodes(a).len() {
        assert((a + b).take(a.len() as int) =~= a);
        crate::content::lemma_closers_prefix(a + b, a.len() as int, n);
    } else {
        let b0 = b.subrange(0, b.len() - 1);
        assert((a + b).subrange(0, (a + b).len() - 1) =~= a + b0);
        lemma_html_nodes_append(a, b0);
        if n <= html_nodes(a + b0).len() {
            lemma_closers_append(a, b0, n);
        }
    }
}

pub proof fn lemma_wf_nodes_append(a: Seq<Node>, b: Seq<Node>)
    requires
        wf_nodes(a),
        wf_nodes(b),
    ensures
        wf_nodes(a + b),
{
    assert forall|i: int| 0 <= i < (a + b).len() implies crate::content::wf_node(
        #[trigger] (a + b)[i],
    ) by {
        if i < a.len() {
            assert((a + b)[i] == a[i]);
        } else {
            assert((a + b)[i] == b[i - a.len()]);
        }
    }
}

/// Joins two item lists, either of which may be the marker of no content.
pub fn join_content(a: Option<Vec<Node>>, b: Option<Vec<Node>>) -> (r: Vec<Node>)
    ensures
        r@ == items(a) + items(b),
{
    let mut x = match a {
        Some(v) => v,
        None => Vec::new(),
    };
    let mut y = match b {
        Some(v) => v,
        None => Vec::new(),
    };
    x.append(&mut y);
    x
}

impl<A: Html, B: Html> Html for Sum<A, B> {
    open spec fn html(&self) -> Seq<char> {
        self.0.html() + self.1.html()
    }

    open spec fn no_content(&self) -> bool {
        false
    }

    open spec fn wf(&self) -> bool {
        self.0.wf() && self.1.wf()
    }

    open spec fn closers(&self, n: int) -> Seq<Seq<char>> {
        if n <= self.0.html().len() {
            self.0.closers(n)
        } else {
            self.1.closers(n - self.0.html().len())
        }
    }

    fn is_unit(&self) -> (r: bool) {
        false
    }

    fn into_content(self) -> (r: Option<Vec<Node>>) {
        let a = self.0.into_content();
        let b = self.1.into_content();
        proof {
            lemma_html_nodes_append(items(a), items(b));
            lemma_wf_nodes_append(items(a), items(b));
            assert forall|n: int|
                0 < n <= self.html().len() implies #[trigger] closers_nodes(items(a) + items(b), n)
                == self.closers(n) by {
                lemma_closers_append(items(a), items(b), n);
            }
        }
        assert(!self.no_content());
        Some(join_content(a, b))
    }
}

impl Html for Vec<Node> {
    open spec fn html(&self) -> Seq<char> {
        html_nodes(self@)
    }

    open spec fn no_content(&self) -> bool {
        false
    }

    open spec fn wf(&self) -> bool {
        wf_nodes(self@)
    }

    open spec fn closers(&self, n: int) -> Seq<Seq<char>> {
        closers_nodes(self@, n)
    }

    fn is_unit(&self) -> (r: bool) {
        false
    }

    fn into_content(self) -> (r: Option<Vec<Node>>) {
        assert(!self.no_content());
        Some(self)
    }
}

/// Markup, written verbatim.
#[derive(Debug, Clone)]
pub struct HtmlStr(pub String);

/// Text, escaped when written.
#[derive(Debug, Clone)]
pub struct HtmlTextStr(pub String);

pub proof fn lemma_html_single(n: Node)
    ensures
        html_nodes(seq![n]) == crate::content::html_node(n),
{
    assert(seq![n].subrange(0, 0) =~= Seq::<Node>::empty());
    assert(html_nodes(Seq::<Node>::empty()) == Seq::<char>::empty());
    assert(seq![n][0] == n);
    assert(html_nodes(seq![n]) == html_nodes(seq![n].subrange(0, 0)) + crate::content::html_node(n));
    assert(Seq::<char>::empty() + crate::content::html_node(n) =~= crate::content::html_node(n));
}

pub proof fn lemma_closers_single(x: Node, k: int)
    requires
        0 < k,
    ensures
        closers_nodes(seq![x], k) == closers_node(x, k),
{
    assert(seq![x].subrange(0, 0) =~= Seq::<Node>::empty());
    assert(html_nodes(Seq::<Node>::empty()) == Seq::<char>::empty());
    assert(seq![x][0] == x);
}

impl Html for HtmlStr {
    open spec fn html(&self) -> Seq<char> {
        self.0@
    }

    open spec fn no_content(&self) -> bool {
        false
    }

    open spec fn wf(&self) -> bool {
        true
    }

    open spec fn closers(&self, n: int) -> Seq<Seq<char>> {
        Seq::empty()
    }

    fn is_unit(&self) -> (r: bool) {
        false
    }

    fn into_content(self) -> (r: Option<Vec<Node>>) {
        let v = vec![Node::Raw(self.0)];
        proof {
            lemma_html_single(v@[0]);
            assert(v@ =~= seq![v@[0]]);
            assert(!self.no_content());
            assert forall|n: int| 0 < n <= self.html().len() implies #[trigger] closers_nodes(
                v@,
                n,
            ) == self.closers(n) by {
                lemma_closers_single(v@[0], n);
            }
        }
        Some(v)
    }
}

impl Html for HtmlTextStr {
    open spec fn html(&self) -> Seq<char> {
        html_escape(self.0@)
    }

    open spec fn no_content(&self) -> bool {
        false
    }

    open spec fn wf(&self) -> bool {
        true
    }

    open spec fn closers(&self, n: int) -> Seq<Seq<char>> {
        Seq::empty()
    }

    fn is_unit(&self) -> (r: bool) {
        false
    }

    fn into_content(self) -> (r: Option<Vec<Node>>) {
        let v = vec![Node::Text(self.0)];
        proof {
            lemma_html_single(v@[0]);
            assert(v@ =~= seq![v@[0]]);
            assert(!self.no_content());
            assert forall|n: int| 0 < n <= self.html().len() implies #[trigger] closers_nodes(
                v@,
                n,
            ) == self.closers(n) by {
                lemma_closers_single(v@[0], n);
            }
        }
        Some(v)
    }
}

/// Something that can be turned into markup or into text.
pub trait AsHtml: Sized {
    spec fn text(&self) -> Seq<char>;

    /// Written verbatim.
    fn as_html(self) -> (r: HtmlStr)
        ensures
            r.html() == self.text(),
    ;

    /// Written escaped.
    fn as_html_text(self) -> (r: HtmlTextStr)
        ensures
            r.html() == html_escape(self.text()),
    ;
}

impl<'a> AsHtml for &'a str {
    open spec fn text(&self) -> Seq<char> {
        (*self)@
    }

    fn as_html(self) -> (r: HtmlStr) {
        HtmlStr(String::from_str(self))
    }

    fn as_html_text(self) -> (r: HtmlTextStr) {
        HtmlTextStr(String::from_str(self))
    }
}

impl AsHtml for String {
    open spec fn text(&self) -> Seq<char> {
        self@
    }

    fn as_html(self) -> (r: HtmlStr) {
        HtmlStr(self)
    }

    fn as_html_text(self) -> (r: HtmlTextStr) {
        HtmlTextStr(self)
    }
}

/// Something that can be written into a new string.
pub trait ToHtmlString: Sized {
    spec fn html_string(&self) -> Seq<char>;

    spec fn writable(&self) -> bool;

    /// The text written; an in-memory string never refuses a write.
    fn to_html_string(self) -> (r: Result<String, WriteError>)
        requires
            self.writable(),
        ensures
            r matches Ok(s) && s@ == self.html_string(),
    ;
}

impl<H: Html> ToHtmlString for H {
    open spec fn html_string(&self) -> Seq<char> {
        self.html()
    }

    open spec fn writable(&self) -> bool {
        self.wf()
    }

    fn to_html_string(self) -> (r: Result<String, WriteError>) {
        let mut s = String::new();
        let ghost h = self.html();
        match self.write_html(&mut s) {
            Ok(()) => {
                assert(s@ =~= h);
                Ok(s)
            },
            Err(e) => Err(e),
        }
    }
}

/// The HTML5 doctype.
#[derive(Debug, Clone, Copy)]
pub struct Doctype;

impl Html for Doctype {
    open spec fn html(&self) -> Seq<char> {
        "<!DOCTYPE html>"@
    }

    open spec fn no_content(&self) -> bool {
        false
    }

    open spec fn wf(&self) -> bool {
        true
    }

    open spec fn closers(&self, n: int) -> Seq<Seq<char>> {
        Seq::empty()
    }

    fn is_unit(&self) -> (r: bool) {
        false
    }

    fn into_content(self) -> (r: Option<Vec<Node>>) {
        let v = vec![Node::Raw(String::from_str("<!DOCTYPE html>"))];
        proof {
            lemma_html_single(v@[0]);
            assert(v@ =~= seq![v@[0]]);
            assert(!self.no_content());
            assert forall|n: int| 0 < n <= self.html().len() implies #[trigger] closers_nodes(
                v@,
                n,
            ) == self.closers(n) by {
                lemma_closers_single(v@[0], n);
            }
        }
        Some(v)
    }
}

} // verus!
