//! The open / attribute / content / close state machine of one tag.
use vstd::prelude::*;
use crate::attributes::{Attribute, valid_attribute_name};
use crate::env::{HtmlEnv, WriteError, wrote, failed_write};
use crate::escapes::{StringEscaper, string_escape};

verus! {

/// Whether a tag without content collapses to a single self-terminated form.
#[derive(Debug, Clone, Copy, PartialEq, Eq, Hash)]
pub enum Compactability {
    /// Always written as `<tag></tag>`, even without content.
    No,
    /// Written as `<tag/>` (with `final_slash`) or `<tag>` when it has no content.
    Yes { final_slash: bool },
}

impl Compactability {
    /// Returns whether the tag is compactable.
    pub fn is_compactable(&self) -> (r: bool)
        ensures
            r == (*self is Yes),
    {
        match self {
            Compactability::No => false,
            Compactability::Yes { .. } => true,
        }
    }
}

pub open spec fn open_text(name: Seq<char>) -> Seq<char> {
    seq!['<'] + name
}

pub open spec fn end_tag(name: Seq<char>) -> Seq<char> {
    seq!['<', '/'] + name + seq!['>']
}

/// What ends a tag that was opened and never given content.
pub open spec fn compact_close(name: Seq<char>, c: Compactability) -> Seq<char> {
    match c {
        Compactability::Yes { final_slash } => if final_slash {
            seq!['/', '>']
        } else {
            seq!['>']
        },
        Compactability::No => seq!['>'] + end_tag(name),
    }
}

pub open spec fn value_text(value: Option<Seq<char>>) -> Seq<char> {
    match value {
        Some(v) => seq!['=', '"'] + string_escape(v) + seq!['"'],
        None => Seq::empty(),
    }
}

pub open spec fn attr_text(name: Seq<char>, value: Option<Seq<char>>) -> Seq<char> {
    seq![' '] + name + value_text(value)
}

pub open spec fn attribute_value_view(value: Option<String>) -> Option<Seq<char>> {
    match value {
        Some(v) => Some(v@),
        None => None,
    }
}

pub open spec fn str_value_view(value: Option<&str>) -> Option<Seq<char>> {
    match value {
        Some(v) => Some(v@),
        None => None,
    }
}

/// The text of a list of attributes, in order.
pub open spec fn attrs_text(attrs: Seq<Attribute>) -> Seq<char>
    decreases attrs.len(),
{
    if attrs.len() == 0 {
        Seq::empty()
    } else {
        attrs_text(attrs.drop_last()) + attr_text(
            attrs.last().name@,
            attribute_value_view(attrs.last().value),
        )
    }
}

pub open spec fn valid_attributes(attrs: Seq<Attribute>) -> bool {
    forall|i: int| 0 <= i < attrs.len() ==> valid_attribute_name(#[trigger] attrs[i].name@)
}

/// One write of `c`: accepted when `ok`, refused otherwise.
pub open spec fn wrote_once<E: HtmlEnv>(before: E, after: E, c: Seq<char>, ok: bool) -> bool {
    if ok {
        wrote(before, after, c)
    } else {
        after.text() == before.text() && after.failures() == before.failures() + 1
    }
}

/// The pieces of `p` that `mask` marks as accepted, joined in order.
pub open spec fn kept(p: Seq<Seq<char>>, mask: Seq<bool>) -> Seq<char>
    decreases p.len(),
{
    if p.len() == 0 || mask.len() == 0 {
        Seq::empty()
    } else {
        kept(p.drop_last(), mask.drop_last()) + if mask.last() {
            p.last()
        } else {
            Seq::empty()
        }
    }
}

/// How many entries of `mask` mark a refusal.
pub open spec fn refused_count(mask: Seq<bool>) -> nat
    decreases mask.len(),
{
    if mask.len() == 0 {
        0
    } else {
        refused_count(mask.drop_last()) + if mask.last() {
            0nat
        } else {
            1nat
        }
    }
}

/// A write covering `h[m..n]` was the first to be refused, after `h[..m]`
/// had been accepted. After it the only writes were the cleanup writes
/// `tail`, one each and in order, each accepted or refused: the sink holds
/// `h[..m]` followed by the accepted ones, and counts the refused ones.
pub open spec fn failed_then<E: HtmlEnv>(
    before: E,
    after: E,
    h: Seq<char>,
    m: int,
    n: int,
    tail: Seq<Seq<char>>,
) -> bool {
    &&& 0 <= m <= n <= h.len()
    &&& 0 < n
    &&& exists|mask: Seq<bool>|
        mask.len() == tail.len() && after.text() == before.text() + h.take(m) + #[trigger] kept(
            tail,
            mask,
        ) && after.failures() == before.failures() + 1 + refused_count(mask)
}

pub proof fn lemma_failed_write_then<E: HtmlEnv>(before: E, after: E, h: Seq<char>, m: int, n: int)
    requires
        failed_write(before, after, h, m, n),
    ensures
        failed_then(before, after, h, m, n, Seq::empty()),
{
    let mask = Seq::<bool>::empty();
    assert(kept(Seq::<Seq<char>>::empty(), mask) == Seq::<char>::empty());
    assert(after.text() =~= before.text() + h.take(m) + kept(Seq::<Seq<char>>::empty(), mask));
}

/// A cleanup write after a failure adds one piece to the failure's tail.
pub proof fn lemma_then_cleanup<E: HtmlEnv>(
    before: E,
    mid: E,
    after: E,
    h: Seq<char>,
    m: int,
    n: int,
    tail: Seq<Seq<char>>,
    c: Seq<char>,
    ok: bool,
)
    requires
        failed_then(before, mid, h, m, n, tail),
        wrote_once(mid, after, c, ok),
    ensures
        failed_then(before, after, h, m, n, tail.push(c)),
{
    let mask = choose|mask: Seq<bool>|
        mask.len() == tail.len() && mid.text() == before.text() + h.take(m) + #[trigger] kept(
            tail,
            mask,
        ) && mid.failures() == before.failures() + 1 + refused_count(mask);
    let mask2 = mask.push(ok);
    assert(tail.push(c).drop_last() =~= tail);
    assert(mask2.drop_last() =~= mask);
    assert(after.text() =~= before.text() + h.take(m) + kept(tail.push(c), mask2));
}

/// A failure inside `h2`, written after `h1`, is a failure inside `h1 + h2 + h3`.
pub proof fn lemma_then_shift<E: HtmlEnv>(
    start: E,
    before: E,
    after: E,
    h1: Seq<char>,
    h2: Seq<char>,
    h3: Seq<char>,
    m: int,
    n: int,
    tail: Seq<Seq<char>>,
)
    requires
        wrote(start, before, h1),
        failed_then(before, after, h2, m, n, tail),
    ensures
        failed_then(start, after, h1 + h2 + h3, h1.len() + m, h1.len() + n, tail),
{
    let h = h1 + h2 + h3;
    let mask = choose|mask: Seq<bool>|
        mask.len() == tail.len() && after.text() == before.text() + h2.take(m) + #[trigger] kept(
            tail,
            mask,
        ) && after.failures() == before.failures() + 1 + refused_count(mask);
    assert(h.take(h1.len() + m) =~= h1 + h2.take(m));
    assert(after.text() =~= start.text() + h.take(h1.len() + m) + kept(tail, mask));
}

/// Writes `s` as the ending of a tag. If the write is refused, the tag is
/// still open, and the release that every failure owes an open tag writes
/// `s` once more, on a best-effort basis; the first refusal is returned.
fn write_ending<W: HtmlEnv>(w: &mut W, s: &str) -> (r: Result<(), WriteError>)
    requires
        s@.len() > 0,
    ensures
        r is Ok ==> wrote(*old(w), *final(w), s@),
        r is Err ==> failed_then(*old(w), *final(w), s@, 0, s@.len() as int, seq![s@]),
{
    let ghost w0 = *w;
    match w.write_str(s) {
        Ok(()) => Ok(()),
        Err(e) => {
            proof {
                assert(w0.text() + s@.take(0) =~= w0.text());
                lemma_failed_write_then(w0, *w, s@, 0, s@.len() as int);
            }
            let ghost wf = *w;
            let again = w.write_str(s);
            proof {
                lemma_then_cleanup(w0, wf, *w, s@, 0, s@.len() as int, Seq::empty(), s@, again is Ok);
                assert(Seq::<Seq<char>>::empty().push(s@) =~= seq![s@]);
            }
            Err(e)
        },
    }
}

/// A tag whose `<name` has been written and that accepts attributes.
///
/// It must be ended by `inner_html` (to write content) or by `close`.
pub struct TagOpening<'t> {
    tag: &'t str,
    compactability: Compactability,
}

impl<'t> TagOpening<'t> {
    pub closed spec fn name(&self) -> Seq<char> {
        self.tag@
    }

    pub closed spec fn compactability(&self) -> Compactability {
        self.compactability
    }

    /// Writes `<tag`, in one write, and starts the opening of the tag.
    pub fn new<W: HtmlEnv>(tag: &'t str, w: &mut W, compactability: Compactability) -> (r: Result<
        Self,
        WriteError,
    >)
        ensures
            r matches Ok(o) ==> o.name() == tag@ && o.compactability() == compactability && wrote(
                *old(w),
                *final(w),
                open_text(tag@),
            ),
            r is Err ==> failed_write(
                *old(w),
                *final(w),
                open_text(tag@),
                0,
                open_text(tag@).len() as int,
            ),
    {
        let mut text = String::from_str("<");
        text.append(tag);
        proof {
            reveal_strlit("<");
            assert("<"@ =~= seq!['<']);
            assert(text@ =~= open_text(tag@));
            assert(old(w).text() + open_text(tag@).take(0) =~= old(w).text());
        }
        match w.write_str(text.as_str()) {
            Ok(()) => Ok(TagOpening { tag, compactability }),
            Err(e) => Err(e),
        }
    }

    /// Writes one attribute: ` name`, then `="value"` with the value escaped
    /// unless the attribute is bare.
    pub fn attr<W: HtmlEnv>(&self, w: &mut W, name: &str, value: Option<&str>) -> (r: Result<
        (),
        WriteError,
    >)
        requires
            valid_attribute_name(name@),
        ensures
            r is Ok ==> wrote(*old(w), *final(w), attr_text(name@, str_value_view(value))),
            r is Err ==> exists|m: int, n: int|
                failed_write(*old(w), *final(w), attr_text(name@, str_value_view(value)), m, n),
    {
        let ghost h = attr_text(name@, str_value_view(value));
        let ghost w0 = *w;
        proof {
            reveal_strlit(" ");
            reveal_strlit("=\"");
            reveal_strlit("\"");
            assert(" "@ =~= seq![' ']);
            assert("=\""@ =~= seq!['=', '"']);
            assert("\""@ =~= seq!['"']);
        }
        match w.write_str(" ") {
            Ok(()) => {},
            Err(e) => {
                assert(failed_write(w0, *w, h, 0, 1));
                return Err(e);
            },
        }
        match w.write_str(name) {
            Ok(()) => {},
            Err(e) => {
                assert(h.take(1) =~= seq![' ']);
                assert(w.text() =~= w0.text() + h.take(1));
                assert(failed_write(w0, *w, h, 1, 1 + name@.len() as int));
                return Err(e);
            },
        }
        let ghost p: int = 1 + name@.len() as int;
        assert(w.text() =~= w0.text() + h.take(p));
        match value {
            None => {
                assert(h =~= h.take(p));
                Ok(())
            },
            Some(v) => {
                match w.write_str("=\"") {
                    Ok(()) => {},
                    Err(e) => {
                        assert(failed_write(w0, *w, h, p, p + 2));
                        return Err(e);
                    },
                }
                assert(w.text() =~= w0.text() + h.take(p + 2));
                let ghost w2 = *w;
                let esc = StringEscaper::new();
                match esc.write_str(w, v) {
                    Ok(()) => {},
                    Err(e) => {
                        proof {
                            let (m, n) = choose|m: int, n: int|
                                failed_write(w2, *w, string_escape(v@), m, n);
                            assert(h.take(p + 2 + m) =~= h.take(p + 2) + string_escape(v@).take(
                                m,
                            ));
                            assert(w.text() =~= w0.text() + h.take(p + 2 + m));
                            assert(failed_write(w0, *w, h, p + 2 + m, p + 2 + n));
                        }
                        return Err(e);
                    },
                }
                let ghost q: int = p + 2 + string_escape(v@).len() as int;
                assert(w.text() =~= w0.text() + h.take(q));
                match w.write_str("\"") {
                    Ok(()) => {},
                    Err(e) => {
                        assert(failed_write(w0, *w, h, q, q + 1));
                        return Err(e);
                    },
                }
                assert(w.text() =~= w0.text() + h);
                Ok(())
            },
        }
    }

    /// Writes one attribute, as `attr` does. On a refused write the tag is
    /// ended at once, on a best-effort basis, by `release`.
    pub fn with_attr<W: HtmlEnv>(self, w: &mut W, name: &str, value: Option<&str>) -> (r: Result<
        Self,
        WriteError,
    >)
        requires
            valid_attribute_name(name@),
        ensures
            r matches Ok(o) ==> o.name() == self.name() && o.compactability()
                == self.compactability() && wrote(
                *old(w),
                *final(w),
                attr_text(name@, str_value_view(value)),
            ),
            r is Err ==> exists|m: int, n: int|
                failed_then(
                    *old(w),
                    *final(w),
                    attr_text(name@, str_value_view(value)),
                    m,
                    n,
                    seq![compact_close(self.name(), self.compactability())],
                ),
    {
        let ghost w0 = *w;
        let ghost h = attr_text(name@, str_value_view(value));
        match self.attr(w, name, value) {
            Ok(()) => Ok(self),
            Err(e) => {
                proof {
                    let (m, n) = choose|m: int, n: int| failed_write(w0, *w, h, m, n);
                    lemma_failed_write_then(w0, *w, h, m, n);
                }
                let ghost wf = *w;
                let released = self.release(w);
                proof {
                    let (m, n) = choose|m: int, n: int| failed_then(w0, wf, h, m, n, Seq::empty());
                    let cc = compact_close(self.name(), self.compactability());
                    lemma_then_cleanup(w0, wf, *w, h, m, n, Seq::empty(), cc, released is Ok);
                    assert(Seq::<Seq<char>>::empty().push(cc) =~= seq![cc]);
                    assert(failed_then(w0, *w, h, m, n, seq![cc]));
                }
                Err(e)
            },
        }
    }

    /// Writes all of `attributes`, in order. On a refused write the tag is
    /// ended at once, on a best-effort basis, by `release`.
    pub fn with_attributes<W: HtmlEnv>(self, w: &mut W, attributes: &Vec<Attribute>) -> (r: Result<
        Self,
        WriteError,
    >)
        requires
            valid_attributes(attributes@),
        ensures
            r matches Ok(o) ==> o.name() == self.name() && o.compactability()
                == self.compactability() && wrote(*old(w), *final(w), attrs_text(attributes@)),
            r is Err ==> exists|m: int, n: int|
                failed_then(
                    *old(w),
                    *final(w),
                    attrs_text(attributes@),
                    m,
                    n,
                    seq![compact_close(self.name(), self.compactability())],
                ),
    {
        let ghost w0 = *w;
        let ghost h = attrs_text(attributes@);
        let mut i: usize = 0;
        while i < attributes.len()
            invariant
                i <= attributes@.len(),
                valid_attributes(attributes@),
                wrote(w0, *w, attrs_text(attributes@.take(i as int))),
                h == attrs_text(attributes@),
                w0 == *old(w),
            decreases attributes@.len() - i,
        {
            let a = &attributes[i];
            let value: Option<&str> = match &a.value {
                Some(v) => Some(v.as_str()),
                None => None,
            };
            assert(attributes@.take(i + 1).drop_last() =~= attributes@.take(i as int));
            assert(str_value_view(value) == attribute_value_view(a.value));
            assert(valid_attribute_name(attributes@[i as int].name@));
            let ghost wi = *w;
            match self.attr(w, a.name.as_str(), value) {
                Ok(()) => {
                    assert(w.text() =~= w0.text() + attrs_text(attributes@.take(i + 1)));
                },
                Err(e) => {
                    proof {
                        let at = attr_text(a.name@, str_value_view(value));
                        let (m, n) = choose|m: int, n: int| failed_write(wi, *w, at, m, n);
                        lemma_failed_write_then(wi, *w, at, m, n);
                        lemma_attrs_prefix(attributes@, i + 1);
                        let rest = h.subrange(attrs_text(attributes@.take(i + 1)).len() as int, h.len() as int);
                        assert(h =~= attrs_text(attributes@.take(i as int)) + at + rest);
                        lemma_then_shift(w0, wi, *w, attrs_text(attributes@.take(i as int)), at, rest, m, n, Seq::empty());
                    }
                    let ghost wf = *w;
                    let released = self.release(w);
                    proof {
                        let (m, n) = choose|m: int, n: int| failed_then(w0, wf, h, m, n, Seq::empty());
                        let cc = compact_close(self.name(), self.compactability());
                        lemma_then_cleanup(w0, wf, *w, h, m, n, Seq::empty(), cc, released is Ok);
                        assert(Seq::<Seq<char>>::empty().push(cc) =~= seq![cc]);
                        assert(failed_then(w0, *w, h, m, n, seq![cc]));
                    }
                    return Err(e);
                },
            }
            i = i + 1;
        }
        assert(attributes@.take(attributes@.len() as int) =~= attributes@);
        Ok(self)
    }

    /// Ends the opening with `>` and lets content be written. On a refused
    /// write the tag is ended at once, on a best-effort basis, by
    /// `release`.
    pub fn inner_html<W: HtmlEnv>(self, w: &mut W) -> (r: Result<InsideTagHtml<'t>, WriteError>)
        ensures
            r matches Ok(inside) ==> inside.name() == self.name() && wrote(
                *old(w),
                *final(w),
                seq!['>'],
            ),
            r is Err ==> failed_then(
                *old(w),
                *final(w),
                seq!['>'],
                0,
                1,
                seq![compact_close(self.name(), self.compactability())],
            ),
    {
        proof {
            reveal_strlit(">");
            assert(">"@ =~= seq!['>']);
        }
        let ghost w0 = *w;
        match w.write_str(">") {
            Ok(()) => Ok(InsideTagHtml { tag: self.tag }),
            Err(e) => {
                proof {
                    lemma_failed_write_then(w0, *w, seq!['>'], 0, 1);
                }
                let ghost wf = *w;
                let released = self.release(w);
                proof {
                    let cc = compact_close(self.name(), self.compactability());
                    lemma_then_cleanup(w0, wf, *w, seq!['>'], 0, 1, Seq::empty(), cc, released is Ok);
                    assert(Seq::<Seq<char>>::empty().push(cc) =~= seq![cc]);
                }
                Err(e)
            },
        }
    }

    /// The text of `compact_close` for this tag.
    fn compact_close_text(&self) -> (r: String)
        ensures
            r@ == compact_close(self.name(), self.compactability()),
    {
        let text: String = match self.compactability {
            Compactability::Yes { final_slash } => String::from_str(
                if final_slash {
                    "/>"
                } else {
                    ">"
                },
            ),
            Compactability::No => {
                let mut t = String::from_str("></");
                t.append(self.tag);
                t.append(">");
                t
            },
        };
        proof {
            reveal_strlit("/>");
            reveal_strlit(">");
            reveal_strlit("></");
            assert("/>"@ =~= seq!['/', '>']);
            assert(">"@ =~= seq!['>']);
            assert("></"@ =~= seq!['>', '<', '/']);
            assert(text@ =~= compact_close(self.name(), self.compactability()));
        }
        text
    }

    /// Ends a tag that was given no content: `/>` or `>` for a compactable
    /// tag, `></name>` for any other, in one write. A refused ending leaves
    /// the tag open, so it is released: the ending is written once more, on a
    /// best-effort basis, and the first refusal is returned.
    pub fn close<W: HtmlEnv>(self, w: &mut W) -> (r: Result<(), WriteError>)
        ensures
            r is Ok ==> wrote(*old(w), *final(w), compact_close(self.name(), self.compactability())),
            r is Err ==> failed_then(
                *old(w),
                *final(w),
                compact_close(self.name(), self.compactability()),
                0,
                compact_close(self.name(), self.compactability()).len() as int,
                seq![compact_close(self.name(), self.compactability())],
            ),
    {
        let text = self.compact_close_text();
        write_ending(w, text.as_str())
    }

    /// Ends the tag after a failure, on a best-effort basis: one write of
    /// what `close` writes. Its refusal is reported, never retried.
    pub fn release<W: HtmlEnv>(self, w: &mut W) -> (r: Result<(), WriteError>)
        ensures
            wrote_once(
                *old(w),
                *final(w),
                compact_close(self.name(), self.compactability()),
                r is Ok,
            ),
    {
        let text = self.compact_close_text();
        w.write_str(text.as_str())
    }
}

/// The attributes written before an index are a prefix of all of them.
pub proof fn lemma_attrs_prefix(attrs: Seq<Attribute>, i: int)
    requires
        0 <= i <= attrs.len(),
    ensures
        attrs_text(attrs.take(i)).len() <= attrs_text(attrs).len(),
        attrs_text(attrs).take(attrs_text(attrs.take(i)).len() as int) == attrs_text(attrs.take(i)),
    decreases attrs.len(),
{
    if i == attrs.len() {
        assert(attrs.take(i) =~= attrs);
        assert(attrs_text(attrs).take(attrs_text(attrs).len() as int) =~= attrs_text(attrs));
    } else {
        assert(attrs.drop_last().take(i) =~= attrs.take(i));
        lemma_attrs_prefix(attrs.drop_last(), i);
        let e = attrs_text(attrs.take(i));
        assert(attrs_text(attrs).take(e.len() as int) =~= attrs_text(attrs.drop_last()).take(
            e.len() as int,
        ));
    }
}

/// The inside of a tag whose opening is complete: content goes here, and
/// `close` writes `</name>`.
pub struct InsideTagHtml<'t> {
    tag: &'t str,
}

impl<'t> InsideTagHtml<'t> {
    pub closed spec fn name(&self) -> Seq<char> {
        self.tag@
    }

    /// Writes `s` verbatim as content.
    pub fn write_str<W: HtmlEnv>(&self, w: &mut W, s: &str) -> (r: Result<(), WriteError>)
        ensures
            r is Ok ==> wrote(*old(w), *final(w), s@),
            r is Err ==> final(w).text() == old(w).text() && final(w).failures() == old(
                w,
            ).failures() + 1,
    {
        w.write_str(s)
    }

    fn end_tag_text(&self) -> (r: String)
        ensures
            r@ == end_tag(self.name()),
    {
        let mut text = String::from_str("</");
        text.append(self.tag);
        text.append(">");
        proof {
            reveal_strlit("</");
            reveal_strlit(">");
            assert("</"@ =~= seq!['<', '/']);
            assert(">"@ =~= seq!['>']);
            assert(text@ =~= end_tag(self.name()));
        }
        text
    }

    /// Writes the closing tag `</name>` in one write. A refused closing tag
    /// leaves the tag open, so it is released: `</name>` is written once
    /// more, on a best-effort basis, and the first refusal is returned.
    pub fn close<W: HtmlEnv>(self, w: &mut W) -> (r: Result<(), WriteError>)
        ensures
            r is Ok ==> wrote(*old(w), *final(w), end_tag(self.name())),
            r is Err ==> failed_then(
                *old(w),
                *final(w),
                end_tag(self.name()),
                0,
                end_tag(self.name()).len() as int,
                seq![end_tag(self.name())],
            ),
    {
        let text = self.end_tag_text();
        write_ending(w, text.as_str())
    }

    /// Ends the tag after a failure, on a best-effort basis: one write of
    /// `</name>`. Its refusal is reported, never retried.
    pub fn release<W: HtmlEnv>(self, w: &mut W) -> (r: Result<(), WriteError>)
        ensures
            wrote_once(*old(w), *final(w), end_tag(self.name()), r is Ok),
    {
        let text = self.end_tag_text();
        w.write_str(text.as_str())
    }
}

impl From<bool> for Compactability {
    /// `true` is compactable with a final slash, `false` is not compactable.
    fn from(b: bool) -> (r: Self) {
        if b {
            Compactability::Yes { final_slash: true }
        } else {
            Compactability::No
        }
    }
}

impl vstd::std_specs::convert::FromSpecImpl<bool> for Compactability {
    open spec fn obeys_from_spec() -> bool {
        true
    }

    open spec fn from_spec(b: bool) -> Compactability {
        if b {
            Compactability::Yes { final_slash: true }
        } else {
            Compactability::No
        }
    }
}

impl From<Compactability> for bool {
    /// Whether the tag is compactable.
    fn from(c: Compactability) -> (r: bool) {
        match c {
            Compactability::No => false,
            Compactability::Yes { .. } => true,
        }
    }
}

impl vstd::std_specs::convert::FromSpecImpl<Compactability> for bool {
    open spec fn obeys_from_spec() -> bool {
        true
    }

    open spec fn from_spec(c: Compactability) -> bool {
        c is Yes
    }
}

} // verus!
