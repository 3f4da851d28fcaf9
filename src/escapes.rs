//! Streaming escapers for attribute values and for text content.
use vstd::prelude::*;
use crate::env::{HtmlEnv, WriteError, wrote, failed_write};

verus! {

/// What the attribute-value escaper writes for one character.
pub open spec fn string_escape_char(c: char) -> Seq<char> {
    if c == '"' {
        seq!['\\', '"']
    } else if c == '\'' {
        seq!['\\', '\'']
    } else if c == '\\' {
        seq!['\\', '\\']
    } else if c == '\r' {
        seq!['\\', 'r']
    } else if c == '\n' {
        seq!['\\', 'n']
    } else if c == '\t' {
        seq!['\\', 't']
    } else {
        seq![c]
    }
}

/// What the text-content escaper writes for one character.
pub open spec fn html_escape_char(c: char) -> Seq<char> {
    if c == '<' {
        seq!['&', 'l', 't', ';']
    } else if c == '>' {
        seq!['&', 'g', 't', ';']
    } else if c == '&' {
        seq!['&', 'a', 'm', 'p', ';']
    } else if c == '\n' {
        seq!['<', 'b', 'r', '>']
    } else {
        seq![c]
    }
}

/// `s` with every character replaced by what `f` gives for it.
pub open spec fn escaped(s: Seq<char>, f: spec_fn(char) -> Seq<char>) -> Seq<char>
    decreases s.len(),
{
    if s.len() == 0 {
        Seq::empty()
    } else {
        escaped(s.drop_last(), f) + f(s.last())
    }
}

pub open spec fn string_escape_fn() -> spec_fn(char) -> Seq<char> {
    |c: char| string_escape_char(c)
}

pub open spec fn html_escape_fn() -> spec_fn(char) -> Seq<char> {
    |c: char| html_escape_char(c)
}

/// An attribute value as the attribute-value escaper writes it.
pub open spec fn string_escape(s: Seq<char>) -> Seq<char> {
    escaped(s, string_escape_fn())
}

/// Text content as the text-content escaper writes it.
pub open spec fn html_escape(s: Seq<char>) -> Seq<char> {
    escaped(s, html_escape_fn())
}

/// The escape of a prefix is a prefix of the escape.
pub proof fn lemma_escaped_prefix(s: Seq<char>, f: spec_fn(char) -> Seq<char>, i: int)
    requires
        0 <= i <= s.len(),
    ensures
        escaped(s.take(i), f).len() <= escaped(s, f).len(),
        escaped(s, f).take(escaped(s.take(i), f).len() as int) == escaped(s.take(i), f),
    decreases s.len(),
{
    if i == s.len() {
        assert(s.take(i) =~= s);
        assert(escaped(s, f).take(escaped(s, f).len() as int) =~= escaped(s, f));
    } else {
        assert(s.drop_last().take(i) =~= s.take(i));
        lemma_escaped_prefix(s.drop_last(), f, i);
        let e = escaped(s.take(i), f);
        assert(escaped(s, f).take(e.len() as int) =~= escaped(s.drop_last(), f).take(
            e.len() as int,
        ));
    }
}

/// Escaping works character by character: escaping two pieces one after the
/// other writes the same as escaping them joined, so text may be streamed
/// through an escaper in pieces of any size.
pub proof fn lemma_escaped_split(a: Seq<char>, b: Seq<char>, f: spec_fn(char) -> Seq<char>)
    ensures
        escaped(a + b, f) == escaped(a, f) + escaped(b, f),
    decreases b.len(),
{
    if b.len() == 0 {
        assert(a + b =~= a);
        assert(escaped(a, f) + escaped(b, f) =~= escaped(a, f));
    } else {
        assert((a + b).drop_last() =~= a + b.drop_last());
        lemma_escaped_split(a, b.drop_last(), f);
        assert(escaped(a + b, f) =~= escaped(a, f) + escaped(b, f));
    }
}

/// Escapes the whole of `s` through `f`, one unit per write.
fn write_escaped<W: HtmlEnv>(
    w: &mut W,
    s: &str,
    f: Ghost<spec_fn(char) -> Seq<char>>,
    attr: bool,
) -> (r: Result<(), WriteError>)
    requires
        attr ==> f@ == string_escape_fn(),
        !attr ==> f@ == html_escape_fn(),
    ensures
        r is Ok ==> wrote(*old(w), *final(w), escaped(s@, f@)),
        r is Err ==> exists|i: int|
            0 <= i < s@.len() && #[trigger] failed_write(
                *old(w),
                *final(w),
                escaped(s@, f@),
                escaped(s@.take(i), f@).len() as int,
                escaped(s@.take(i + 1), f@).len() as int,
            ),
{
    let len = s.unicode_len();
    let mut i: usize = 0;
    while i < len
        invariant
            len == s@.len(),
            i <= len,
            attr ==> f@ == string_escape_fn(),
            !attr ==> f@ == html_escape_fn(),
            wrote(*old(w), *w, escaped(s@.take(i as int), f@)),
        decreases len - i,
    {
        let c = s.get_char(i);
        let unit: &str = if attr {
            match c {
                '"' => "\\\"",
                '\'' => "\\'",
                '\\' => "\\\\",
                '\r' => "\\r",
                '\n' => "\\n",
                '\t' => "\\t",
                _ => s.substring_char(i, i + 1),
            }
        } else {
            match c {
                '<' => "&lt;",
                '>' => "&gt;",
                '&' => "&amp;",
                '\n' => "<br>",
                _ => s.substring_char(i, i + 1),
            }
        };
        proof {
            reveal_strlit("\\\"");
            reveal_strlit("\\'");
            reveal_strlit("\\\\");
            reveal_strlit("\\r");
            reveal_strlit("\\n");
            reveal_strlit("\\t");
            reveal_strlit("&lt;");
            reveal_strlit("&gt;");
            reveal_strlit("&amp;");
            reveal_strlit("<br>");
            assert(unit@ =~= f@(c));
            assert(s@.take(i + 1).drop_last() =~= s@.take(i as int));
            assert(escaped(s@.take(i + 1), f@) == escaped(s@.take(i as int), f@) + f@(c));
            lemma_escaped_prefix(s@, f@, i + 1);
            lemma_escaped_prefix(s@, f@, i as int);
        }
        let ghost before = *w;
        match w.write_str(unit) {
            Ok(()) => {
                assert(w.text() =~= old(w).text() + escaped(s@.take(i + 1), f@));
            },
            Err(e) => {
                proof {
                    let m = escaped(s@.take(i as int), f@).len() as int;
                    let n = escaped(s@.take(i + 1), f@).len() as int;
                    assert(escaped(s@, f@).take(m) =~= escaped(s@.take(i as int), f@));
                    assert(failed_write(*old(w), *w, escaped(s@, f@), m, n));
                    assert(0 <= i < s@.len());
                }
                return Err(e);
            },
        }
        i = i + 1;
    }
    proof {
        assert(s@.take(len as int) =~= s@);
    }
    Ok(())
}

/// Escapes text for the inside of a quoted attribute value:
/// `"`, `'`, `\`, CR, LF and TAB become two-character escapes.
#[derive(Debug, Clone, Copy)]
pub struct StringEscaper;

impl StringEscaper {
    pub fn new() -> (r: Self) {
        StringEscaper
    }

    /// Writes `s` escaped to `w`, one escaped character per write; stops at
    /// the first refused write, which is the escape of a single character.
    pub fn write_str<W: HtmlEnv>(&self, w: &mut W, s: &str) -> (r: Result<(), WriteError>)
        ensures
            r is Ok ==> wrote(*old(w), *final(w), string_escape(s@)),
            r is Err ==> exists|i: int|
                0 <= i < s@.len() && #[trigger] failed_write(
                    *old(w),
                    *final(w),
                    string_escape(s@),
                    string_escape(s@.take(i)).len() as int,
                    string_escape(s@.take(i + 1)).len() as int,
                ),
    {
        let r = write_escaped(w, s, Ghost(string_escape_fn()), true);
        proof {
            if r is Err {
                let i = choose|i: int|
                    0 <= i < s@.len() && #[trigger] failed_write(
                        *old(w),
                        *w,
                        escaped(s@, string_escape_fn()),
                        escaped(s@.take(i), string_escape_fn()).len() as int,
                        escaped(s@.take(i + 1), string_escape_fn()).len() as int,
                    );
                assert(failed_write(
                    *old(w),
                    *w,
                    string_escape(s@),
                    string_escape(s@.take(i)).len() as int,
                    string_escape(s@.take(i + 1)).len() as int,
                ));
            }
        }
        r
    }
}

/// Escapes text for the inside of an element: `<`, `>` and `&` become entities
/// and a newline becomes a `<br>` element.
#[derive(Debug, Clone, Copy)]
pub struct HtmlEscaper;

impl HtmlEscaper {
    pub fn new() -> (r: Self) {
        HtmlEscaper
    }

    /// Writes `s` escaped to `w`, one escaped character per write; stops at
    /// the first refused write, which is the escape of a single character.
    pub fn write_str<W: HtmlEnv>(&self, w: &mut W, s: &str) -> (r: Result<(), WriteError>)
        ensures
            r is Ok ==> wrote(*old(w), *final(w), html_escape(s@)),
            r is Err ==> exists|i: int|
                0 <= i < s@.len() && #[trigger] failed_write(
                    *old(w),
                    *final(w),
                    html_escape(s@),
                    html_escape(s@.take(i)).len() as int,
                    html_escape(s@.take(i + 1)).len() as int,
                ),
    {
        let r = write_escaped(w, s, Ghost(html_escape_fn()), false);
        proof {
            if r is Err {
                let i = choose|i: int|
                    0 <= i < s@.len() && #[trigger] failed_write(
                        *old(w),
                        *w,
                        escaped(s@, html_escape_fn()),
                        escaped(s@.take(i), html_escape_fn()).len() as int,
                        escaped(s@.take(i + 1), html_escape_fn()).len() as int,
                    );
                assert(failed_write(
                    *old(w),
                    *w,
                    html_escape(s@),
                    html_escape(s@.take(i)).len() as int,
                    html_escape(s@.take(i + 1)).len() as int,
                ));
            }
        }
        r
    }
}

} // verus!
