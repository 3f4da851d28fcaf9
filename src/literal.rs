//! The value of a string literal token: quoted with escapes, or raw.
use vstd::prelude::*;

verus! {

/// The character that `\c` stands for inside a string literal.
pub open spec fn escape_value(c: char) -> Option<char> {
    if c == 'n' {
        Some('\n')
    } else if c == 'r' {
        Some('\r')
    } else if c == 't' {
        Some('\t')
    } else if c == '\\' {
        Some('\\')
    } else if c == '"' {
        Some('"')
    } else if c == '\'' {
        Some('\'')
    } else if c == '0' {
        Some('\0')
    } else {
        None
    }
}

/// The value of a hexadecimal digit; -1 for any other character.
pub open spec fn hex_value(c: char) -> int {
    if '0' <= c && c <= '9' {
        (c as u32) as int - ('0' as u32) as int
    } else if 'a' <= c && c <= 'f' {
        (c as u32) as int - ('a' as u32) as int + 10
    } else if 'A' <= c && c <= 'F' {
        (c as u32) as int - ('A' as u32) as int + 10
    } else {
        -1
    }
}

/// The whitespace that a line continuation skips.
pub open spec fn is_continuation_space(c: char) -> bool {
    c == ' ' || c == '\t' || c == '\n' || c == '\r'
}

/// A Unicode scalar value: a code point that is not a surrogate.
pub open spec fn is_unicode_scalar(v: int) -> bool {
    0 <= v <= 0xD7FF || 0xE000 <= v <= 0x10FFFF
}

/// The digits of a `\u{...}` escape from `j` on, after `count` digits worth
/// `acc`: the code they give and the index after the closing `}`. One to six
/// hexadecimal digits, with `_` allowed after the first.
pub open spec fn unicode_digits(s: Seq<char>, j: int, acc: int, count: int) -> Option<(int, int)>
    decreases s.len() - j,
{
    if j < 0 || j >= s.len() {
        None
    } else if s[j] == '}' {
        if count >= 1 {
            Some((acc, j + 1))
        } else {
            None
        }
    } else if s[j] == '_' {
        if count == 0 {
            None
        } else {
            unicode_digits(s, j + 1, acc, count)
        }
    } else if hex_value(s[j]) >= 0 && count < 6 {
        unicode_digits(s, j + 1, acc * 16 + hex_value(s[j]), count + 1)
    } else {
        None
    }
}

pub open spec fn prepend(acc: Seq<char>, r: Option<Seq<char>>) -> Option<Seq<char>> {
    match r {
        Some(x) => Some(acc + x),
        None => None,
    }
}

/// The characters that the body of a quoted string literal stands for, from
/// index `i` on; `skipping` after a line continuation, while whitespace is
/// dropped. `None` if the body holds a bare `"` or a malformed escape.
pub open spec fn unescape_from(s: Seq<char>, i: int, skipping: bool) -> Option<Seq<char>>
    decreases s.len() - i,
{
    if i < 0 || i >= s.len() {
        Some(Seq::empty())
    } else if skipping && is_continuation_space(s[i]) {
        unescape_from(s, i + 1, true)
    } else if s[i] == '"' {
        None
    } else if s[i] != '\\' {
        prepend(seq![s[i]], unescape_from(s, i + 1, false))
    } else if i + 1 >= s.len() {
        None
    } else if s[i + 1] == '\n' {
        unescape_from(s, i + 2, true)
    } else if s[i + 1] == 'x' {
        if i + 3 < s.len() && hex_value(s[i + 2]) >= 0 && hex_value(s[i + 3]) >= 0 && hex_value(
            s[i + 2],
        ) * 16 + hex_value(s[i + 3]) <= 0x7F {
            let v = hex_value(s[i + 2]) * 16 + hex_value(s[i + 3]);
            prepend(seq![(v as u32) as char], unescape_from(s, i + 4, false))
        } else {
            None
        }
    } else if s[i + 1] == 'u' {
        if i + 2 < s.len() && s[i + 2] == '{' {
            match unicode_digits(s, i + 3, 0, 0) {
                Some((v, k)) => if is_unicode_scalar(v) && i < k <= s.len() {
                    prepend(seq![(v as u32) as char], unescape_from(s, k, false))
                } else {
                    None
                },
                None => None,
            }
        } else {
            None
        }
    } else {
        match escape_value(s[i + 1]) {
            Some(c) => prepend(seq![c], unescape_from(s, i + 2, false)),
            None => None,
        }
    }
}

/// The number of `#` in a row from index `i` on.
pub open spec fn hash_run(s: Seq<char>, i: int) -> int
    decreases s.len() - i,
{
    if 0 <= i < s.len() && s[i] == '#' {
        1 + hash_run(s, i + 1)
    } else {
        0
    }
}

/// The body of a raw string literal `r"..."`, `r#"..."#`, and so on.
pub open spec fn raw_body(raw: Seq<char>) -> Option<Seq<char>> {
    let h = hash_run(raw, 1);
    if raw.len() >= 2 * h + 3 && raw[0] == 'r' && raw[h + 1] == '"' && raw[raw.len() - h - 1]
        == '"' && (forall|k: int| raw.len() - h <= k < raw.len() ==> #[trigger] raw[k] == '#') {
        Some(raw.subrange(h + 2, raw.len() - h - 1))
    } else {
        None
    }
}

/// The value of a string literal: `"..."` with its escapes decoded, or a raw
/// string taken as it stands; `None` for any other literal.
pub open spec fn literal_value(raw: Seq<char>) -> Option<Seq<char>> {
    if raw.len() >= 2 && raw[0] == '"' && raw[raw.len() - 1] == '"' {
        unescape_from(raw.subrange(1, raw.len() - 1), 0, false)
    } else if raw.len() > 0 && raw[0] == 'r' {
        raw_body(raw)
    } else {
        None
    }
}

/// Relies on `char::from_u32`: the character whose code is `n`, which
/// exists exactly when `n` is a Unicode scalar value.
#[verifier::external_body]
fn char_from_u32(n: u32) -> (r: Option<char>)
    ensures
        (r is Some) == is_unicode_scalar(n as int),
        r matches Some(c) ==> c as u32 == n,
{
    char::from_u32(n)
}

fn hex_digit(c: char) -> (r: Option<u32>)
    ensures
        match r {
            Some(d) => hex_value(c) == d as int && d < 16,
            None => hex_value(c) < 0,
        },
{
    if '0' <= c && c <= '9' {
        Some(c as u32 - '0' as u32)
    } else if 'a' <= c && c <= 'f' {
        Some(c as u32 - 'a' as u32 + 10)
    } else if 'A' <= c && c <= 'F' {
        Some(c as u32 - 'A' as u32 + 10)
    } else {
        None
    }
}

/// Appends the character with code `v`, which is a Unicode scalar value.
fn push_code(out: &mut String, v: u32) -> (ok: bool)
    ensures
        ok == is_unicode_scalar(v as int),
        ok ==> final(out)@ == old(out)@ + seq![(v as u32) as char],
        !ok ==> final(out)@ == old(out)@,
{
    match char_from_u32(v) {
        Some(c) => {
            proof {
                vstd::utf8::char_u32_cast(c, v);
            }
            let text = char_text(c);
            out.append(text.as_str());
            true
        },
        None => false,
    }
}

/// Relies on `char::to_string`: the one-character string of `c`.
#[verifier::external_body]
fn char_text(c: char) -> (r: String)
    ensures
        r@ == seq![c],
{
    c.to_string()
}

proof fn lemma_unicode_digits_progress(s: Seq<char>, j: int, acc: int, count: int)
    requires
        0 <= j,
    ensures
        unicode_digits(s, j, acc, count) matches Some((_, k)) ==> j < k <= s.len(),
    decreases s.len() - j,
{
    if 0 <= j < s.len() && s[j] != '}' {
        if s[j] == '_' {
            lemma_unicode_digits_progress(s, j + 1, acc, count);
        } else if hex_value(s[j]) >= 0 && count < 6 {
            lemma_unicode_digits_progress(s, j + 1, acc * 16 + hex_value(s[j]), count + 1);
        }
    }
}

/// Reads the digits and the closing `}` of a `\u{...}` escape from `start`.
fn unicode_escape(body: &str, start: usize) -> (r: Option<(u32, usize)>)
    ensures
        match r {
            Some((v, k)) => unicode_digits(body@, start as int, 0, 0) == Some(
                (v as int, k as int),
            ),
            None => unicode_digits(body@, start as int, 0, 0) is None,
        },
{
    let ghost s = body@;
    let len = body.unicode_len();
    if start >= len {
        return None;
    }
    let mut j: usize = start;
    let mut acc: u32 = 0;
    let mut count: u32 = 0;
    while j < len
        invariant
            len == s.len(),
            s == body@,
            start <= j,
            count <= 6,
            count == 0 ==> acc < 0x1,
            count == 1 ==> acc < 0x10,
            count == 2 ==> acc < 0x100,
            count == 3 ==> acc < 0x1000,
            count == 4 ==> acc < 0x10000,
            count == 5 ==> acc < 0x100000,
            count == 6 ==> acc < 0x1000000,
            unicode_digits(s, start as int, 0, 0) == unicode_digits(
                s,
                j as int,
                acc as int,
                count as int,
            ),
        decreases len - j,
    {
        let d = body.get_char(j);
        if d == '}' {
            if count == 0 {
                return None;
            }
            return Some((acc, j + 1));
        } else if d == '_' {
            if count == 0 {
                return None;
            }
        } else {
            match hex_digit(d) {
                Some(h) => {
                    if count == 6 {
                        return None;
                    }
                    acc = acc * 16 + h;
                    count = count + 1;
                },
                None => {
                    return None;
                },
            }
        }
        j = j + 1;
    }
    None
}

/// Decodes the body of a quoted string literal.
#[verifier::rlimit(60)]
fn unescape_body(body: &str) -> (r: Option<String>)
    ensures
        match r {
            Some(v) => unescape_from(body@, 0, false) == Some(v@),
            None => unescape_from(body@, 0, false) is None,
        },
{
    let len = body.unicode_len();
    let mut out = String::new();
    let mut i: usize = 0;
    let mut skipping = false;
    while i < len
        invariant
            len == body@.len(),
            i <= len,
            unescape_from(body@, 0, false) == prepend(out@, unescape_from(body@, i as int, skipping)),
        decreases len - i,
    {
        let ghost s = body@;
        let ghost before = out@;
        let c = body.get_char(i);
        if skipping && (c == ' ' || c == '\t' || c == '\n' || c == '\r') {
            i = i + 1;
        } else if c == '"' {
            return None;
        } else if c != '\\' {
            out.append(body.substring_char(i, i + 1));
            proof {
                if let Some(x) = unescape_from(s, i + 1, false) {
                    assert(before + (seq![c] + x) =~= out@ + x);
                }
            }
            skipping = false;
            i = i + 1;
        } else if i + 1 >= len {
            return None;
        } else {
            let e = body.get_char(i + 1);
            if e == '\n' {
                skipping = true;
                i = i + 2;
            } else if e == 'x' {
                if len - i <= 3 {
                    return None;
                }
                let (hi, lo) = match (hex_digit(body.get_char(i + 2)), hex_digit(body.get_char(i + 3))) {
                    (Some(hi), Some(lo)) => (hi, lo),
                    _ => {
                        return None;
                    },
                };
                let v: u32 = hi * 16 + lo;
                if v > 0x7F {
                    return None;
                }
                push_code(&mut out, v);
                proof {
                    if let Some(x) = unescape_from(s, i + 4, false) {
                        assert(before + (seq![(v as u32) as char] + x) =~= out@ + x);
                    }
                }
                skipping = false;
                i = i + 4;
            } else if e == 'u' {
                if len - i <= 2 || body.get_char(i + 2) != '{' {
                    return None;
                }
                let (acc, j) = match unicode_escape(body, i + 3) {
                    Some(x) => x,
                    None => {
                        return None;
                    },
                };
                proof {
                    lemma_unicode_digits_progress(s, i + 3, 0, 0);
                }
                if !push_code(&mut out, acc) {
                    return None;
                }
                proof {
                    if let Some(x) = unescape_from(s, j as int, false) {
                        assert(before + (seq![(acc as u32) as char] + x) =~= out@ + x);
                    }
                }
                skipping = false;
                i = j;
            } else {
                let unit: &str = match e {
                    'n' => "\n",
                    'r' => "\r",
                    't' => "\t",
                    '\\' => "\\",
                    '"' => "\"",
                    '\'' => "'",
                    '0' => "\0",
                    _ => {
                        return None;
                    },
                };
                proof {
                    reveal_strlit("\n");
                    reveal_strlit("\r");
                    reveal_strlit("\t");
                    reveal_strlit("\\");
                    reveal_strlit("\"");
                    reveal_strlit("'");
                    reveal_strlit("\0");
                    assert(unit@ =~= seq![escape_value(e)->Some_0]);
                }
                out.append(unit);
                proof {
                    if let Some(x) = unescape_from(s, i + 2, false) {
                        assert(before + (seq![escape_value(e)->Some_0] + x) =~= out@ + x);
                    }
                }
                skipping = false;
                i = i + 2;
            }
        }
    }
    assert(out@ + Seq::<char>::empty() =~= out@);
    Some(out)
}

/// The value of the string literal whose source text is `raw`: quoted, with
/// every escape of the language decoded, or raw, taken as it stands.
pub fn string_literal_value(raw: &str) -> (r: Option<String>)
    ensures
        match r {
            Some(v) => literal_value(raw@) == Some(v@),
            None => literal_value(raw@) is None,
        },
{
    let len = raw.unicode_len();
    if len == 0 {
        return None;
    }
    let first = raw.get_char(0);
    if len >= 2 && first == '"' && raw.get_char(len - 1) == '"' {
        return unescape_body(raw.substring_char(1, len - 1));
    }
    if first != 'r' {
        return None;
    }
    let mut h: usize = 0;
    while 1 + h < len && raw.get_char(1 + h) == '#'
        invariant
            len == raw@.len(),
            1 + h <= len,
            hash_run(raw@, 1) == h + hash_run(raw@, 1 + h),
        decreases len - h,
    {
        h = h + 1;
    }
    assert(hash_run(raw@, 1 + h) == 0);
    assert(hash_run(raw@, 1) == h);
    if len - h < h || len - h - h < 3 || raw.get_char(h + 1) != '"' || raw.get_char(len - h - 1)
        != '"' {
        return None;
    }
    let mut k: usize = len - h;
    while k < len
        invariant
            len == raw@.len(),
            h <= len,
            len - h <= k <= len,
            hash_run(raw@, 1) == h,
            len >= 2 * h + 3,
            raw@[h + 1] == '"',
            raw@[len - h - 1] == '"',
            raw@[0] == 'r',
            forall|t: int| len - h <= t < k ==> #[trigger] raw@[t] == '#',
        decreases len - k,
    {
        if raw.get_char(k) != '#' {
            assert(!(raw@[k as int] == '#'));
            return None;
        }
        k = k + 1;
    }
    Some(String::from_str(raw.substring_char(h + 2, len - h - 1)))
}

} // verus!
