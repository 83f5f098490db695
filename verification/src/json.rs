//! Quoting a string as a JSON string literal.
use vstd::prelude::*;
use crate::text::push_char;
use vstd::string::StrSliceExecFns;

verus! {

/// The lower-case hexadecimal digit for a value below sixteen.
pub open spec fn hex_digit(v: int) -> char {
    if v < 10 {
        (('0' as int) + v) as char
    } else {
        (('a' as int) + v - 10) as char
    }
}

/// What one character becomes inside a JSON string literal: quote and
/// backslash are escaped with a backslash, newline, carriage return and tab
/// get their short escapes, other control characters a `\u00XX` escape, and
/// every other character stands for itself.
pub open spec fn escape_char(c: char) -> Seq<char> {
    if c == '"' {
        seq!['\\', '"']
    } else if c == '\\' {
        seq!['\\', '\\']
    } else if c == '\n' {
        seq!['\\', 'n']
    } else if c == '\r' {
        seq!['\\', 'r']
    } else if c == '\t' {
        seq!['\\', 't']
    } else if (c as int) < 0x20 {
        seq!['\\', 'u', '0', '0', hex_digit((c as int) / 16), hex_digit((c as int) % 16)]
    } else {
        seq![c]
    }
}

/// The escaped characters of `s`, without the surrounding quotes.
pub open spec fn escape_body(s: Seq<char>) -> Seq<char>
    decreases s.len(),
{
    if s.len() == 0 {
        Seq::empty()
    } else {
        escape_body(s.drop_last()) + escape_char(s.last())
    }
}

/// `s` as a JSON string literal.
pub open spec fn json_quoted(s: Seq<char>) -> Seq<char> {
    seq!['"'] + escape_body(s) + seq!['"']
}

/// The value of a hexadecimal digit character, or `-1` for any other
/// character.
pub open spec fn hex_value(c: char) -> int {
    if '0' <= c && c <= '9' {
        (c as int) - ('0' as int)
    } else if 'a' <= c && c <= 'f' {
        (c as int) - ('a' as int) + 10
    } else if 'A' <= c && c <= 'F' {
        (c as int) - ('A' as int) + 10
    } else {
        -1
    }
}

/// `c` in front of a decoded sequence, if there is one.
pub open spec fn prepend(c: char, r: Option<Seq<char>>) -> Option<Seq<char>> {
    match r {
        Some(x) => Some(seq![c] + x),
        None => None,
    }
}

/// `s` in front of a decoded sequence, if there is one.
pub open spec fn prepend_all(s: Seq<char>, r: Option<Seq<char>>) -> Option<Seq<char>> {
    match r {
        Some(x) => Some(s + x),
        None => None,
    }
}

/// Decodes the inside of a JSON string literal: a raw quote or control
/// character is an error, a backslash starts one of the escapes `\"`, `\\`,
/// `\/`, `\b`, `\f`, `\n`, `\r`, `\t` or `\uXXXX`, and any other character
/// stands for itself. A `\u` escape of a surrogate code point is not decoded.
pub open spec fn decode_body(t: Seq<char>) -> Option<Seq<char>>
    decreases t.len(),
{
    if t.len() == 0 {
        Some(Seq::empty())
    } else if t[0] == '"' || (t[0] as int) < 0x20 {
        None
    } else if t[0] != '\\' {
        prepend(t[0], decode_body(t.drop_first()))
    } else if t.len() < 2 {
        None
    } else {
        let e = t[1];
        if e == '"' || e == '\\' || e == '/' {
            prepend(e, decode_body(t.skip(2)))
        } else if e == 'b' {
            prepend('\u{8}', decode_body(t.skip(2)))
        } else if e == 'f' {
            prepend('\u{c}', decode_body(t.skip(2)))
        } else if e == 'n' {
            prepend('\n', decode_body(t.skip(2)))
        } else if e == 'r' {
            prepend('\r', decode_body(t.skip(2)))
        } else if e == 't' {
            prepend('\t', decode_body(t.skip(2)))
        } else if e == 'u' && t.len() >= 6 && hex_value(t[2]) >= 0 && hex_value(t[3]) >= 0
            && hex_value(t[4]) >= 0 && hex_value(t[5]) >= 0 {
            let v = 4096 * hex_value(t[2]) + 256 * hex_value(t[3]) + 16 * hex_value(t[4])
                + hex_value(t[5]);
            if 0xD800 <= v && v <= 0xDFFF {
                None
            } else {
                prepend(v as char, decode_body(t.skip(6)))
            }
        } else {
            None
        }
    }
}

/// Decodes a JSON string literal: a quote, the escaped characters, a quote.
pub open spec fn json_decode(q: Seq<char>) -> Option<Seq<char>> {
    if q.len() >= 2 && q[0] == '"' && q.last() == '"' {
        decode_body(q.subrange(1, q.len() - 1))
    } else {
        None
    }
}

proof fn lemma_hex_digit_value(v: int)
    requires
        0 <= v < 16,
    ensures
        hex_value(hex_digit(v)) == v,
        (hex_digit(v) as int) >= 0x30,
{
}

proof fn lemma_decode_escape_char(c: char, t: Seq<char>)
    ensures
        decode_body(escape_char(c) + t) == prepend(c, decode_body(t)),
{
    let u = escape_char(c) + t;
    if (c == '"' || c == '\\' || c == '\n' || c == '\r' || c == '\t') {
        assert(u.skip(2) =~= t);
    } else if (c as int) < 0x20 {
        let ci = c as int;
        lemma_hex_digit_value(ci / 16);
        lemma_hex_digit_value(ci % 16);
        assert(u.skip(6) =~= t);
        assert(u[2] == '0' && u[3] == '0');
        assert(hex_value(u[4]) == ci / 16);
        assert(hex_value(u[5]) == ci % 16);
        assert(4096 * hex_value(u[2]) + 256 * hex_value(u[3]) + 16 * hex_value(u[4]) + hex_value(
            u[5],
        ) == ci);
    } else {
        assert(u.drop_first() =~= t);
    }
}

proof fn lemma_decode_escape_body(s: Seq<char>, t: Seq<char>)
    ensures
        decode_body(escape_body(s) + t) == prepend_all(s, decode_body(t)),
    decreases s.len(),
{
    if s.len() == 0 {
        assert(escape_body(s) + t =~= t);
        match decode_body(t) {
            Some(x) => {
                assert(s + x =~= x);
            },
            None => {},
        }
    } else {
        let init = s.drop_last();
        let c = s.last();
        let t2 = escape_char(c) + t;
        lemma_decode_escape_body(init, t2);
        lemma_decode_escape_char(c, t);
        assert(escape_body(s) + t =~= escape_body(init) + t2);
        match decode_body(t) {
            Some(x) => {
                assert(init + (seq![c] + x) =~= s + x);
            },
            None => {},
        }
    }
}

proof fn lemma_escape_char_printable(c: char)
    ensures
        forall|i: int| 0 <= i < escape_char(c).len() ==> (#[trigger] escape_char(c)[i] as int) >= 0x20,
{
    if (c as int) < 0x20 && !(c == '\n' || c == '\r' || c == '\t') {
        lemma_hex_digit_value((c as int) / 16);
        lemma_hex_digit_value((c as int) % 16);
    }
}

proof fn lemma_escape_body_printable(s: Seq<char>)
    ensures
        forall|i: int| 0 <= i < escape_body(s).len() ==> (#[trigger] escape_body(s)[i] as int) >= 0x20,
    decreases s.len(),
{
    if s.len() > 0 {
        let init = s.drop_last();
        let c = s.last();
        lemma_escape_body_printable(init);
        lemma_escape_char_printable(c);
        let e = escape_char(c);
        assert forall|i: int| 0 <= i < escape_body(s).len() implies (#[trigger] escape_body(
            s,
        )[i] as int) >= 0x20 by {
            if i >= escape_body(init).len() {
                assert(escape_body(s)[i] == e[i - escape_body(init).len()]);
            } else {
                assert(escape_body(s)[i] == escape_body(init)[i]);
            }
        }
    }
}

/// Decoding a quoted string gives the string back, and the quoted form
/// holds no raw control character: it is a well-formed JSON string literal
/// for every string.
pub proof fn law_json_quoted_decodes(s: Seq<char>)
    ensures
        json_decode(json_quoted(s)) == Some(s),
        json_quoted(s)[0] == '"',
        json_quoted(s).last() == '"',
        forall|i: int| 0 <= i < json_quoted(s).len() ==> (#[trigger] json_quoted(s)[i] as int) >= 0x20,
{
    let q = json_quoted(s);
    let b = escape_body(s);
    assert(q.subrange(1, q.len() - 1) =~= b);
    lemma_decode_escape_body(s, Seq::empty());
    assert(b + Seq::<char>::empty() =~= b);
    assert(s + Seq::<char>::empty() =~= s);
    lemma_escape_body_printable(s);
    assert forall|i: int| 0 <= i < q.len() implies (#[trigger] q[i] as int) >= 0x20 by {
        if 1 <= i < q.len() - 1 {
            assert(q[i] == b[i - 1]);
        }
    }
}

/// The hexadecimal digit character for `v`.
fn hex_char(v: u32) -> (c: char)
    requires
        v < 16,
    ensures
        c == hex_digit(v as int),
{
    if v < 10 {
        char_from_code(48 + v)
    } else {
        char_from_code(87 + v)
    }
}

/// The character with an ASCII code.
pub(crate) fn char_from_code(code: u32) -> (c: char)
    requires
        code < 128,
    ensures
        c as int == code as int,
{
    let b = code as u8;
    b as char
}

/// Quotes `s` as a JSON string literal.
pub fn json_str(s: &str) -> (out: String)
    ensures
        out@ == json_quoted(s@),
{
    let n = s.unicode_len();
    let mut out = String::new();
    push_char(&mut out, '"');
    for i in 0..n
        invariant
            n == s@.len(),
            out@ == seq!['"'] + escape_body(s@.take(i as int)),
    {
        let c = s.get_char(i);
        let ghost before = out@;
        if c == '"' {
            push_char(&mut out, '\\');
            push_char(&mut out, '"');
        } else if c == '\\' {
            push_char(&mut out, '\\');
            push_char(&mut out, '\\');
        } else if c == '\n' {
            push_char(&mut out, '\\');
            push_char(&mut out, 'n');
        } else if c == '\r' {
            push_char(&mut out, '\\');
            push_char(&mut out, 'r');
        } else if c == '\t' {
            push_char(&mut out, '\\');
            push_char(&mut out, 't');
        } else if (c as u32) < 0x20 {
            let code = c as u32;
            push_char(&mut out, '\\');
            push_char(&mut out, 'u');
            push_char(&mut out, '0');
            push_char(&mut out, '0');
            push_char(&mut out, hex_char(code / 16));
            push_char(&mut out, hex_char(code % 16));
        } else {
            push_char(&mut out, c);
        }
        proof {
            assert(s@.take(i + 1).drop_last() =~= s@.take(i as int));
            assert(s@.take(i + 1).last() == c);
            assert(out@ =~= before + escape_char(c));
        }
    }
    proof {
        assert(s@.take(n as int) =~= s@);
    }
    push_char(&mut out, '"');
    out
}

} // verus!
