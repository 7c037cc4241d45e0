//! The string escaping of the JSON writer: text goes out as ASCII alone.
//!
//! An ASCII character is written as itself. Any other character is written
//! as its UTF-16 code units, one for a character of the Basic Multilingual
//! Plane and a surrogate pair for any other, each as `\uXXXX` with four
//! uppercase hexadecimal digits. This holds for every non-ASCII character,
//! not only for those that JSON requires to be escaped.

use vstd::prelude::*;
use crate::text::{chars_of, hex_char, hex_chars, hex_digit, string_of};
use vstd::utf8::{encode_utf8, is_ascii_chars, is_ascii_chars_encode_utf8};

verus! {

/// `u` as four uppercase hexadecimal digits.
pub open spec fn hex4(u: int) -> Seq<char> {
    seq![hex_char((u / 4096) % 16), hex_char((u / 256) % 16), hex_char((u / 16) % 16), hex_char(u % 16)]
}

/// The JSON escape `\uXXXX` of the UTF-16 code unit `u`.
pub open spec fn unit_escape(u: int) -> Seq<char> {
    seq!['\\', 'u'] + hex4(u)
}

/// The high surrogate of a code point above the Basic Multilingual Plane.
pub open spec fn high_unit(v: int) -> int {
    0xD800 + (v - 0x10000) / 0x400
}

/// The low surrogate of a code point above the Basic Multilingual Plane.
pub open spec fn low_unit(v: int) -> int {
    0xDC00 + (v - 0x10000) % 0x400
}

/// How the character `c` is written.
pub open spec fn escape_char(c: char) -> Seq<char> {
    let v = c as u32 as int;
    if v < 0x80 {
        seq![c]
    } else if v < 0x10000 {
        unit_escape(v)
    } else {
        unit_escape(high_unit(v)) + unit_escape(low_unit(v))
    }
}

/// How the text `s` is written.
pub open spec fn escaped(s: Seq<char>) -> Seq<char>
    decreases s.len(),
{
    if s.len() == 0 {
        Seq::empty()
    } else {
        escaped(s.drop_last()) + escape_char(s.last())
    }
}

/// Appends `u` as four uppercase hexadecimal digits, after `\u`.
fn push_unit_escape(out: &mut Vec<char>, u: u32)
    requires
        u < 0x10000,
    ensures
        final(out)@ == old(out)@ + unit_escape(u as int),
{
    out.push('\\');
    out.push('u');
    out.push(hex_digit((u / 4096) % 16));
    out.push(hex_digit((u / 256) % 16));
    out.push(hex_digit((u / 16) % 16));
    out.push(hex_digit(u % 16));
    assert(final(out)@ =~= old(out)@ + unit_escape(u as int));
}

/// The text `fragment` as the JSON writer puts it out: ASCII characters as
/// they are, every other character as `\uXXXX` escapes of its UTF-16 code
/// units.
pub fn escape_fragment(fragment: &str) -> (r: String)
    ensures
        r@ == escaped(fragment@),
{
    let chars = chars_of(fragment);
    let mut out: Vec<char> = Vec::new();
    let mut i: usize = 0;
    while i < chars.len()
        invariant
            i <= chars.len(),
            chars@ == fragment@,
            out@ == escaped(chars@.subrange(0, i as int)),
        decreases chars.len() - i,
    {
        let ghost before = out@;
        assert(chars@.subrange(0, i + 1).drop_last() =~= chars@.subrange(0, i as int));
        let c = chars[i];
        let v = c as u32;
        proof {
            vstd::utf8::char_is_scalar(c);
        }
        if v < 0x80 {
            out.push(c);
        } else if v < 0x10000 {
            push_unit_escape(&mut out, v);
        } else {
            let high = 0xD800 + (v - 0x10000) / 0x400;
            let low = 0xDC00 + (v - 0x10000) % 0x400;
            push_unit_escape(&mut out, high);
            let ghost mid = out@;
            push_unit_escape(&mut out, low);
            assert(out@ =~= before + (unit_escape(high as int) + unit_escape(low as int)));
        }
        assert(out@ =~= before + escape_char(c));
        i = i + 1;
    }
    assert(chars@.subrange(0, i as int) =~= chars@);
    string_of(&out)
}

proof fn lemma_hex_char_ascii(n: int)
    requires
        0 <= n < 16,
    ensures
        hex_char(n) <= '\u{7f}',
{
}

proof fn lemma_unit_escape_ascii(u: int)
    requires
        0 <= u,
    ensures
        forall|k: int| 0 <= k < unit_escape(u).len() ==> #[trigger] unit_escape(u)[k] <= '\u{7f}',
{
    lemma_hex_char_ascii((u / 4096) % 16);
    lemma_hex_char_ascii((u / 256) % 16);
    lemma_hex_char_ascii((u / 16) % 16);
    lemma_hex_char_ascii(u % 16);
}

proof fn lemma_escape_char_ascii(c: char)
    ensures
        forall|k: int| 0 <= k < escape_char(c).len() ==> #[trigger] escape_char(c)[k] <= '\u{7f}',
{
    let v = c as u32 as int;
    if v >= 0x10000 {
        let a = unit_escape(high_unit(v));
        let b = unit_escape(low_unit(v));
        lemma_unit_escape_ascii(high_unit(v));
        lemma_unit_escape_ascii(low_unit(v));
        assert forall|k: int| 0 <= k < (a + b).len() implies (a + b)[k] <= '\u{7f}' by {
            if k < a.len() {
                assert((a + b)[k] == a[k]);
            } else {
                assert((a + b)[k] == b[k - a.len()]);
            }
        }
    } else if v >= 0x80 {
        lemma_unit_escape_ascii(v);
    }
}

proof fn lemma_escaped_chars_ascii(s: Seq<char>)
    ensures
        forall|k: int| 0 <= k < escaped(s).len() ==> #[trigger] escaped(s)[k] <= '\u{7f}',
    decreases s.len(),
{
    if s.len() > 0 {
        lemma_escaped_chars_ascii(s.drop_last());
        lemma_escape_char_ascii(s.last());
        let a = escaped(s.drop_last());
        let b = escape_char(s.last());
        assert forall|k: int| 0 <= k < (a + b).len() implies (a + b)[k] <= '\u{7f}' by {
            if k < a.len() {
                assert((a + b)[k] == a[k]);
            } else {
                assert((a + b)[k] == b[k - a.len()]);
            }
        }
    }
}

/// The written text is pure ASCII: every character of it, and every byte
/// of its UTF-8 encoding, lies below `0x80`, so no non-ASCII character
/// reaches the output unescaped.
pub proof fn lemma_escaped_is_ascii(s: Seq<char>)
    ensures
        is_ascii_chars(escaped(s)),
        forall|k: int|
            0 <= k < encode_utf8(escaped(s)).len() ==> #[trigger] encode_utf8(escaped(s))[k] < 0x80,
{
    let t = escaped(s);
    lemma_escaped_chars_ascii(s);
    assert forall|k: int| 0 <= k < t.len() implies '\0' <= #[trigger] t[k] <= '\u{7f}' by {
        assert(t[k] <= '\u{7f}');
        vstd::utf8::char_is_scalar(t[k]);
        vstd::utf8::char_u32_cast(t[k], t[k] as u32);
    }
    is_ascii_chars_encode_utf8(t);
    assert forall|k: int| 0 <= k < encode_utf8(t).len() implies #[trigger] encode_utf8(t)[k] < 0x80 by {
        assert(t[k] as u8 == encode_utf8(t)[k]);
        assert(t[k] <= '\u{7f}');
    }
}

/// The value of the hexadecimal digit `c` (either case).
pub open spec fn hex_value(c: char) -> int {
    if '0' <= c && c <= '9' {
        c as int - '0' as int
    } else if 'A' <= c && c <= 'F' {
        c as int - 'A' as int + 10
    } else if 'a' <= c && c <= 'f' {
        c as int - 'a' as int + 10
    } else {
        -1
    }
}

/// `t` holds a `\uXXXX` escape at `i`.
pub open spec fn is_unit_escape(t: Seq<char>, i: int) -> bool {
    0 <= i && i + 6 <= t.len() && t[i] == '\\' && t[i + 1] == 'u' && hex_value(t[i + 2]) >= 0
        && hex_value(t[i + 3]) >= 0 && hex_value(t[i + 4]) >= 0 && hex_value(t[i + 5]) >= 0
}

/// The code unit of the `\uXXXX` escape at `i` in `t`.
pub open spec fn unit_at(t: Seq<char>, i: int) -> int {
    4096 * hex_value(t[i + 2]) + 256 * hex_value(t[i + 3]) + 16 * hex_value(t[i + 4]) + hex_value(
        t[i + 5],
    )
}

/// The text that a JSON reader takes from the string contents `t`: each
/// `\uXXXX` escape becomes its character, a high and a low surrogate escape
/// in a row becoming the character of the pair; anything else is kept.
pub open spec fn unescaped(t: Seq<char>) -> Seq<char>
    decreases t.len(),
{
    if t.len() == 0 {
        Seq::empty()
    } else if is_unit_escape(t, 0) {
        let u = unit_at(t, 0);
        if 0xD800 <= u <= 0xDBFF && is_unit_escape(t, 6) && 0xDC00 <= unit_at(t, 6) <= 0xDFFF {
            seq![(0x10000 + (u - 0xD800) * 0x400 + (unit_at(t, 6) - 0xDC00)) as char] + unescaped(
                t.subrange(12, t.len() as int),
            )
        } else {
            seq![u as char] + unescaped(t.subrange(6, t.len() as int))
        }
    } else {
        seq![t[0]] + unescaped(t.drop_first())
    }
}

proof fn lemma_hex_round_trip(n: int)
    requires
        0 <= n < 16,
    ensures
        hex_value(hex_char(n)) == n,
{
    assert(hex_chars()[0] == '0' && hex_chars()[1] == '1' && hex_chars()[2] == '2');
    assert(hex_chars()[3] == '3' && hex_chars()[4] == '4' && hex_chars()[5] == '5');
    assert(hex_chars()[6] == '6' && hex_chars()[7] == '7' && hex_chars()[8] == '8');
    assert(hex_chars()[9] == '9' && hex_chars()[10] == 'A' && hex_chars()[11] == 'B');
    assert(hex_chars()[12] == 'C' && hex_chars()[13] == 'D' && hex_chars()[14] == 'E');
    assert(hex_chars()[15] == 'F');
}

proof fn lemma_unit_escape_read(u: int, rest: Seq<char>)
    requires
        0 <= u < 0x10000,
    ensures
        is_unit_escape(unit_escape(u) + rest, 0),
        unit_at(unit_escape(u) + rest, 0) == u,
        (unit_escape(u) + rest).subrange(6, (unit_escape(u) + rest).len() as int) == rest,
{
    let t = unit_escape(u) + rest;
    let (a, b, c, d) = ((u / 4096) % 16, (u / 256) % 16, (u / 16) % 16, u % 16);
    lemma_hex_round_trip(a);
    lemma_hex_round_trip(b);
    lemma_hex_round_trip(c);
    lemma_hex_round_trip(d);
    assert(t[2] == hex_char(a) && t[3] == hex_char(b) && t[4] == hex_char(c) && t[5] == hex_char(d));
    assert(4096 * a + 256 * b + 16 * c + d == u) by (nonlinear_arith)
        requires
            0 <= u < 0x10000,
            a == (u / 4096) % 16,
            b == (u / 256) % 16,
            c == (u / 16) % 16,
            d == u % 16,
    ;
    assert(t.subrange(6, t.len() as int) =~= rest);
}

proof fn lemma_escaped_front(s: Seq<char>)
    requires
        s.len() > 0,
    ensures
        escaped(s) == escape_char(s[0]) + escaped(s.drop_first()),
    decreases s.len(),
{
    if s.len() > 1 {
        lemma_escaped_front(s.drop_last());
        assert(s.drop_last().drop_first() =~= s.drop_first().drop_last());
        assert(s.drop_first().last() == s.last());
        assert(s.drop_last()[0] == s[0]);
    } else {
        assert(s.drop_first() =~= Seq::<char>::empty());
        assert(s.drop_last() =~= Seq::<char>::empty());
    }
}

/// Escaping loses nothing: reading the escapes of the written text back,
/// as a JSON reader does, gives the text again. JSON writers escape the
/// backslash on their own, so the text handed to the escaper holds none.
pub proof fn lemma_unescape_escaped(s: Seq<char>)
    requires
        forall|i: int| 0 <= i < s.len() ==> #[trigger] s[i] != '\\',
    ensures
        unescaped(escaped(s)) == s,
    decreases s.len(),
{
    if s.len() == 0 {
        assert(escaped(s) =~= Seq::<char>::empty());
    } else {
        let c = s[0];
        let rest = s.drop_first();
        let r = escaped(rest);
        lemma_escaped_front(s);
        assert forall|i: int| 0 <= i < rest.len() implies #[trigger] rest[i] != '\\' by {
            assert(rest[i] == s[i + 1]);
        }
        lemma_unescape_escaped(rest);
        let t = escaped(s);
        let v = c as u32 as int;
        vstd::utf8::char_is_scalar(c);
        vstd::utf8::char_u32_cast(c, c as u32);
        if v < 0x80 {
            assert(t == seq![c] + r);
            assert(t.drop_first() =~= r);
            assert(unescaped(t) =~= s);
        } else if v < 0x10000 {
            lemma_unit_escape_read(v, r);
            assert(!(0xD800 <= v <= 0xDBFF));
            assert((v as u32) as char == c);
            assert(unescaped(t) =~= s);
        } else {
            let h = high_unit(v);
            let l = low_unit(v);
            assert(0xD800 <= h <= 0xDBFF && 0xDC00 <= l <= 0xDFFF);
            assert(t =~= unit_escape(h) + (unit_escape(l) + r));
            lemma_unit_escape_read(h, unit_escape(l) + r);
            lemma_unit_escape_read(l, r);
            let t6 = t.subrange(6, t.len() as int);
            assert(is_unit_escape(t6, 0) ==> is_unit_escape(t, 6)) by {
                assert forall|k: int| 0 <= k < t6.len() implies t6[k] == t[k + 6] by {}
            }
            assert(t6[2] == t[8] && t6[3] == t[9] && t6[4] == t[10] && t6[5] == t[11]);
            assert(unit_at(t, 6) == l);
            assert(0x10000 + (h - 0xD800) * 0x400 + (l - 0xDC00) == v) by (nonlinear_arith)
                requires
                    h == 0xD800 + (v - 0x10000) / 0x400,
                    l == 0xDC00 + (v - 0x10000) % 0x400,
                    v >= 0x10000,
            ;
            assert(t.subrange(12, t.len() as int) =~= r);
            assert((v as u32) as char == c);
            assert(unescaped(t) =~= s);
        }
    }
}

} // verus!
