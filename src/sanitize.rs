//! Repair of numeric character references before XML parsing.
//!
//! Backup documents write a character outside the Basic Multilingual Plane
//! as two decimal references, one per UTF-16 surrogate (`&#55357;&#56842;`).
//! Each of them names a surrogate code point, which no XML parser accepts.
//! The sanitizer joins every such pair into one hexadecimal reference to the
//! combined code point (`&#x1F60A;`) and copies everything else unchanged.

use vstd::prelude::*;
use crate::text::{
    chars_of, decimal_in, hex_char, hex_digits, parse_decimal, push_hex, string_of,
};

verus! {

/// Why a document could not be sanitized. Each offset counts characters
/// from the start of the input and points at the `&` of a reference.
#[derive(Debug, Clone, Copy, PartialEq, Eq, Structural)]
pub enum SanitizeError {
    /// `&#` with no `;` anywhere after it.
    UnterminatedReference { offset: usize },
    /// A reference that is neither hexadecimal (`&#x...;`) nor a decimal
    /// number that fits in 32 bits.
    InvalidNumber { offset: usize },
    /// A high surrogate reference that is not followed at once by a
    /// reference to a low surrogate, or a low surrogate reference that does
    /// not follow a high one.
    UnpairedSurrogate { offset: usize },
}

pub open spec fn is_high_surrogate(v: int) -> bool {
    0xD800 <= v <= 0xDBFF
}

pub open spec fn is_low_surrogate(v: int) -> bool {
    0xDC00 <= v <= 0xDFFF
}

/// The code point that a UTF-16 surrogate pair stands for.
pub open spec fn combine_surrogates(high: int, low: int) -> int {
    0x10000 + (high - 0xD800) * 0x400 + (low - 0xDC00)
}

/// A reference starts at `i`: the characters there are `&#`.
pub open spec fn starts_reference(s: Seq<char>, i: int) -> bool {
    0 <= i && i + 1 < s.len() && s[i] == '&' && s[i + 1] == '#'
}

/// The index of the first `;` in `s` at or after `from`.
pub open spec fn semicolon_from(s: Seq<char>, from: int) -> Option<int>
    decreases s.len() - from,
{
    if from >= s.len() {
        None
    } else if s[from] == ';' {
        Some(from)
    } else {
        semicolon_from(s, from + 1)
    }
}

/// The decimal value of the reference `s[start..=end]` (`&#` digits `;`).
pub open spec fn reference_number(s: Seq<char>, start: int, end: int) -> Option<int> {
    decimal_in(s.subrange(start + 2, end), false, 0, 0xFFFF_FFFF)
}

/// The reference `s[start..=end]` is hexadecimal: its text starts `&#x`.
pub open spec fn is_hex_reference(s: Seq<char>, start: int, end: int) -> bool {
    end > start + 2 && s[start + 2] == 'x'
}

/// A hexadecimal reference to `v`, as the sanitizer writes it.
pub open spec fn hex_reference(v: nat) -> Seq<char> {
    seq!['&', '#', 'x'] + hex_digits(v) + seq![';']
}

/// `r` with `p` written in front of its text.
pub open spec fn prefixed(p: Seq<char>, r: Result<Seq<char>, SanitizeError>) -> Result<
    Seq<char>,
    SanitizeError,
> {
    match r {
        Ok(t) => Ok(p + t),
        Err(e) => Err(e),
    }
}

pub proof fn lemma_semicolon_from(s: Seq<char>, from: int)
    requires
        0 <= from,
    ensures
        match semicolon_from(s, from) {
            Some(e) => from <= e < s.len() && s[e] == ';' && forall|k: int|
                from <= k < e ==> s[k] != ';',
            None => forall|k: int| from <= k < s.len() ==> s[k] != ';',
        },
    decreases s.len() - from,
{
    if from < s.len() && s[from] != ';' {
        lemma_semicolon_from(s, from + 1);
    }
}

/// The sanitized text of `s` from index `i` on, or the first error there.
pub open spec fn cleanup_from(s: Seq<char>, i: int) -> Result<Seq<char>, SanitizeError>
    decreases s.len() - i,
{
    if i >= s.len() {
        Ok(Seq::empty())
    } else if !starts_reference(s, i) {
        prefixed(seq![s[i]], cleanup_from(s, i + 1))
    } else {
        match semicolon_from(s, i + 2) {
            None => Err(SanitizeError::UnterminatedReference { offset: i as usize }),
            Some(end) => {
                proof {
                    lemma_semicolon_from(s, i + 2);
                }
                if is_hex_reference(s, i, end) {
                    prefixed(s.subrange(i, end + 1), cleanup_from(s, end + 1))
                } else {
                    match reference_number(s, i, end) {
                        None => Err(SanitizeError::InvalidNumber { offset: i as usize }),
                        Some(high) => if is_low_surrogate(high) {
                            Err(SanitizeError::UnpairedSurrogate { offset: i as usize })
                        } else if !is_high_surrogate(high) {
                            prefixed(s.subrange(i, end + 1), cleanup_from(s, end + 1))
                        } else if !starts_reference(s, end + 1) {
                            Err(SanitizeError::UnpairedSurrogate { offset: i as usize })
                        } else {
                            match semicolon_from(s, end + 3) {
                                None => Err(
                                    SanitizeError::UnterminatedReference {
                                        offset: (end + 1) as usize,
                                    },
                                ),
                                Some(low_end) => {
                                    proof {
                                        lemma_semicolon_from(s, end + 3);
                                    }
                                    match reference_number(s, end + 1, low_end) {
                                        None => Err(
                                            SanitizeError::InvalidNumber {
                                                offset: (end + 1) as usize,
                                            },
                                        ),
                                        Some(low) => if !is_low_surrogate(low) {
                                            Err(
                                                SanitizeError::UnpairedSurrogate {
                                                    offset: i as usize,
                                                },
                                            )
                                        } else {
                                            prefixed(
                                                hex_reference(
                                                    combine_surrogates(high, low) as nat,
                                                ),
                                                cleanup_from(s, low_end + 1),
                                            )
                                        },
                                    }
                                },
                            }
                        },
                    }
                }
            },
        }
    }
}

/// The sanitized text of `s`: every decimal reference to a high surrogate,
/// together with the low surrogate reference that must follow it, becomes
/// one hexadecimal reference to the code point of the pair; a low surrogate
/// reference on its own is an error; all other text and references are
/// kept as they are.
pub open spec fn cleanup(s: Seq<char>) -> Result<Seq<char>, SanitizeError> {
    cleanup_from(s, 0)
}

/// A Unicode scalar value: a code point that is not a surrogate.
pub open spec fn is_scalar_value(v: int) -> bool {
    (0 <= v < 0xD800) || (0xE000 <= v <= 0x10FFFF)
}

/// Relies on `char::from_u32`: `Some` exactly for a Unicode scalar value,
/// which it then holds.
#[verifier::external_body]
fn char_from_u32(v: u32) -> (r: Option<char>)
    ensures
        match r {
            Some(c) => is_scalar_value(v as int) && c as int == v as int,
            None => !is_scalar_value(v as int),
        },
{
    char::from_u32(v)
}

/// The character that the surrogate pair `high`, `low` encodes in UTF-16.
pub fn decode_utf16_surrogates(low: u32, high: u32) -> (c: char)
    requires
        is_low_surrogate(low as int),
        is_high_surrogate(high as int),
    ensures
        c as int == combine_surrogates(high as int, low as int),
{
    let value: u32 = 0x10000 + (high - 0xD800) * 0x400 + (low - 0xDC00);
    match char_from_u32(value) {
        Some(c) => c,
        None => {
            assert(false);
            ' '
        },
    }
}

/// The decimal number of the reference `text[start..=end]`, which is `&#`,
/// its digits and `;`; `None` where they are not a number that fits in
/// 32 bits.
pub fn parse_escape_number(text: &Vec<char>, start: usize, end: usize) -> (r: Option<u32>)
    requires
        start + 2 <= end < text.len(),
    ensures
        match r {
            Some(v) => reference_number(text@, start as int, end as int) == Some(v as int),
            None => reference_number(text@, start as int, end as int) is None,
        },
{
    match parse_decimal(text, start + 2, end, false, 0, 0xFFFF_FFFF) {
        Some(v) => Some(v as u32),
        None => None,
    }
}

/// The index of the first `;` in `text` at or after `from`.
fn find_semicolon(text: &Vec<char>, from: usize) -> (r: Option<usize>)
    ensures
        match r {
            Some(e) => semicolon_from(text@, from as int) == Some(e as int),
            None => semicolon_from(text@, from as int) is None,
        },
{
    let mut i = from;
    while i < text.len()
        invariant
            from <= i,
            semicolon_from(text@, from as int) == semicolon_from(text@, i as int),
        decreases text.len() - i,
    {
        if text[i] == ';' {
            return Some(i);
        }
        i = i + 1;
    }
    None
}

/// Appends `text[from..to]` to `out`.
fn push_range(out: &mut Vec<char>, text: &Vec<char>, from: usize, to: usize)
    requires
        from <= to <= text.len(),
    ensures
        final(out)@ == old(out)@ + text@.subrange(from as int, to as int),
{
    let mut k = from;
    while k < to
        invariant
            from <= k <= to <= text.len(),
            out@ == old(out)@ + text@.subrange(from as int, k as int),
        decreases to - k,
    {
        out.push(text[k]);
        k = k + 1;
        assert(out@ =~= old(out)@ + text@.subrange(from as int, k as int));
    }
}

proof fn lemma_prefixed_twice(a: Seq<char>, b: Seq<char>, r: Result<Seq<char>, SanitizeError>)
    ensures
        prefixed(a, prefixed(b, r)) == prefixed(a + b, r),
{
    if let Ok(t) = r {
        assert(a + (b + t) =~= (a + b) + t);
    }
}

/// Replaces each decimal surrogate pair reference in `s` with a single
/// hexadecimal reference to the code point of the pair; fails on a
/// surrogate reference that is not part of such a pair.
pub fn cleanup_html_escapes(s: &str) -> (r: Result<String, SanitizeError>)
    ensures
        match r {
            Ok(t) => cleanup(s@) == Ok::<Seq<char>, SanitizeError>(t@),
            Err(e) => cleanup(s@) == Err::<Seq<char>, SanitizeError>(e),
        },
{
    let text = chars_of(s);
    let n = text.len();
    let mut out: Vec<char> = Vec::with_capacity(n);
    let mut i: usize = 0;
    assert(out@ + Seq::<char>::empty() =~= out@);
    while i < n
        invariant
            text@ == s@,
            n == text.len(),
            i <= n,
            cleanup(s@) == prefixed(out@, cleanup_from(s@, i as int)),
        decreases n - i,
    {
        let ghost before = out@;
        if i + 1 < n && text[i] == '&' && text[i + 1] == '#' {
            proof {
                lemma_semicolon_from(text@, i + 2);
            }
            let end = match find_semicolon(&text, i + 2) {
                Some(e) => e,
                None => {
                    return Err(SanitizeError::UnterminatedReference { offset: i });
                },
            };
            if end > i + 2 && text[i + 2] == 'x' {
                push_range(&mut out, &text, i, end + 1);
                proof {
                    lemma_prefixed_twice(before, text@.subrange(i as int, end + 1), cleanup_from(s@, end + 1));
                }
                i = end + 1;
            } else {
                let high = match parse_escape_number(&text, i, end) {
                    Some(v) => v,
                    None => {
                        return Err(SanitizeError::InvalidNumber { offset: i });
                    },
                };
                if 0xDC00 <= high && high <= 0xDFFF {
                    return Err(SanitizeError::UnpairedSurrogate { offset: i });
                }
                if high < 0xD800 || high > 0xDBFF {
                    push_range(&mut out, &text, i, end + 1);
                    proof {
                        lemma_prefixed_twice(before, text@.subrange(i as int, end + 1), cleanup_from(s@, end + 1));
                    }
                    i = end + 1;
                } else {
                    let j = end + 1;
                    if !(n - j > 1 && text[j] == '&' && text[j + 1] == '#') {
                        return Err(SanitizeError::UnpairedSurrogate { offset: i });
                    }
                    proof {
                        lemma_semicolon_from(text@, j + 2);
                    }
                    let low_end = match find_semicolon(&text, j + 2) {
                        Some(e) => e,
                        None => {
                            return Err(SanitizeError::UnterminatedReference { offset: j });
                        },
                    };
                    let low = match parse_escape_number(&text, j, low_end) {
                        Some(v) => v,
                        None => {
                            return Err(SanitizeError::InvalidNumber { offset: j });
                        },
                    };
                    if low < 0xDC00 || low > 0xDFFF {
                        return Err(SanitizeError::UnpairedSurrogate { offset: i });
                    }
                    let c = decode_utf16_surrogates(low, high);
                    out.push('&');
                    out.push('#');
                    out.push('x');
                    push_hex(&mut out, c as u32);
                    out.push(';');
                    proof {
                        let code = combine_surrogates(high as int, low as int);
                        assert(out@ =~= before + hex_reference(code as nat));
                        lemma_prefixed_twice(before, hex_reference(code as nat), cleanup_from(s@, low_end + 1));
                    }
                    i = low_end + 1;
                }
            }
        } else {
            out.push(text[i]);
            proof {
                assert(out@ =~= before + seq![text@[i as int]]);
                lemma_prefixed_twice(before, seq![text@[i as int]], cleanup_from(s@, i + 1));
            }
            i = i + 1;
        }
    }
    assert(out@ + Seq::<char>::empty() =~= out@);
    Ok(string_of(&out))
}

/// From index `i` on, every numeric reference of `s`, read left to right,
/// is terminated by a `;` and is either hexadecimal or a decimal number
/// outside the surrogates: there is no split pair left to join.
pub open spec fn references_plain_from(s: Seq<char>, i: int) -> bool
    decreases s.len() - i,
{
    if i >= s.len() {
        true
    } else if !starts_reference(s, i) {
        references_plain_from(s, i + 1)
    } else {
        match semicolon_from(s, i + 2) {
            None => false,
            Some(end) => {
                proof {
                    lemma_semicolon_from(s, i + 2);
                }
                (is_hex_reference(s, i, end) || match reference_number(s, i, end) {
                    Some(v) => !is_high_surrogate(v) && !is_low_surrogate(v),
                    None => false,
                }) && references_plain_from(s, end + 1)
            },
        }
    }
}

/// Every numeric reference of `s` is well formed and none is half of a
/// split surrogate pair.
pub open spec fn has_only_plain_references(s: Seq<char>) -> bool {
    references_plain_from(s, 0)
}

proof fn lemma_plain_cleanup_from(s: Seq<char>, i: int)
    requires
        0 <= i,
        references_plain_from(s, i),
    ensures
        cleanup_from(s, i) == Ok::<Seq<char>, SanitizeError>(
            if i < s.len() {
                s.subrange(i, s.len() as int)
            } else {
                Seq::empty()
            },
        ),
    decreases s.len() - i,
{
    if i < s.len() {
        if !starts_reference(s, i) {
            lemma_plain_cleanup_from(s, i + 1);
            assert(seq![s[i]] + (if i + 1 < s.len() {
                s.subrange(i + 1, s.len() as int)
            } else {
                Seq::empty()
            }) =~= s.subrange(i, s.len() as int));
        } else {
            lemma_semicolon_from(s, i + 2);
            let end = semicolon_from(s, i + 2)->0;
            lemma_plain_cleanup_from(s, end + 1);
            assert(s.subrange(i, end + 1) + (if end + 1 < s.len() {
                s.subrange(end + 1, s.len() as int)
            } else {
                Seq::empty()
            }) =~= s.subrange(i, s.len() as int));
        }
    }
}

/// Text whose numeric references are all well formed and unsplit comes
/// out of the sanitizer unchanged.
pub proof fn lemma_cleanup_keeps_plain_text(s: Seq<char>)
    requires
        has_only_plain_references(s),
    ensures
        cleanup(s) == Ok::<Seq<char>, SanitizeError>(s),
{
    lemma_plain_cleanup_from(s, 0);
    if s.len() > 0 {
        assert(s.subrange(0, s.len() as int) =~= s);
    } else {
        assert(s =~= Seq::empty());
    }
}

proof fn lemma_semicolon_shift(p: Seq<char>, r: Seq<char>, k: int)
    requires
        0 <= k,
    ensures
        semicolon_from(p + r, p.len() + k) == match semicolon_from(r, k) {
            Some(e) => Some(p.len() + e),
            None => None::<int>,
        },
    decreases r.len() - k,
{
    if k < r.len() {
        assert((p + r)[p.len() + k] == r[k]);
        if r[k] != ';' {
            lemma_semicolon_shift(p, r, k + 1);
        }
    }
}

proof fn lemma_semicolon_first(s: Seq<char>, from: int, e: int)
    requires
        0 <= from <= e < s.len(),
        s[e] == ';',
        forall|k: int| from <= k < e ==> s[k] != ';',
    ensures
        semicolon_from(s, from) == Some(e),
    decreases e - from,
{
    if from < e {
        lemma_semicolon_first(s, from + 1, e);
    }
}

proof fn lemma_plain_shift(p: Seq<char>, r: Seq<char>, j: int)
    requires
        0 <= j,
    ensures
        references_plain_from(p + r, p.len() + j) == references_plain_from(r, j),
    decreases r.len() - j,
{
    let s = p + r;
    let i = p.len() + j;
    if j < r.len() {
        assert(s[i] == r[j]);
        if j + 1 < r.len() {
            assert(s[i + 1] == r[j + 1]);
        }
        if !starts_reference(r, j) {
            lemma_plain_shift(p, r, j + 1);
        } else {
            lemma_semicolon_shift(p, r, j + 2);
            lemma_semicolon_from(r, j + 2);
            if let Some(end) = semicolon_from(r, j + 2) {
                assert(s.subrange(i + 2, p.len() + end) =~= r.subrange(j + 2, end));
                assert(s[i + 2] == r[j + 2]);
                lemma_plain_shift(p, r, end + 1);
            }
        }
    }
}

/// A single reference `tok` that is plain, in front of plain text, keeps
/// the text plain.
proof fn lemma_plain_token(tok: Seq<char>, r: Seq<char>)
    requires
        tok.len() >= 3,
        tok[0] == '&',
        tok[1] == '#',
        tok[tok.len() - 1] == ';',
        forall|k: int| 2 <= k < tok.len() - 1 ==> tok[k] != ';',
        is_hex_reference(tok, 0, tok.len() - 1) || match reference_number(tok, 0, tok.len() - 1) {
            Some(v) => !is_high_surrogate(v) && !is_low_surrogate(v),
            None => false,
        },
        references_plain_from(r, 0),
    ensures
        references_plain_from(tok + r, 0),
{
    let s = tok + r;
    let e = tok.len() - 1;
    assert(s[0] == '&' && s[1] == '#' && s[e] == ';' && s[2] == tok[2]);
    assert forall|k: int| 2 <= k < e implies s[k] != ';' by {
        assert(s[k] == tok[k]);
    }
    lemma_semicolon_first(s, 2, e);
    assert(s.subrange(2, e) =~= tok.subrange(2, e));
    lemma_plain_shift(tok, r, 0);
}

/// A character in front of plain text keeps it plain, unless it would
/// open a new reference there.
proof fn lemma_plain_char(c: char, r: Seq<char>)
    requires
        references_plain_from(r, 0),
        !(c == '&' && r.len() > 0 && r[0] == '#'),
    ensures
        references_plain_from(seq![c] + r, 0),
{
    let s = seq![c] + r;
    if r.len() > 0 {
        assert(s[1] == r[0]);
    }
    lemma_plain_shift(seq![c], r, 0);
}

proof fn lemma_hex_digits_chars(n: nat)
    ensures
        hex_digits(n).len() >= 1,
        forall|k: int| 0 <= k < hex_digits(n).len() ==> #[trigger] hex_digits(n)[k] != ';',
    decreases n,
{
    if n >= 16 {
        lemma_hex_digits_chars(n / 16);
        let d = hex_char((n % 16) as int);
        assert(d != ';');
        assert forall|k: int| 0 <= k < hex_digits(n).len() implies #[trigger] hex_digits(n)[k]
            != ';' by {
            if k < hex_digits(n / 16).len() {
                assert(hex_digits(n)[k] == hex_digits(n / 16)[k]);
            }
        }
    } else {
        assert(hex_char(n as int) != ';');
    }
}

/// What the sanitizer returns from index `i` on is plain, and starts with
/// the character that stands at `i` in its input.
proof fn lemma_cleanup_from_plain(s: Seq<char>, i: int)
    requires
        0 <= i,
        cleanup_from(s, i) is Ok,
    ensures
        references_plain_from(cleanup_from(s, i)->Ok_0, 0),
        i < s.len() ==> cleanup_from(s, i)->Ok_0.len() > 0 && cleanup_from(s, i)->Ok_0[0] == s[i],
        i >= s.len() ==> cleanup_from(s, i)->Ok_0.len() == 0,
    decreases s.len() - i,
{
    if i < s.len() {
        let t = cleanup_from(s, i)->Ok_0;
        if !starts_reference(s, i) {
            lemma_cleanup_from_plain(s, i + 1);
            let rest = cleanup_from(s, i + 1)->Ok_0;
            lemma_plain_char(s[i], rest);
            assert(t == seq![s[i]] + rest);
        } else {
            lemma_semicolon_from(s, i + 2);
            let end = semicolon_from(s, i + 2)->0;
            let tok = s.subrange(i, end + 1);
            assert(tok.subrange(2, tok.len() - 1) =~= s.subrange(i + 2, end));
            if is_hex_reference(s, i, end) || (!is_high_surrogate(reference_number(s, i, end)->0)
                && !is_low_surrogate(reference_number(s, i, end)->0)) {
                lemma_cleanup_from_plain(s, end + 1);
                let rest = cleanup_from(s, end + 1)->Ok_0;
                assert forall|k: int| 2 <= k < tok.len() - 1 implies tok[k] != ';' by {
                    assert(tok[k] == s[i + k]);
                }
                lemma_plain_token(tok, rest);
                assert(t == tok + rest);
            } else {
                lemma_semicolon_from(s, end + 3);
                let low_end = semicolon_from(s, end + 3)->0;
                lemma_cleanup_from_plain(s, low_end + 1);
                let rest = cleanup_from(s, low_end + 1)->Ok_0;
                let v = combine_surrogates(
                    reference_number(s, i, end)->0,
                    reference_number(s, end + 1, low_end)->0,
                ) as nat;
                let h = hex_reference(v);
                lemma_hex_digits_chars(v);
                assert(h[0] == '&' && h[1] == '#' && h[2] == 'x');
                assert(h[h.len() - 1] == ';');
                assert forall|k: int| 2 <= k < h.len() - 1 implies h[k] != ';' by {
                    if k > 2 {
                        assert(h[k] == hex_digits(v)[k - 3]);
                    }
                }
                lemma_plain_token(h, rest);
                assert(t == h + rest);
            }
        }
    }
}

/// What the sanitizer returns has only plain references: each is
/// hexadecimal or a decimal number outside the surrogates, so no surrogate
/// reference is left in it.
pub proof fn lemma_cleanup_output_plain(s: Seq<char>)
    ensures
        cleanup(s) matches Ok(t) ==> has_only_plain_references(t),
{
    if cleanup(s) is Ok {
        lemma_cleanup_from_plain(s, 0);
    }
}

/// Sanitizing is idempotent: what the sanitizer returns, it returns
/// unchanged when given again.
pub proof fn lemma_cleanup_idempotent(s: Seq<char>)
    ensures
        cleanup(s) matches Ok(t) ==> cleanup(t) == Ok::<Seq<char>, SanitizeError>(t),
{
    if cleanup(s) is Ok {
        lemma_cleanup_from_plain(s, 0);
        lemma_cleanup_keeps_plain_text(cleanup(s)->Ok_0);
    }
}

} // verus!
