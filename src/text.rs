//! Character-level helpers shared by the sanitizer, the XML ingestor and
//! the JSON escaper: decimal integers, uppercase hexadecimal digits and
//! conversions between strings and character vectors.

use vstd::prelude::*;
use vstd::std_specs::iter::IteratorSpec;

verus! {

broadcast use vstd::string::group_string_axioms;

/// The characters `'0'` to `'9'`.
pub open spec fn is_digit(c: char) -> bool {
    '0' <= c && c <= '9'
}

pub open spec fn digit_value(c: char) -> int {
    c as int - '0' as int
}

/// The value of a run of decimal digits, most significant first.
pub open spec fn digits_value(d: Seq<char>) -> int
    decreases d.len(),
{
    if d.len() == 0 {
        0
    } else {
        10 * digits_value(d.drop_last()) + digit_value(d.last())
    }
}

/// A non-empty run of decimal digits.
pub open spec fn all_digits(d: Seq<char>) -> bool {
    d.len() > 0 && forall|i: int| 0 <= i < d.len() ==> is_digit(#[trigger] d[i])
}

/// The integer written as an optional sign followed by decimal digits, the
/// way std's `FromStr` for integers reads it: `+` is always allowed, `-` only
/// for signed types, no whitespace, at least one digit.
pub open spec fn decimal_value(s: Seq<char>, signed: bool) -> Option<int> {
    if s.len() > 0 && s[0] == '+' {
        if all_digits(s.drop_first()) {
            Some(digits_value(s.drop_first()))
        } else {
            None
        }
    } else if signed && s.len() > 0 && s[0] == '-' {
        if all_digits(s.drop_first()) {
            Some(-digits_value(s.drop_first()))
        } else {
            None
        }
    } else if all_digits(s) {
        Some(digits_value(s))
    } else {
        None
    }
}

/// `decimal_value`, kept only where it lies in `lo..=hi`.
pub open spec fn decimal_in(s: Seq<char>, signed: bool, lo: int, hi: int) -> Option<int> {
    match decimal_value(s, signed) {
        Some(v) => if lo <= v && v <= hi {
            Some(v)
        } else {
            None
        },
        None => None,
    }
}

proof fn lemma_digits_value_nonneg(d: Seq<char>)
    requires
        forall|i: int| 0 <= i < d.len() ==> is_digit(#[trigger] d[i]),
    ensures
        digits_value(d) >= 0,
    decreases d.len(),
{
    if d.len() > 0 {
        assert(is_digit(d[d.len() - 1]));
        lemma_digits_value_nonneg(d.drop_last());
    }
}

/// A run of digits is worth at least as much as any of its prefixes.
proof fn lemma_digits_value_prefix(d: Seq<char>, k: int)
    requires
        0 <= k <= d.len(),
        forall|i: int| 0 <= i < d.len() ==> is_digit(#[trigger] d[i]),
    ensures
        digits_value(d) >= digits_value(d.subrange(0, k)),
    decreases d.len(),
{
    if k < d.len() {
        let p = d.drop_last();
        assert(is_digit(d[d.len() - 1]));
        lemma_digits_value_prefix(p, k);
        assert(p.subrange(0, k) =~= d.subrange(0, k));
        lemma_digits_value_nonneg(p);
    } else {
        assert(d.subrange(0, k) =~= d);
    }
}

/// Reads `s[from..to]` as a decimal integer in `lo..=hi`, with the syntax
/// of `decimal_value`.
pub fn parse_decimal(s: &Vec<char>, from: usize, to: usize, signed: bool, lo: i128, hi: i128) -> (r:
    Option<i128>)
    requires
        from <= to <= s.len(),
        -0x1_0000_0000_0000_0000 <= lo <= hi <= 0x1_0000_0000_0000_0000,
    ensures
        match r {
            Some(v) => decimal_in(s@.subrange(from as int, to as int), signed, lo as int, hi as int)
                == Some(v as int),
            None => decimal_in(
                s@.subrange(from as int, to as int),
                signed,
                lo as int,
                hi as int,
            ) is None,
        },
{
    let ghost whole = s@.subrange(from as int, to as int);
    let mut start: usize = from;
    let mut negative = false;
    if from < to && (s[from] == '+' || (signed && s[from] == '-')) {
        negative = s[from] == '-';
        start = from + 1;
        assert(whole.drop_first() =~= s@.subrange(start as int, to as int));
    }
    let ghost digits = s@.subrange(start as int, to as int);
    proof {
        if start == from {
            assert(whole =~= digits);
            if whole.len() > 0 && (whole[0] == '+' || whole[0] == '-') {
                assert(!is_digit(whole[0]));
            }
        }
    }
    assert(decimal_value(whole, signed) == if all_digits(digits) {
        Some(
            if negative {
                -digits_value(digits)
            } else {
                digits_value(digits)
            },
        )
    } else {
        None::<int>
    });
    if start == to {
        assert(!all_digits(digits));
        return None;
    }
    let mut i: usize = start;
    let mut acc: u128 = 0;
    while i < to
        invariant
            from <= start <= i <= to <= s.len(),
            digits == s@.subrange(start as int, to as int),
            whole == s@.subrange(from as int, to as int),
            -0x1_0000_0000_0000_0000 <= lo <= hi <= 0x1_0000_0000_0000_0000,
            decimal_value(whole, signed) == if all_digits(digits) {
                Some(
                    if negative {
                        -digits_value(digits)
                    } else {
                        digits_value(digits)
                    },
                )
            } else {
                None::<int>
            },
            acc as int == digits_value(s@.subrange(start as int, i as int)),
            acc <= 0x1_0000_0000_0000_0000,
            forall|j: int| start <= j < i ==> is_digit(#[trigger] s@[j]),
        decreases to - i,
    {
        let c = s[i];
        if !('0' <= c && c <= '9') {
            assert(!is_digit(digits[i - start]));
            return None;
        }
        let ghost prev = s@.subrange(start as int, i as int);
        let ghost next = s@.subrange(start as int, i + 1);
        assert(next.drop_last() =~= prev);
        acc = acc * 10 + (c as u128 - '0' as u128);
        i = i + 1;
        if acc > 0x1_0000_0000_0000_0000 {
            proof {
                if all_digits(digits) {
                    assert(digits.subrange(0, i - start) =~= next);
                    lemma_digits_value_prefix(digits, i - start);
                }
            }
            return None;
        }
    }
    assert(s@.subrange(start as int, i as int) =~= digits);
    let v: i128 = if negative {
        -(acc as i128)
    } else {
        acc as i128
    };
    if lo <= v && v <= hi {
        Some(v)
    } else {
        None
    }
}

/// The uppercase hexadecimal digits, by value.
pub open spec fn hex_chars() -> Seq<char> {
    seq!['0', '1', '2', '3', '4', '5', '6', '7', '8', '9', 'A', 'B', 'C', 'D', 'E', 'F']
}

/// The uppercase hexadecimal digit for `n < 16`.
pub open spec fn hex_char(n: int) -> char {
    hex_chars()[n]
}

/// `n` in uppercase hexadecimal, without leading zeros (`0` is `"0"`).
pub open spec fn hex_digits(n: nat) -> Seq<char>
    decreases n,
{
    if n < 16 {
        seq![hex_char(n as int)]
    } else {
        hex_digits(n / 16).push(hex_char((n % 16) as int))
    }
}

/// The uppercase hexadecimal digit for `n`.
pub fn hex_digit(n: u32) -> (c: char)
    requires
        n < 16,
    ensures
        c == hex_char(n as int),
{
    let digits: [char; 16] = ['0', '1', '2', '3', '4', '5', '6', '7', '8', '9', 'A', 'B', 'C', 'D', 'E', 'F'];
    assert(digits@ =~= hex_chars());
    digits[n as usize]
}

/// Appends `n` in uppercase hexadecimal.
pub fn push_hex(out: &mut Vec<char>, n: u32)
    ensures
        final(out)@ == old(out)@ + hex_digits(n as nat),
    decreases n,
{
    if n >= 16 {
        push_hex(out, n / 16);
    }
    out.push(hex_digit(n % 16));
    assert(hex_digits(n as nat) == if n < 16 {
        seq![hex_char(n as int)]
    } else {
        hex_digits((n / 16) as nat).push(hex_char((n % 16) as int))
    });
    assert(final(out)@ =~= old(out)@ + hex_digits(n as nat));
}

/// The characters of `s`, in order.
pub fn chars_of(s: &str) -> (r: Vec<char>)
    ensures
        r@ == s@,
{
    let mut r: Vec<char> = Vec::new();
    for c in it: s.chars()
        invariant
            r@ == it.seq().subrange(0, it.index() as int),
            it.seq() == s@,
    {
        r.push(c);
    }
    assert(r@ =~= s@);
    r
}

/// Relies on `FromIterator<char>` for `String`: the string holds the
/// characters in the order given.
#[verifier::external_body]
pub(crate) fn string_of(chars: &Vec<char>) -> (r: String)
    ensures
        r@ == chars@,
{
    chars.iter().collect()
}

} // verus!
