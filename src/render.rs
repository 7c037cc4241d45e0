//! What the HTML transcript of a conversation shows, decided apart from
//! the markup that shows it.

use vstd::prelude::*;
use crate::model::{AnyMessage, MmsMessagePart, TextMessage};
use crate::text::{chars_of, string_of};
use crate::tree::same_text;

verus! {

broadcast use vstd::string::group_string_axioms;

/// The messages of `ms` with the contact name `contact`, in order.
pub open spec fn with_contact(ms: Seq<AnyMessage>, contact: Seq<char>) -> Seq<AnyMessage>
    decreases ms.len(),
{
    if ms.len() == 0 {
        Seq::empty()
    } else {
        let rest = with_contact(ms.drop_last(), contact);
        if ms.last().header().contact_name == contact {
            rest.push(ms.last())
        } else {
            rest
        }
    }
}

/// The index of the first message of `s`, from `i` on, dated after `d`;
/// the length of `s` where there is none.
spec fn first_later(s: Seq<AnyMessage>, d: int, i: int) -> int
    decreases s.len() - i,
{
    if i >= s.len() {
        s.len() as int
    } else if s[i].header().date > d {
        i
    } else {
        first_later(s, d, i + 1)
    }
}

/// `ms` sorted by date by insertion, messages of equal date kept in their
/// order.
spec fn sorted_by_date(ms: Seq<AnyMessage>) -> Seq<AnyMessage>
    decreases ms.len(),
{
    if ms.len() == 0 {
        Seq::empty()
    } else {
        let s = sorted_by_date(ms.drop_last());
        s.insert(first_later(s, ms.last().header().date, 0), ms.last())
    }
}

/// Each message is dated no later than the next.
pub open spec fn dates_ascending(s: Seq<AnyMessage>) -> bool {
    forall|i: int| 0 <= i < s.len() - 1 ==> (#[trigger] s[i]).header().date <= s[i + 1].header().date
}

proof fn lemma_first_later(s: Seq<AnyMessage>, d: int, i: int)
    requires
        0 <= i <= s.len(),
    ensures
        i <= first_later(s, d, i) <= s.len(),
        forall|k: int| i <= k < first_later(s, d, i) ==> (#[trigger] s[k]).header().date <= d,
        first_later(s, d, i) < s.len() ==> s[first_later(s, d, i)].header().date > d,
    decreases s.len() - i,
{
    if i < s.len() && s[i].header().date <= d {
        lemma_first_later(s, d, i + 1);
    }
}

proof fn lemma_sorted_by_date(ms: Seq<AnyMessage>)
    ensures
        dates_ascending(sorted_by_date(ms)),
        sorted_by_date(ms).len() == ms.len(),
    decreases ms.len(),
{
    if ms.len() > 0 {
        let s = sorted_by_date(ms.drop_last());
        let m = ms.last();
        let d = m.header().date;
        lemma_sorted_by_date(ms.drop_last());
        lemma_first_later(s, d, 0);
        let p = first_later(s, d, 0);
        let t = s.insert(p, m);
        assert forall|i: int| 0 <= i < t.len() - 1 implies (#[trigger] t[i]).header().date <= t[
            i + 1
        ].header().date by {
            if i + 1 < p {
                assert(t[i] == s[i] && t[i + 1] == s[i + 1]);
            } else if i + 1 == p {
                assert(t[i] == s[i]);
            } else if i == p {
                assert(t[i + 1] == s[i]);
            } else {
                assert(t[i] == s[i - 1] && t[i + 1] == s[i]);
            }
        }
    }
}

/// The messages of `s` dated `d`, in their order in `s`.
pub open spec fn dated(s: Seq<AnyMessage>, d: int) -> Seq<AnyMessage> {
    s.filter(on_date(d))
}

/// Whether a message is dated `d`.
pub open spec fn on_date<'a>(d: int) -> spec_fn(AnyMessage<'a>) -> bool {
    |m: AnyMessage<'a>| m.header().date == d
}

proof fn lemma_dated_step(s: Seq<AnyMessage>, d: int)
    ensures
        s.len() == 0 ==> dated(s, d) == s,
        s.len() > 0 ==> dated(s, d) == if s.last().header().date == d {
            dated(s.drop_last(), d).push(s.last())
        } else {
            dated(s.drop_last(), d)
        },
{
    reveal(Seq::filter);
}

proof fn lemma_ascending_after(s: Seq<AnyMessage>, p: int, k: int)
    requires
        dates_ascending(s),
        0 <= p <= k < s.len(),
    ensures
        s[k].header().date >= s[p].header().date,
    decreases k - p,
{
    if k > p {
        lemma_ascending_after(s, p, k - 1);
        assert(s[k - 1].header().date <= s[k].header().date);
    }
}

proof fn lemma_none_dated(s: Seq<AnyMessage>, d: int)
    requires
        forall|k: int| 0 <= k < s.len() ==> (#[trigger] s[k]).header().date != d,
    ensures
        dated(s, d) == Seq::<AnyMessage>::empty(),
    decreases s.len(),
{
    lemma_dated_step(s, d);
    if s.len() > 0 {
        assert forall|k: int| 0 <= k < s.drop_last().len() implies (
        #[trigger] s.drop_last()[k]).header().date != d by {
            assert(s.drop_last()[k] == s[k]);
        }
        lemma_none_dated(s.drop_last(), d);
        assert(s.last() == s[s.len() - 1]);
    }
    assert(dated(s, d) =~= Seq::<AnyMessage>::empty());
}

/// Sorting by insertion keeps the messages of each date in their order.
proof fn lemma_sorted_by_date_dated(ms: Seq<AnyMessage>, d: int)
    ensures
        dated(sorted_by_date(ms), d) == dated(ms, d),
    decreases ms.len(),
{
    lemma_dated_step(ms, d);
    if ms.len() > 0 {
        let s = sorted_by_date(ms.drop_last());
        let m = ms.last();
        let md = m.header().date;
        lemma_sorted_by_date_dated(ms.drop_last(), d);
        lemma_sorted_by_date(ms.drop_last());
        lemma_first_later(s, md, 0);
        let p = first_later(s, md, 0);
        let front = s.subrange(0, p);
        let back = s.subrange(p, s.len() as int);
        assert(s =~= front + back);
        assert(s.insert(p, m) =~= front + (seq![m] + back));
        Seq::filter_distributes_over_add(front, back, on_date(d));
        Seq::filter_distributes_over_add(front, seq![m] + back, on_date(d));
        Seq::filter_distributes_over_add(seq![m], back, on_date(d));
        assert(seq![m].drop_last() =~= Seq::<AnyMessage>::empty());
        lemma_dated_step(seq![m], d);
        lemma_dated_step(Seq::<AnyMessage>::empty(), d);
        if md == d {
            assert forall|k: int| 0 <= k < back.len() implies (#[trigger] back[k]).header().date
                != d by {
                lemma_ascending_after(s, p, p + k);
                assert(back[k] == s[p + k]);
            }
            lemma_none_dated(back, d);
            assert(dated(seq![m], d) =~= seq![m]);
            assert(dated(ms, d) == dated(ms.drop_last(), d).push(m));
            assert(dated(s.insert(p, m), d) =~= dated(s, d).push(m));
        } else {
            assert(dated(seq![m], d) =~= Seq::<AnyMessage>::empty());
            assert(dated(ms, d) == dated(ms.drop_last(), d));
            assert(dated(s.insert(p, m), d) =~= dated(s, d));
        }
    }
}

/// The messages of `messages` with the contact name `contact`, sorted by
/// date; messages of equal date stay in their order. The two clauses fix
/// the result: it is in date order, and for each date it lists the
/// messages of that date exactly as the filtered messages do, so it is a
/// stable reordering of them.
pub fn transcript<'a>(messages: &Vec<AnyMessage<'a>>, contact: &str) -> (r: Vec<AnyMessage<'a>>)
    ensures
        dates_ascending(r@),
        forall|d: int| #[trigger] dated(r@, d) == dated(with_contact(messages@, contact@), d),
{
    let mut out: Vec<AnyMessage<'a>> = Vec::new();
    let mut i: usize = 0;
    while i < messages.len()
        invariant
            i <= messages.len(),
            out@ == sorted_by_date(with_contact(messages@.subrange(0, i as int), contact@)),
        decreases messages.len() - i,
    {
        let ghost prefix = messages@.subrange(0, i + 1);
        assert(prefix.drop_last() =~= messages@.subrange(0, i as int));
        let m = messages[i];
        assert(prefix.last() == m);
        let ghost w = with_contact(messages@.subrange(0, i as int), contact@);
        if same_text(m.contact_name(), contact) {
            assert(w.push(m).drop_last() =~= w);
            let d = m.date().millis();
            let ghost s = out@;
            let mut p: usize = 0;
            proof {
                lemma_first_later(s, d as int, 0);
            }
            while p < out.len() && out[p].date().millis() <= d
                invariant
                    out@ == s,
                    p <= out.len(),
                    first_later(s, d as int, 0) == first_later(s, d as int, p as int),
                decreases out.len() - p,
            {
                p = p + 1;
            }
            out.insert(p, m);
        } else {
            assert(with_contact(prefix, contact@) == w);
        }
        i = i + 1;
    }
    assert(messages@.subrange(0, i as int) =~= messages@);
    proof {
        lemma_sorted_by_date(with_contact(messages@, contact@));
        assert forall|d: int| #[trigger] dated(out@, d) == dated(with_contact(messages@, contact@), d) by {
            lemma_sorted_by_date_dated(with_contact(messages@, contact@), d);
        }
    }
    out
}

/// How a part of a multimedia message is shown.
#[derive(Debug, PartialEq, Eq)]
pub enum PartRendering {
    /// A layout description: nothing is shown.
    Nothing,
    /// A paragraph with the part's text.
    Text(String),
    /// An image whose source is a `data:` URL.
    Image { source: String },
    /// A note that audio is not supported.
    UnsupportedAudio,
    /// A video whose source is a `data:` URL of the given type.
    Video { source: String, content_type: String },
    /// A note that names the unknown content type, escaped.
    Unknown { content_type: String },
}

/// The standard base64 alphabet, by value.
pub open spec fn base64_alphabet() -> Seq<char> {
    seq![
        'A', 'B', 'C', 'D', 'E', 'F', 'G', 'H', 'I', 'J', 'K', 'L', 'M', 'N', 'O', 'P',
        'Q', 'R', 'S', 'T', 'U', 'V', 'W', 'X', 'Y', 'Z', 'a', 'b', 'c', 'd', 'e', 'f',
        'g', 'h', 'i', 'j', 'k', 'l', 'm', 'n', 'o', 'p', 'q', 'r', 's', 't', 'u', 'v',
        'w', 'x', 'y', 'z', '0', '1', '2', '3', '4', '5', '6', '7', '8', '9', '+', '/',
    ]
}

/// The base64 symbol of the six bits `n`.
pub open spec fn b64(n: int) -> char {
    base64_alphabet()[n]
}

/// The text of `bytes` in standard base64 (RFC 4648): each three bytes
/// become four symbols of six bits each, and a last group of one or two
/// bytes is filled with zero bits and padded with `=` to four symbols.
pub open spec fn base64_encoding(bytes: Seq<u8>) -> Seq<char>
    decreases bytes.len(),
{
    if bytes.len() == 0 {
        Seq::empty()
    } else if bytes.len() == 1 {
        let a = bytes[0] as int;
        seq![b64(a / 4), b64((a % 4) * 16), '=', '=']
    } else if bytes.len() == 2 {
        let (a, b) = (bytes[0] as int, bytes[1] as int);
        seq![b64(a / 4), b64((a % 4) * 16 + b / 16), b64((b % 16) * 4), '=']
    } else {
        let (a, b, c) = (bytes[0] as int, bytes[1] as int, bytes[2] as int);
        seq![b64(a / 4), b64((a % 4) * 16 + b / 16), b64((b % 16) * 4 + c / 64), b64(c % 64)]
            + base64_encoding(bytes.subrange(3, bytes.len() as int))
    }
}

/// Relies on base64's `Engine::encode` with the `STANDARD` engine
/// (standard alphabet, padding). It panics only where the length of the
/// text overflows `usize`, which `requires` rules out.
#[verifier::external_body]
fn encode_base64(bytes: &Vec<u8>) -> (r: String)
    requires
        bytes.len() <= usize::MAX / 2,
    ensures
        r@ == base64_encoding(bytes@),
{
    base64::Engine::encode(&base64::engine::general_purpose::STANDARD, bytes)
}

/// The lowercase hexadecimal digits, by value.
pub open spec fn lower_hex_chars() -> Seq<char> {
    seq!['0', '1', '2', '3', '4', '5', '6', '7', '8', '9', 'a', 'b', 'c', 'd', 'e', 'f']
}

/// `n` in lowercase hexadecimal, without leading zeros.
pub open spec fn lower_hex_digits(n: nat) -> Seq<char>
    decreases n,
{
    if n < 16 {
        seq![lower_hex_chars()[n as int]]
    } else {
        lower_hex_digits(n / 16).push(lower_hex_chars()[(n % 16) as int])
    }
}

/// `char::escape_default` of `c`: `\t`, `\r`, `\n` for tab, carriage
/// return and line feed; a backslash before `'`, `"` and `\`; printable
/// ASCII as it is; anything else as `\u{...}` with its code point in
/// lowercase hexadecimal.
pub open spec fn char_escape_default(c: char) -> Seq<char> {
    if c == '\t' {
        seq!['\\', 't']
    } else if c == '\r' {
        seq!['\\', 'r']
    } else if c == '\n' {
        seq!['\\', 'n']
    } else if c == '\'' || c == '"' || c == '\\' {
        seq!['\\', c]
    } else if ' ' <= c && c <= '~' {
        seq![c]
    } else {
        seq!['\\', 'u', '{'] + lower_hex_digits(c as u32 as nat) + seq!['}']
    }
}

/// `str::escape_default` of `s`: each character escaped in turn.
pub open spec fn default_escaped(s: Seq<char>) -> Seq<char>
    decreases s.len(),
{
    if s.len() == 0 {
        Seq::empty()
    } else {
        default_escaped(s.drop_last()) + char_escape_default(s.last())
    }
}

/// Relies on `str::escape_default`, which escapes each character with
/// `char::escape_default`.
#[verifier::external_body]
fn escape_default(s: &str) -> (r: String)
    ensures
        r@ == default_escaped(s@),
{
    s.escape_default().collect()
}

/// The `data:` URL of `bytes` with the content type `content_type`.
pub open spec fn data_url(content_type: Seq<char>, bytes: Seq<u8>) -> Seq<char> {
    "data:"@ + content_type + ";base64,"@ + base64_encoding(bytes)
}

fn make_data_url(content_type: &String, bytes: &Vec<u8>) -> (r: String)
    requires
        bytes.len() <= usize::MAX / 2,
    ensures
        r@ == data_url(content_type@, bytes@),
{
    let mut out = chars_of("data:");
    let mut ct = chars_of(content_type.as_str());
    out.append(&mut ct);
    let mut sep = chars_of(";base64,");
    out.append(&mut sep);
    let encoded = encode_base64(bytes);
    let mut enc = chars_of(encoded.as_str());
    out.append(&mut enc);
    string_of(&out)
}

/// The content types that are shown as an image.
pub open spec fn is_image_type(ct: Seq<char>) -> bool {
    ct == "image/jpeg"@ || ct == "image/png"@
}

/// The content types that are shown as a video.
pub open spec fn is_video_type(ct: Seq<char>) -> bool {
    ct == "video/mp4"@ || ct == "video/3gpp"@
}

/// A part can be shown: a plain text part has text, and an image or video
/// part has data of a size whose base64 text fits in memory.
pub open spec fn can_render(part: MmsMessagePart) -> bool {
    let ct = part.content_type@;
    &&& ct == "text/plain"@ ==> part.text is Some
    &&& is_image_type(ct) || is_video_type(ct) ==> (part.data matches Some(d) && d.len() <= usize::MAX
        / 2)
}

/// How `part` is shown, by its content type.
pub fn render_part(part: &MmsMessagePart) -> (r: PartRendering)
    requires
        can_render(*part),
    ensures
        ({
            let ct = part.content_type@;
            match r {
                PartRendering::Nothing => ct == "application/smil"@,
                PartRendering::Text(t) => ct == "text/plain"@ && part.text == Some(t),
                PartRendering::Image { source } => is_image_type(ct) && source@ == data_url(
                    ct,
                    part.data->0@,
                ),
                PartRendering::UnsupportedAudio => ct == "audio/amr"@,
                PartRendering::Video { source, content_type } => is_video_type(ct) && source@
                    == data_url(ct, part.data->0@) && content_type@ == ct,
                PartRendering::Unknown { content_type } => ct != "application/smil"@ && ct
                    != "text/plain"@ && !is_image_type(ct) && ct != "audio/amr"@ && !is_video_type(
                    ct,
                ) && content_type@ == default_escaped(ct),
            }
        }),
{
    let ct = part.content_type.as_str();
    if same_text(ct, "application/smil") {
        PartRendering::Nothing
    } else if same_text(ct, "text/plain") {
        match &part.text {
            Some(t) => PartRendering::Text(t.clone()),
            None => {
                assert(false);
                PartRendering::Nothing
            },
        }
    } else if same_text(ct, "image/jpeg") || same_text(ct, "image/png") {
        match &part.data {
            Some(d) => PartRendering::Image { source: make_data_url(&part.content_type, d) },
            None => {
                assert(false);
                PartRendering::Nothing
            },
        }
    } else if same_text(ct, "audio/amr") {
        PartRendering::UnsupportedAudio
    } else if same_text(ct, "video/mp4") || same_text(ct, "video/3gpp") {
        match &part.data {
            Some(d) => PartRendering::Video {
                source: make_data_url(&part.content_type, d),
                content_type: part.content_type.clone(),
            },
            None => {
                assert(false);
                PartRendering::Nothing
            },
        }
    } else {
        PartRendering::Unknown { content_type: escape_default(ct) }
    }
}

} // verus!
