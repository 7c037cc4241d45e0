//! Validation of a backup document's XML tree into a `TextLog`.
//!
//! The root element's child elements are the messages: `sms` for a plain
//! text message, `mms` for a multimedia one. Every attribute that the model
//! needs is checked; the first element that fails validation, in document
//! order, fails the whole document.

use vstd::prelude::*;
use crate::model::{
    is_instant_millis, KindView, LogView, MessageKind, MmsMessage, MmsMessagePart, MmsView,
    PartView, PhoneNumber, SmsMessage, SmsView, TextLog, Timestamp,
};
use crate::text::{chars_of, decimal_in, parse_decimal};
use crate::tree::{
    attribute, parse_xml, position_at, same_text, text_position, xml_root_of, XmlElement, XmlNode,
    XmlSyntaxError,
};

verus! {

broadcast use vstd::string::group_string_axioms;

/// How base64 decoding failed, as the base64 crate reports it.
#[derive(Clone, Copy, Debug, PartialEq, Eq, Structural)]
pub enum Base64Failure {
    /// A byte outside the alphabet, at `offset` in the input.
    InvalidByte { offset: usize, byte: u8 },
    /// The number of symbols cannot be the encoding of whole bytes.
    InvalidLength { length: usize },
    /// The last symbol, at `offset`, has bits set that no byte fills.
    InvalidLastSymbol { offset: usize, byte: u8 },
    /// The padding is missing or wrong.
    InvalidPadding,
}

/// Why an element of the backup was rejected.
#[derive(Clone, Debug, PartialEq, Eq)]
pub enum InvalidElement {
    /// The element lacks the attribute `name`.
    MissingAttribute { name: String },
    /// The message's `address` attribute is empty.
    EmptyAddress,
    /// The message type code `value` is not one of the codes of its kind
    /// of message.
    UnknownMessageType { value: String },
    /// `value` is not a whole number of milliseconds that is an instant
    /// chrono can represent.
    InvalidTimestamp { value: String },
    /// `value` is not a 32-bit signed integer.
    InvalidSeq { value: String },
    /// The `data` attribute is not valid base64.
    InvalidBase64 { cause: Base64Failure },
    /// The element has more than one child element named `name`.
    DuplicateChild { name: String },
    /// An element named `name` stands where a `part` must.
    UnexpectedTag { name: String },
}

/// The content of an `InvalidElement`.
pub enum InvalidView {
    MissingAttribute { name: Seq<char> },
    EmptyAddress,
    UnknownMessageType { value: Seq<char> },
    InvalidTimestamp { value: Seq<char> },
    InvalidSeq { value: Seq<char> },
    InvalidBase64 { cause: Base64Failure },
    DuplicateChild { name: Seq<char> },
    UnexpectedTag { name: Seq<char> },
}

impl View for InvalidElement {
    type V = InvalidView;

    open spec fn view(&self) -> InvalidView {
        match self {
            InvalidElement::MissingAttribute { name } => InvalidView::MissingAttribute {
                name: name@,
            },
            InvalidElement::EmptyAddress => InvalidView::EmptyAddress,
            InvalidElement::UnknownMessageType { value } => InvalidView::UnknownMessageType {
                value: value@,
            },
            InvalidElement::InvalidTimestamp { value } => InvalidView::InvalidTimestamp {
                value: value@,
            },
            InvalidElement::InvalidSeq { value } => InvalidView::InvalidSeq { value: value@ },
            InvalidElement::InvalidBase64 { cause } => InvalidView::InvalidBase64 { cause: *cause },
            InvalidElement::DuplicateChild { name } => InvalidView::DuplicateChild { name: name@ },
            InvalidElement::UnexpectedTag { name } => InvalidView::UnexpectedTag { name: name@ },
        }
    }
}

/// What an element that failed validation stood for.
#[derive(Clone, Copy, Debug, PartialEq, Eq, Structural)]
pub enum ElementRole {
    SmsMessage,
    MmsMessage,
    MmsMessagePart,
}

/// Where an element that failed validation stands in the document.
#[derive(Clone, Debug, PartialEq, Eq)]
pub struct ElementContext {
    pub role: ElementRole,
    /// The local part of the element's tag name.
    pub tag: String,
    /// The namespace URI of the element's tag, if it has one.
    pub namespace: Option<String>,
    /// The line of the element's start, counted from 1.
    pub line: usize,
    /// The column of the element's start, counted from 1.
    pub column: usize,
}

/// The content of an `ElementContext`.
pub struct ContextView {
    pub role: ElementRole,
    pub tag: Seq<char>,
    pub namespace: Option<Seq<char>>,
    pub line: usize,
    pub column: usize,
}

impl View for ElementContext {
    type V = ContextView;

    open spec fn view(&self) -> ContextView {
        ContextView {
            role: self.role,
            tag: self.tag@,
            namespace: match self.namespace {
                Some(n) => Some(n@),
                None => None,
            },
            line: self.line,
            column: self.column,
        }
    }
}

/// The context that names `e`, an element of the document `doc`, in the
/// role `role`.
pub open spec fn context_of(role: ElementRole, e: XmlElement, doc: Seq<char>) -> ContextView {
    ContextView {
        role,
        tag: e.name@,
        namespace: match e.namespace {
            Some(n) => Some(n@),
            None => None,
        },
        line: position_at(doc, e.offset as int).line,
        column: position_at(doc, e.offset as int).column,
    }
}

/// Why a backup document could not be read.
#[derive(Debug, PartialEq, Eq)]
pub enum ParseError {
    /// The text is not well-formed XML.
    Syntax(XmlSyntaxError),
    /// A child element of the root is neither `sms` nor `mms`.
    BadTag { tag: String, line: usize, column: usize },
    /// An `sms` element failed validation.
    InvalidSms { context: ElementContext, cause: InvalidElement },
    /// An `mms` element failed validation, not in one of its parts.
    InvalidMms { context: ElementContext, cause: InvalidElement },
    /// A part of the `mms` element `message` failed validation.
    InvalidMmsPart { message: ElementContext, part: ElementContext, cause: InvalidElement },
}

/// The content of a `ParseError`; the XML parser's message is left out.
pub enum ParseErrorView {
    Syntax,
    BadTag { tag: Seq<char>, line: usize, column: usize },
    InvalidSms { context: ContextView, cause: InvalidView },
    InvalidMms { context: ContextView, cause: InvalidView },
    InvalidMmsPart { message: ContextView, part: ContextView, cause: InvalidView },
}

impl View for ParseError {
    type V = ParseErrorView;

    open spec fn view(&self) -> ParseErrorView {
        match self {
            ParseError::Syntax(_) => ParseErrorView::Syntax,
            ParseError::BadTag { tag, line, column } => ParseErrorView::BadTag {
                tag: tag@,
                line: *line,
                column: *column,
            },
            ParseError::InvalidSms { context, cause } => ParseErrorView::InvalidSms {
                context: context@,
                cause: cause@,
            },
            ParseError::InvalidMms { context, cause } => ParseErrorView::InvalidMms {
                context: context@,
                cause: cause@,
            },
            ParseError::InvalidMmsPart { message, part, cause } => ParseErrorView::InvalidMmsPart {
                message: message@,
                part: part@,
                cause: cause@,
            },
        }
    }
}

/// `r` with both of its sides viewed.
pub open spec fn result_view<T: View, E: View>(r: Result<T, E>) -> Result<T::V, E::V> {
    match r {
        Ok(t) => Ok(t@),
        Err(e) => Err(e@),
    }
}

/// The instant that `s` gives as milliseconds since the Unix epoch: a
/// decimal 64-bit integer that chrono can represent.
pub open spec fn epoch_of(s: Seq<char>) -> Option<int> {
    match decimal_in(s, true, i64::MIN as int, i64::MAX as int) {
        Some(v) => if is_instant_millis(v) {
            Some(v)
        } else {
            None
        },
        None => None,
    }
}

/// The attribute `name` of `e`, or the error for its absence.
pub open spec fn required(e: XmlElement, name: Seq<char>) -> Result<Seq<char>, InvalidView> {
    match attribute(e, name) {
        Some(v) => Ok(v),
        None => Err(InvalidView::MissingAttribute { name }),
    }
}

/// The `address` attribute of the message `e`, which must not be empty,
/// or the error.
pub open spec fn required_address(e: XmlElement) -> Result<Seq<char>, InvalidView> {
    match required(e, "address"@) {
        Err(err) => Err(err),
        Ok(a) => if a.len() == 0 {
            Err(InvalidView::EmptyAddress)
        } else {
            Ok(a)
        },
    }
}

/// The instant written in the attribute `name` of `e`, or the error.
pub open spec fn required_instant(e: XmlElement, name: Seq<char>) -> Result<int, InvalidView> {
    match required(e, name) {
        Err(err) => Err(err),
        Ok(text) => match epoch_of(text) {
            Some(v) => Ok(v),
            None => Err(InvalidView::InvalidTimestamp { value: text }),
        },
    }
}

/// The kind of a received message, whose `date_sent` attribute must hold
/// an instant.
pub open spec fn received_kind(e: XmlElement) -> Result<KindView, InvalidView> {
    match required_instant(e, "date_sent"@) {
        Ok(v) => Ok(KindView::Received { date_sent: v }),
        Err(err) => Err(err),
    }
}

/// The kind of an `sms` message from its type code: `2` sent, `1`
/// received.
pub open spec fn sms_kind(e: XmlElement, code: Seq<char>) -> Result<KindView, InvalidView> {
    if code == "2"@ {
        Ok(KindView::Sent)
    } else if code == "1"@ {
        received_kind(e)
    } else {
        Err(InvalidView::UnknownMessageType { value: code })
    }
}

/// The kind of an `mms` message from its type code: `128` sent, `132`
/// received.
pub open spec fn mms_kind(e: XmlElement, code: Seq<char>) -> Result<KindView, InvalidView> {
    if code == "128"@ {
        Ok(KindView::Sent)
    } else if code == "132"@ {
        received_kind(e)
    } else {
        Err(InvalidView::UnknownMessageType { value: code })
    }
}

/// The message that the `sms` element `e` describes, or the first reason,
/// in the order `address`, `date`, `body`, `readable_date`,
/// `contact_name`, `type`, `date_sent`, that it does not describe one.
pub open spec fn sms_outcome(e: XmlElement) -> Result<SmsView, InvalidView> {
    match required_address(e) {
        Err(err) => Err(err),
        Ok(address) => match required_instant(e, "date"@) {
            Err(err) => Err(err),
            Ok(date) => match required(e, "body"@) {
                Err(err) => Err(err),
                Ok(body) => match required(e, "readable_date"@) {
                    Err(err) => Err(err),
                    Ok(readable_date) => match required(e, "contact_name"@) {
                        Err(err) => Err(err),
                        Ok(contact_name) => match required(e, "type"@) {
                            Err(err) => Err(err),
                            Ok(code) => match sms_kind(e, code) {
                                Err(err) => Err(err),
                                Ok(kind) => Ok(
                                    SmsView {
                                        address,
                                        contact_name,
                                        date,
                                        readable_date,
                                        kind,
                                        body,
                                    },
                                ),
                            },
                        },
                    },
                },
            },
        },
    }
}

/// A copy of `s`.
fn copy_string(s: &String) -> (r: String)
    ensures
        r@ == s@,
{
    s.clone()
}

/// The context that names `e` in the role `role`.
fn context(role: ElementRole, e: &XmlElement, doc: &str) -> (r: ElementContext)
    ensures
        r@ == context_of(role, *e, doc@),
{
    let namespace = match &e.namespace {
        Some(n) => Some(copy_string(n)),
        None => None,
    };
    let pos = text_position(doc, e.offset);
    ElementContext { role, tag: copy_string(&e.name), namespace, line: pos.line, column: pos.column }
}

/// The attribute `name` of `e`, or the error for its absence.
pub fn expect_attr<'a>(e: &'a XmlElement, name: &str) -> (r: Result<&'a String, InvalidElement>)
    ensures
        result_view(r) == required(*e, name@),
{
    match e.attribute(name) {
        Some(v) => Ok(v),
        None => Err(InvalidElement::MissingAttribute { name: name.to_owned() }),
    }
}

/// The `address` attribute of the message `e`, which must not be empty.
fn expect_address(e: &XmlElement) -> (r: Result<String, InvalidElement>)
    ensures
        result_view(r) == required_address(*e),
{
    let a = expect_attr(e, "address")?;
    if a.as_str().is_empty() {
        Err(InvalidElement::EmptyAddress)
    } else {
        Ok(copy_string(a))
    }
}

/// The instant `date` milliseconds after the Unix epoch.
pub fn parse_unix_epoch(date: &String) -> (r: Result<Timestamp, InvalidElement>)
    ensures
        match r {
            Ok(t) => epoch_of(date@) == Some(t@),
            Err(err) => epoch_of(date@) is None && err@ == (InvalidView::InvalidTimestamp {
                value: date@,
            }),
        },
{
    let text = chars_of(date.as_str());
    assert(text@.subrange(0, text.len() as int) =~= text@);
    match parse_decimal(&text, 0, text.len(), true, i64::MIN as i128, i64::MAX as i128) {
        Some(v) => match Timestamp::from_millis(v as i64) {
            Some(t) => Ok(t),
            None => Err(InvalidElement::InvalidTimestamp { value: copy_string(date) }),
        },
        None => Err(InvalidElement::InvalidTimestamp { value: copy_string(date) }),
    }
}

/// The instant written in the attribute `name` of `e`.
fn expect_instant(e: &XmlElement, name: &str) -> (r: Result<Timestamp, InvalidElement>)
    ensures
        match r {
            Ok(t) => required_instant(*e, name@) == Ok::<int, InvalidView>(t@),
            Err(err) => required_instant(*e, name@) == Err::<int, InvalidView>(err@),
        },
{
    let text = expect_attr(e, name)?;
    parse_unix_epoch(text)
}

/// The kind of a received message, from its `date_sent` attribute.
fn parse_received(e: &XmlElement) -> (r: Result<MessageKind, InvalidElement>)
    ensures
        result_view(r) == received_kind(*e),
{
    let date_sent = expect_instant(e, "date_sent")?;
    Ok(MessageKind::Received { date_sent })
}

/// The message that the `sms` element `e` describes.
fn parse_sms(e: &XmlElement) -> (r: Result<SmsMessage, InvalidElement>)
    ensures
        result_view(r) == sms_outcome(*e),
{
    let address = expect_address(e)?;
    let date = expect_instant(e, "date")?;
    let body = copy_string(expect_attr(e, "body")?);
    let readable_date = copy_string(expect_attr(e, "readable_date")?);
    let contact_name = copy_string(expect_attr(e, "contact_name")?);
    let code = expect_attr(e, "type")?;
    let kind = if same_text(code.as_str(), "2") {
        MessageKind::Sent
    } else if same_text(code.as_str(), "1") {
        parse_received(e)?
    } else {
        return Err(InvalidElement::UnknownMessageType { value: copy_string(code) });
    };
    Ok(SmsMessage { address: PhoneNumber(address), contact_name, date, readable_date, kind, body })
}

/// The elements among `nodes`, in order.
pub open spec fn elements_of(nodes: Seq<XmlNode>) -> Seq<XmlElement>
    decreases nodes.len(),
{
    if nodes.len() == 0 {
        Seq::empty()
    } else {
        let rest = elements_of(nodes.drop_last());
        match nodes.last() {
            XmlNode::Element(c) => rest.push(c),
            _ => rest,
        }
    }
}

/// The elements of `elems` whose local name is `name`, in order.
pub open spec fn named(elems: Seq<XmlElement>, name: Seq<char>) -> Seq<XmlElement>
    decreases elems.len(),
{
    if elems.len() == 0 {
        Seq::empty()
    } else {
        let rest = named(elems.drop_last(), name);
        if elems.last().name@ == name {
            rest.push(elems.last())
        } else {
            rest
        }
    }
}

/// What base64's standard engine decodes `text` to, or how it fails.
pub uninterp spec fn base64_decoding(text: Seq<char>) -> Result<Seq<u8>, Base64Failure>;

/// Relies on base64's `Engine::decode` with the `STANDARD` engine (standard
/// alphabet, padding required): its outcome depends on the text alone.
#[verifier::external_body]
fn decode_base64(text: &str) -> (r: Result<Vec<u8>, Base64Failure>)
    ensures
        match r {
            Ok(bytes) => base64_decoding(text@) == Ok::<Seq<u8>, Base64Failure>(bytes@),
            Err(f) => base64_decoding(text@) == Err::<Seq<u8>, Base64Failure>(f),
        },
{
    match base64::Engine::decode(&base64::engine::general_purpose::STANDARD, text) {
        Ok(bytes) => Ok(bytes),
        Err(base64::DecodeError::InvalidByte(offset, byte)) => Err(
            Base64Failure::InvalidByte { offset, byte },
        ),
        Err(base64::DecodeError::InvalidLength(length)) => Err(
            Base64Failure::InvalidLength { length },
        ),
        Err(base64::DecodeError::InvalidLastSymbol(offset, byte)) => Err(
            Base64Failure::InvalidLastSymbol { offset, byte },
        ),
        Err(base64::DecodeError::InvalidPadding) => Err(Base64Failure::InvalidPadding),
    }
}

/// The text of a part: absent where the attribute is missing or holds the
/// word `null`.
pub open spec fn part_text(e: XmlElement) -> Option<Seq<char>> {
    match attribute(e, "text"@) {
        Some(t) => if t == "null"@ {
            None
        } else {
            Some(t)
        },
        None => None,
    }
}

/// The part that the element `e` describes, or the first reason, in the
/// order tag, `ct`, `cl`, `seq`, `data`, that it does not describe one.
pub open spec fn part_outcome(e: XmlElement) -> Result<PartView, InvalidView> {
    if e.name@ != "part"@ {
        Err(InvalidView::UnexpectedTag { name: e.name@ })
    } else {
        match required(e, "ct"@) {
            Err(err) => Err(err),
            Ok(content_type) => match required(e, "cl"@) {
                Err(err) => Err(err),
                Ok(content_location) => match required(e, "seq"@) {
                    Err(err) => Err(err),
                    Ok(seq_text) => match decimal_in(
                        seq_text,
                        true,
                        i32::MIN as int,
                        i32::MAX as int,
                    ) {
                        None => Err(InvalidView::InvalidSeq { value: seq_text }),
                        Some(seq) => {
                            let part = PartView {
                                content_type,
                                content_location,
                                text: part_text(e),
                                seq,
                                data: None,
                            };
                            match attribute(e, "data"@) {
                                None => Ok(part),
                                Some(d) => match base64_decoding(d) {
                                    Ok(bytes) => Ok(PartView { data: Some(bytes), ..part }),
                                    Err(cause) => Err(InvalidView::InvalidBase64 { cause }),
                                },
                            }
                        },
                    },
                },
            },
        }
    }
}

/// The parts that `elems` describe, or the context of the first one that
/// fails with its reason.
pub open spec fn parts_outcome(elems: Seq<XmlElement>, doc: Seq<char>) -> Result<
    Seq<PartView>,
    (ContextView, InvalidView),
>
    decreases elems.len(),
{
    if elems.len() == 0 {
        Ok(Seq::empty())
    } else {
        match parts_outcome(elems.drop_last(), doc) {
            Err(x) => Err(x),
            Ok(parts) => match part_outcome(elems.last()) {
                Err(c) => Err((context_of(ElementRole::MmsMessagePart, elems.last(), doc), c)),
                Ok(p) => Ok(parts.push(p)),
            },
        }
    }
}

/// The `mms` element `e` without its parts, or the first reason, in the
/// order `address`, `date`, `readable_date`, `contact_name`, `m_type`,
/// `date_sent`, more than one `parts` child, that it is not a message.
pub open spec fn mms_head(e: XmlElement) -> Result<MmsView, InvalidView> {
    match required_address(e) {
        Err(err) => Err(err),
        Ok(address) => match required_instant(e, "date"@) {
            Err(err) => Err(err),
            Ok(date) => match required(e, "readable_date"@) {
                Err(err) => Err(err),
                Ok(readable_date) => match required(e, "contact_name"@) {
                    Err(err) => Err(err),
                    Ok(contact_name) => match required(e, "m_type"@) {
                        Err(err) => Err(err),
                        Ok(code) => match mms_kind(e, code) {
                            Err(err) => Err(err),
                            Ok(kind) => if named(elements_of(e.children@), "parts"@).len() > 1 {
                                Err(InvalidView::DuplicateChild { name: "parts"@ })
                            } else {
                                Ok(
                                    MmsView {
                                        address,
                                        contact_name,
                                        date,
                                        readable_date,
                                        kind,
                                        parts: Seq::empty(),
                                    },
                                )
                            },
                        },
                    },
                },
            },
        },
    }
}

/// The parts of the `mms` element `e`: those of its `parts` child, none
/// where it has no such child.
pub open spec fn mms_parts(e: XmlElement, doc: Seq<char>) -> Result<Seq<PartView>, (ContextView, InvalidView)> {
    let found = named(elements_of(e.children@), "parts"@);
    if found.len() == 0 {
        Ok(Seq::empty())
    } else {
        parts_outcome(elements_of(found[0].children@), doc)
    }
}

/// The message that the `mms` element `e` describes, or the error that
/// names the first element to fail and why.
pub open spec fn mms_outcome(e: XmlElement, doc: Seq<char>) -> Result<MmsView, ParseErrorView> {
    let here = context_of(ElementRole::MmsMessage, e, doc);
    match mms_head(e) {
        Err(cause) => Err(ParseErrorView::InvalidMms { context: here, cause }),
        Ok(head) => match mms_parts(e, doc) {
            Err((part, cause)) => Err(ParseErrorView::InvalidMmsPart { message: here, part, cause }),
            Ok(parts) => Ok(MmsView { parts, ..head }),
        },
    }
}

/// The elements that `s` refers to.
pub open spec fn deref_all(s: Seq<&XmlElement>) -> Seq<XmlElement> {
    s.map_values(|x: &XmlElement| *x)
}

/// The child elements of `e`, in order.
fn child_elements(e: &XmlElement) -> (r: Vec<&XmlElement>)
    ensures
        deref_all(r@) == elements_of(e.children@),
{
    let mut r: Vec<&XmlElement> = Vec::new();
    let mut i: usize = 0;
    while i < e.children.len()
        invariant
            i <= e.children.len(),
            deref_all(r@) =~= elements_of(e.children@.subrange(0, i as int)),
        decreases e.children.len() - i,
    {
        assert(e.children@.subrange(0, i + 1).drop_last() =~= e.children@.subrange(0, i as int));
        match &e.children[i] {
            XmlNode::Element(c) => {
                r.push(c);
            },
            _ => {},
        }
        i = i + 1;
    }
    assert(e.children@.subrange(0, i as int) =~= e.children@);
    r
}

/// The only child element of `e` named `name`, if there is one; an error
/// where there are more.
pub fn find_child<'a>(e: &'a XmlElement, name: &str) -> (r: Result<Option<&'a XmlElement>, InvalidElement>)
    ensures
        match r {
            Ok(Some(c)) => named(elements_of(e.children@), name@) == seq![*c],
            Ok(None) => named(elements_of(e.children@), name@).len() == 0,
            Err(err) => named(elements_of(e.children@), name@).len() > 1
                && err@ == (InvalidView::DuplicateChild { name: name@ }),
        },
{
    let elems = child_elements(e);
    let mut found: Option<&XmlElement> = None;
    let mut i: usize = 0;
    while i < elems.len()
        invariant
            i <= elems.len(),
            deref_all(elems@) == elements_of(e.children@),
            match found {
                Some(c) => named(deref_all(elems@).subrange(0, i as int), name@) == seq![*c],
                None => named(deref_all(elems@).subrange(0, i as int), name@).len() == 0,
            },
        decreases elems.len() - i,
    {
        let ghost prefix = deref_all(elems@).subrange(0, i + 1);
        assert(prefix.drop_last() =~= deref_all(elems@).subrange(0, i as int));
        if same_text(elems[i].name.as_str(), name) {
            if found.is_some() {
                proof {
                    lemma_named_grows(deref_all(elems@), name@, i + 1);
                }
                return Err(InvalidElement::DuplicateChild { name: name.to_owned() });
            }
            found = Some(elems[i]);
            assert(named(prefix, name@) =~= seq![*elems[i as int]]);
        }
        i = i + 1;
    }
    assert(deref_all(elems@).subrange(0, i as int) =~= deref_all(elems@));
    Ok(found)
}

proof fn lemma_named_grows(elems: Seq<XmlElement>, name: Seq<char>, k: int)
    requires
        0 <= k <= elems.len(),
    ensures
        named(elems, name).len() >= named(elems.subrange(0, k), name).len(),
    decreases elems.len(),
{
    if k < elems.len() {
        lemma_named_grows(elems.drop_last(), name, k);
        assert(elems.drop_last().subrange(0, k) =~= elems.subrange(0, k));
    } else {
        assert(elems.subrange(0, k) =~= elems);
    }
}

/// The part that the element `e` describes.
pub fn parse_mms_part(e: &XmlElement) -> (r: Result<MmsMessagePart, InvalidElement>)
    ensures
        result_view(r) == part_outcome(*e),
{
    if !same_text(e.name.as_str(), "part") {
        return Err(InvalidElement::UnexpectedTag { name: copy_string(&e.name) });
    }
    let content_type = copy_string(expect_attr(e, "ct")?);
    let content_location = copy_string(expect_attr(e, "cl")?);
    let text = match e.attribute("text") {
        Some(t) => if same_text(t.as_str(), "null") {
            None
        } else {
            Some(copy_string(t))
        },
        None => None,
    };
    let seq_text = expect_attr(e, "seq")?;
    let digits = chars_of(seq_text.as_str());
    assert(digits@.subrange(0, digits.len() as int) =~= digits@);
    let seq = match parse_decimal(&digits, 0, digits.len(), true, i32::MIN as i128, i32::MAX as i128) {
        Some(v) => v as i32,
        None => {
            return Err(InvalidElement::InvalidSeq { value: copy_string(seq_text) });
        },
    };
    let data = match e.attribute("data") {
        Some(d) => match decode_base64(d.as_str()) {
            Ok(bytes) => Some(bytes),
            Err(cause) => {
                return Err(InvalidElement::InvalidBase64 { cause });
            },
        },
        None => None,
    };
    Ok(MmsMessagePart { content_type, content_location, text, seq, data })
}

proof fn lemma_parts_error_stays(elems: Seq<XmlElement>, k: int, doc: Seq<char>)
    requires
        0 <= k <= elems.len(),
        parts_outcome(elems.subrange(0, k), doc) is Err,
    ensures
        parts_outcome(elems, doc) == parts_outcome(elems.subrange(0, k), doc),
    decreases elems.len(),
{
    if k < elems.len() {
        assert(elems.drop_last().subrange(0, k) =~= elems.subrange(0, k));
        lemma_parts_error_stays(elems.drop_last(), k, doc);
    } else {
        assert(elems.subrange(0, k) =~= elems);
    }
}

/// The parts that the elements `elems` describe.
fn parse_parts(elems: &Vec<&XmlElement>, doc: &str) -> (r: Result<Vec<MmsMessagePart>, (ElementContext, InvalidElement)>)
    ensures
        match r {
            Ok(parts) => parts_outcome(deref_all(elems@), doc@) == Ok::<Seq<PartView>, (ContextView, InvalidView)>(
                parts@.map_values(|p: MmsMessagePart| p@),
            ),
            Err((ctx, cause)) => parts_outcome(deref_all(elems@), doc@) == Err::<
                Seq<PartView>,
                (ContextView, InvalidView),
            >((ctx@, cause@)),
        },
{
    let mut parts: Vec<MmsMessagePart> = Vec::new();
    let mut i: usize = 0;
    assert(deref_all(elems@).subrange(0, 0) =~= Seq::<XmlElement>::empty());
    assert(parts@.map_values(|p: MmsMessagePart| p@) =~= Seq::<PartView>::empty());
    while i < elems.len()
        invariant
            i <= elems.len(),
            parts_outcome(deref_all(elems@).subrange(0, i as int), doc@) == Ok::<
                Seq<PartView>,
                (ContextView, InvalidView),
            >(parts@.map_values(|p: MmsMessagePart| p@)),
        decreases elems.len() - i,
    {
        let ghost prefix = deref_all(elems@).subrange(0, i + 1);
        assert(prefix.drop_last() =~= deref_all(elems@).subrange(0, i as int));
        assert(prefix.last() == *elems@[i as int]);
        match parse_mms_part(elems[i]) {
            Ok(p) => {
                let ghost before = parts@;
                parts.push(p);
                assert(parts@.map_values(|p: MmsMessagePart| p@) =~= before.map_values(
                    |p: MmsMessagePart| p@,
                ).push(p@));
            },
            Err(cause) => {
                proof {
                    lemma_parts_error_stays(deref_all(elems@), i + 1, doc@);
                }
                return Err((context(ElementRole::MmsMessagePart, elems[i], doc), cause));
            },
        }
        i = i + 1;
    }
    assert(deref_all(elems@).subrange(0, i as int) =~= deref_all(elems@));
    Ok(parts)
}

/// The message that the `mms` element `e` describes.
pub fn parse_mms(e: &XmlElement, doc: &str) -> (r: Result<MmsMessage, ParseError>)
    ensures
        result_view(r) == mms_outcome(*e, doc@),
{
    match parse_mms_head(e) {
        Err(cause) => Err(ParseError::InvalidMms { context: context(ElementRole::MmsMessage, e, doc), cause }),
        Ok((address, date, readable_date, contact_name, kind, found)) => {
            let parts = match found {
                Some(p) => match parse_parts(&child_elements(p), doc) {
                    Ok(parts) => parts,
                    Err((part, cause)) => {
                        return Err(
                            ParseError::InvalidMmsPart {
                                message: context(ElementRole::MmsMessage, e, doc),
                                part,
                                cause,
                            },
                        );
                    },
                },
                None => Vec::new(),
            };
            let r = MmsMessage { address, contact_name, date, readable_date, kind, parts };
            assert(r@.parts =~= mms_parts(*e, doc@)->Ok_0);
            Ok(r)
        },
    }
}

/// The fields of the `mms` element `e` other than its parts, and its
/// `parts` child if it has one.
fn parse_mms_head(e: &XmlElement) -> (r: Result<
    (PhoneNumber, Timestamp, String, String, MessageKind, Option<&XmlElement>),
    InvalidElement,
>)
    ensures
        match r {
            Ok((address, date, readable_date, contact_name, kind, found)) => mms_head(*e) == Ok::<
                MmsView,
                InvalidView,
            >(
                MmsView {
                    address: address.0@,
                    contact_name: contact_name@,
                    date: date@,
                    readable_date: readable_date@,
                    kind: kind@,
                    parts: Seq::empty(),
                },
            ) && match found {
                Some(p) => named(elements_of(e.children@), "parts"@) == seq![*p],
                None => named(elements_of(e.children@), "parts"@).len() == 0,
            },
            Err(err) => mms_head(*e) == Err::<MmsView, InvalidView>(err@),
        },
{
    let address = expect_address(e)?;
    let date = expect_instant(e, "date")?;
    let readable_date = copy_string(expect_attr(e, "readable_date")?);
    let contact_name = copy_string(expect_attr(e, "contact_name")?);
    let code = expect_attr(e, "m_type")?;
    let kind = if same_text(code.as_str(), "128") {
        MessageKind::Sent
    } else if same_text(code.as_str(), "132") {
        parse_received(e)?
    } else {
        return Err(InvalidElement::UnknownMessageType { value: copy_string(code) });
    };
    let found = find_child(e, "parts")?;
    Ok((PhoneNumber(address), date, readable_date, contact_name, kind, found))
}

/// The `sms` message that `e` describes, or the error that names it.
pub open spec fn sms_entry(e: XmlElement, doc: Seq<char>) -> Result<SmsView, ParseErrorView> {
    match sms_outcome(e) {
        Ok(m) => Ok(m),
        Err(cause) => Err(
            ParseErrorView::InvalidSms { context: context_of(ElementRole::SmsMessage, e, doc), cause },
        ),
    }
}

/// The log that the nodes `nodes` under the root describe, or the error
/// for the first of them that fails.
pub open spec fn log_from(nodes: Seq<XmlNode>, doc: Seq<char>) -> Result<LogView, ParseErrorView>
    decreases nodes.len(),
{
    if nodes.len() == 0 {
        Ok(LogView { sms_messages: Seq::empty(), mms_messages: Seq::empty() })
    } else {
        match log_from(nodes.drop_last(), doc) {
            Err(x) => Err(x),
            Ok(log) => match nodes.last() {
                XmlNode::Element(c) => if c.name@ == "sms"@ {
                    match sms_entry(c, doc) {
                        Err(x) => Err(x),
                        Ok(m) => Ok(LogView { sms_messages: log.sms_messages.push(m), ..log }),
                    }
                } else if c.name@ == "mms"@ {
                    match mms_outcome(c, doc) {
                        Err(x) => Err(x),
                        Ok(m) => Ok(LogView { mms_messages: log.mms_messages.push(m), ..log }),
                    }
                } else {
                    Err(
                        ParseErrorView::BadTag {
                            tag: c.name@,
                            line: position_at(doc, c.offset as int).line,
                            column: position_at(doc, c.offset as int).column,
                        },
                    )
                },
                _ => Ok(log),
            },
        }
    }
}

/// The log that the XML document `text` describes, or why it does not
/// describe one.
pub open spec fn log_outcome(text: Seq<char>) -> Result<LogView, ParseErrorView> {
    match xml_root_of(text) {
        None => Err(ParseErrorView::Syntax),
        Some(root) => log_from(root.children@, text),
    }
}

proof fn lemma_log_error_stays(nodes: Seq<XmlNode>, k: int, doc: Seq<char>)
    requires
        0 <= k <= nodes.len(),
        log_from(nodes.subrange(0, k), doc) is Err,
    ensures
        log_from(nodes, doc) == log_from(nodes.subrange(0, k), doc),
    decreases nodes.len(),
{
    if k < nodes.len() {
        assert(nodes.drop_last().subrange(0, k) =~= nodes.subrange(0, k));
        lemma_log_error_stays(nodes.drop_last(), k, doc);
    } else {
        assert(nodes.subrange(0, k) =~= nodes);
    }
}

/// Reads the messages of a backup document: the child elements of its
/// root, each `sms` or `mms`.
pub fn parse_log(text: String) -> (r: Result<TextLog, ParseError>)
    ensures
        result_view(r) == log_outcome(text@),
{
    let root = match parse_xml(text.as_str()) {
        Ok(root) => root,
        Err(e) => {
            return Err(ParseError::Syntax(e));
        },
    };
    let mut sms_messages: Vec<SmsMessage> = Vec::new();
    let mut mms_messages: Vec<MmsMessage> = Vec::new();
    let ghost nodes = root.children@;
    let mut i: usize = 0;
    assert(nodes.subrange(0, 0) =~= Seq::<XmlNode>::empty());
    assert(sms_messages@.map_values(|m: SmsMessage| m@) =~= Seq::<SmsView>::empty());
    assert(mms_messages@.map_values(|m: MmsMessage| m@) =~= Seq::<MmsView>::empty());
    while i < root.children.len()
        invariant
            i <= root.children.len(),
            nodes == root.children@,
            xml_root_of(text@) == Some(root),
            log_from(nodes.subrange(0, i as int), text@) == Ok::<LogView, ParseErrorView>(
                LogView {
                    sms_messages: sms_messages@.map_values(|m: SmsMessage| m@),
                    mms_messages: mms_messages@.map_values(|m: MmsMessage| m@),
                },
            ),
        decreases root.children.len() - i,
    {
        let ghost prefix = nodes.subrange(0, i + 1);
        assert(prefix.drop_last() =~= nodes.subrange(0, i as int));
        let ghost sms_before = sms_messages@;
        let ghost mms_before = mms_messages@;
        match &root.children[i] {
            XmlNode::Element(c) => {
                if same_text(c.name.as_str(), "sms") {
                    match parse_sms(c) {
                        Ok(m) => {
                            sms_messages.push(m);
                            assert(sms_messages@.map_values(|m: SmsMessage| m@) =~= sms_before.map_values(
                                |m: SmsMessage| m@,
                            ).push(m@));
                        },
                        Err(cause) => {
                            proof {
                                lemma_log_error_stays(nodes, i + 1, text@);
                            }
                            return Err(
                                ParseError::InvalidSms {
                                    context: context(ElementRole::SmsMessage, c, text.as_str()),
                                    cause,
                                },
                            );
                        },
                    }
                } else if same_text(c.name.as_str(), "mms") {
                    match parse_mms(c, text.as_str()) {
                        Ok(m) => {
                            mms_messages.push(m);
                            assert(mms_messages@.map_values(|m: MmsMessage| m@) =~= mms_before.map_values(
                                |m: MmsMessage| m@,
                            ).push(m@));
                        },
                        Err(err) => {
                            proof {
                                lemma_log_error_stays(nodes, i + 1, text@);
                            }
                            return Err(err);
                        },
                    }
                } else {
                    proof {
                        lemma_log_error_stays(nodes, i + 1, text@);
                    }
                    let pos = text_position(text.as_str(), c.offset);
                    return Err(
                        ParseError::BadTag { tag: copy_string(&c.name), line: pos.line, column: pos.column },
                    );
                }
            },
            _ => {},
        }
        i = i + 1;
    }
    assert(nodes.subrange(0, i as int) =~= nodes);
    Ok(TextLog { sms_messages, mms_messages })
}

/// The type codes of the two kinds of message never mix: an `sms` element
/// whose `type` is `128` (an `mms` code) is rejected, and so is an `mms`
/// element whose `m_type` is `2` (an `sms` code).
pub proof fn lemma_type_codes_disjoint(e: XmlElement, doc: Seq<char>)
    ensures
        attribute(e, "type"@) == Some("128"@) ==> sms_outcome(e) is Err,
        attribute(e, "m_type"@) == Some("2"@) ==> mms_outcome(e, doc) is Err,
{
    reveal_strlit("1");
    reveal_strlit("2");
    reveal_strlit("128");
    reveal_strlit("132");
    assert("128"@.len() == 3 && "132"@.len() == 3 && "1"@.len() == 1 && "2"@.len() == 1);
}

/// An `sms` element without a `body` attribute is rejected; where its
/// `address` and `date` are in order, the error names `body`.
pub proof fn lemma_missing_body(e: XmlElement)
    requires
        attribute(e, "body"@) is None,
    ensures
        sms_outcome(e) is Err,
        required_address(e) is Ok && required_instant(e, "date"@) is Ok ==> sms_outcome(e)
            == Err::<SmsView, InvalidView>(InvalidView::MissingAttribute { name: "body"@ }),
{
}

/// A part's `text` attribute holding the word `null` means no text, and an
/// empty one means an empty text.
pub proof fn lemma_part_text_sentinel(e: XmlElement)
    ensures
        part_outcome(e) matches Ok(p) ==> (attribute(e, "text"@) == Some("null"@) ==> p.text is None),
        part_outcome(e) matches Ok(p) ==> (attribute(e, "text"@) == Some(Seq::<char>::empty())
            ==> p.text == Some(Seq::<char>::empty())),
{
    reveal_strlit("null");
    assert("null"@.len() == 4);
}

proof fn lemma_log_from_addresses(nodes: Seq<XmlNode>, doc: Seq<char>)
    ensures
        log_from(nodes, doc) matches Ok(log) ==> (forall|i: int|
            0 <= i < log.sms_messages.len() ==> (#[trigger] log.sms_messages[i]).address.len() > 0)
            && (forall|i: int|
            0 <= i < log.mms_messages.len() ==> (#[trigger] log.mms_messages[i]).address.len() > 0),
    decreases nodes.len(),
{
    if nodes.len() > 0 {
        lemma_log_from_addresses(nodes.drop_last(), doc);
        if let Ok(log) = log_from(nodes, doc) {
            let prev = log_from(nodes.drop_last(), doc)->Ok_0;
            assert forall|i: int| 0 <= i < log.sms_messages.len() implies (
            #[trigger] log.sms_messages[i]).address.len() > 0 by {
                if i < prev.sms_messages.len() {
                    assert(log.sms_messages[i] == prev.sms_messages[i]);
                }
            }
            assert forall|i: int| 0 <= i < log.mms_messages.len() implies (
            #[trigger] log.mms_messages[i]).address.len() > 0 by {
                if i < prev.mms_messages.len() {
                    assert(log.mms_messages[i] == prev.mms_messages[i]);
                }
            }
        }
    }
}

/// Every message of a log read from a document has a non-empty address.
pub proof fn lemma_addresses_not_empty(text: Seq<char>)
    ensures
        log_outcome(text) matches Ok(log) ==> (forall|i: int|
            0 <= i < log.sms_messages.len() ==> (#[trigger] log.sms_messages[i]).address.len() > 0)
            && (forall|i: int|
            0 <= i < log.mms_messages.len() ==> (#[trigger] log.mms_messages[i]).address.len() > 0),
{
    if let Some(root) = xml_root_of(text) {
        lemma_log_from_addresses(root.children@, text);
    }
}

} // verus!
