//! The typed message log that ingestion produces.

use vstd::prelude::*;

verus! {

/// Milliseconds since the Unix epoch of -262143-01-01T00:00:00.000Z, the
/// earliest instant that chrono's `DateTime<Utc>` holds.
pub const MIN_TIMESTAMP_MILLIS: i64 = -8334601228800000;

/// Milliseconds since the Unix epoch of 262142-12-31T23:59:59.999Z, the
/// latest instant that chrono's `DateTime<Utc>` holds.
pub const MAX_TIMESTAMP_MILLIS: i64 = 8210266876799999;

pub open spec fn is_instant_millis(millis: int) -> bool {
    MIN_TIMESTAMP_MILLIS <= millis <= MAX_TIMESTAMP_MILLIS
}

/// Relies on chrono's `TimeZone::timestamp_millis_opt` for `Utc`: it gives
/// a single instant exactly when `millis` lies between the earliest and the
/// latest instant of `DateTime<Utc>` (`NaiveDate::MIN` and `NaiveDate::MAX`
/// at the start and the end of their day).
#[verifier::external_body]
fn utc_instant_exists(millis: i64) -> (r: bool)
    ensures
        r == is_instant_millis(millis as int),
{
    chrono::TimeZone::timestamp_millis_opt(&chrono::Utc, millis).single().is_some()
}

/// An instant in UTC with millisecond precision, held as milliseconds since
/// the Unix epoch; always one that chrono can represent.
#[derive(Clone, Copy, Debug, PartialEq, Eq, Structural, PartialOrd, Ord, Hash)]
pub struct Timestamp {
    millis: i64,
}

impl View for Timestamp {
    type V = int;

    closed spec fn view(&self) -> int {
        self.millis as int
    }
}

impl Timestamp {
    #[verifier::type_invariant]
    spec fn in_range(self) -> bool {
        is_instant_millis(self.millis as int)
    }

    /// The instant `millis` milliseconds after the Unix epoch, where chrono
    /// can represent it.
    pub fn from_millis(millis: i64) -> (r: Option<Timestamp>)
        ensures
            r is Some <==> is_instant_millis(millis as int),
            r matches Some(t) ==> t@ == millis as int,
    {
        if utc_instant_exists(millis) {
            Some(Timestamp { millis })
        } else {
            None
        }
    }

    /// Milliseconds since the Unix epoch.
    pub fn millis(&self) -> (r: i64)
        ensures
            r as int == self@,
            is_instant_millis(r as int),
    {
        proof {
            use_type_invariant(self);
        }
        self.millis
    }
}

/// A phone number as the backup writes it; compared as plain text.
#[derive(Clone, Debug, PartialEq, Eq, Hash, PartialOrd, Ord)]
pub struct PhoneNumber(pub String);

impl PhoneNumber {
    /// The number as text.
    pub fn as_str(&self) -> (r: &str)
        ensures
            r@ == self.0@,
    {
        self.0.as_str()
    }
}

/// Whether a message was sent or received.
#[derive(Clone, Copy, Debug, PartialEq, Eq, Structural)]
pub enum MessageKind {
    Sent,
    Received {
        /// When the sender says it sent the message; the message's own
        /// date is when it was received.
        date_sent: Timestamp,
    },
}

/// One part of a multimedia message.
#[derive(Clone, Debug, PartialEq)]
pub struct MmsMessagePart {
    /// The MIME type of this part.
    pub content_type: String,
    /// The name under which this part's content is stored.
    pub content_location: String,
    /// The text of this part, if it has any.
    pub text: Option<String>,
    /// The position the backup gave this part within its message.
    pub seq: i32,
    /// The binary content of this part, if it has any.
    pub data: Option<Vec<u8>>,
}

/// A plain text message.
#[derive(Clone, Debug, PartialEq)]
pub struct SmsMessage {
    /// The phone number of the other party.
    pub address: PhoneNumber,
    /// The other party's name in the contacts, or a placeholder.
    pub contact_name: String,
    /// When the message was sent or received.
    pub date: Timestamp,
    /// The date as the backup wrote it for people to read. It is kept as
    /// given, never recomputed from `date`.
    pub readable_date: String,
    /// Whether the message was sent or received.
    pub kind: MessageKind,
    /// The text of the message.
    pub body: String,
}

/// A multimedia message.
#[derive(Clone, Debug, PartialEq)]
pub struct MmsMessage {
    /// The phone number of the other party.
    pub address: PhoneNumber,
    /// The other party's name in the contacts, or a placeholder.
    pub contact_name: String,
    /// When the message was sent or received.
    pub date: Timestamp,
    /// The date as the backup wrote it for people to read. It is kept as
    /// given, never recomputed from `date`.
    pub readable_date: String,
    /// Whether the message was sent or received.
    pub kind: MessageKind,
    /// The parts of the message, in the order of the backup.
    pub parts: Vec<MmsMessagePart>,
}

/// All messages of a backup, each kind in the order of the backup.
#[derive(Clone, Debug, PartialEq)]
pub struct TextLog {
    pub sms_messages: Vec<SmsMessage>,
    pub mms_messages: Vec<MmsMessage>,
}

/// What a `MessageKind` says, with the timestamp as milliseconds.
pub enum KindView {
    Sent,
    Received { date_sent: int },
}

impl View for MessageKind {
    type V = KindView;

    open spec fn view(&self) -> KindView {
        match *self {
            MessageKind::Sent => KindView::Sent,
            MessageKind::Received { date_sent } => KindView::Received { date_sent: date_sent@ },
        }
    }
}

/// The content of an `SmsMessage`.
pub struct SmsView {
    pub address: Seq<char>,
    pub contact_name: Seq<char>,
    pub date: int,
    pub readable_date: Seq<char>,
    pub kind: KindView,
    pub body: Seq<char>,
}

impl View for SmsMessage {
    type V = SmsView;

    open spec fn view(&self) -> SmsView {
        SmsView {
            address: self.address.0@,
            contact_name: self.contact_name@,
            date: self.date@,
            readable_date: self.readable_date@,
            kind: self.kind@,
            body: self.body@,
        }
    }
}

/// The content of an `MmsMessagePart`.
pub struct PartView {
    pub content_type: Seq<char>,
    pub content_location: Seq<char>,
    pub text: Option<Seq<char>>,
    pub seq: int,
    pub data: Option<Seq<u8>>,
}

impl View for MmsMessagePart {
    type V = PartView;

    open spec fn view(&self) -> PartView {
        PartView {
            content_type: self.content_type@,
            content_location: self.content_location@,
            text: match self.text {
                Some(t) => Some(t@),
                None => None,
            },
            seq: self.seq as int,
            data: match self.data {
                Some(d) => Some(d@),
                None => None,
            },
        }
    }
}

/// The content of an `MmsMessage`.
pub struct MmsView {
    pub address: Seq<char>,
    pub contact_name: Seq<char>,
    pub date: int,
    pub readable_date: Seq<char>,
    pub kind: KindView,
    pub parts: Seq<PartView>,
}

impl View for MmsMessage {
    type V = MmsView;

    open spec fn view(&self) -> MmsView {
        MmsView {
            address: self.address.0@,
            contact_name: self.contact_name@,
            date: self.date@,
            readable_date: self.readable_date@,
            kind: self.kind@,
            parts: self.parts@.map_values(|p: MmsMessagePart| p@),
        }
    }
}

/// The content of a `TextLog`.
pub struct LogView {
    pub sms_messages: Seq<SmsView>,
    pub mms_messages: Seq<MmsView>,
}

impl View for TextLog {
    type V = LogView;

    open spec fn view(&self) -> LogView {
        LogView {
            sms_messages: self.sms_messages@.map_values(|m: SmsMessage| m@),
            mms_messages: self.mms_messages@.map_values(|m: MmsMessage| m@),
        }
    }
}

/// What every message has, whatever its kind.
pub struct HeaderView {
    pub address: Seq<char>,
    pub contact_name: Seq<char>,
    pub date: int,
    pub readable_date: Seq<char>,
    pub kind: KindView,
}

/// The content of a message: the text of an SMS or the parts of an MMS.
pub enum BodyView {
    Sms(Seq<char>),
    Mms(Seq<PartView>),
}

/// The content of a message, borrowed from it.
pub enum BodyKind<'a> {
    Sms(&'a str),
    Mms { parts: &'a [MmsMessagePart] },
}

impl<'a> View for BodyKind<'a> {
    type V = BodyView;

    open spec fn view(&self) -> BodyView {
        match *self {
            BodyKind::Sms(text) => BodyView::Sms(text@),
            BodyKind::Mms { parts } => BodyView::Mms(parts@.map_values(|p: MmsMessagePart| p@)),
        }
    }
}

/// Read access to what SMS and MMS messages have in common.
pub trait TextMessage {
    spec fn header(&self) -> HeaderView;

    spec fn body_view(&self) -> BodyView;

    fn address(&self) -> (r: &PhoneNumber)
        ensures
            r.0@ == self.header().address,
    ;

    fn contact_name(&self) -> (r: &str)
        ensures
            r@ == self.header().contact_name,
    ;

    fn date(&self) -> (r: Timestamp)
        ensures
            r@ == self.header().date,
    ;

    fn readable_date(&self) -> (r: &str)
        ensures
            r@ == self.header().readable_date,
    ;

    fn kind(&self) -> (r: MessageKind)
        ensures
            r@ == self.header().kind,
    ;

    fn body(&self) -> (r: BodyKind<'_>)
        ensures
            r@ == self.body_view(),
    ;
}

impl TextMessage for SmsMessage {
    open spec fn header(&self) -> HeaderView {
        HeaderView {
            address: self.address.0@,
            contact_name: self.contact_name@,
            date: self.date@,
            readable_date: self.readable_date@,
            kind: self.kind@,
        }
    }

    open spec fn body_view(&self) -> BodyView {
        BodyView::Sms(self.body@)
    }

    fn address(&self) -> (r: &PhoneNumber) {
        &self.address
    }

    fn contact_name(&self) -> (r: &str) {
        self.contact_name.as_str()
    }

    fn date(&self) -> (r: Timestamp) {
        self.date
    }

    fn readable_date(&self) -> (r: &str) {
        self.readable_date.as_str()
    }

    fn kind(&self) -> (r: MessageKind) {
        self.kind
    }

    fn body(&self) -> (r: BodyKind<'_>) {
        BodyKind::Sms(self.body.as_str())
    }
}

impl TextMessage for MmsMessage {
    open spec fn header(&self) -> HeaderView {
        HeaderView {
            address: self.address.0@,
            contact_name: self.contact_name@,
            date: self.date@,
            readable_date: self.readable_date@,
            kind: self.kind@,
        }
    }

    open spec fn body_view(&self) -> BodyView {
        BodyView::Mms(self.parts@.map_values(|p: MmsMessagePart| p@))
    }

    fn address(&self) -> (r: &PhoneNumber) {
        &self.address
    }

    fn contact_name(&self) -> (r: &str) {
        self.contact_name.as_str()
    }

    fn date(&self) -> (r: Timestamp) {
        self.date
    }

    fn readable_date(&self) -> (r: &str) {
        self.readable_date.as_str()
    }

    fn kind(&self) -> (r: MessageKind) {
        self.kind
    }

    fn body(&self) -> (r: BodyKind<'_>) {
        BodyKind::Mms { parts: self.parts.as_slice() }
    }
}

/// A message of a log, of either kind.
#[derive(Clone, Copy, Debug)]
pub enum AnyMessage<'a> {
    Sms(&'a SmsMessage),
    Mms(&'a MmsMessage),
}

impl<'a> TextMessage for AnyMessage<'a> {
    open spec fn header(&self) -> HeaderView {
        match *self {
            AnyMessage::Sms(m) => m.header(),
            AnyMessage::Mms(m) => m.header(),
        }
    }

    open spec fn body_view(&self) -> BodyView {
        match *self {
            AnyMessage::Sms(m) => m.body_view(),
            AnyMessage::Mms(m) => m.body_view(),
        }
    }

    fn address(&self) -> (r: &PhoneNumber) {
        match self {
            AnyMessage::Sms(m) => &m.address,
            AnyMessage::Mms(m) => &m.address,
        }
    }

    fn contact_name(&self) -> (r: &str) {
        match self {
            AnyMessage::Sms(m) => m.contact_name.as_str(),
            AnyMessage::Mms(m) => m.contact_name.as_str(),
        }
    }

    fn date(&self) -> (r: Timestamp) {
        match self {
            AnyMessage::Sms(m) => m.date,
            AnyMessage::Mms(m) => m.date,
        }
    }

    fn readable_date(&self) -> (r: &str) {
        match self {
            AnyMessage::Sms(m) => m.readable_date.as_str(),
            AnyMessage::Mms(m) => m.readable_date.as_str(),
        }
    }

    fn kind(&self) -> (r: MessageKind) {
        match self {
            AnyMessage::Sms(m) => m.kind,
            AnyMessage::Mms(m) => m.kind,
        }
    }

    fn body(&self) -> (r: BodyKind<'_>) {
        match self {
            AnyMessage::Sms(m) => BodyKind::Sms(m.body.as_str()),
            AnyMessage::Mms(m) => BodyKind::Mms { parts: m.parts.as_slice() },
        }
    }
}

/// The headers of all messages of `log`: its SMS messages, then its MMS
/// messages, each in the order of the log.
pub open spec fn log_headers(log: TextLog) -> Seq<HeaderView> {
    log.sms_messages@.map_values(|m: SmsMessage| m.header()) + log.mms_messages@.map_values(
        |m: MmsMessage| m.header(),
    )
}

impl TextLog {
    /// All messages: the SMS messages, then the MMS messages, each in the
    /// order of the log.
    pub fn iter(&self) -> (r: Vec<AnyMessage<'_>>)
        ensures
            r.len() == self.sms_messages.len() + self.mms_messages.len(),
            forall|i: int|
                0 <= i < self.sms_messages.len() ==> #[trigger] r@[i] == AnyMessage::Sms(
                    &self.sms_messages@[i],
                ),
            forall|i: int|
                0 <= i < self.mms_messages.len() ==> #[trigger] r@[self.sms_messages.len() + i]
                    == AnyMessage::Mms(&self.mms_messages@[i]),
    {
        let mut r: Vec<AnyMessage<'_>> = Vec::new();
        let mut i: usize = 0;
        while i < self.sms_messages.len()
            invariant
                i <= self.sms_messages.len(),
                r.len() == i,
                forall|k: int| 0 <= k < i ==> #[trigger] r@[k] == AnyMessage::Sms(&self.sms_messages@[k]),
            decreases self.sms_messages.len() - i,
        {
            r.push(AnyMessage::Sms(&self.sms_messages[i]));
            i = i + 1;
        }
        let mut j: usize = 0;
        while j < self.mms_messages.len()
            invariant
                j <= self.mms_messages.len(),
                r.len() == self.sms_messages.len() + j,
                forall|k: int|
                    0 <= k < self.sms_messages.len() ==> #[trigger] r@[k] == AnyMessage::Sms(
                        &self.sms_messages@[k],
                    ),
                forall|k: int|
                    0 <= k < j ==> #[trigger] r@[self.sms_messages.len() + k] == AnyMessage::Mms(
                        &self.mms_messages@[k],
                    ),
            decreases self.mms_messages.len() - j,
        {
            r.push(AnyMessage::Mms(&self.mms_messages[j]));
            j = j + 1;
        }
        r
    }
}

/// The address and contact name of each message of `log`, in the order of
/// `log_headers`.
pub open spec fn contact_pairs(log: TextLog) -> Seq<(Seq<char>, Seq<char>)> {
    log_headers(log).map_values(|h: HeaderView| (h.address, h.contact_name))
}

/// The content of a list of contacts: each address with its names.
pub open spec fn contacts_view(r: Seq<(PhoneNumber, Vec<String>)>) -> Seq<(Seq<char>, Seq<Seq<char>>)> {
    r.map_values(|e: (PhoneNumber, Vec<String>)| (e.0.0@, e.1@.map_values(|n: String| n@)))
}

/// `groups` gathers `pairs` by address: every address of `pairs` has one
/// entry, which lists each name that `pairs` gives it once, and nothing
/// else; so no entry is without a name.
pub open spec fn groups_pairs(
    groups: Seq<(Seq<char>, Seq<Seq<char>>)>,
    pairs: Seq<(Seq<char>, Seq<char>)>,
) -> bool {
    &&& forall|i: int, j: int| 0 <= i < j < groups.len() ==> groups[i].0 != groups[j].0
    &&& forall|i: int| 0 <= i < groups.len() ==> (#[trigger] groups[i]).1.len() > 0
    &&& forall|i: int, a: int, b: int|
        0 <= i < groups.len() && 0 <= a < b < groups[i].1.len() ==> groups[i].1[a] != groups[i].1[b]
    &&& forall|k: int|
        0 <= k < pairs.len() ==> exists|i: int|
            0 <= i < groups.len() && groups[i].0 == (#[trigger] pairs[k]).0 && groups[i].1.contains(
                pairs[k].1,
            )
    &&& forall|i: int, a: int|
        #![trigger groups[i].1[a]]
        0 <= i < groups.len() && 0 <= a < groups[i].1.len() ==> exists|k: int|
            0 <= k < pairs.len() && #[trigger] pairs[k] == (groups[i].0, groups[i].1[a])
}

/// Adds the contact `name` under `address`.
fn add_contact(
    groups: &mut Vec<(PhoneNumber, Vec<String>)>,
    address: &PhoneNumber,
    name: &String,
    Ghost(pairs): Ghost<Seq<(Seq<char>, Seq<char>)>>,
)
    requires
        groups_pairs(contacts_view(old(groups)@), pairs),
    ensures
        groups_pairs(contacts_view(final(groups)@), pairs.push((address.0@, name@))),
{
    let ghost old_view = contacts_view(groups@);
    let ghost pair = (address.0@, name@);
    let ghost new_pairs = pairs.push(pair);
    let mut i: usize = 0;
    while i < groups.len()
        invariant
            i <= groups.len(),
            groups@ == old(groups)@,
            old_view == contacts_view(old(groups)@),
            groups_pairs(old_view, pairs),
            forall|k: int| 0 <= k < i ==> groups@[k].0.0@ != address.0@,
        ensures
            i <= groups.len(),
            groups@ == old(groups)@,
            old_view == contacts_view(old(groups)@),
            groups_pairs(old_view, pairs),
            forall|k: int| 0 <= k < i ==> groups@[k].0.0@ != address.0@,
            i < groups.len() ==> groups@[i as int].0.0@ == address.0@,
        decreases groups.len() - i,
    {
        if groups[i].0.0 == address.0 {
            break;
        }
        assert(groups@[i as int].0.0@ != address.0@);
        i = i + 1;
    }
    if i == groups.len() {
        let mut names: Vec<String> = Vec::new();
        names.push(name.clone());
        groups.push((PhoneNumber(address.0.clone()), names));
        proof {
            let v = contacts_view(groups@);
            let entry = groups@[old_view.len() as int];
            assert(entry.1@.map_values(|n: String| n@) =~= seq![name@]);
            assert(v =~= old_view.push((address.0@, seq![name@])));
            assert forall|g: int| 0 <= g < v.len() implies (#[trigger] v[g]).1.len() > 0 by {
                if g < old_view.len() {
                    assert(v[g] == old_view[g]);
                }
            }
            assert forall|k: int| 0 <= k < new_pairs.len() implies exists|g: int|
                0 <= g < v.len() && v[g].0 == (#[trigger] new_pairs[k]).0 && v[g].1.contains(
                    new_pairs[k].1,
                ) by {
                if k < pairs.len() {
                    assert(new_pairs[k] == pairs[k]);
                    let g = choose|g: int|
                        0 <= g < old_view.len() && old_view[g].0 == pairs[k].0
                            && old_view[g].1.contains(pairs[k].1);
                    assert(v[g] == old_view[g]);
                } else {
                    assert(v[old_view.len() as int].1[0] == name@);
                }
            }
            assert forall|g: int, a: int|
                #![trigger v[g].1[a]]
                0 <= g < v.len() && 0 <= a < v[g].1.len() implies exists|
                k: int,
            | 0 <= k < new_pairs.len() && #[trigger] new_pairs[k] == (v[g].0, v[g].1[a]) by {
                if g < old_view.len() {
                    assert(v[g] == old_view[g]);
                    let k = choose|k: int|
                        0 <= k < pairs.len() && #[trigger] pairs[k] == (old_view[g].0, old_view[g].1[a]);
                    assert(new_pairs[k] == pairs[k]);
                } else {
                    assert(new_pairs[pairs.len() as int] == pair);
                }
            }
        }
        return;
    }
    let mut j: usize = 0;
    while j < groups[i].1.len()
        invariant
            i < groups.len(),
            groups@ == old(groups)@,
            old_view == contacts_view(old(groups)@),
            groups_pairs(old_view, pairs),
            pair == (address.0@, name@),
            new_pairs == pairs.push(pair),
            groups@[i as int].0.0@ == address.0@,
            j <= groups@[i as int].1.len(),
            forall|a: int| 0 <= a < j ==> groups@[i as int].1@[a]@ != name@,
        decreases groups@[i as int].1.len() - j,
    {
        if groups[i].1[j] == *name {
            proof {
                let v = contacts_view(groups@);
                assert(v[i as int].1[j as int] == name@);
                assert forall|k: int| 0 <= k < new_pairs.len() implies exists|g: int|
                    0 <= g < v.len() && v[g].0 == (#[trigger] new_pairs[k]).0 && v[g].1.contains(
                        new_pairs[k].1,
                    ) by {
                    if k < pairs.len() {
                        assert(new_pairs[k] == pairs[k]);
                    } else {
                        assert(v[i as int].0 == address.0@);
                    }
                }
                assert forall|g: int, a: int|
                    #![trigger v[g].1[a]]
                    0 <= g < v.len() && 0 <= a < v[g].1.len() implies exists|k: int|
                    0 <= k < new_pairs.len() && #[trigger] new_pairs[k] == (v[g].0, v[g].1[a]) by {
                    let k = choose|k: int| 0 <= k < pairs.len() && #[trigger] pairs[k] == (v[g].0, v[g].1[a]);
                    assert(new_pairs[k] == pairs[k]);
                }
            }
            return;
        }
        j = j + 1;
    }
    let ghost old_names = groups@[i as int].1@;
    let added = name.clone();
    let ghost added_view = added;
    groups[i].1.push(added);
    proof {
        let v = contacts_view(groups@);
        assert(groups@[i as int].1@ == old_names.push(added_view));
        assert(v[i as int].1 =~= old_view[i as int].1.push(name@));
        assert forall|g: int| 0 <= g < v.len() implies (#[trigger] v[g]).1.len() > 0 by {
            if g != i {
                assert(groups@[g] == old(groups)@[g]);
                assert(v[g] == old_view[g]);
            }
        }
        assert forall|g: int| 0 <= g < v.len() && g != i implies v[g] == old_view[g] by {
            assert(groups@[g] == old(groups)@[g]);
        }
        assert forall|k: int| 0 <= k < new_pairs.len() implies exists|g: int|
            0 <= g < v.len() && v[g].0 == (#[trigger] new_pairs[k]).0 && v[g].1.contains(
                new_pairs[k].1,
            ) by {
            if k < pairs.len() {
                assert(new_pairs[k] == pairs[k]);
                let g = choose|g: int|
                    0 <= g < old_view.len() && old_view[g].0 == pairs[k].0
                        && old_view[g].1.contains(pairs[k].1);
                if g == i {
                    let a = choose|a: int| 0 <= a < old_view[g].1.len() && old_view[g].1[a] == pairs[k].1;
                    assert(v[g].1[a] == pairs[k].1);
                }
            } else {
                assert(v[i as int].1[old_names.len() as int] == name@);
            }
        }
        assert forall|g: int, a: int|
                #![trigger v[g].1[a]]
                0 <= g < v.len() && 0 <= a < v[g].1.len() implies exists|
            k: int,
        | 0 <= k < new_pairs.len() && #[trigger] new_pairs[k] == (v[g].0, v[g].1[a]) by {
            if g == i && a == old_names.len() {
                assert(new_pairs[pairs.len() as int] == pair);
            } else {
                assert(v[g].1[a] == old_view[g].1[a]);
                let k = choose|k: int|
                    0 <= k < pairs.len() && #[trigger] pairs[k] == (old_view[g].0, old_view[g].1[a]);
                assert(new_pairs[k] == pairs[k]);
            }
        }
    }
}

impl TextLog {
    /// Every address that the log's messages have, each with the contact
    /// names that its messages give, without repeats.
    pub fn list_contacts(&self) -> (r: Vec<(PhoneNumber, Vec<String>)>)
        ensures
            groups_pairs(contacts_view(r@), contact_pairs(*self)),
    {
        let ghost all = contact_pairs(*self);
        let ghost ns = self.sms_messages.len() as int;
        let mut r: Vec<(PhoneNumber, Vec<String>)> = Vec::new();
        let mut i: usize = 0;
        assert(contacts_view(r@) =~= Seq::empty());
        while i < self.sms_messages.len()
            invariant
                i <= self.sms_messages.len(),
                ns == self.sms_messages.len(),
                all == contact_pairs(*self),
                groups_pairs(contacts_view(r@), all.subrange(0, i as int)),
            decreases self.sms_messages.len() - i,
        {
            let m = &self.sms_messages[i];
            proof {
                assert(all[i as int] == (m.address.0@, m.contact_name@));
                assert(all.subrange(0, i + 1) =~= all.subrange(0, i as int).push(all[i as int]));
            }
            add_contact(&mut r, &m.address, &m.contact_name, Ghost(all.subrange(0, i as int)));
            i = i + 1;
        }
        let mut j: usize = 0;
        while j < self.mms_messages.len()
            invariant
                j <= self.mms_messages.len(),
                ns == self.sms_messages.len(),
                all == contact_pairs(*self),
                groups_pairs(contacts_view(r@), all.subrange(0, ns + j)),
            decreases self.mms_messages.len() - j,
        {
            let m = &self.mms_messages[j];
            proof {
                assert(all[ns + j] == (m.address.0@, m.contact_name@));
                assert(all.subrange(0, ns + j + 1) =~= all.subrange(0, ns + j).push(all[ns + j]));
            }
            add_contact(&mut r, &m.address, &m.contact_name, Ghost(all.subrange(0, ns + j)));
            j = j + 1;
        }
        assert(all.subrange(0, ns + j) =~= all);
        r
    }
}

} // verus!
