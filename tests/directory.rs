use sms_backup::backup::{input_format, read_backup, IngestError, InputFormat};
use sms_backup::contacts::{bold_underline, contact_directory};
use sms_backup::model::{
    MessageKind, MmsMessage, MmsMessagePart, PhoneNumber, SmsMessage, TextLog, TextMessage,
    Timestamp,
};
use sms_backup::render::{render_part, transcript, PartRendering};
use sms_backup::sanitize::SanitizeError;

fn sms(address: &str, name: &str, date: i64, body: &str) -> SmsMessage {
    SmsMessage {
        address: PhoneNumber(String::from(address)),
        contact_name: String::from(name),
        date: Timestamp::from_millis(date).unwrap(),
        readable_date: String::from("r"),
        kind: MessageKind::Sent,
        body: String::from(body),
    }
}

fn mms(address: &str, name: &str, date: i64) -> MmsMessage {
    MmsMessage {
        address: PhoneNumber(String::from(address)),
        contact_name: String::from(name),
        date: Timestamp::from_millis(date).unwrap(),
        readable_date: String::from("r"),
        kind: MessageKind::Received { date_sent: Timestamp::from_millis(date - 1).unwrap() },
        parts: Vec::new(),
    }
}

fn part(content_type: &str, text: Option<&str>, data: Option<Vec<u8>>) -> MmsMessagePart {
    MmsMessagePart {
        content_type: String::from(content_type),
        content_location: String::from("loc"),
        text: text.map(String::from),
        seq: 0,
        data,
    }
}

fn sample_log() -> TextLog {
    TextLog {
        sms_messages: vec![
            sms("555", "Bob", 30, "a"),
            sms("111", "(Unknown)", 10, "b"),
            sms("555", "Bobby", 20, "c"),
            sms("222", "Bob", 20, "d"),
        ],
        mms_messages: vec![mms("555", "Bob", 20), mms("333", "(Unknown)", 5)],
    }
}

#[test]
fn iter_lists_sms_then_mms() {
    let log = sample_log();
    let all = log.iter();
    assert_eq!(all.len(), 6);
    assert_eq!(all[0].contact_name(), "Bob");
    assert_eq!(all[1].address().as_str(), "111");
    assert_eq!(all[4].date().millis(), 20);
    assert_eq!(all[5].address().as_str(), "333");
}

#[test]
fn list_contacts_groups_names_by_number() {
    let log = sample_log();
    let contacts = log.list_contacts();
    assert_eq!(contacts.len(), 4);
    let bob = contacts.iter().find(|(p, _)| p.as_str() == "555").unwrap();
    let mut names = bob.1.clone();
    names.sort();
    assert_eq!(names, vec![String::from("Bob"), String::from("Bobby")]);
    let unknown = contacts.iter().find(|(p, _)| p.as_str() == "111").unwrap();
    assert_eq!(unknown.1, vec![String::from("(Unknown)")]);
}

#[test]
fn directory_sorts_names_and_numbers() {
    let log = sample_log();
    let directory = contact_directory(&log.list_contacts());
    let named: Vec<(String, Vec<String>)> = directory
        .named
        .iter()
        .map(|c| (c.name.clone(), c.numbers.iter().map(|p| p.0.clone()).collect()))
        .collect();
    assert_eq!(
        named,
        vec![
            (String::from("Bob"), vec![String::from("222"), String::from("555")]),
            (String::from("Bobby"), vec![String::from("555")]),
        ]
    );
    let unnamed: Vec<&str> = directory.unnamed.iter().map(|p| p.as_str()).collect();
    assert_eq!(unnamed, vec!["111", "333"]);
}

#[test]
fn directory_of_nothing_is_empty() {
    let directory = contact_directory(&Vec::new());
    assert!(directory.named.is_empty());
    assert!(directory.unnamed.is_empty());
}

#[test]
fn transcript_filters_and_sorts_stably() {
    let log = sample_log();
    let all = log.iter();
    let bob = transcript(&all, "Bob");
    let dates: Vec<i64> = bob.iter().map(|m| m.date().millis()).collect();
    assert_eq!(dates, vec![20, 20, 30]);
    assert_eq!(bob[0].address().as_str(), "222");
    assert_eq!(bob[1].address().as_str(), "555");
    assert!(matches!(bob[1].kind(), MessageKind::Received { .. }));
    assert!(transcript(&all, "Nobody").is_empty());
}

#[test]
fn parts_render_by_content_type() {
    assert_eq!(render_part(&part("application/smil", None, None)), PartRendering::Nothing);
    assert_eq!(
        render_part(&part("text/plain", Some("hi"), None)),
        PartRendering::Text(String::from("hi"))
    );
    assert_eq!(
        render_part(&part("image/png", None, Some(vec![0, 1, 2]))),
        PartRendering::Image { source: String::from("data:image/png;base64,AAEC") }
    );
    assert_eq!(render_part(&part("audio/amr", None, None)), PartRendering::UnsupportedAudio);
    assert_eq!(
        render_part(&part("video/mp4", None, Some(b"hello".to_vec()))),
        PartRendering::Video {
            source: String::from("data:video/mp4;base64,aGVsbG8="),
            content_type: String::from("video/mp4"),
        }
    );
    assert_eq!(
        render_part(&part("text/\"x\"\n", None, None)),
        PartRendering::Unknown { content_type: String::from("text/\\\"x\\\"\\n") }
    );
}

#[test]
fn bold_underline_wraps_in_escapes() {
    assert_eq!(bold_underline("Named contacts"), "\u{1B}[1;4mNamed contacts\u{1B}[0m");
}

#[test]
fn input_format_by_extension() {
    assert_eq!(input_format(Some("xml")), Some(InputFormat::Xml));
    assert_eq!(input_format(Some("json")), Some(InputFormat::Json));
    assert_eq!(input_format(Some("txt")), None);
    assert_eq!(input_format(Some("XML")), None);
    assert_eq!(input_format(None), None);
}

#[test]
fn backup_is_sanitized_before_parsing() {
    let raw = r#"<root><sms address="1" date="7" body="&#55357;&#56842;!" readable_date="r" contact_name="c" type="2"/></root>"#;
    let log = read_backup(raw).unwrap();
    assert_eq!(log.sms_messages[0].body, "\u{1F60A}!");
}

#[test]
fn backup_with_split_reference_fails_before_parsing() {
    assert_eq!(
        read_backup("<root>&#55357;</root>").unwrap_err(),
        IngestError::Sanitize(SanitizeError::UnpairedSurrogate { offset: 6 })
    );
}

#[test]
fn unknown_types_escape_non_ascii_and_media_pad_base64() {
    assert_eq!(
        render_part(&part("x/é\t'", None, None)),
        PartRendering::Unknown { content_type: String::from("x/\\u{e9}\\t\\'") }
    );
    assert_eq!(
        render_part(&part("image/jpeg", None, Some(vec![255]))),
        PartRendering::Image { source: String::from("data:image/jpeg;base64,/w==") }
    );
    assert_eq!(
        render_part(&part("image/jpeg", None, Some(Vec::new()))),
        PartRendering::Image { source: String::from("data:image/jpeg;base64,") }
    );
}
