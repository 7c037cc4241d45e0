use sms_backup::model::{MessageKind, Timestamp};
use sms_backup::xml::{
    parse_log, Base64Failure, ElementRole, InvalidElement, ParseError,
};

fn parse(text: &str) -> Result<sms_backup::model::TextLog, ParseError> {
    parse_log(String::from(text))
}

#[test]
fn end_to_end_sms() {
    let log = parse(
        r#"<root><sms address="555-1234" date="1000" body="hi" readable_date="Jan 1" contact_name="Bob" type="2"/></root>"#,
    )
    .unwrap();
    assert_eq!(log.sms_messages.len(), 1);
    assert!(log.mms_messages.is_empty());
    let m = &log.sms_messages[0];
    assert_eq!(m.address.as_str(), "555-1234");
    assert_eq!(m.contact_name, "Bob");
    assert_eq!(m.date.millis(), 1000);
    assert_eq!(m.readable_date, "Jan 1");
    assert_eq!(m.kind, MessageKind::Sent);
    assert_eq!(m.body, "hi");
}

#[test]
fn received_sms_keeps_date_sent() {
    let log = parse(
        r#"<root><sms address="1" date="2000" body="b" readable_date="r" contact_name="(Unknown)" type="1" date_sent="1500"/></root>"#,
    )
    .unwrap();
    assert_eq!(
        log.sms_messages[0].kind,
        MessageKind::Received { date_sent: Timestamp::from_millis(1500).unwrap() }
    );
}

#[test]
fn sms_with_mms_type_code_fails() {
    let err = parse(
        r#"<root><sms address="1" date="2000" body="b" readable_date="r" contact_name="c" type="128"/></root>"#,
    )
    .unwrap_err();
    match err {
        ParseError::InvalidSms { cause, .. } => assert_eq!(
            cause,
            InvalidElement::UnknownMessageType { value: String::from("128") }
        ),
        other => panic!("unexpected error {:?}", other),
    }
}

#[test]
fn mms_with_sms_type_code_fails() {
    let err = parse(
        r#"<root><mms address="1" date="2000" readable_date="r" contact_name="c" m_type="2"><parts/></mms></root>"#,
    )
    .unwrap_err();
    match err {
        ParseError::InvalidMms { cause, context } => {
            assert_eq!(cause, InvalidElement::UnknownMessageType { value: String::from("2") });
            assert_eq!(context.role, ElementRole::MmsMessage);
            assert_eq!(context.tag, "mms");
        }
        other => panic!("unexpected error {:?}", other),
    }
}

#[test]
fn missing_body_is_named() {
    let err = parse(
        r#"<root>
<sms address="1" date="2000" readable_date="r" contact_name="c" type="2"/></root>"#,
    )
    .unwrap_err();
    match err {
        ParseError::InvalidSms { cause, context } => {
            assert_eq!(cause, InvalidElement::MissingAttribute { name: String::from("body") });
            assert_eq!(context.line, 2);
            assert_eq!(context.column, 1);
            assert_eq!(context.role, ElementRole::SmsMessage);
        }
        other => panic!("unexpected error {:?}", other),
    }
}

#[test]
fn bad_tag_is_reported_with_position() {
    let err = parse(r#"<root><call/></root>"#).unwrap_err();
    assert_eq!(err, ParseError::BadTag { tag: String::from("call"), line: 1, column: 7 });
}

#[test]
fn malformed_xml_is_a_syntax_error() {
    assert!(matches!(parse("<root><sms></root>"), Err(ParseError::Syntax(_))));
}

#[test]
fn invalid_dates_fail() {
    for date in ["12a", "", "99999999999999999999", "9223372036854775807"] {
        let text = format!(
            r#"<root><sms address="1" date="{}" body="b" readable_date="r" contact_name="c" type="2"/></root>"#,
            date
        );
        match parse(&text).unwrap_err() {
            ParseError::InvalidSms { cause, .. } => assert_eq!(
                cause,
                InvalidElement::InvalidTimestamp { value: String::from(date) }
            ),
            other => panic!("unexpected error {:?}", other),
        }
    }
}

#[test]
fn negative_dates_are_accepted() {
    let log = parse(
        r#"<root><sms address="1" date="-86400000" body="b" readable_date="r" contact_name="c" type="2"/></root>"#,
    )
    .unwrap();
    assert_eq!(log.sms_messages[0].date.millis(), -86400000);
}

#[test]
fn timestamp_range_matches_chrono() {
    assert!(Timestamp::from_millis(-8334601228800000).is_some());
    assert!(Timestamp::from_millis(-8334601228800001).is_none());
    assert!(Timestamp::from_millis(8210266876799999).is_some());
    assert!(Timestamp::from_millis(8210266876800000).is_none());
}

const MMS_HEAD: &str =
    r#"<mms address="555" date="3000" readable_date="r" contact_name="Ann" m_type="132" date_sent="2500">"#;

#[test]
fn mms_parts_are_read() {
    let text = format!(
        r#"<root>{}<parts><part ct="text/plain" cl="txt" text="hey" seq="0"/><part ct="image/png" cl="img" text="null" seq="-1" data="AAEC"/><part ct="text/plain" cl="e" text="" seq="2"/></parts></mms></root>"#,
        MMS_HEAD
    );
    let log = parse(&text).unwrap();
    assert_eq!(log.mms_messages.len(), 1);
    let m = &log.mms_messages[0];
    assert_eq!(m.address.as_str(), "555");
    assert_eq!(m.kind, MessageKind::Received { date_sent: Timestamp::from_millis(2500).unwrap() });
    assert_eq!(m.parts.len(), 3);
    assert_eq!(m.parts[0].text, Some(String::from("hey")));
    assert_eq!(m.parts[0].data, None);
    assert_eq!(m.parts[1].text, None);
    assert_eq!(m.parts[1].seq, -1);
    assert_eq!(m.parts[1].data, Some(vec![0u8, 1, 2]));
    assert_eq!(m.parts[2].text, Some(String::new()));
}

#[test]
fn mms_without_parts_element_has_no_parts() {
    let text = format!("<root>{}</mms></root>", MMS_HEAD);
    let log = parse(&text).unwrap();
    assert!(log.mms_messages[0].parts.is_empty());
}

#[test]
fn two_parts_elements_fail() {
    let text = format!("<root>{}<parts/><parts/></mms></root>", MMS_HEAD);
    match parse(&text).unwrap_err() {
        ParseError::InvalidMms { cause, .. } => {
            assert_eq!(cause, InvalidElement::DuplicateChild { name: String::from("parts") })
        }
        other => panic!("unexpected error {:?}", other),
    }
}

#[test]
fn bad_part_is_reported_with_both_contexts() {
    let text = format!(
        r#"<root>{}<parts><part ct="a" cl="b" seq="x1"/></parts></mms></root>"#,
        MMS_HEAD
    );
    match parse(&text).unwrap_err() {
        ParseError::InvalidMmsPart { message, part, cause } => {
            assert_eq!(cause, InvalidElement::InvalidSeq { value: String::from("x1") });
            assert_eq!(message.role, ElementRole::MmsMessage);
            assert_eq!(part.role, ElementRole::MmsMessagePart);
            assert_eq!(part.tag, "part");
        }
        other => panic!("unexpected error {:?}", other),
    }
}

#[test]
fn part_with_wrong_tag_fails() {
    let text = format!(r#"<root>{}<parts><blob/></parts></mms></root>"#, MMS_HEAD);
    match parse(&text).unwrap_err() {
        ParseError::InvalidMmsPart { cause, .. } => {
            assert_eq!(cause, InvalidElement::UnexpectedTag { name: String::from("blob") })
        }
        other => panic!("unexpected error {:?}", other),
    }
}

#[test]
fn bad_base64_fails() {
    let text = format!(
        r#"<root>{}<parts><part ct="a" cl="b" seq="1" data="A"/></parts></mms></root>"#,
        MMS_HEAD
    );
    match parse(&text).unwrap_err() {
        ParseError::InvalidMmsPart { cause, .. } => assert_eq!(
            cause,
            InvalidElement::InvalidBase64 { cause: Base64Failure::InvalidLength { length: 1 } }
        ),
        other => panic!("unexpected error {:?}", other),
    }
}

#[test]
fn missing_date_sent_fails() {
    let text = r#"<root><mms address="555" date="3000" readable_date="r" contact_name="Ann" m_type="132"/></root>"#;
    match parse(text).unwrap_err() {
        ParseError::InvalidMms { cause, .. } => assert_eq!(
            cause,
            InvalidElement::MissingAttribute { name: String::from("date_sent") }
        ),
        other => panic!("unexpected error {:?}", other),
    }
}

#[test]
fn order_of_messages_is_kept() {
    let log = parse(
        r#"<root><!-- c --><sms address="a" date="5" body="1" readable_date="r" contact_name="c" type="2"/>
<sms address="b" date="4" body="2" readable_date="r" contact_name="c" type="2"/></root>"#,
    )
    .unwrap();
    assert_eq!(log.sms_messages.len(), 2);
    assert_eq!(log.sms_messages[0].body, "1");
    assert_eq!(log.sms_messages[1].body, "2");
}

#[test]
fn part_text_sentinel() {
    let text = format!(
        r#"<root>{}<parts><part ct="text/plain" cl="a" text="null" seq="0"/><part ct="text/plain" cl="b" text="" seq="1"/><part ct="text/plain" cl="c" seq="2"/></parts></mms></root>"#,
        MMS_HEAD
    );
    let log = parse(&text).unwrap();
    let parts = &log.mms_messages[0].parts;
    assert_eq!(parts[0].text, None);
    assert_eq!(parts[1].text, Some(String::new()));
    assert_eq!(parts[2].text, None);
}

#[test]
fn sms_without_address_or_body_names_address() {
    let err = parse(r#"<root><sms date="1" readable_date="r" contact_name="c" type="2"/></root>"#)
        .unwrap_err();
    match err {
        ParseError::InvalidSms { cause, .. } => assert_eq!(
            cause,
            InvalidElement::MissingAttribute { name: String::from("address") }
        ),
        other => panic!("unexpected error {:?}", other),
    }
}

#[test]
fn namespaced_root_children_are_matched_by_local_name() {
    let log = parse(
        r#"<root xmlns:x="urn:x"><x:sms address="1" date="0" body="b" readable_date="r" contact_name="c" type="2"/></root>"#,
    )
    .unwrap();
    assert_eq!(log.sms_messages.len(), 1);
}

#[test]
fn empty_address_fails() {
    let err = parse(
        r#"<root><sms address="" date="1" body="b" readable_date="r" contact_name="c" type="2"/></root>"#,
    )
    .unwrap_err();
    match err {
        ParseError::InvalidSms { cause, .. } => assert_eq!(cause, InvalidElement::EmptyAddress),
        other => panic!("unexpected error {:?}", other),
    }
    let text = r#"<root><mms address="" date="3000" readable_date="r" contact_name="Ann" m_type="128"/></root>"#;
    match parse(text).unwrap_err() {
        ParseError::InvalidMms { cause, .. } => assert_eq!(cause, InvalidElement::EmptyAddress),
        other => panic!("unexpected error {:?}", other),
    }
}

#[test]
fn nested_content_is_read() {
    let depth = 40;
    let text = format!(
        r#"<root><sms address="1" date="0" body="b" readable_date="r" contact_name="c" type="2">{}{}</sms></root>"#,
        "<a>".repeat(depth),
        "</a>".repeat(depth)
    );
    let log = parse(&text).unwrap();
    assert_eq!(log.sms_messages.len(), 1);
}

#[test]
fn error_columns_count_characters() {
    let err = parse("<root>\n  <é/><call/></root>").unwrap_err();
    assert_eq!(err, ParseError::BadTag { tag: String::from("é"), line: 2, column: 3 });
    let err = parse("<root><x:y xmlns:x=\"urn:x\"/></root>").unwrap_err();
    assert_eq!(err, ParseError::BadTag { tag: String::from("y"), line: 1, column: 7 });
}
