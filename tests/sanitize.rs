use sms_backup::sanitize::{cleanup_html_escapes, decode_utf16_surrogates, parse_escape_number, SanitizeError};

#[test]
fn test_basic() {
    assert_eq!(
        cleanup_html_escapes("??? Whoop whoop! &#55357;&#56842; asdf"),
        Ok(String::from("??? Whoop whoop! &#x1F60A; asdf"))
    );
    assert_eq!(
        cleanup_html_escapes(
            "Same to you! &#55356;&#57222;&#55356;&#56826;&#55356;&#56818; asdf-testing;;"
        ),
        Ok(String::from("Same to you! &#x1F386;&#x1F1FA;&#x1F1F2; asdf-testing;;"))
    )
}

#[test]
fn surrogate_pair_becomes_one_reference() {
    assert_eq!(cleanup_html_escapes("&#55357;&#56842;"), Ok(String::from("&#x1F60A;")));
}

#[test]
fn plain_references_are_kept() {
    let text = "caf&#233; &#x1F60A; &#65; &amp; a;b";
    assert_eq!(cleanup_html_escapes(text), Ok(String::from(text)));
}

#[test]
fn sanitizing_twice_changes_nothing() {
    let once = cleanup_html_escapes("x &#55357;&#56842; &#65; y").unwrap();
    assert_eq!(once, "x &#x1F60A; &#65; y");
    assert_eq!(cleanup_html_escapes(&once), Ok(once.clone()));
}

#[test]
fn empty_text_stays_empty() {
    assert_eq!(cleanup_html_escapes(""), Ok(String::new()));
}

#[test]
fn non_ascii_text_is_copied() {
    assert_eq!(cleanup_html_escapes("héllo ☃"), Ok(String::from("héllo ☃")));
}

#[test]
fn unterminated_reference_is_an_error() {
    assert_eq!(
        cleanup_html_escapes("ab&#123"),
        Err(SanitizeError::UnterminatedReference { offset: 2 })
    );
}

#[test]
fn non_numeric_reference_is_an_error() {
    assert_eq!(
        cleanup_html_escapes("&#abc;"),
        Err(SanitizeError::InvalidNumber { offset: 0 })
    );
    assert_eq!(
        cleanup_html_escapes("&#99999999999;"),
        Err(SanitizeError::InvalidNumber { offset: 0 })
    );
}

#[test]
fn lone_high_surrogate_is_an_error() {
    assert_eq!(
        cleanup_html_escapes("a&#55357;b"),
        Err(SanitizeError::UnpairedSurrogate { offset: 1 })
    );
    assert_eq!(
        cleanup_html_escapes("&#55357;&#65;"),
        Err(SanitizeError::UnpairedSurrogate { offset: 0 })
    );
}

#[test]
fn lone_low_surrogate_is_an_error() {
    assert_eq!(
        cleanup_html_escapes("a&#56842;b"),
        Err(SanitizeError::UnpairedSurrogate { offset: 1 })
    );
    assert_eq!(
        cleanup_html_escapes("&#56842;"),
        Err(SanitizeError::UnpairedSurrogate { offset: 0 })
    );
    assert_eq!(
        cleanup_html_escapes("&#56842;&#55357;"),
        Err(SanitizeError::UnpairedSurrogate { offset: 0 })
    );
}

#[test]
fn high_surrogate_then_unterminated_low() {
    assert_eq!(
        cleanup_html_escapes("&#55357;&#56842"),
        Err(SanitizeError::UnterminatedReference { offset: 8 })
    );
}

#[test]
fn surrogates_decode_to_their_code_point() {
    assert_eq!(decode_utf16_surrogates(56842, 55357), '\u{1F60A}');
    assert_eq!(decode_utf16_surrogates(0xDC00, 0xD800), '\u{10000}');
    assert_eq!(decode_utf16_surrogates(0xDFFF, 0xDBFF), '\u{10FFFF}');
}

#[test]
fn escape_numbers_are_read() {
    let text: Vec<char> = "&#55357;".chars().collect();
    assert_eq!(parse_escape_number(&text, 0, 7), Some(55357));
    let text: Vec<char> = "&#+12;".chars().collect();
    assert_eq!(parse_escape_number(&text, 0, 5), Some(12));
    let text: Vec<char> = "&#-1;".chars().collect();
    assert_eq!(parse_escape_number(&text, 0, 4), None);
    let text: Vec<char> = "&#4294967296;".chars().collect();
    assert_eq!(parse_escape_number(&text, 0, 12), None);
}
