use sms_backup::formatter::escape_fragment;

#[test]
fn ascii_is_written_as_is() {
    assert_eq!(escape_fragment("hello, world"), "hello, world");
    assert_eq!(escape_fragment(""), "");
}

#[test]
fn bmp_characters_become_one_escape() {
    assert_eq!(escape_fragment("é"), "\\u00E9");
    assert_eq!(escape_fragment("a☃b"), "a\\u2603b");
}

#[test]
fn astral_characters_become_a_surrogate_pair() {
    assert_eq!(escape_fragment("\u{1F60A}"), "\\uD83D\\uDE0A");
}

#[test]
fn escaped_text_is_ascii() {
    let out = escape_fragment("日本語 😊 ok");
    assert!(out.is_ascii());
    assert_eq!(out, "\\u65E5\\u672C\\u8A9E \\uD83D\\uDE0A ok");
}
