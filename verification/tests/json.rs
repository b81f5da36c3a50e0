use challenge_echo::json::encode_json_string;

#[test]
fn test_encode_plain_text() {
    assert_eq!(encode_json_string("ok"), "\"ok\"");
    assert_eq!(encode_json_string(""), "\"\"");
}

#[test]
fn test_encode_quote_and_backslash() {
    assert_eq!(encode_json_string("a\"b"), "\"a\\\"b\"");
    assert_eq!(encode_json_string("a\\b"), "\"a\\\\b\"");
}

#[test]
fn test_encode_short_control_escapes() {
    assert_eq!(encode_json_string("\u{8}\t\n\u{c}\r"), "\"\\b\\t\\n\\f\\r\"");
}

#[test]
fn test_encode_hex_control_escapes() {
    assert_eq!(encode_json_string("\u{0}\u{1}\u{b}\u{1f}x"), "\"\\u0000\\u0001\\u000b\\u001fx\"");
}

#[test]
fn test_encode_unicode_passes_through() {
    assert_eq!(encode_json_string("héllo → ✓"), "\"héllo → ✓\"");
}
