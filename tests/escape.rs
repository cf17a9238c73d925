use svinst::escape::escape_str;

#[test]
fn escape_empty() {
    assert_eq!(escape_str(""), "\"\"");
}

#[test]
fn escape_plain_text_is_only_quoted() {
    assert_eq!(escape_str("module_name"), "\"module_name\"");
    assert_eq!(escape_str("caf\u{e9} \u{2603}"), "\"caf\u{e9} \u{2603}\"");
}

#[test]
fn escape_quote_and_backslash() {
    assert_eq!(escape_str("a\"b\\c"), "\"a\\\"b\\\\c\"");
}

#[test]
fn escape_short_control_escapes() {
    assert_eq!(escape_str("\x08\t\n\x0c\r"), "\"\\b\\t\\n\\f\\r\"");
}

#[test]
fn escape_numeric_control_escapes() {
    assert_eq!(escape_str("\x00\x01\x0b\x1b\x1f\x7f"), "\"\\u0000\\u0001\\u000b\\u001b\\u001f\\u007f\"");
}

#[test]
fn escape_mixed_text() {
    assert_eq!(escape_str("x\ty\"z"), "\"x\\ty\\\"z\"");
}
