//! Tests of the typed stack decoder.

use essential_debugger::parse_type;

#[test]
fn int_decodes_decimal() {
    assert_eq!(parse_type(&[42], "int"), "42");
    assert_eq!(parse_type(&[-1], "int"), "-1");
    assert_eq!(parse_type(&[i64::MIN], "int"), "-9223372036854775808");
    assert_eq!(parse_type(&[i64::MAX], "int"), "9223372036854775807");
}

#[test]
fn int_hex_forces_hexadecimal() {
    assert_eq!(parse_type(&[42], "int HEX"), "000000000000002A");
    assert_eq!(parse_type(&[-1], "int HEX"), "FFFFFFFFFFFFFFFF");
}

#[test]
fn bool_decodes_text() {
    assert_eq!(parse_type(&[1], "bool"), "true");
    assert_eq!(parse_type(&[0], "bool"), "false");
    // a word with no boolean reading renders empty, not an error
    assert_eq!(parse_type(&[7], "bool"), "");
}

#[test]
fn bool_hex_is_hex_not_true() {
    assert_eq!(parse_type(&[1], "bool HEX"), "0000000000000001");
}

#[test]
fn b256_is_32_byte_upper_hex() {
    assert_eq!(
        parse_type(&[0, 0, 0, 42], "b256"),
        "000000000000000000000000000000000000000000000000000000000000002A"
    );
    let out = parse_type(&[-1, -1, -1, -1], "b256");
    assert_eq!(out.len(), 64);
    assert_eq!(out, "F".repeat(64));
}

#[test]
fn b256_short_stack_is_empty_string() {
    assert_eq!(parse_type(&[1, 2], "b256"), "");
}

#[test]
fn array_decodes_prefix() {
    assert_eq!(parse_type(&[1, 2, 3], "int[2]"), "[1, 2]");
    assert_eq!(parse_type(&[1, 0], "bool[2]"), "[true, false]");
    // too few words for the array renders empty
    assert_eq!(parse_type(&[1], "int[2]"), "");
    // a malformed or unknown element type renders empty
    assert_eq!(parse_type(&[1, 2], "what[2]"), "");
    assert_eq!(parse_type(&[1, 2], "int[x]"), "");
}

#[test]
fn tuple_decodes_positionally() {
    assert_eq!(parse_type(&[7, 1], "{int, bool}"), "{ 7, true }");
    assert_eq!(parse_type(&[7, 1, 0, 0, 0, 9], "{int, bool, b256}"), "{ 7, true, 0000000000000000000000000000000000000000000000000000000000000009 }");
    // too few words for the tuple renders empty
    assert_eq!(parse_type(&[7], "{int, bool}"), "");
}

#[test]
fn offset_skips_stack_words() {
    assert_eq!(parse_type(&[9, 42], "1 int"), "42");
    assert_eq!(parse_type(&[9, 42], "0 int"), "9");
    // an offset at or past the stack renders empty
    assert_eq!(parse_type(&[9, 42], "2 int"), "");
    assert_eq!(parse_type(&[9, 42], "99 int"), "");
}

#[test]
fn whitespace_is_trimmed() {
    assert_eq!(parse_type(&[42], "  int  "), "42");
    assert_eq!(parse_type(&[42], " 0  int HEX "), "000000000000002A");
}

#[test]
fn unknown_type_is_empty() {
    assert_eq!(parse_type(&[42], "float"), "");
    assert_eq!(parse_type(&[42], ""), "");
}
