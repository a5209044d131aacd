use stel::text::{decode_text, parse_c_str, split_c_bytes, NUL, REPLACEMENT};
use stel::ParseError;

#[test]
fn decode_text_keeps_valid_utf8() {
    assert_eq!(decode_text(b"Stella"), "Stella");
    assert_eq!(decode_text("caf\u{e9} \u{1F499}".as_bytes()), "caf\u{e9} \u{1F499}");
    assert_eq!(decode_text(b""), "");
}

#[test]
fn decode_text_replaces_malformed_bytes() {
    assert_eq!(decode_text(&[0x48, 0x69, 0xFF]), "Hi\u{FFFD}");
    assert_eq!(decode_text(&[0xC0]), "\u{FFFD}");
    assert_eq!(decode_text(&[0xE2, 0x82, 0x41]), "\u{FFFD}A");
    assert!(decode_text(&[0x80, 0x41]).contains(REPLACEMENT));
}

#[test]
fn constants_of_the_text_layer() {
    assert_eq!(NUL, 0);
    assert_eq!(REPLACEMENT, '\u{FFFD}');
}

#[test]
fn split_c_bytes_splits_at_the_first_nul() {
    let (rest, payload) = split_c_bytes(b"name\0rest\0more").unwrap();
    assert_eq!(payload, b"name");
    assert_eq!(rest, b"rest\0more");
}

#[test]
fn split_c_bytes_empty_payload() {
    let (rest, payload) = split_c_bytes(b"\0tail").unwrap();
    assert!(payload.is_empty());
    assert_eq!(rest, b"tail");
}

#[test]
fn split_c_bytes_needs_a_nul() {
    assert_eq!(split_c_bytes(b"no terminator"), Err(ParseError::UnexpectedEof));
    assert_eq!(split_c_bytes(b""), Err(ParseError::UnexpectedEof));
}

#[test]
fn parse_c_str_reads_text_and_consumes_the_nul() {
    let (rest, text) = parse_c_str(b"Hello\0World").unwrap();
    assert_eq!(text, "Hello");
    assert_eq!(rest, b"World");
}

#[test]
fn parse_c_str_at_end_of_input() {
    let (rest, text) = parse_c_str(b"Hello\0").unwrap();
    assert_eq!(text, "Hello");
    assert!(rest.is_empty());
}

#[test]
fn parse_c_str_is_lenient_with_malformed_text() {
    let (rest, text) = parse_c_str(&[0x41, 0xFF, 0x42, 0x00, 0x07]).unwrap();
    assert_eq!(text, "A\u{FFFD}B");
    assert_eq!(rest, &[0x07]);
}

#[test]
fn parse_c_str_fails_without_a_nul() {
    assert_eq!(parse_c_str(b"Hello"), Err(ParseError::UnexpectedEof));
    assert_eq!(parse_c_str(b""), Err(ParseError::UnexpectedEof));
}
