use stel::metadata::{DESCRIPTION_TAG, FIELD3A_TAG, NAME_TAG, WEBSITE_LINK_TAG};
use stel::{HumanMetadata, ParseError};

fn tagged_field(tag: &[u8], payload: &[u8]) -> Vec<u8> {
    let mut bytes = tag.to_vec();
    bytes.extend_from_slice(payload);
    bytes.push(0);
    bytes
}

fn text_field(field: &str) -> Option<String> {
    Some(field.to_string())
}

#[test]
fn tags_are_those_of_the_format() {
    assert_eq!(NAME_TAG, [0x33, 0x00]);
    assert_eq!(DESCRIPTION_TAG, [0x37, 0x00]);
    assert_eq!(FIELD3A_TAG, [0x3A, 0x00]);
    assert_eq!(WEBSITE_LINK_TAG, [0x8E, 0x00]);
}

#[test]
fn default_metadata_is_empty() {
    let human = HumanMetadata::default();
    assert_eq!(
        human,
        HumanMetadata { name: None, description: None, field3a: None, website_link: None }
    );
}

#[test]
fn parse_tagged_string_reads_tag_payload_and_nul() {
    let input = [0x33, 0x00, b'A', b'b', 0x00, 0x99];
    let (rest, text) = HumanMetadata::parse_tagged_string(&input, &[0x33, 0x00]).unwrap();
    assert_eq!(text, "Ab");
    assert_eq!(rest, &[0x99]);
}

#[test]
fn parse_tagged_string_tag_mismatch() {
    let input = [0x37, 0x00, b'A', 0x00];
    assert_eq!(
        HumanMetadata::parse_tagged_string(&input, &[0x33, 0x00]),
        Err(ParseError::TagMismatch)
    );
    assert_eq!(
        HumanMetadata::parse_tagged_string(&[0x33], &[0x33, 0x00]),
        Err(ParseError::TagMismatch)
    );
    assert_eq!(
        HumanMetadata::parse_tagged_string(&[], &[0x33, 0x00]),
        Err(ParseError::TagMismatch)
    );
}

#[test]
fn parse_tagged_string_missing_terminator() {
    let input = [0x33, 0x00, b'A', b'b'];
    assert_eq!(
        HumanMetadata::parse_tagged_string(&input, &[0x33, 0x00]),
        Err(ParseError::UnexpectedEof)
    );
    assert_eq!(
        HumanMetadata::parse_tagged_string(&[0x33, 0x00], &[0x33, 0x00]),
        Err(ParseError::UnexpectedEof)
    );
}

#[test]
fn parse_tagged_string_lossy_payload() {
    let input = [0x8E, 0x00, 0xFF, b'x', 0x00];
    let (rest, text) = HumanMetadata::parse_tagged_string(&input, &WEBSITE_LINK_TAG).unwrap();
    assert_eq!(text, "\u{FFFD}x");
    assert!(rest.is_empty());
}

#[test]
fn single_field_readers_fill_one_field_each() {
    let input = tagged_field(&NAME_TAG, b"n");
    let (rest, human) = HumanMetadata::parse_name(&input).unwrap();
    assert!(rest.is_empty());
    assert_eq!(human, HumanMetadata { name: text_field("n"), ..HumanMetadata::default() });

    let input = tagged_field(&DESCRIPTION_TAG, b"d");
    let (_, human) = HumanMetadata::parse_description(&input).unwrap();
    assert_eq!(human, HumanMetadata { description: text_field("d"), ..HumanMetadata::default() });

    let input = tagged_field(&FIELD3A_TAG, b"f");
    let (_, human) = HumanMetadata::parse_field3a(&input).unwrap();
    assert_eq!(human, HumanMetadata { field3a: text_field("f"), ..HumanMetadata::default() });

    let input = tagged_field(&WEBSITE_LINK_TAG, b"w");
    let (_, human) = HumanMetadata::parse_website_link(&input).unwrap();
    assert_eq!(human, HumanMetadata { website_link: text_field("w"), ..HumanMetadata::default() });
}

#[test]
fn single_field_readers_reject_other_tags() {
    let input = tagged_field(&NAME_TAG, b"n");
    assert_eq!(HumanMetadata::parse_description(&input), Err(ParseError::TagMismatch));
    assert_eq!(HumanMetadata::parse_field3a(&input), Err(ParseError::TagMismatch));
    assert_eq!(HumanMetadata::parse_website_link(&input), Err(ParseError::TagMismatch));
    let input = tagged_field(&DESCRIPTION_TAG, b"d");
    assert_eq!(HumanMetadata::parse_name(&input), Err(ParseError::TagMismatch));
}

#[test]
fn metadata_with_all_four_fields() {
    let mut input = tagged_field(&NAME_TAG, b"Vega");
    input.extend(tagged_field(&DESCRIPTION_TAG, b"A bright star"));
    input.extend(tagged_field(&FIELD3A_TAG, b"3a"));
    input.extend(tagged_field(&WEBSITE_LINK_TAG, b"https://example.org"));
    input.extend_from_slice(&[0xDE, 0xAD]);
    let (rest, human) = HumanMetadata::parse(&input).unwrap();
    assert_eq!(rest, &[0xDE, 0xAD]);
    assert_eq!(
        human,
        HumanMetadata {
            name: text_field("Vega"),
            description: text_field("A bright star"),
            field3a: text_field("3a"),
            website_link: text_field("https://example.org"),
        }
    );
}

#[test]
fn metadata_with_name_only() {
    let mut input = tagged_field(&NAME_TAG, b"Vega");
    input.extend_from_slice(&[0x01, 0x02, 0x03]);
    let (rest, human) = HumanMetadata::parse(&input).unwrap();
    assert_eq!(rest, &[0x01, 0x02, 0x03]);
    assert_eq!(human, HumanMetadata { name: text_field("Vega"), ..HumanMetadata::default() });
}

#[test]
fn metadata_skips_a_missing_field_and_goes_on() {
    let mut input = tagged_field(&NAME_TAG, b"Vega");
    input.extend(tagged_field(&WEBSITE_LINK_TAG, b"link"));
    let (rest, human) = HumanMetadata::parse(&input).unwrap();
    assert!(rest.is_empty());
    assert_eq!(
        human,
        HumanMetadata {
            name: text_field("Vega"),
            website_link: text_field("link"),
            ..HumanMetadata::default()
        }
    );
}

#[test]
fn metadata_fails_without_a_name() {
    let input = tagged_field(&DESCRIPTION_TAG, b"no name before me");
    assert_eq!(HumanMetadata::parse(&input), Err(ParseError::TagMismatch));
    assert_eq!(HumanMetadata::parse(&[]), Err(ParseError::TagMismatch));
    assert_eq!(HumanMetadata::parse(&[0x33, 0x01, 0x00]), Err(ParseError::TagMismatch));
}

#[test]
fn metadata_fails_on_an_unterminated_name() {
    assert_eq!(HumanMetadata::parse(&[0x33, 0x00, b'V', b'e']), Err(ParseError::UnexpectedEof));
}

#[test]
fn description_behind_field3a_is_never_read() {
    let mut input = tagged_field(&NAME_TAG, b"Vega");
    input.extend(tagged_field(&FIELD3A_TAG, b"first"));
    let unread = tagged_field(&DESCRIPTION_TAG, b"too late");
    input.extend_from_slice(&unread);
    let (rest, human) = HumanMetadata::parse(&input).unwrap();
    assert_eq!(
        human,
        HumanMetadata {
            name: text_field("Vega"),
            field3a: text_field("first"),
            ..HumanMetadata::default()
        }
    );
    assert_eq!(rest, unread.as_slice());
}

#[test]
fn unterminated_optional_field_is_absent_and_unconsumed() {
    let mut input = tagged_field(&NAME_TAG, b"Vega");
    let unread = [0x37, 0x00, b'n', b'o', b' ', b'e', b'n', b'd'];
    input.extend_from_slice(&unread);
    let (rest, human) = HumanMetadata::parse(&input).unwrap();
    assert_eq!(human, HumanMetadata { name: text_field("Vega"), ..HumanMetadata::default() });
    assert_eq!(rest, &unread);
}

#[test]
fn empty_payloads_are_present_fields() {
    let mut input = tagged_field(&NAME_TAG, b"");
    input.extend(tagged_field(&DESCRIPTION_TAG, b""));
    let (rest, human) = HumanMetadata::parse(&input).unwrap();
    assert!(rest.is_empty());
    assert_eq!(
        human,
        HumanMetadata {
            name: text_field(""),
            description: text_field(""),
            ..HumanMetadata::default()
        }
    );
}
