use stel::{HumanMetadata, ParseError, StelData, MAGIC_BYTES0, MAGIC_BYTES1};

const REGION_A: [u8; 14] = [1, 2, 3, 4, 5, 6, 7, 8, 9, 10, 11, 12, 13, 14];

fn header_with(region_b: &[u8]) -> Vec<u8> {
    let mut bytes = MAGIC_BYTES0.to_vec();
    bytes.extend_from_slice(&REGION_A);
    bytes.extend_from_slice(&MAGIC_BYTES1);
    bytes.extend_from_slice(region_b);
    bytes
}

fn field_bytes(tag: u8, payload: &[u8]) -> Vec<u8> {
    let mut bytes = vec![tag, 0x00];
    bytes.extend_from_slice(payload);
    bytes.push(0x00);
    bytes
}

fn full_container() -> Vec<u8> {
    let mut bytes = header_with(&[0xAA, 0xBB, 0xCC]);
    bytes.extend(field_bytes(0x33, b"Vega"));
    bytes.extend(field_bytes(0x37, b"A bright star"));
    bytes.extend(field_bytes(0x3A, b"3a"));
    bytes.extend(field_bytes(0x8E, b"https://example.org"));
    bytes.extend_from_slice(&[0xDE, 0xAD, 0xBE, 0xEF]);
    bytes
}

#[test]
fn magic_sequences_are_those_of_the_format() {
    assert_eq!(&MAGIC_BYTES0, b"Stella BINARY ");
    assert_eq!(MAGIC_BYTES1, [0xB8, 0xA5, 0xA9, 0x6A]);
}

#[test]
fn full_container_is_decoded() {
    let data = StelData::parse(&full_container()).unwrap();
    assert_eq!(data.metadata0, REGION_A);
    assert_eq!(data.metadata1, [0xAA, 0xBB, 0xCC]);
    assert_eq!(
        data.human_metadata,
        Some(HumanMetadata {
            name: Some("Vega".to_string()),
            description: Some("A bright star".to_string()),
            field3a: Some("3a".to_string()),
            website_link: Some("https://example.org".to_string()),
        })
    );
    assert_eq!(data.raw_leftover, [0xDE, 0xAD, 0xBE, 0xEF]);
}

#[test]
fn first_region_is_always_fourteen_bytes() {
    for tail in [&b""[..], &b"\x33"[..], &b"\x33\x00x\x00"[..], &b"no metadata here"[..]] {
        let data = StelData::parse(&header_with(tail)).unwrap();
        assert_eq!(data.metadata0.len(), 14);
        assert_eq!(data.metadata0, REGION_A);
    }
}

#[test]
fn regions_and_leftover_reassemble_the_input() {
    let input = full_container();
    let data = StelData::parse(&input).unwrap();
    let human = data.human_metadata.unwrap();
    let mut again = MAGIC_BYTES0.to_vec();
    again.extend_from_slice(&data.metadata0);
    again.extend_from_slice(&MAGIC_BYTES1);
    again.extend_from_slice(&data.metadata1);
    again.extend(field_bytes(0x33, human.name.unwrap().as_bytes()));
    again.extend(field_bytes(0x37, human.description.unwrap().as_bytes()));
    again.extend(field_bytes(0x3A, human.field3a.unwrap().as_bytes()));
    again.extend(field_bytes(0x8E, human.website_link.unwrap().as_bytes()));
    again.extend_from_slice(&data.raw_leftover);
    assert_eq!(again, input);
}

#[test]
fn reassembly_without_metadata() {
    let input = header_with(&[0x10, 0x20, 0x33, 0x01, 0x02]);
    let data = StelData::parse(&input).unwrap();
    assert_eq!(data.human_metadata, None);
    let mut again = MAGIC_BYTES0.to_vec();
    again.extend_from_slice(&data.metadata0);
    again.extend_from_slice(&MAGIC_BYTES1);
    again.extend_from_slice(&data.metadata1);
    again.extend_from_slice(&data.raw_leftover);
    assert_eq!(again, input);
}

#[test]
fn second_region_runs_to_the_end_without_a_stop_byte() {
    let data = StelData::parse(&header_with(&[0x10, 0x20, 0x30])).unwrap();
    assert_eq!(data.metadata1, [0x10, 0x20, 0x30]);
    assert_eq!(data.human_metadata, None);
    assert!(data.raw_leftover.is_empty());
}

#[test]
fn header_only_container() {
    let data = StelData::parse(&header_with(&[])).unwrap();
    assert_eq!(data.metadata0, REGION_A);
    assert!(data.metadata1.is_empty());
    assert_eq!(data.human_metadata, None);
    assert!(data.raw_leftover.is_empty());
}

#[test]
fn unreadable_metadata_falls_through_to_leftover() {
    let data = StelData::parse(&header_with(&[0x10, 0x33, 0x01, 0x02, 0x00])).unwrap();
    assert_eq!(data.metadata1, [0x10]);
    assert_eq!(data.human_metadata, None);
    assert_eq!(data.raw_leftover, [0x33, 0x01, 0x02, 0x00]);
}

#[test]
fn unterminated_name_falls_through_to_leftover() {
    let data = StelData::parse(&header_with(&[0x33, 0x00, b'V', b'e'])).unwrap();
    assert!(data.metadata1.is_empty());
    assert_eq!(data.human_metadata, None);
    assert_eq!(data.raw_leftover, [0x33, 0x00, b'V', b'e']);
}

#[test]
fn name_only_container_keeps_the_rest_as_leftover() {
    let mut input = header_with(&[0x99]);
    input.extend(field_bytes(0x33, b"Vega"));
    input.extend_from_slice(&[0x3A, 0x01, 0x02]);
    let data = StelData::parse(&input).unwrap();
    assert_eq!(data.metadata1, [0x99]);
    assert_eq!(
        data.human_metadata,
        Some(HumanMetadata { name: Some("Vega".to_string()), ..HumanMetadata::default() })
    );
    assert_eq!(data.raw_leftover, [0x3A, 0x01, 0x02]);
}

#[test]
fn field_order_is_fixed_in_a_container() {
    let mut input = header_with(&[]);
    input.extend(field_bytes(0x33, b"Vega"));
    input.extend(field_bytes(0x3A, b"first"));
    let unread = field_bytes(0x37, b"too late");
    input.extend_from_slice(&unread);
    let data = StelData::parse(&input).unwrap();
    let human = data.human_metadata.unwrap();
    assert_eq!(human.field3a, Some("first".to_string()));
    assert_eq!(human.description, None);
    assert_eq!(data.raw_leftover, unread);
}

#[test]
fn missing_first_magic_is_bad_magic() {
    assert_eq!(StelData::parse(b""), Err(ParseError::BadMagic));
    assert_eq!(StelData::parse(b"Stella"), Err(ParseError::BadMagic));
    assert_eq!(StelData::parse(b"Stella BINARY"), Err(ParseError::BadMagic));
    let mut input = full_container();
    input[0] = b's';
    assert_eq!(StelData::parse(&input), Err(ParseError::BadMagic));
    let mut input = full_container();
    input.insert(0, 0x00);
    assert_eq!(StelData::parse(&input), Err(ParseError::BadMagic));
}

#[test]
fn truncated_first_region_is_unexpected_eof() {
    assert_eq!(StelData::parse(&MAGIC_BYTES0), Err(ParseError::UnexpectedEof));
    let mut input = MAGIC_BYTES0.to_vec();
    input.extend_from_slice(&REGION_A[..13]);
    assert_eq!(StelData::parse(&input), Err(ParseError::UnexpectedEof));
}

#[test]
fn missing_second_magic_is_bad_magic() {
    let mut input = MAGIC_BYTES0.to_vec();
    input.extend_from_slice(&REGION_A);
    assert_eq!(StelData::parse(&input), Err(ParseError::BadMagic));
    input.extend_from_slice(&MAGIC_BYTES1[..3]);
    assert_eq!(StelData::parse(&input), Err(ParseError::BadMagic));
    let mut input = full_container();
    input[28] = 0xB9;
    assert_eq!(StelData::parse(&input), Err(ParseError::BadMagic));
}

#[test]
fn first_region_may_hold_any_bytes() {
    let mut input = MAGIC_BYTES0.to_vec();
    input.extend_from_slice(&[0x33; 14]);
    input.extend_from_slice(&MAGIC_BYTES1);
    let data = StelData::parse(&input).unwrap();
    assert_eq!(data.metadata0, [0x33; 14]);
}

#[test]
fn malformed_text_does_not_fail_the_container() {
    let mut input = header_with(&[]);
    input.extend(field_bytes(0x33, &[b'V', 0xFF, b'g']));
    let data = StelData::parse(&input).unwrap();
    assert_eq!(data.human_metadata.unwrap().name, Some("V\u{FFFD}g".to_string()));
    assert!(data.raw_leftover.is_empty());
}
