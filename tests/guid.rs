use efitools::guid::{Guid, ParseError};
use efitools::{serialize_u16, serialize_u32};

const TEXT: &str = "00112233-4455-6677-8899-aabbccddeeff";

#[test]
fn test_ser_de_round_trip() {
    let guid: Guid = TEXT.parse().unwrap();
    let mut bytes = Vec::new();
    guid.serialize(&mut bytes);
    assert_eq!(Guid::deserialize(&bytes).unwrap(), guid);
}

#[test]
fn parse_spells_wire_bytes_in_text_order() {
    let guid = Guid::parse(TEXT).unwrap();
    let mut bytes = Vec::new();
    guid.serialize(&mut bytes);
    let expected: Vec<u8> = vec![
        0x00, 0x11, 0x22, 0x33, 0x44, 0x55, 0x66, 0x77, 0x88, 0x99, 0xaa, 0xbb, 0xcc, 0xdd, 0xee,
        0xff,
    ];
    assert_eq!(bytes, expected);
}

#[test]
fn parse_reads_fields_from_wire_bytes() {
    let guid = Guid::parse(TEXT).unwrap();
    assert_eq!(guid.time_low, 0x33221100);
    assert_eq!(guid.time_mid, 0x5544);
    assert_eq!(guid.time_high_and_version, 0x7766);
    assert_eq!(guid.clock_seq_high_and_reserved, 0x88);
    assert_eq!(guid.clock_seq_low, 0x99);
    assert_eq!(guid.node, [0xaa, 0xbb, 0xcc, 0xdd, 0xee, 0xff]);
}

#[test]
fn parse_accepts_upper_case_digits() {
    let lower = Guid::parse("a5c059a1-94e4-4aa7-87b5-ab155c2bf072").unwrap();
    let upper = Guid::parse("A5C059A1-94E4-4AA7-87B5-AB155C2BF072").unwrap();
    assert_eq!(lower, upper);
}

#[test]
fn parse_rejects_short_text() {
    assert_eq!(
        Guid::parse("00112233-4455-6677-8899-aabbccddeef"),
        Err(ParseError::IncorrectLength(35))
    );
}

#[test]
fn parse_rejects_long_text() {
    assert_eq!(
        Guid::parse("00112233-4455-6677-8899-aabbccddeeff0"),
        Err(ParseError::IncorrectLength(36))
    );
}

#[test]
fn parse_rejects_empty_text() {
    assert_eq!(Guid::parse(""), Err(ParseError::IncorrectLength(0)));
}

#[test]
fn parse_rejects_missing_dash() {
    assert_eq!(
        Guid::parse("0011223344556677889900aabbccddeeff"),
        Err(ParseError::MissingDash(8))
    );
}

#[test]
fn parse_rejects_invalid_hex() {
    assert_eq!(
        Guid::parse("g0112233-4455-6677-8899-aabbccddeeff"),
        Err(ParseError::InvalidHex(0))
    );
}

#[test]
fn parse_reports_first_fault() {
    assert_eq!(
        Guid::parse("00112233-4455-6677-8899_aabbccddeexx"),
        Err(ParseError::MissingDash(23))
    );
    assert_eq!(
        Guid::parse("00112233-4455-6677-889z-aabbccddeef"),
        Err(ParseError::InvalidHex(22))
    );
}

#[test]
fn from_str_matches_parse() {
    let a: Guid = TEXT.parse().unwrap();
    assert_eq!(a, Guid::parse(TEXT).unwrap());
    let e: Result<Guid, ParseError> = "abc".parse();
    assert_eq!(e, Err(ParseError::IncorrectLength(3)));
}

#[test]
fn from_fields_writes_mixed_endian() {
    let guid = Guid::from_fields(
        0xa5c059a1,
        0x94e4,
        0x4aa7,
        &[0x87, 0xb5, 0xab, 0x15, 0x5c, 0x2b, 0xf0, 0x72],
    );
    let mut bytes = Vec::new();
    guid.serialize(&mut bytes);
    let expected: Vec<u8> = vec![
        0xa1, 0x59, 0xc0, 0xa5, 0xe4, 0x94, 0xa7, 0x4a, 0x87, 0xb5, 0xab, 0x15, 0x5c, 0x2b, 0xf0,
        0x72,
    ];
    assert_eq!(bytes, expected);
}

#[test]
fn serialize_always_sixteen_bytes_appended() {
    let mut bytes = vec![1u8, 2, 3];
    Guid::nil().serialize(&mut bytes);
    assert_eq!(bytes.len(), 3 + 16);
    assert_eq!(&bytes[..3], &[1u8, 2, 3]);
    assert_eq!(Guid::serialized_size(), 16);
}

#[test]
fn nil_is_all_zero() {
    let mut bytes = Vec::new();
    Guid::nil().serialize(&mut bytes);
    assert_eq!(bytes, vec![0u8; 16]);
    assert_eq!(Guid::nil(), Guid::parse("00000000-0000-0000-0000-000000000000").unwrap());
}

#[test]
fn deserialize_needs_sixteen_bytes() {
    assert_eq!(Guid::deserialize(&[0u8; 15]), None);
    assert_eq!(Guid::deserialize(&[0u8; 17]), None);
    assert_eq!(Guid::deserialize(&[0u8; 16]), Some(Guid::nil()));
}

#[test]
fn little_endian_writers() {
    let mut bytes = Vec::new();
    serialize_u32(0x12345678, &mut bytes);
    serialize_u16(0xabcd, &mut bytes);
    assert_eq!(bytes, vec![0x78u8, 0x56, 0x34, 0x12, 0xcd, 0xab]);
}

#[test]
fn from_str_reports_parse_faults() {
    assert!(TEXT.parse::<Guid>().is_ok());
    assert_eq!(
        "00112233-4455-6677-8899-aabbccddeef".parse::<Guid>(),
        Err(ParseError::IncorrectLength(35))
    );
    assert_eq!(
        "0011223344556677889900aabbccddeeff".parse::<Guid>(),
        Err(ParseError::MissingDash(8))
    );
    assert_eq!(
        "g0112233-4455-6677-8899-aabbccddeeff".parse::<Guid>(),
        Err(ParseError::InvalidHex(0))
    );
    assert_eq!(
        "AABBCCDD-4455-6677-8899-AABBCCDDEEFF".parse::<Guid>(),
        "aabbccdd-4455-6677-8899-aabbccddeeff".parse::<Guid>()
    );
}
