use sed_unlock::guid::{esp_type, parse_guid, GuidParseError};

fn bytes_of(text: &str) -> [u8; 16] {
    parse_guid(text).expect("a valid GUID").bytes
}

#[test]
fn parses_the_esp_type_guid_in_uefi_layout() {
    assert_eq!(
        bytes_of("c12a7328-f81f-11d2-ba4b-00a0c93ec93b"),
        [
            0x28, 0x73, 0x2a, 0xc1, 0x1f, 0xf8, 0xd2, 0x11, 0xba, 0x4b, 0x00, 0xa0, 0xc9, 0x3e,
            0xc9, 0x3b
        ]
    );
}

#[test]
fn agrees_with_uefi_parser_on_canonical_text() {
    for text in [
        "c12a7328-f81f-11d2-ba4b-00a0c93ec93b",
        "0FC63DAF-8483-4772-8E79-3D69D8477DE4",
        "00000000-0000-0000-0000-000000000000",
        "ffffffff-ffff-ffff-ffff-ffffffffffff",
        "4f68bce3-e8cd-4db1-96e7-fbcaf984b709",
    ] {
        let expected = uefi::Guid::try_parse(text).unwrap().to_bytes();
        assert_eq!(bytes_of(text), expected, "{}", text);
    }
}

#[test]
fn accepts_what_from_str_radix_accepts() {
    // short fields, a leading plus sign, mixed case
    assert_eq!(
        bytes_of("1-2-3-4-5"),
        [1, 0, 0, 0, 2, 0, 3, 0, 0, 4, 0, 0, 0, 0, 0, 5]
    );
    assert_eq!(bytes_of("+a-+B-c-D-+e"), bytes_of("0000000a-000b-000c-000d-00000000000e"));
    // leading zeros beyond the field width are still the same number
    assert_eq!(
        bytes_of("000000000001-0002-0003-0004-000000000000005"),
        bytes_of("00000001-0002-0003-0004-000000000005")
    );
}

#[test]
fn refuses_wrong_number_of_parts() {
    assert_eq!(parse_guid("").unwrap_err(), GuidParseError::WrongPartCount);
    assert_eq!(parse_guid("1-2-3-4").unwrap_err(), GuidParseError::WrongPartCount);
    assert_eq!(parse_guid("1-2-3-4-5-6").unwrap_err(), GuidParseError::WrongPartCount);
    assert_eq!(
        parse_guid("c12a7328f81f11d2ba4b00a0c93ec93b").unwrap_err(),
        GuidParseError::WrongPartCount
    );
}

#[test]
fn names_the_first_bad_field() {
    assert_eq!(parse_guid("g-0-0-0-0").unwrap_err(), GuidParseError::InvalidTimeLow);
    assert_eq!(parse_guid("100000000-0-0-0-0").unwrap_err(), GuidParseError::InvalidTimeLow);
    assert_eq!(parse_guid("-0-0-0-0").unwrap_err(), GuidParseError::InvalidTimeLow);
    assert_eq!(parse_guid("+-0-0-0-0").unwrap_err(), GuidParseError::InvalidTimeLow);
    assert_eq!(parse_guid("0-10000-0-0-0").unwrap_err(), GuidParseError::InvalidTimeMid);
    assert_eq!(parse_guid("0-0-x-0-0").unwrap_err(), GuidParseError::InvalidTimeHigh);
    assert_eq!(parse_guid("0-0-0- 1-0").unwrap_err(), GuidParseError::InvalidClockSeq);
    assert_eq!(parse_guid("0-0-0-0-").unwrap_err(), GuidParseError::InvalidNode);
    assert_eq!(
        parse_guid("0-0-0-0-1000000000000").unwrap_err(),
        GuidParseError::InvalidNode
    );
    assert_eq!(parse_guid("0-0-0-0-é").unwrap_err(), GuidParseError::InvalidNode);
    // an earlier bad field wins over a later one
    assert_eq!(parse_guid("0-zz-zz-0-0").unwrap_err(), GuidParseError::InvalidTimeMid);
}

#[test]
fn largest_node_is_accepted() {
    let b = bytes_of("0-0-0-0-ffffffffffff");
    assert_eq!(&b[10..], &[0xff; 6]);
}

#[test]
fn esp_type_matches_uefi_constant() {
    assert_eq!(
        esp_type().bytes,
        uefi::proto::media::partition::GptPartitionType::EFI_SYSTEM_PARTITION
            .0
            .to_bytes()
    );
    assert_eq!(esp_type().bytes, bytes_of("C12A7328-F81F-11D2-BA4B-00A0C93EC93B"));
}

#[test]
fn same_as_compares_all_bytes() {
    let a = parse_guid("1-2-3-4-5").unwrap();
    let b = parse_guid("01-02-03-04-05").unwrap();
    let c = parse_guid("1-2-3-4-6").unwrap();
    assert!(a.same_as(&b));
    assert!(!a.same_as(&c));
}

fn layout(tl: u32, tm: u16, th: u16, cs: u16, node: u64) -> [u8; 16] {
    let mut b = [0u8; 16];
    b[0..4].copy_from_slice(&tl.to_le_bytes());
    b[4..6].copy_from_slice(&tm.to_le_bytes());
    b[6..8].copy_from_slice(&th.to_le_bytes());
    b[8..10].copy_from_slice(&cs.to_be_bytes());
    b[10..16].copy_from_slice(&node.to_be_bytes()[2..8]);
    b
}

#[test]
fn formatted_fields_read_back() {
    let cases: [(u32, u16, u16, u16, u64); 4] = [
        (0, 0, 0, 0, 0),
        (0xc12a7328, 0xf81f, 0x11d2, 0xba4b, 0x00a0c93ec93b),
        (u32::MAX, u16::MAX, u16::MAX, u16::MAX, (1u64 << 48) - 1),
        (0x01234567, 0x89ab, 0xcdef, 0x0123, 0x456789abcdef),
    ];
    for (a, b, c, d, n) in cases {
        let lower = format!("{:08x}-{:04x}-{:04x}-{:04x}-{:012x}", a, b, c, d, n);
        let upper = format!("{:08X}-{:04X}-{:04X}-{:04X}-{:012X}", a, b, c, d, n);
        assert_eq!(bytes_of(&lower), layout(a, b, c, d, n), "{}", lower);
        assert_eq!(bytes_of(&upper), layout(a, b, c, d, n), "{}", upper);
    }
}
