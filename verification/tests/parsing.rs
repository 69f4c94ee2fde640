use wasm_imager::hex::{parse_prefixed_hex, IntParseError};
use wasm_imager::schema::default_sector;
use wasm_imager::utils::{
    generate_random_dos_id, generate_random_guid, parse_uuid_to_gpt_guid, to_mixed_endian,
    uuid_v4_from_random_bytes,
};

#[test]
fn default_sector_is_512() {
    assert_eq!(default_sector(), 512);
}

#[test]
fn hex_with_prefix() {
    assert_eq!(parse_prefixed_hex("0x83", 255), Ok(0x83));
    assert_eq!(parse_prefixed_hex("83", 255), Ok(0x83));
    assert_eq!(parse_prefixed_hex("0xEF", 255), Ok(0xef));
    assert_eq!(parse_prefixed_hex("0x12345678", 0xffff_ffff), Ok(0x1234_5678));
    assert_eq!(parse_prefixed_hex("0xFFFFFFFF", 0xffff_ffff), Ok(0xffff_ffff));
}

#[test]
fn hex_strips_every_leading_prefix() {
    assert_eq!(parse_prefixed_hex("0x0x12", 255), Ok(0x12));
    assert_eq!(parse_prefixed_hex("0x0x0x", 255), Err(IntParseError::Empty));
}

#[test]
fn hex_sign_handling() {
    assert_eq!(parse_prefixed_hex("+ff", 255), Ok(255));
    assert_eq!(parse_prefixed_hex("+", 255), Err(IntParseError::InvalidDigit));
    assert_eq!(parse_prefixed_hex("-", 255), Err(IntParseError::InvalidDigit));
    assert_eq!(parse_prefixed_hex("-1", 255), Err(IntParseError::InvalidDigit));
}

#[test]
fn hex_errors() {
    assert_eq!(parse_prefixed_hex("", 255), Err(IntParseError::Empty));
    assert_eq!(parse_prefixed_hex("0x", 255), Err(IntParseError::Empty));
    assert_eq!(parse_prefixed_hex("0x100", 255), Err(IntParseError::PosOverflow));
    assert_eq!(parse_prefixed_hex("12G", 255), Err(IntParseError::InvalidDigit));
    assert_eq!(parse_prefixed_hex(" 12", 255), Err(IntParseError::InvalidDigit));
    // nine digits overflow 32 bits before the bad digit is reached
    assert_eq!(parse_prefixed_hex("FFFFFFFFFG", 0xffff_ffff), Err(IntParseError::PosOverflow));
    // a bad digit comes first
    assert_eq!(parse_prefixed_hex("FG", 0xffff_ffff), Err(IntParseError::InvalidDigit));
}

#[test]
fn hex_agrees_with_std() {
    for text in ["0x83", "ff", "+7", "-7", "", "+", "100", "1g", "0xFFFFFFFF", "123456789", "0x"] {
        let ours = parse_prefixed_hex(text, 255);
        let std8 = u8::from_str_radix(text.trim_start_matches("0x"), 16);
        assert_eq!(ours.is_ok(), std8.is_ok(), "{text}");
        if let (Ok(a), Ok(b)) = (ours, std8) {
            assert_eq!(a, b as u64);
        }
        let ours32 = parse_prefixed_hex(text, 0xffff_ffff);
        let std32 = u32::from_str_radix(text.trim_start_matches("0x"), 16);
        assert_eq!(ours32.is_ok(), std32.is_ok(), "{text}");
        if let (Err(e), Err(f)) = (ours32, std32) {
            assert_eq!(e.message(), f.to_string());
        }
    }
}

#[test]
fn hex_error_messages() {
    assert_eq!(IntParseError::Empty.message(), "cannot parse integer from empty string");
    assert_eq!(IntParseError::InvalidDigit.message(), "invalid digit found in string");
    assert_eq!(IntParseError::PosOverflow.message(), "number too large to fit in target type");
}

#[test]
fn uuid_to_gpt_guid_hyphenated() {
    let g = parse_uuid_to_gpt_guid("0FC63DAF-8483-4772-8E79-3D69D8477DE4").unwrap();
    assert_eq!(
        g,
        [
            0xAF, 0x3D, 0xC6, 0x0F, 0x83, 0x84, 0x72, 0x47, 0x8E, 0x79, 0x3D, 0x69, 0xD8, 0x47,
            0x7D, 0xE4
        ]
    );
}

#[test]
fn uuid_other_forms() {
    let plain = parse_uuid_to_gpt_guid("0fc63daf848347728e793d69d8477de4").unwrap();
    let braced = parse_uuid_to_gpt_guid("{0FC63DAF-8483-4772-8E79-3D69D8477DE4}").unwrap();
    let urn = parse_uuid_to_gpt_guid("URN:uuid:0fc63daf-8483-4772-8e79-3d69d8477de4").unwrap();
    let hy = parse_uuid_to_gpt_guid("0FC63DAF-8483-4772-8E79-3D69D8477DE4").unwrap();
    assert_eq!(plain, hy);
    assert_eq!(braced, hy);
    assert_eq!(urn, hy);
}

#[test]
fn uuid_rejected() {
    assert!(parse_uuid_to_gpt_guid("").is_err());
    assert!(parse_uuid_to_gpt_guid("0FC63DAF-8483-4772-8E79-3D69D8477DE").is_err());
    assert!(parse_uuid_to_gpt_guid("0FC63DAF+8483-4772-8E79-3D69D8477DE4").is_err());
    assert!(parse_uuid_to_gpt_guid("[0FC63DAF-8483-4772-8E79-3D69D8477DE4]").is_err());
    let e = parse_uuid_to_gpt_guid("xyz").unwrap_err();
    assert_eq!(e, uuid::Uuid::parse_str("xyz").unwrap_err().to_string());
}

#[test]
fn mixed_endian_reorders_first_fields() {
    let b: [u8; 16] = [0, 1, 2, 3, 4, 5, 6, 7, 8, 9, 10, 11, 12, 13, 14, 15];
    assert_eq!(to_mixed_endian(b), [3, 2, 1, 0, 5, 4, 7, 6, 8, 9, 10, 11, 12, 13, 14, 15]);
    assert_eq!(to_mixed_endian(to_mixed_endian(b)), b);
}

#[test]
fn random_guid_is_version_4() {
    let g = generate_random_guid().unwrap();
    assert_eq!(g[7] & 0xf0, 0x40);
    assert_eq!(g[8] & 0xc0, 0x80);
    let h = generate_random_guid().unwrap();
    assert_ne!(g, h);
}

#[test]
fn random_dos_id_is_available() {
    assert!(generate_random_dos_id().is_some());
}

#[test]
fn v4_bits_are_set_from_random_bytes() {
    let r = uuid_v4_from_random_bytes([0xff; 16]);
    let mut want = [0xff; 16];
    want[6] = 0x4f;
    want[8] = 0xbf;
    assert_eq!(r, want);
    let z = uuid_v4_from_random_bytes([0; 16]);
    let mut want = [0; 16];
    want[6] = 0x40;
    want[8] = 0x80;
    assert_eq!(z, want);
    assert_eq!(
        z,
        *uuid::Builder::from_random_bytes([0; 16]).into_uuid().as_bytes()
    );
}

#[test]
fn uuid_case_does_not_matter() {
    let lower = parse_uuid_to_gpt_guid("0fc63daf-8483-4772-8e79-3d69d8477de4").unwrap();
    let upper = parse_uuid_to_gpt_guid("0FC63DAF-8483-4772-8E79-3D69D8477DE4").unwrap();
    let mixed = parse_uuid_to_gpt_guid("0Fc63dAF-8483-4772-8e79-3D69d8477dE4").unwrap();
    assert_eq!(lower, upper);
    assert_eq!(lower, mixed);
}
