use firefly::cat034::{
    decode_service_messages, Cat034DecodeError, DecodedServiceMessage, ServiceMessageType,
    CATEGORY,
};

const TICKS_PER_SECOND: f64 = 128.0;
const SECTOR_LSB_DEGREES: f64 = 360.0 / 256.0;

fn block(records: &[u8]) -> Vec<u8> {
    let mut out = vec![CATEGORY, 0x00, (3 + records.len()) as u8];
    out.extend_from_slice(records);
    out
}

#[test]
fn cat034_north_marker_matches_reference_vector() {
    let bytes = block(&[0xE0, 0x19, 0x07, 0x01, 0x07, 0x08, 0x00]);
    let messages = decode_service_messages(&bytes).expect("decodes");
    assert_eq!(
        messages,
        vec![DecodedServiceMessage {
            sac: 25,
            sic: 7,
            message_type: ServiceMessageType::NorthMarker,
            time_ticks: Some((3600.0 * TICKS_PER_SECOND) as u32),
            sector: None,
            antenna_rotation: None,
        }]
    );
}

#[test]
fn cat034_sector_crossing_decodes_sector_and_rotation() {
    let bytes = block(&[0xF8, 0x19, 0x07, 0x02, 0x00, 0x00, 0x80, 0x40, 0x02, 0x00]);
    let messages = decode_service_messages(&bytes).expect("decodes");
    assert_eq!(messages.len(), 1);
    let m = messages[0];
    assert_eq!(m.message_type, ServiceMessageType::SectorCrossing);
    assert_eq!(m.sector.map(|s| s as f64 * SECTOR_LSB_DEGREES), Some(90.0));
    assert_eq!(m.antenna_rotation.map(|r| r as f64 / TICKS_PER_SECOND), Some(4.0));
    assert_eq!(m.time_ticks.map(|t| t as f64 / TICKS_PER_SECOND), Some(1.0));
}

#[test]
fn multiple_records_in_one_block_decode() {
    let bytes = block(&[
        0xF0, 0x19, 0x07, 0x02, 0x00, 0x00, 0x80, 0x40, 0xE0, 0x19, 0x07, 0x01, 0x00, 0x01, 0x00,
    ]);
    let messages = decode_service_messages(&bytes).expect("decodes");
    assert_eq!(messages.len(), 2);
    assert_eq!(messages[0].message_type, ServiceMessageType::SectorCrossing);
    assert_eq!(messages[1].message_type, ServiceMessageType::NorthMarker);
}

#[test]
fn compound_items_are_skipped_length_correctly() {
    let bytes = block(&[
        0xE6, 0x19, 0x07, 0x01, 0x00, 0x00, 0x80, 0x9C, 0xAA, 0xBB, 0xCC, 0xDD, 0xEE, 0x80, 0x11,
        0xE0, 0x19, 0x07, 0x01, 0x00, 0x01, 0x00,
    ]);
    let messages = decode_service_messages(&bytes).expect("decodes");
    assert_eq!(messages.len(), 2, "compound skip kept the stream in sync");
    assert_eq!(messages[0].message_type, ServiceMessageType::NorthMarker);
    assert_eq!(messages[1].time_ticks.map(|t| t as f64 / TICKS_PER_SECOND), Some(2.0));
}

#[test]
fn compound_spare_bit_is_rejected() {
    let bytes = block(&[0xE4, 0x19, 0x07, 0x01, 0x00, 0x00, 0x80, 0x40, 0x00]);
    assert_eq!(decode_service_messages(&bytes), Err(Cat034DecodeError::UnknownItem(6)));
}

#[test]
fn unknown_message_type_is_tolerated() {
    let bytes = block(&[0xC0, 0x19, 0x07, 0x09]);
    let messages = decode_service_messages(&bytes).expect("decodes");
    assert_eq!(messages[0].message_type, ServiceMessageType::Other(9));
    assert_eq!(messages[0].time_ticks, None);
}

#[test]
fn cat034_missing_identity_or_type_is_rejected() {
    let no_identity = block(&[0x60, 0x01, 0x00, 0x00, 0x80]);
    assert_eq!(decode_service_messages(&no_identity), Err(Cat034DecodeError::MissingItem(1)));
    let no_type = block(&[0xA0, 0x19, 0x07, 0x00, 0x00, 0x80]);
    assert_eq!(decode_service_messages(&no_type), Err(Cat034DecodeError::MissingItem(2)));
}

#[test]
fn cat034_wrong_category_and_length_mismatch_are_rejected() {
    assert_eq!(decode_service_messages(&[48, 0x00, 0x03]), Err(Cat034DecodeError::WrongCategory(48)));
    assert_eq!(
        decode_service_messages(&[CATEGORY, 0xFF, 0xFF, 0x00]),
        Err(Cat034DecodeError::LengthMismatch { declared: 0xFFFF, actual: 4 })
    );
}

#[test]
fn cat034_truncations_never_panic() {
    let bytes = block(&[0xF8, 0x19, 0x07, 0x02, 0x00, 0x00, 0x80, 0x40, 0x02, 0x00]);
    for cut in 0..bytes.len() {
        let mut shortened = bytes[..cut].to_vec();
        if shortened.len() >= 3 {
            shortened[1] = 0;
            shortened[2] = shortened.len() as u8;
        }
        let _ = decode_service_messages(&shortened);
    }
}

#[test]
fn cat034_overlong_fspec_chain_is_rejected_not_panicked() {
    let mut bytes = vec![CATEGORY, 0x00, 63];
    bytes.extend_from_slice(&[0xFF; 60]);
    assert_eq!(decode_service_messages(&bytes), Err(Cat034DecodeError::FspecTooLong));
}

#[test]
fn compound_extension_octet_with_presence_bits_is_rejected() {
    // I034/060 with FX set, then an extension octet marking position 8.
    let bytes = block(&[0xC2, 0x19, 0x07, 0x01, 0x81, 0x80, 0x11]);
    assert_eq!(decode_service_messages(&bytes), Err(Cat034DecodeError::UnknownItem(7)));
}

#[test]
fn compound_with_empty_extension_is_skipped() {
    // I034/060: COM + FX, then an empty extension octet, then COM's octet.
    let bytes = block(&[0xC2, 0x19, 0x07, 0x01, 0x81, 0x00, 0x11]);
    let messages = decode_service_messages(&bytes).expect("decodes");
    assert_eq!(messages.len(), 1);
}

#[test]
fn message_type_codes_map() {
    assert_eq!(ServiceMessageType::from_code(3), ServiceMessageType::GeographicalFiltering);
    assert_eq!(ServiceMessageType::from_code(4), ServiceMessageType::JammingStrobe);
    assert_eq!(ServiceMessageType::from_code(0), ServiceMessageType::Other(0));
}
