use firefly::cat002::{decode_legacy_service_messages, Cat002DecodeError, CATEGORY};
use firefly::cat034::{DecodedServiceMessage, ServiceMessageType};

const TICKS_PER_SECOND: f64 = 128.0;
const SECTOR_LSB_DEGREES: f64 = 360.0 / 256.0;

fn block(records: &[u8]) -> Vec<u8> {
    let mut out = vec![CATEGORY, 0x00, (3 + records.len()) as u8];
    out.extend_from_slice(records);
    out
}

#[test]
fn cat002_north_marker_matches_reference_vector() {
    let bytes = block(&[0xD0, 0x19, 0x07, 0x01, 0x07, 0x08, 0x00]);
    let messages = decode_legacy_service_messages(&bytes).expect("decodes");
    assert_eq!(
        messages,
        vec![DecodedServiceMessage {
            sac: 25,
            sic: 7,
            message_type: ServiceMessageType::NorthMarker,
            time_ticks: Some((3600.0 * TICKS_PER_SECOND) as u32),
            sector: None,
            antenna_rotation: None,
        }]
    );
}

#[test]
fn cat002_sector_crossing_decodes_sector_and_rotation() {
    let bytes = block(&[0xF8, 0x19, 0x07, 0x02, 0x40, 0x00, 0x00, 0x80, 0x02, 0x00]);
    let messages = decode_legacy_service_messages(&bytes).expect("decodes");
    let m = messages[0];
    assert_eq!(m.message_type, ServiceMessageType::SectorCrossing);
    assert_eq!(m.sector.map(|s| s as f64 * SECTOR_LSB_DEGREES), Some(90.0));
    assert_eq!(m.antenna_rotation.map(|r| r as f64 / TICKS_PER_SECOND), Some(4.0));
    assert_eq!(m.time_ticks.map(|t| t as f64 / TICKS_PER_SECOND), Some(1.0));
}

#[test]
fn south_marker_and_blind_zone_codes_stay_other() {
    for code in [3u8, 8, 9] {
        let bytes = block(&[0xC0, 0x19, 0x07, code]);
        let messages = decode_legacy_service_messages(&bytes).expect("decodes");
        assert_eq!(messages[0].message_type, ServiceMessageType::Other(code));
    }
}

#[test]
fn cat002_skips_unused_items_length_correctly() {
    let bytes = block(&[
        0xD5, 0x84, 0x19, 0x07, 0x01, 0x00, 0x00, 0x80, 0x81, 0x00, 0x02, 0xAA, 0xBB, 0xCC, 0xDD,
        0x03, 0xEE, 0xFF, 0xC0, 0x19, 0x07, 0x01,
    ]);
    let messages = decode_legacy_service_messages(&bytes).expect("decodes");
    assert_eq!(messages.len(), 2, "skip kept the stream in sync");
    assert_eq!(messages[0].time_ticks.map(|t| t as f64 / TICKS_PER_SECOND), Some(1.0));
    assert_eq!(messages[1].message_type, ServiceMessageType::NorthMarker);
}

#[test]
fn cat002_spare_and_rfs_frns_are_rejected() {
    let spare = block(&[0xC1, 0x08, 0x19, 0x07, 0x01]);
    assert_eq!(decode_legacy_service_messages(&spare), Err(Cat002DecodeError::UnknownItem(12)));
    let rfs = block(&[0xC1, 0x02, 0x19, 0x07, 0x01]);
    assert_eq!(decode_legacy_service_messages(&rfs), Err(Cat002DecodeError::UnknownItem(14)));
}

#[test]
fn cat002_missing_identity_or_type_is_rejected() {
    let no_identity = block(&[0x50, 0x01, 0x00, 0x00, 0x80]);
    assert_eq!(
        decode_legacy_service_messages(&no_identity),
        Err(Cat002DecodeError::MissingItem(1))
    );
    let no_type = block(&[0x90, 0x19, 0x07, 0x00, 0x00, 0x80]);
    assert_eq!(decode_legacy_service_messages(&no_type), Err(Cat002DecodeError::MissingItem(2)));
}

#[test]
fn cat002_wrong_category_and_length_mismatch_are_rejected() {
    assert_eq!(
        decode_legacy_service_messages(&[34, 0x00, 0x03]),
        Err(Cat002DecodeError::WrongCategory(34))
    );
    assert_eq!(
        decode_legacy_service_messages(&[CATEGORY, 0xFF, 0xFF, 0x00]),
        Err(Cat002DecodeError::LengthMismatch { declared: 0xFFFF, actual: 4 })
    );
}

#[test]
fn cat002_truncations_never_panic() {
    let bytes = block(&[0xF8, 0x19, 0x07, 0x02, 0x40, 0x00, 0x00, 0x80, 0x02, 0x00]);
    for cut in 0..bytes.len() {
        let mut shortened = bytes[..cut].to_vec();
        if shortened.len() >= 3 {
            shortened[1] = 0;
            shortened[2] = shortened.len() as u8;
        }
        let _ = decode_legacy_service_messages(&shortened);
    }
}

#[test]
fn cat002_overlong_fspec_chain_is_rejected_not_panicked() {
    let mut bytes = vec![CATEGORY, 0x00, 63];
    bytes.extend_from_slice(&[0xFF; 60]);
    assert_eq!(decode_legacy_service_messages(&bytes), Err(Cat002DecodeError::FspecTooLong));
}
