use firefly::cat019::{
    decode_mlat_status, Cat019DecodeError, DecodedMlatStatus, MlatStatusType, CATEGORY,
};

const TICKS_PER_SECOND: f64 = 128.0;

fn block(records: &[u8]) -> Vec<u8> {
    let mut out = vec![CATEGORY, 0x00, (3 + records.len()) as u8];
    out.extend_from_slice(records);
    out
}

#[test]
fn periodic_status_matches_reference_vector() {
    let bytes = block(&[0xF0, 0x19, 0x0A, 0x02, 0x07, 0x08, 0x00, 0x00]);
    let messages = decode_mlat_status(&bytes).expect("decodes");
    assert_eq!(
        messages,
        vec![DecodedMlatStatus {
            sac: 25,
            sic: 10,
            message_type: MlatStatusType::Periodic,
            time_ticks: Some((3600.0 * TICKS_PER_SECOND) as u32),
            operational: Some(true),
        }]
    );
}

#[test]
fn nogo_and_message_types_decode() {
    for (nogo, expect) in [(0x40u8, false), (0x80, false), (0xC0, false)] {
        let bytes = block(&[0xF0, 0x19, 0x0A, 0x01, 0x00, 0x00, 0x80, nogo]);
        let m = decode_mlat_status(&bytes).expect("decodes")[0];
        assert_eq!(m.message_type, MlatStatusType::StartOfUpdateCycle);
        assert_eq!(m.operational, Some(expect));
    }
    let absent = block(&[0xC0, 0x19, 0x0A, 0x09]);
    let m = decode_mlat_status(&absent).expect("decodes")[0];
    assert_eq!(m.message_type, MlatStatusType::Other(9));
    assert_eq!(m.operational, None);
}

#[test]
fn cat019_skips_unused_items_length_correctly() {
    let bytes = block(&[
        0xCF, 0xE0, 0x19, 0x0A, 0x02, 0x11, 0x02, 0xAA, 0x01, 0xBB, 0x02, 0x81, 0x00, 0x10, 0x00,
        0x00, 0x00, 0x04, 0x00, 0x00, 0x00, 0x01, 0xF4, 0x2D, 0xC0, 0x19, 0x0A, 0x02,
    ]);
    let messages = decode_mlat_status(&bytes).expect("decodes");
    assert_eq!(messages.len(), 2, "skip kept the stream in sync");
    assert_eq!(messages[1].message_type, MlatStatusType::Periodic);
}

#[test]
fn spare_frns_and_missing_items_are_rejected() {
    let spare = block(&[0xC1, 0x10, 0x19, 0x0A, 0x02]);
    assert_eq!(decode_mlat_status(&spare), Err(Cat019DecodeError::UnknownItem(11)));
    let no_type = block(&[0x80, 0x19, 0x0A]);
    assert_eq!(decode_mlat_status(&no_type), Err(Cat019DecodeError::MissingItem(2)));
    let no_identity = block(&[0x40, 0x02]);
    assert_eq!(decode_mlat_status(&no_identity), Err(Cat019DecodeError::MissingItem(1)));
}

#[test]
fn cat019_malformed_input_is_rejected_not_panicked() {
    assert_eq!(decode_mlat_status(&[20, 0x00, 0x03]), Err(Cat019DecodeError::WrongCategory(20)));
    assert_eq!(
        decode_mlat_status(&[CATEGORY, 0xFF, 0xFF, 0x00]),
        Err(Cat019DecodeError::LengthMismatch { declared: 0xFFFF, actual: 4 })
    );
    let bytes = block(&[0xF0, 0x19, 0x0A, 0x02, 0x07, 0x08, 0x00, 0x00]);
    for cut in 0..bytes.len() {
        let mut shortened = bytes[..cut].to_vec();
        if shortened.len() >= 3 {
            shortened[1] = 0;
            shortened[2] = shortened.len() as u8;
        }
        let _ = decode_mlat_status(&shortened);
    }
    let mut hostile = vec![CATEGORY, 0x00, 63];
    hostile.extend_from_slice(&[0xFF; 60]);
    assert_eq!(decode_mlat_status(&hostile), Err(Cat019DecodeError::FspecTooLong));
}
