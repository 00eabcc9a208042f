use firefly::cat062::DataSourceId;
use firefly::cat065::{
    decode_status_block, encode_sdps_status, Cat065DecodeError, Cat065Encoder,
    MESSAGE_TYPE_SDPS_STATUS, SDPS_STATUS_DEGRADED,
};

/// 1/128-second ticks per second.
const TICKS_PER_SECOND: f64 = 128.0;

fn encoder() -> Cat065Encoder {
    Cat065Encoder::new(DataSourceId::new(0x19, 0x02), 1)
}

fn ticks(secs: f64) -> u32 {
    (secs * TICKS_PER_SECOND).round() as u32
}

#[test]
fn status_matches_reference_dump() {
    let block = encoder().encode_status(ticks(0.0), true);
    assert_eq!(
        block,
        vec![0x41, 0x00, 0x0C, 0xF4, 0x19, 0x02, 0x01, 0x01, 0x00, 0x00, 0x00, 0x00]
    );
}

#[test]
fn cat065_time_of_day_is_encoded_in_128th_seconds() {
    // 01:00:00 = 3600 s → 3600 * 128 = 460_800 = 0x07_0800.
    let block = encoder().encode_status(ticks(3600.0), true);
    assert_eq!(&block[8..11], &[0x07, 0x08, 0x00]);
}

#[test]
fn degraded_status_sets_nogo() {
    let block = encoder().encode_status(ticks(0.0), false);
    assert_eq!(*block.last().unwrap(), SDPS_STATUS_DEGRADED);
}

#[test]
fn round_trip_recovers_status() {
    for (secs, operational) in [(0.0, true), (3600.0, true), (86_399.0, false)] {
        let block = encoder().encode_status(ticks(secs), operational);
        let reports = decode_status_block(&block).expect("decodes");
        assert_eq!(reports.len(), 1);
        let r = reports[0];
        assert_eq!(r.source, DataSourceId::new(0x19, 0x02));
        assert_eq!(r.message_type, MESSAGE_TYPE_SDPS_STATUS);
        assert_eq!(r.service_id, 1);
        assert_eq!(r.operational, operational);
        assert!((r.time_ticks as f64 / TICKS_PER_SECOND - secs).abs() < 1.0 / TICKS_PER_SECOND);
    }
}

#[test]
fn cat065_wrong_category_is_rejected() {
    let mut block = encoder().encode_status(ticks(0.0), true);
    block[0] = 0x3E;
    assert_eq!(decode_status_block(&block), Err(Cat065DecodeError::WrongCategory(0x3E)));
}

#[test]
fn truncated_input_is_rejected() {
    let block = encoder().encode_status(ticks(0.0), true);
    for cut in 0..block.len() {
        assert!(decode_status_block(&block[..cut]).is_err());
    }
}

#[test]
fn nogo_octet_follows_the_operational_flag() {
    assert_eq!(encode_sdps_status(true), 0x00);
    assert_eq!(encode_sdps_status(false), 0x40);
}

#[test]
fn time_keeps_the_low_24_bits() {
    let block = encoder().encode_status(0x0100_0001, true);
    assert_eq!(&block[8..11], &[0x00, 0x00, 0x01]);
}

#[test]
fn declared_length_beyond_input_is_rejected() {
    let mut block = encoder().encode_status(0, true);
    block[2] = 0x20;
    assert_eq!(
        decode_status_block(&block),
        Err(Cat065DecodeError::LengthMismatch { declared: 0x20, actual: 12 })
    );
}

#[test]
fn missing_status_item_is_reported() {
    // FSPEC 0xF0: FRN 1-4 only, no I065/040.
    let block = vec![0x41, 0x00, 0x0B, 0xF0, 0x19, 0x02, 0x01, 0x01, 0x00, 0x00, 0x00];
    assert_eq!(decode_status_block(&block), Err(Cat065DecodeError::MissingItem(6)));
}

#[test]
fn unknown_status_item_is_reported() {
    // FSPEC 0x81 0x40: FRN 1 and FRN 9.
    let block = vec![0x41, 0x00, 0x08, 0x81, 0x40, 0x19, 0x02, 0x00];
    assert_eq!(decode_status_block(&block), Err(Cat065DecodeError::UnknownItem(9)));
}

#[test]
fn cat065_overlong_fspec_chain_is_rejected() {
    let mut block = vec![0x41, 0x00, 63];
    block.extend_from_slice(&[0xFF; 60]);
    assert_eq!(decode_status_block(&block), Err(Cat065DecodeError::FspecTooLong));
}

#[test]
fn status_block_len_shorter_than_the_input_is_a_length_mismatch() {
    assert_eq!(
        decode_status_block(&[0x41, 0x00, 0x03, 0x00]),
        Err(Cat065DecodeError::LengthMismatch { declared: 3, actual: 4 })
    );
    assert_eq!(decode_status_block(&[0x41, 0x00, 0x03]), Ok(vec![]));
}
