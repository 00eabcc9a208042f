use firefly::cat062::DataSourceId;
use firefly::cat063::{
    decode_sensor_block, encode_con, Cat063DecodeError, Cat063Encoder, SensorReason,
    SensorReport, CATEGORY,
};

const TICKS_PER_SECOND: f64 = 128.0;

fn encoder() -> Cat063Encoder {
    Cat063Encoder::new(DataSourceId::new(25, 2), 0)
}

fn ok(sic: u8) -> SensorReport {
    SensorReport { sic, operational: true, reason: SensorReason::NoFailure }
}

fn degraded(sic: u8) -> SensorReport {
    SensorReport { sic, operational: false, reason: SensorReason::NoFailure }
}

fn degraded_reason(sic: u8, reason: SensorReason) -> SensorReport {
    SensorReport { sic, operational: false, reason }
}

fn ticks(secs: f64) -> u32 {
    (secs * TICKS_PER_SECOND).round() as u32
}

#[test]
fn single_operational_sensor_matches_reference_dump() {
    let block = encoder().encode(ticks(0.0), &[ok(1)]);
    assert_eq!(
        block,
        vec![0x3F, 0x00, 0x0C, 0xB8, 0x19, 0x02, 0x00, 0x00, 0x00, 0x00, 0x01, 0x00]
    );
}

#[test]
fn single_degraded_sensor_matches_reference_dump() {
    let block = encoder().encode(ticks(0.0), &[degraded(1)]);
    assert_eq!(
        block,
        vec![0x3F, 0x00, 0x0C, 0xB8, 0x19, 0x02, 0x00, 0x00, 0x00, 0x00, 0x01, 0x40]
    );
}

#[test]
fn two_sensors_in_one_block_matches_reference_dump() {
    let block = encoder().encode(ticks(0.0), &[ok(1), degraded(2)]);
    assert_eq!(
        block,
        vec![
            0x3F, 0x00, 0x15, 0xB8, 0x19, 0x02, 0x00, 0x00, 0x00, 0x00, 0x01, 0x00, 0xB8, 0x19,
            0x02, 0x00, 0x00, 0x00, 0x00, 0x02, 0x40,
        ]
    );
}

#[test]
fn cat063_time_of_day_is_encoded_in_128th_seconds() {
    let block = encoder().encode(ticks(3600.0), &[ok(1)]);
    assert_eq!(&block[6..9], &[0x07, 0x08, 0x00]);
}

#[test]
fn round_trip_recovers_all_fields() {
    let sensors = &[ok(1), degraded(2), ok(3)];
    let block = encoder().encode(ticks(3600.0), sensors);
    let records = decode_sensor_block(&block).expect("decodes");
    assert_eq!(records.len(), 3);
    for r in &records {
        assert_eq!(r.data_source, DataSourceId::new(25, 2));
    }
    assert_eq!(records[0].sensor, DataSourceId::new(0, 1));
    assert!(records[0].operational);
    assert!(
        (records[0].time_ticks as f64 / TICKS_PER_SECOND - 3600.0).abs() < 1.0 / TICKS_PER_SECOND
    );
    assert_eq!(records[1].sensor, DataSourceId::new(0, 2));
    assert!(!records[1].operational);
    assert_eq!(records[2].sensor, DataSourceId::new(0, 3));
    assert!(records[2].operational);
    for r in &records {
        assert_eq!(r.reason, SensorReason::NoFailure);
    }
}

#[test]
fn empty_sensor_list_produces_minimal_block() {
    let block = encoder().encode(ticks(0.0), &[]);
    assert_eq!(block, vec![0x3F, 0x00, 0x03]);
    assert_eq!(decode_sensor_block(&block).unwrap(), vec![]);
}

#[test]
fn fspec_uses_standard_uap_positions() {
    let block = encoder().encode(ticks(0.0), &[ok(1)]);
    assert_eq!(block[3], 0xB8, "FRN 1+3+4+5 present, FX clear");
}

#[test]
fn extended_i063_060_is_skipped_via_fx() {
    let record = vec![0xB8, 0x19, 0x02, 0x00, 0x00, 0x00, 0x00, 0x07, 0x01, 0x00];
    let mut block = vec![0x3F, 0x00, (3 + record.len()) as u8];
    block.extend_from_slice(&record);
    let records = decode_sensor_block(&block).expect("decodes with extended I063/060");
    assert_eq!(records.len(), 1);
    assert_eq!(records[0].sensor, DataSourceId::new(0, 7));
    assert!(records[0].operational);
}

#[test]
fn cat063_wrong_category_is_rejected() {
    let mut block = encoder().encode(ticks(0.0), &[ok(1)]);
    block[0] = 0x3E;
    assert_eq!(decode_sensor_block(&block), Err(Cat063DecodeError::WrongCategory(0x3E)));
}

#[test]
fn truncated_input_is_safe() {
    let block = encoder().encode(ticks(0.0), &[ok(1), degraded(2)]);
    for cut in 0..block.len() {
        let _ = decode_sensor_block(&block[..cut]);
    }
}

#[test]
fn degraded_sensor_with_reason_appends_re_field() {
    let block = encoder().encode(ticks(0.0), &[degraded_reason(1, SensorReason::Unreachable)]);
    assert_eq!(
        block,
        vec![
            0x3F, 0x00, 0x10, 0xB9, 0x04, 0x19, 0x02, 0x00, 0x00, 0x00, 0x00, 0x01, 0x40, 0x03,
            0x80, 0x01,
        ]
    );
}

#[test]
fn re_reason_round_trips() {
    for reason in [SensorReason::Unreachable, SensorReason::Auth, SensorReason::RateLimited] {
        let block = encoder().encode(ticks(0.0), &[degraded_reason(1, reason)]);
        let records = decode_sensor_block(&block).expect("decodes");
        assert_eq!(records.len(), 1);
        assert!(!records[0].operational);
        assert_eq!(records[0].reason, reason, "reason {reason:?} round-trips");
    }
}

#[test]
fn operational_sensor_never_emits_re() {
    let report = SensorReport { sic: 1, operational: true, reason: SensorReason::Auth };
    let block = encoder().encode(ticks(0.0), &[report]);
    assert_eq!(block[2], 0x0C, "LEN=12, no RE field");
    assert_eq!(block[3], 0xB8, "single-octet FSPEC, FRN 13 not set");
    let records = decode_sensor_block(&block).expect("decodes");
    assert_eq!(records[0].reason, SensorReason::NoFailure);
}

#[test]
fn degraded_without_reason_emits_no_re() {
    let block = encoder().encode(ticks(0.0), &[degraded(1)]);
    assert_eq!(block[2], 0x0C, "LEN=12, no RE field");
    assert_eq!(block[3], 0xB8);
}

#[test]
fn unknown_reason_code_maps_to_unreachable() {
    assert_eq!(SensorReason::from_code(9), SensorReason::Unreachable);
    assert_eq!(SensorReason::from_code(0), SensorReason::NoFailure);
}

#[test]
fn cat063_overlong_fspec_chain_is_rejected_not_panicked() {
    let mut block = vec![CATEGORY, 0x00, 63];
    block.extend_from_slice(&[0xFF; 60]);
    assert_eq!(decode_sensor_block(&block), Err(Cat063DecodeError::FspecTooLong));
}

#[test]
fn reason_codes_round_trip() {
    for reason in [
        SensorReason::NoFailure,
        SensorReason::Unreachable,
        SensorReason::Auth,
        SensorReason::RateLimited,
    ] {
        assert_eq!(SensorReason::from_code(reason.code()), reason);
    }
    assert_eq!(SensorReason::RateLimited.code(), 3);
    assert_eq!(SensorReason::default(), SensorReason::NoFailure);
}

#[test]
fn con_octet_marks_degradation() {
    assert_eq!(encode_con(true), 0x00);
    assert_eq!(encode_con(false), 0x40);
}

#[test]
fn zero_length_re_field_is_truncated() {
    // FSPEC FRN 1+3+4+5 (+FX), FRN 13; RE length octet 0.
    let block = vec![
        0x3F, 0x00, 0x0E, 0xB9, 0x04, 0x19, 0x02, 0x00, 0x00, 0x00, 0x00, 0x01, 0x40, 0x00,
    ];
    assert_eq!(decode_sensor_block(&block), Err(Cat063DecodeError::Truncated));
}

#[test]
fn re_without_reason_subfield_decodes_no_failure() {
    let block = vec![
        0x3F, 0x00, 0x10, 0xB9, 0x04, 0x19, 0x02, 0x00, 0x00, 0x00, 0x00, 0x01, 0x40, 0x03,
        0x00, 0x02,
    ];
    let records = decode_sensor_block(&block).expect("decodes");
    assert_eq!(records[0].reason, SensorReason::NoFailure);
}

#[test]
fn missing_sensor_identifier_is_reported() {
    // FSPEC FRN 1 + 3 only.
    let block = vec![0x3F, 0x00, 0x09, 0xA0, 0x19, 0x02, 0x00, 0x00, 0x00];
    assert_eq!(decode_sensor_block(&block), Err(Cat063DecodeError::MissingItem(4)));
}

#[test]
fn unknown_frn_is_reported() {
    // FSPEC FRN 2.
    let block = vec![0x3F, 0x00, 0x05, 0x40, 0x00];
    assert_eq!(decode_sensor_block(&block), Err(Cat063DecodeError::UnknownFrn(2)));
}

#[test]
fn sensor_block_len_shorter_than_the_input_is_a_length_mismatch() {
    assert_eq!(
        decode_sensor_block(&[0x3F, 0x00, 0x03, 0x00]),
        Err(Cat063DecodeError::LengthMismatch { declared: 3, actual: 4 })
    );
    assert_eq!(decode_sensor_block(&[0x3F, 0x00, 0x03]), Ok(vec![]));
}
