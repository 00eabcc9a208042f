use firefly::cat062::{
    decode_data_block, encode_accuracies, encode_block, encode_cartesian_component,
    encode_mode_3a, encode_position, encode_record, encode_target_address, encode_time_of_track,
    encode_track_number, encode_track_status, encode_update_ages, encode_velocity, saturate_u8,
    DataSourceId, DecodeError, DecodedRecord,
};

/// The reference track in LSB units: 45° = 2²⁵/4 steps, 11.25° = 2²⁵/16
/// steps; 100 m/s = 400 steps, −50 m/s = −200 steps; age 2 s = 8
/// quarter-seconds; uncertainty 100 m = 200 half-metres; at the system
/// reference point, so X = Y = 0; time 12 s = 1536 ticks.
fn track(id: u16) -> DecodedRecord {
    DecodedRecord {
        source: DataSourceId::new(0x19, 0x02),
        time_ticks: 1536,
        latitude: 0x0080_0000,
        longitude: 0x0020_0000,
        x: 0,
        y: 0,
        v_east: 400,
        v_north: -200,
        track_number: id,
        confirmed: true,
        coasting: false,
        update_age: 8,
        position_uncertainty: 200,
        mode_3a: None,
        icao_address: None,
    }
}

#[test]
fn time_of_track_scales_to_128th_seconds() {
    assert_eq!(encode_time_of_track(12 * 128), vec![0x00, 0x06, 0x00]);
    assert_eq!(encode_time_of_track(1), vec![0x00, 0x00, 0x01]);
}

#[test]
fn track_number_is_big_endian_u16() {
    assert_eq!(encode_track_number(0x1234), vec![0x12, 0x34]);
}

#[test]
fn position_scales_to_wgs84_lsb_and_signs_via_twos_complement() {
    assert_eq!(
        encode_position(0x0080_0000, 0x0020_0000),
        vec![0x00, 0x80, 0x00, 0x00, 0x00, 0x20, 0x00, 0x00]
    );
    assert_eq!(
        encode_position(-0x0080_0000, -0x0020_0000),
        vec![0xFF, 0x80, 0x00, 0x00, 0xFF, 0xE0, 0x00, 0x00]
    );
}

#[test]
fn cartesian_component_scales_to_half_metre_and_signs_via_twos_complement() {
    assert_eq!(encode_cartesian_component(2000), vec![0x00, 0x07, 0xD0]);
    assert_eq!(encode_cartesian_component(-2000), vec![0xFF, 0xF8, 0x30]);
    assert_eq!(encode_cartesian_component(2_000_000_000), vec![0x7F, 0xFF, 0xFF]);
    assert_eq!(encode_cartesian_component(-2_000_000_000), vec![0x80, 0x00, 0x00]);
}

#[test]
fn velocity_scales_to_quarter_mps_and_signs_via_twos_complement() {
    assert_eq!(encode_velocity(400, -200), vec![0x01, 0x90, 0xFF, 0x38]);
}

#[test]
fn mode_3a_carries_the_octal_reply_in_low_twelve_bits() {
    assert_eq!(encode_mode_3a(0o2613), vec![0x05, 0x8B]);
    assert_eq!(encode_mode_3a(0o7777), vec![0x0F, 0xFF]);
    assert_eq!(encode_mode_3a(0xF000 | 0o1234), encode_mode_3a(0o1234));
}

#[test]
fn target_address_uses_adr_subfield_with_24_bit_address() {
    assert_eq!(encode_target_address(0x3C_65_AC), vec![0x80, 0x3C, 0x65, 0xAC]);
}

#[test]
fn identity_items_appear_only_when_present() {
    let frn9_bit = 0x40;
    let frn11_bit = 0x10;
    let plain = encode_block(&[track(1)]);
    assert_eq!(plain[3], 0x9F, "octet 1 unchanged by identity");
    assert_eq!(plain[4], 0x0F, "no identity → FRN 9 and 11 absent");

    let mut t = track(1);
    t.mode_3a = Some(0o2613);
    t.icao_address = Some(0x3C_65_AC);
    let block = encode_block(&[t]);
    assert_eq!(block[3], 0x9F, "octet 1 still unchanged");
    assert_eq!(block[4], 0x0F | frn9_bit | frn11_bit, "FRN 9 and 11 present");

    let mode_3a = encode_mode_3a(0o2613);
    let address = encode_target_address(0x3C_65_AC);
    let velocity = [0x01, 0x90, 0xFF, 0x38];
    let needle: Vec<u8> = velocity
        .iter()
        .chain(mode_3a.iter())
        .chain(address.iter())
        .copied()
        .collect();
    assert!(block.windows(needle.len()).any(|w| w == needle.as_slice()));
}

#[test]
fn track_status_carries_cnf_and_extends_for_cst() {
    assert_eq!(encode_track_status(true, false), vec![0x00], "confirmed, fresh");
    assert_eq!(encode_track_status(false, false), vec![0x02], "tentative, fresh");
    assert_eq!(encode_track_status(true, true), vec![0x01, 0x01, 0x01, 0x80]);
    assert_eq!(encode_track_status(false, true), vec![0x03, 0x01, 0x01, 0x80]);
}

#[test]
fn update_ages_use_psr_subfield_in_quarter_seconds() {
    assert_eq!(encode_update_ages(8), vec![0x40, 0x08]);
    // 1000 s is 4000 quarter-seconds: saturates into one octet.
    assert_eq!(encode_update_ages(saturate_u8(4000)), vec![0x40, 0xFF]);
}

#[test]
fn accuracies_use_apc_subfield_in_half_metres() {
    assert_eq!(encode_accuracies(200), vec![0x80, 0x00, 0xC8, 0x00, 0xC8]);
}

#[test]
fn single_track_matches_reference_dump() {
    let block = encode_block(&[track(1)]);
    let expected = vec![
        0x3E, 0x00, 0x27, // CAT 62, LEN = 39
        0x9F, 0x0F, 0x40, // FSPEC {1, 4, 5, 6, 7, 12, 13, 14, 16}
        0x19, 0x02, // I062/010
        0x00, 0x06, 0x00, // I062/070
        0x00, 0x80, 0x00, 0x00, // latitude
        0x00, 0x20, 0x00, 0x00, // longitude
        0x00, 0x00, 0x00, 0x00, 0x00, 0x00, // I062/100
        0x01, 0x90, 0xFF, 0x38, // I062/185
        0x00, 0x01, // I062/040
        0x00, // I062/080
        0x40, 0x08, // I062/290
        0x80, 0x00, 0xC8, 0x00, 0xC8, // I062/500
    ];
    assert_eq!(block, expected);
    assert_eq!(encode_record(&track(1)), expected[3..].to_vec());
}

#[test]
fn length_field_covers_all_records() {
    let block = encode_block(&[track(1), track(2)]);
    assert_eq!(block[0], 0x3E, "category");
    let len = u16::from_be_bytes([block[1], block[2]]) as usize;
    assert_eq!(len, block.len());
    assert_eq!(len, 3 + 2 * 36);
}

#[test]
fn empty_scan_is_a_valid_empty_block() {
    assert_eq!(encode_block(&[]), vec![0x3E, 0x00, 0x03]);
}

#[test]
fn decode_inverts_encode_for_a_plain_track() {
    let block = encode_block(&[track(1)]);
    let records = decode_data_block(&block).unwrap();
    assert_eq!(records, vec![track(1)]);
    let r = &records[0];
    assert_eq!(r.source, DataSourceId::new(0x19, 0x02));
    assert_eq!(r.time_ticks, 1536);
    assert_eq!((r.v_east, r.v_north), (400, -200));
    assert!(r.confirmed && !r.coasting);
    assert_eq!(r.mode_3a, None);
    assert_eq!(r.icao_address, None);
}

#[test]
fn decode_recovers_identity_when_present() {
    let mut t = track(1);
    t.mode_3a = Some(0o2613);
    t.icao_address = Some(0x3C_65_AC);
    let records = decode_data_block(&encode_block(&[t])).unwrap();
    assert_eq!(records[0].mode_3a, Some(0o2613));
    assert_eq!(records[0].icao_address, Some(0x3C_65_AC));
}

#[test]
fn decode_recovers_status_for_tentative_coasting_track() {
    let mut t = track(1);
    t.confirmed = false;
    t.coasting = true;
    let records = decode_data_block(&encode_block(&[t])).unwrap();
    assert!(!records[0].confirmed);
    assert!(records[0].coasting);
}

#[test]
fn decode_handles_multiple_records() {
    let records = decode_data_block(&encode_block(&[track(1), track(2)])).unwrap();
    assert_eq!(records.len(), 2);
    assert_eq!(records[0].track_number, 1);
    assert_eq!(records[1].track_number, 2);
}

#[test]
fn decode_handles_empty_block() {
    assert_eq!(decode_data_block(&encode_block(&[])).unwrap(), vec![]);
}

#[test]
fn decode_rejects_malformed_input() {
    assert_eq!(decode_data_block(&[]), Err(DecodeError::Truncated));
    assert_eq!(decode_data_block(&[0x00, 0x00]), Err(DecodeError::Truncated));
    assert_eq!(decode_data_block(&[0x01, 0x00, 0x03]), Err(DecodeError::WrongCategory(0x01)));
    assert_eq!(
        decode_data_block(&[0x3E, 0x00, 0x05]),
        Err(DecodeError::LengthMismatch { declared: 5, actual: 3 })
    );
    let mut block = encode_block(&[track(1)]);
    let truncated_len = (block.len() - 1) as u16;
    block.truncate(block.len() - 1);
    block[1..3].copy_from_slice(&truncated_len.to_be_bytes());
    assert_eq!(decode_data_block(&block), Err(DecodeError::Truncated));
}

/// A record lacking a required item is rejected, naming the first one
/// missing in the decoder's check order (status before velocity).
#[test]
fn decode_reports_the_first_missing_item() {
    // FSPEC {1} only: status (FRN 13) is reported first.
    let block = [0x3E, 0x00, 0x06, 0x80, 0x19, 0x02];
    assert_eq!(decode_data_block(&block), Err(DecodeError::MissingItem(13)));
}

/// An FRN outside the encoder's UAP subset cannot be lengthed.
#[test]
fn decode_rejects_unknown_items() {
    // FSPEC {2}: I062/015 is not part of the decoded subset.
    let block = [0x3E, 0x00, 0x05, 0x40, 0x00];
    assert_eq!(decode_data_block(&block), Err(DecodeError::UnknownItem(2)));
}

/// A hostile FX chain is rejected rather than overflowing the FRN space.
#[test]
fn decode_rejects_overlong_fspec_chain() {
    let mut block = vec![0x3E, 0x00, 63];
    block.extend_from_slice(&[0xFF; 60]);
    assert_eq!(decode_data_block(&block), Err(DecodeError::FspecTooLong));
}

#[test]
fn track_status_round_trips_through_a_block_for_all_flags() {
    for (confirmed, coasting) in [(true, false), (false, false), (true, true), (false, true)] {
        let mut t = track(7);
        t.confirmed = confirmed;
        t.coasting = coasting;
        let records = decode_data_block(&encode_block(&[t])).unwrap();
        assert_eq!((records[0].confirmed, records[0].coasting), (confirmed, coasting));
    }
}

#[test]
fn decode_gives_the_written_fields_of_out_of_range_identity() {
    let mut t = track(3);
    t.mode_3a = Some(0o17777);
    t.icao_address = Some(0x1AB_CDEF);
    t.time_ticks = 0x0100_0010;
    let records = decode_data_block(&encode_block(&[t])).unwrap();
    assert_eq!(records[0].mode_3a, Some(0o7777));
    assert_eq!(records[0].icao_address, Some(0xAB_CDEF));
    assert_eq!(records[0].time_ticks, 0x10);
}
