use firefly::cat048::{
    decode_flight_level, decode_target_reports, item_format, Cat048DecodeError, Detection,
    CATEGORY, TRACK_NUMBER_MASK, TRD_SPI,
};
use firefly::plot::Callsign;

const RHO_LSB_NM: f64 = 1.0 / 256.0;
const NM_TO_METRES: f64 = 1852.0;
const THETA_LSB_DEGREES: f64 = 360.0 / 65536.0;
const FLIGHT_LEVEL_LSB_FT: f64 = 25.0;
const TICKS_PER_SECOND: f64 = 128.0;

fn reference_block() -> Vec<u8> {
    let record = [
        0xFD, 0xC0, // FSPEC: FRN 1-6, 8, 9
        0x19, 0x02, // I048/010 SAC/SIC
        0x00, 0x06, 0x00, // I048/140 ToD: 1536 ticks = 12 s
        0x60, // I048/020 TYP=011 (SSR+PSR), no FX
        0x64, 0x00, 0x40, 0x00, // I048/040 RHO=25600 (100 NM), THETA=16384 (90°)
        0x02, 0x80, // I048/070 Mode-3/A = 0o1200
        0x05, 0x78, // I048/090 FL = 1400 quarter-FL = FL350
        0x3C, 0x65, 0x89, // I048/220 ICAO 0x3C6589
        0x10, 0xC2, 0x31, 0xCB, 0x38, 0x20, // I048/240 "DLH123  "
    ];
    let mut block = vec![CATEGORY, 0x00, (3 + record.len()) as u8];
    block.extend_from_slice(&record);
    block
}

#[test]
fn reference_block_decodes_all_fields() {
    let reports = decode_target_reports(&reference_block()).expect("decodes");
    assert_eq!(reports.len(), 1);
    let r = &reports[0];
    assert_eq!((r.sac, r.sic), (0x19, 0x02));
    assert_eq!(r.time_ticks.map(|t| t as f64 / TICKS_PER_SECOND), Some(12.0));
    assert_eq!(r.detection, Detection::SsrPsr);
    assert!(r.detection.has_primary() && r.detection.has_secondary());
    assert!(!r.detection.is_mode_s());
    let polar = r.position.expect("measured position present");
    assert!((polar.rho as f64 * RHO_LSB_NM * NM_TO_METRES - 100.0 * NM_TO_METRES).abs() < 1e-6);
    assert!((polar.theta as f64 * THETA_LSB_DEGREES - 90.0).abs() < 1e-6);
    assert_eq!(r.mode_3a, Some(0o1200));
    assert_eq!(r.flight_level.map(|l| l as f64 * FLIGHT_LEVEL_LSB_FT), Some(35_000.0));
    assert_eq!(r.icao_address, Some(0x3C_6589));
    assert_eq!(r.callsign, Some(Callsign::new("DLH123")));
}

#[test]
fn target_report_descriptor_typ_maps_to_detection() {
    let cases = [
        (0b000, Detection::NoDetection, false, false, false),
        (0b001, Detection::Psr, true, false, false),
        (0b010, Detection::Ssr, false, true, false),
        (0b011, Detection::SsrPsr, true, true, false),
        (0b100, Detection::ModeSAllCall, false, true, true),
        (0b101, Detection::ModeSRollCall, false, true, true),
        (0b110, Detection::ModeSAllCallPsr, true, true, true),
        (0b111, Detection::ModeSRollCallPsr, true, true, true),
    ];
    for (typ, want, prim, sec, modes) in cases {
        let d = Detection::from_typ(typ);
        assert_eq!(d, want, "TYP {typ:03b}");
        assert_eq!(d.has_primary(), prim, "primary for {want:?}");
        assert_eq!(d.has_secondary(), sec, "secondary for {want:?}");
        assert_eq!(d.is_mode_s(), modes, "mode-s for {want:?}");
    }
}

#[test]
fn mode_s_mb_data_decodes_and_merges_ehs_daps() {
    let record = [
        0x81, 0x20, // FSPEC {1, 10}
        0x19, 0x02, // I048/010
        0x03, // I048/250 REP=3
        0xC4, 0x60, 0x00, 0x00, 0x00, 0x00, 0x00, 0x40, // BDS 4,0
        0xFF, 0xFF, 0xFF, 0xFF, 0xFF, 0xFF, 0xFF, 0x10, // BDS 1,0 (ignored)
        0xE0, 0x09, 0xF5, 0x30, 0xFF, 0x00, 0x00, 0x60, // BDS 6,0
    ];
    let mut block = vec![CATEGORY, 0x00, (3 + record.len()) as u8];
    block.extend_from_slice(&record);

    let reports = decode_target_reports(&block).expect("decodes");
    assert_eq!(reports.len(), 1);
    let daps = reports[0].daps;
    assert_eq!(daps.selected_altitude.map(|v| v as f64 * 16.0), Some(35_008.0));
    assert_eq!(
        daps.magnetic_heading.map(|v| (v as f64 * 90.0 / 512.0).rem_euclid(360.0)),
        Some(270.0)
    );
    assert_eq!(daps.ias.map(|v| v as f64), Some(250.0));
    assert!((daps.mach.unwrap() as f64 * 2.048 / 512.0 - 0.78).abs() < 1e-9);
    assert_eq!(daps.barometric_vertical_rate.map(|v| v as f64 * 32.0), Some(-1024.0));
    assert!(daps.roll_angle.is_none(), "no BDS 5,0 in this report");
}

#[test]
fn flight_level_decodes_negative_via_twos_complement() {
    assert_eq!(decode_flight_level(&[0x3F, 0xD8]) as f64 * FLIGHT_LEVEL_LSB_FT, -1000.0);
    assert_eq!(decode_flight_level(&[0xC5, 0x78]) as f64 * FLIGHT_LEVEL_LSB_FT, 35_000.0);
}

#[test]
fn cat048_skips_unused_standard_items_length_correctly() {
    let record = [
        0x91, 0x12, // FSPEC {1,4,11,14}
        0x19, 0x02, // I048/010
        0x64, 0x00, 0x40, 0x00, // I048/040
        0x0A, 0xBC, // I048/161
        0x81, 0x00, // I048/170
    ];
    let mut block = vec![CATEGORY, 0x00, (3 + record.len()) as u8];
    block.extend_from_slice(&record);

    let reports = decode_target_reports(&block).expect("decodes");
    assert_eq!(reports.len(), 1);
    assert_eq!(reports[0].track_number, Some(0x0ABC & TRACK_NUMBER_MASK));
    assert!(reports[0].position.is_some(), "I048/040 decoded past the skip");
}

#[test]
fn cat048_wrong_category_is_rejected() {
    let mut block = reference_block();
    block[0] = 62;
    assert_eq!(decode_target_reports(&block).unwrap_err(), Cat048DecodeError::WrongCategory(62));
}

#[test]
fn length_mismatch_is_rejected() {
    let mut block = reference_block();
    let actual = block.len();
    block[2] = block[2].wrapping_add(2);
    assert_eq!(
        decode_target_reports(&block).unwrap_err(),
        Cat048DecodeError::LengthMismatch { declared: actual + 2, actual }
    );
}

#[test]
fn every_standard_frn_has_a_format() {
    for frn in 1..=28u8 {
        assert!(item_format(frn).is_some(), "FRN {frn} must have a format");
    }
    assert!(item_format(29).is_none(), "FRN 29 is outside the UAP");
}

#[test]
fn cat048_truncations_never_panic() {
    let full = reference_block();
    for n in 0..full.len() {
        let mut prefix = full[..n].to_vec();
        let _ = decode_target_reports(&prefix);
        if prefix.len() >= 3 {
            let len = prefix.len() as u16;
            prefix[1..3].copy_from_slice(&len.to_be_bytes());
            let _ = decode_target_reports(&prefix);
        }
    }
}

#[test]
fn single_byte_mutations_never_panic() {
    let base = reference_block();
    for i in 0..base.len() {
        for delta in 1u8..=255 {
            let mut m = base.clone();
            m[i] = m[i].wrapping_add(delta);
            let len = m.len() as u16;
            m[1..3].copy_from_slice(&len.to_be_bytes());
            let _ = decode_target_reports(&m);
        }
    }
}

#[test]
fn spi_bit_of_target_report_descriptor_is_decoded() {
    let block = reference_block();
    assert!(!decode_target_reports(&block).unwrap()[0].spi);
    let mut with_spi = block;
    with_spi[10] |= TRD_SPI;
    assert!(decode_target_reports(&with_spi).unwrap()[0].spi);
}

#[test]
fn cat048_overlong_fspec_chain_is_rejected_not_panicked() {
    let mut block = vec![CATEGORY, 0x00, 63];
    block.extend_from_slice(&[0xFF; 60]);
    assert_eq!(decode_target_reports(&block).unwrap_err(), Cat048DecodeError::FspecTooLong);
}

#[test]
fn fspec_ending_in_fx_is_truncated() {
    let block = vec![CATEGORY, 0x00, 0x04, 0x81];
    assert_eq!(decode_target_reports(&block).unwrap_err(), Cat048DecodeError::Truncated);
}

#[test]
fn missing_data_source_is_reported() {
    // FSPEC {2}: only the time of day.
    let block = vec![CATEGORY, 0x00, 0x07, 0x40, 0x00, 0x06, 0x00];
    assert_eq!(decode_target_reports(&block).unwrap_err(), Cat048DecodeError::MissingItem(1));
}

#[test]
fn compound_and_explicit_items_are_skipped() {
    // FSPEC {1, 7} then {20} then {27}:
    // octet 1: FRN1 0x80 | FRN7 0x02 | FX = 0x83
    // octet 2: FX = 0x01; octet 3: FRN20 (position 5 → 0x04) | FX = 0x05
    // octet 4: FRN27 (position 5 → 0x04) = 0x04
    let record = [
        0x83, 0x01, 0x05, 0x04, // FSPEC
        0x19, 0x02, // I048/010
        0xA0, 0xAA, 0xBB, // I048/130: primary 0xA0 (two subfields), two octets
        0xC0, 0x01, 0x02, 0x01, 1, 2, 3, 4, 5, 6, // I048/120: CAL + RDS REP=1
        0x03, 0xEE, 0xFF, // I048/SP: length 3
    ];
    let mut block = vec![CATEGORY, 0x00, (3 + record.len()) as u8];
    block.extend_from_slice(&record);
    let reports = decode_target_reports(&block).expect("decodes");
    assert_eq!(reports.len(), 1);
    assert_eq!((reports[0].sac, reports[0].sic), (0x19, 0x02));
    assert_eq!(reports[0].detection, Detection::NoDetection);
}
