use firefly::cat021::{decode_adsb_reports, Cat021DecodeError, CATEGORY};
use firefly::plot::Callsign;

const TICKS_PER_SECOND: f64 = 128.0;
const POSITION_HIRES_LSB_DEGREES: f64 = 180.0 / 1_073_741_824.0;
const GEOMETRIC_HEIGHT_LSB_FT: f64 = 6.25;
const FLIGHT_LEVEL_LSB_FT: f64 = 25.0;

fn block(records: &[u8]) -> Vec<u8> {
    let mut out = vec![CATEGORY, 0x00, (3 + records.len()) as u8];
    out.extend_from_slice(records);
    out
}

fn degrees(position: (i32, i32)) -> (f64, f64) {
    (
        position.0 as f64 * POSITION_HIRES_LSB_DEGREES,
        position.1 as f64 * POSITION_HIRES_LSB_DEGREES,
    )
}

#[test]
fn cat021_airborne_report_matches_reference_vector() {
    let bytes = block(&[
        0x83, 0x18, 0x19, 0x0A, 0x10, 0x00, 0x00, 0x00, 0x04, 0x00, 0x00, 0x00, 0x3C, 0x65, 0x89,
        0x07, 0x08, 0x00,
    ]);
    let reports = decode_adsb_reports(&bytes).expect("decodes");
    assert_eq!(reports.len(), 1);
    let r = reports[0];
    assert_eq!((r.sac, r.sic), (25, 10));
    let (lat, lon) = degrees(r.position.expect("position present"));
    assert!((lat - 45.0).abs() < 1e-9 && (lon - 11.25).abs() < 1e-9);
    assert_eq!(r.icao_address, Some(0x3C_6589));
    assert_eq!(r.time_ticks.map(|t| t as f64 / TICKS_PER_SECOND), Some(3600.0));
    assert!(!r.ground_bit && !r.simulated_or_test);
    assert_eq!(r.nacp, None, "no quality item in this record");
}

#[test]
fn position_prefers_high_resolution_and_signs_via_twos_complement() {
    let bytes = block(&[0x84, 0x19, 0x0A, 0xE0, 0x00, 0x00, 0xF8, 0x00, 0x00]);
    let r = decode_adsb_reports(&bytes).expect("decodes")[0];
    let (lat, lon) = degrees(r.position.unwrap());
    assert!((lat - (-45.0)).abs() < 1e-9 && (lon - (-11.25)).abs() < 1e-9);

    let bytes = block(&[
        0x86, 0x19, 0x0A, 0xE0, 0x00, 0x00, 0xF8, 0x00, 0x00, 0x10, 0x00, 0x00, 0x00, 0x04, 0x00,
        0x00, 0x00,
    ]);
    let r = decode_adsb_reports(&bytes).expect("decodes")[0];
    let (lat, _) = degrees(r.position.unwrap());
    assert!((lat - 45.0).abs() < 1e-9, "hi-res wins");
}

#[test]
fn identity_quality_and_altitude_decode() {
    let bytes = block(&[
        0x81, 0x01, 0x6A, 0x19, 0x0A, 0x06, 0x40, 0x01, 0x2C, 0x02, 0x8B, 0x05, 0x78,
    ]);
    let r = decode_adsb_reports(&bytes).expect("decodes")[0];
    assert_eq!(r.geometric_height.map(|h| h as f64 * GEOMETRIC_HEIGHT_LSB_FT), Some(10_000.0));
    assert_eq!(r.nacp, Some(11));
    assert_eq!(r.mode_3a, Some(0o1213));
    assert_eq!(r.flight_level.map(|l| l as f64 * FLIGHT_LEVEL_LSB_FT), Some(35_000.0));
}

#[test]
fn target_identification_decodes_callsign() {
    let bytes = block(&[
        0x81, 0x01, 0x01, 0x01, 0x80, 0x19, 0x0A, 0x10, 0xC2, 0x31, 0xCB, 0x38, 0x20,
    ]);
    let r = decode_adsb_reports(&bytes).expect("decodes")[0];
    assert_eq!(r.callsign, Some(Callsign::new("DLH123")));
}

#[test]
fn report_descriptor_flags_ground_and_test_targets() {
    let ground = block(&[0xC0, 0x19, 0x0A, 0x01, 0x40]);
    let r = decode_adsb_reports(&ground).expect("decodes")[0];
    assert!(r.ground_bit && !r.simulated_or_test);

    let test_target = block(&[0xC0, 0x19, 0x0A, 0x01, 0x10]);
    let r = decode_adsb_reports(&test_target).expect("decodes")[0];
    assert!(!r.ground_bit && r.simulated_or_test);

    let plain = block(&[0xC0, 0x19, 0x0A, 0x00]);
    let r = decode_adsb_reports(&plain).expect("decodes")[0];
    assert!(!r.ground_bit && !r.simulated_or_test);
}

#[test]
fn cat021_skips_unused_standard_items_length_correctly() {
    let mut rec = vec![0x81, 0x01, 0x01, 0x01, 0x25, 0x03, 0x04, 0x19, 0x0A];
    rec.extend_from_slice(&[0xA0, 0x01, 0x02, 0x03, 0x04]);
    rec.extend_from_slice(&[0xC0, 0x01, 0x00, 0x01]);
    rec.extend_from_slice(&[0u8; 15]);
    rec.extend_from_slice(&[0x81, 0x60, 0x11, 0x22, 0x33]);
    rec.extend_from_slice(&[0x03, 0xEE, 0xFF]);
    rec.extend_from_slice(&[0x80, 0x19, 0x0B]);
    let reports = decode_adsb_reports(&block(&rec)).expect("decodes");
    assert_eq!(reports.len(), 2, "compound skips kept the stream in sync");
    assert_eq!(reports[1].sic, 0x0B);
}

#[test]
fn cat021_malformed_input_is_rejected_not_panicked() {
    let no_identity = block(&[0x40, 0x01, 0x00]);
    assert_eq!(decode_adsb_reports(&no_identity).unwrap_err(), Cat021DecodeError::MissingItem(1));
    assert_eq!(decode_adsb_reports(&[48, 0x00, 0x03]).unwrap_err(), Cat021DecodeError::WrongCategory(48));
    assert_eq!(
        decode_adsb_reports(&[CATEGORY, 0xFF, 0xFF, 0x00]).unwrap_err(),
        Cat021DecodeError::LengthMismatch { declared: 0xFFFF, actual: 4 }
    );
    let valid = block(&[
        0x83, 0x18, 0x19, 0x0A, 0x10, 0x00, 0x00, 0x00, 0x04, 0x00, 0x00, 0x00, 0x3C, 0x65, 0x89,
        0x07, 0x08, 0x00,
    ]);
    for cut in 0..valid.len() {
        let mut shortened = valid[..cut].to_vec();
        if shortened.len() >= 3 {
            shortened[1] = 0;
            shortened[2] = shortened.len() as u8;
        }
        let _ = decode_adsb_reports(&shortened);
    }
}

#[test]
fn spare_frn_is_rejected() {
    let bytes = block(&[0x81, 0x01, 0x01, 0x01, 0x01, 0x01, 0x80, 0x19, 0x0A, 0x00]);
    assert_eq!(decode_adsb_reports(&bytes).unwrap_err(), Cat021DecodeError::UnknownItem(43));
}

#[test]
fn cat021_overlong_fspec_chain_is_rejected_not_panicked() {
    let mut bytes = vec![CATEGORY, 0x00, 63];
    bytes.extend_from_slice(&[0xFF; 60]);
    assert_eq!(decode_adsb_reports(&bytes).unwrap_err(), Cat021DecodeError::FspecTooLong);
}

#[test]
fn data_ages_longer_than_four_octets_are_truncated() {
    // FSPEC {1, 42}: octet 6 (36..42) bit 0x02; ages chain of five FX octets.
    let bytes = block(&[
        0x81, 0x01, 0x01, 0x01, 0x01, 0x02, 0x19, 0x0A, 0x01, 0x01, 0x01, 0x01, 0x00,
    ]);
    assert_eq!(decode_adsb_reports(&bytes).unwrap_err(), Cat021DecodeError::Truncated);
}

#[test]
fn time_falls_back_to_applicability_then_transmission() {
    // FSPEC {1, 5}: applicability only.
    let bytes = block(&[0x88, 0x19, 0x0A, 0x00, 0x01, 0x00]);
    assert_eq!(decode_adsb_reports(&bytes).expect("decodes")[0].time_ticks, Some(256));
    // FSPEC {1, 28}: transmission only (octet 4: FRN 22..28, bit 0x02).
    let bytes = block(&[0x81, 0x01, 0x01, 0x02, 0x19, 0x0A, 0x00, 0x00, 0x80]);
    assert_eq!(decode_adsb_reports(&bytes).expect("decodes")[0].time_ticks, Some(128));
}

#[test]
fn airborne_report_with_time_and_position_makes_a_fix() {
    let bytes = block(&[
        0x83, 0x18, 0x19, 0x0A, 0x10, 0x00, 0x00, 0x00, 0x04, 0x00, 0x00, 0x00, 0x3C, 0x65, 0x89,
        0x07, 0x08, 0x00,
    ]);
    let r = decode_adsb_reports(&bytes).expect("decodes")[0];
    let (ticks, position) = r.plot_fix().expect("airborne with time and position");
    assert_eq!(ticks, 3600 * 128);
    assert_eq!(Some(position), r.position);
}

#[test]
fn ground_test_or_incomplete_reports_make_no_fix() {
    let ground = block(&[0xC0, 0x19, 0x0A, 0x01, 0x40]);
    assert_eq!(decode_adsb_reports(&ground).expect("decodes")[0].plot_fix(), None);
    let test_target = block(&[0xC0, 0x19, 0x0A, 0x01, 0x10]);
    assert_eq!(decode_adsb_reports(&test_target).expect("decodes")[0].plot_fix(), None);
    // Position but no time.
    let no_time = block(&[0x84, 0x19, 0x0A, 0xE0, 0x00, 0x00, 0xF8, 0x00, 0x00]);
    assert_eq!(decode_adsb_reports(&no_time).expect("decodes")[0].plot_fix(), None);
}
