use firefly::cat020::{decode_mlat_reports, Cat020DecodeError, CATEGORY};
use firefly::plot::Callsign;

const TICKS_PER_SECOND: f64 = 128.0;
const POSITION_LSB_DEGREES: f64 = 180.0 / 33_554_432.0;
const FLIGHT_LEVEL_LSB_FT: f64 = 25.0;
const GEOMETRIC_HEIGHT_LSB_FT: f64 = 6.25;
const SDP_SIGMA_LSB_M: f64 = 0.25;

fn block(records: &[u8]) -> Vec<u8> {
    let mut out = vec![CATEGORY, 0x00, (3 + records.len()) as u8];
    out.extend_from_slice(records);
    out
}

#[test]
fn cat020_airborne_report_matches_reference_vector() {
    let bytes = block(&[
        0xF1, 0x88, 0x19, 0x0A, 0x41, 0x00, 0x07, 0x08, 0x00, 0x00, 0x80, 0x00, 0x00, 0x00, 0x20,
        0x00, 0x00, 0x02, 0x8B, 0x3C, 0x65, 0x89,
    ]);
    let reports = decode_mlat_reports(&bytes).expect("decodes");
    assert_eq!(reports.len(), 1);
    let r = reports[0];
    assert_eq!((r.sac, r.sic), (25, 10));
    assert_eq!(r.time_ticks.map(|t| t as f64 / TICKS_PER_SECOND), Some(3600.0));
    let (lat, lon) = r.position.expect("position");
    assert!((lat as f64 * POSITION_LSB_DEGREES - 45.0).abs() < 1e-6);
    assert!((lon as f64 * POSITION_LSB_DEGREES - 11.25).abs() < 1e-6);
    assert_eq!(r.mode_3a, Some(0o1213));
    assert_eq!(r.icao_address, Some(0x3C_6589));
    assert!(!r.ground_bit && !r.simulated_or_test && !r.field_monitor);
}

#[test]
fn position_accuracy_yields_sigma() {
    let bytes = block(&[
        0x81, 0x01, 0x08, 0x19, 0x0A, 0xE0, 0xAA, 0xBB, 0xCC, 0xDD, 0xEE, 0xFF, 0x00, 0x50, 0x00,
        0xC8, 0x00, 0x00, 0x12, 0x34,
    ]);
    let reports = decode_mlat_reports(&bytes).expect("decodes");
    assert_eq!(reports[0].sigma_pos.map(|s| s as f64 * SDP_SIGMA_LSB_M), Some(50.0), "max(20, 50)");

    let no_sdp = block(&[0x81, 0x01, 0x08, 0x19, 0x0A, 0x20, 0x12, 0x34]);
    assert_eq!(decode_mlat_reports(&no_sdp).expect("decodes")[0].sigma_pos, None);

    let bad_spec = block(&[0x81, 0x01, 0x08, 0x19, 0x0A, 0x41]);
    assert_eq!(decode_mlat_reports(&bad_spec).unwrap_err(), Cat020DecodeError::UnknownItem(19));
}

#[test]
fn identity_altitude_and_flags_decode() {
    let bytes = block(&[
        0xC5, 0x25, 0x80, 0x19, 0x0A, 0x41, 0x52, 0x00, 0x2A, 0x05, 0x78, 0x00, 0x10, 0xC2, 0x31,
        0xCB, 0x38, 0x20, 0x06, 0x40,
    ]);
    let reports = decode_mlat_reports(&bytes).expect("decodes");
    let r = reports[0];
    assert_eq!(r.track_number, Some(42));
    assert_eq!(r.flight_level.map(|l| l as f64 * FLIGHT_LEVEL_LSB_FT), Some(35_000.0));
    assert_eq!(r.geometric_height.map(|h| h as f64 * GEOMETRIC_HEIGHT_LSB_FT), Some(10_000.0));
    assert_eq!(r.callsign, Some(Callsign::new("DLH123")));
    assert!(r.spi && r.ground_bit && r.simulated_or_test);
    assert!(!r.field_monitor);
}

#[test]
fn cat020_skips_unused_items_length_correctly() {
    let bytes = block(&[
        0x89, 0x41, 0x06, 0x19, 0x0A, 0x01, 0x02, 0x03, 0x04, 0x05, 0x06, 0xAA, 0xBB, 0xCC, 0xDD,
        0x02, 0x11, 0x22, 0x01, 0xDE, 0xAD, 0xBE, 0xEF, 0x00, 0x11, 0x22, 0x40, 0x80, 0x19, 0x0A,
    ]);
    let reports = decode_mlat_reports(&bytes).expect("decodes");
    assert_eq!(reports.len(), 2, "skip kept the stream in sync");
    assert_eq!((reports[1].sac, reports[1].sic), (25, 10));
}

#[test]
fn unknown_frn_is_rejected() {
    let bytes = block(&[0x81, 0x01, 0x01, 0x01, 0x80, 0x19, 0x0A]);
    assert_eq!(decode_mlat_reports(&bytes).unwrap_err(), Cat020DecodeError::UnknownItem(29));
}

#[test]
fn cat020_malformed_input_is_rejected_not_panicked() {
    assert_eq!(decode_mlat_reports(&[21, 0x00, 0x03]).unwrap_err(), Cat020DecodeError::WrongCategory(21));
    assert_eq!(
        decode_mlat_reports(&[CATEGORY, 0xFF, 0xFF, 0x00]).unwrap_err(),
        Cat020DecodeError::LengthMismatch { declared: 0xFFFF, actual: 4 }
    );
    let bytes = block(&[
        0xF1, 0x88, 0x19, 0x0A, 0x41, 0x00, 0x07, 0x08, 0x00, 0x00, 0x80, 0x00, 0x00, 0x00, 0x20,
        0x00, 0x00, 0x02, 0x8B, 0x3C, 0x65, 0x89,
    ]);
    for cut in 0..bytes.len() {
        let mut shortened = bytes[..cut].to_vec();
        if shortened.len() >= 3 {
            shortened[1] = 0;
            shortened[2] = shortened.len() as u8;
        }
        let _ = decode_mlat_reports(&shortened);
    }
    let mut hostile = vec![CATEGORY, 0x00, 63];
    hostile.extend_from_slice(&[0xFF; 60]);
    assert_eq!(decode_mlat_reports(&hostile).unwrap_err(), Cat020DecodeError::FspecTooLong);
}
