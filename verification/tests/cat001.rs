use firefly::cat001::{decode_legacy_reports, Cat001DecodeError, CATEGORY};
use firefly::cat048::Detection;

const TICKS_PER_SECOND: f64 = 128.0;
const RHO_LSB_NM: f64 = 1.0 / 128.0;
const NM_TO_METRES: f64 = 1852.0;
const THETA_LSB_DEGREES: f64 = 360.0 / 65536.0;
const FLIGHT_LEVEL_LSB_FT: f64 = 25.0;

fn block(records: &[u8]) -> Vec<u8> {
    let mut out = vec![CATEGORY, 0x00, (3 + records.len()) as u8];
    out.extend_from_slice(records);
    out
}

#[test]
fn plot_record_matches_reference_vector() {
    let bytes = block(&[
        0xFA, 0x19, 0x07, 0x30, 0x32, 0x00, 0x40, 0x00, 0x02, 0x8B, 0x05, 0x78, 0x32, 0x00,
    ]);
    let reports = decode_legacy_reports(&bytes).expect("decodes");
    assert_eq!(reports.len(), 1);
    let r = reports[0];
    assert_eq!((r.sac, r.sic), (25, 7));
    assert_eq!(r.detection, Detection::SsrPsr);
    assert!(!r.simulated && !r.spi);
    let position = r.position.expect("position");
    assert!((position.rho as f64 * RHO_LSB_NM * NM_TO_METRES - 100.0 * NM_TO_METRES).abs() < 1e-6);
    assert!(
        ((position.theta as f64 * THETA_LSB_DEGREES).to_radians() - 90.0_f64.to_radians()).abs()
            < 1e-9
    );
    assert_eq!(r.mode_3a, Some(0o1213));
    assert_eq!(r.flight_level.map(|l| l as f64 * FLIGHT_LEVEL_LSB_FT), Some(35_000.0));
    assert_eq!(r.truncated_time_ticks.map(|t| t as f64 / TICKS_PER_SECOND), Some(100.0));
    assert_eq!(r.track_number, None, "plot UAP has no track number");
}

#[test]
fn track_record_reads_the_track_uap() {
    let bytes = block(&[
        0xF5, 0x40, 0x19, 0x07, 0xA0, 0x00, 0x2A, 0x32, 0x00, 0x40, 0x00, 0xAA, 0xBB, 0xCC, 0xDD,
        0x19, 0x00,
    ]);
    let reports = decode_legacy_reports(&bytes).expect("decodes");
    assert_eq!(reports.len(), 1);
    let r = reports[0];
    assert_eq!(r.detection, Detection::Ssr);
    assert_eq!(r.track_number, Some(42));
    assert!(r.position.is_some());
    assert_eq!(r.truncated_time_ticks.map(|t| t as f64 / TICKS_PER_SECOND), Some(50.0));
}

#[test]
fn typ_bit_selects_the_uap_per_record() {
    let bytes = block(&[
        0xE0, 0x19, 0x07, 0x10, 0x32, 0x00, 0x40, 0x00, 0xE0, 0x19, 0x07, 0xA0, 0x00, 0x2A,
    ]);
    let reports = decode_legacy_reports(&bytes).expect("decodes");
    assert_eq!(reports.len(), 2, "per-record UAP selection kept sync");
    assert!(reports[0].position.is_some());
    assert_eq!(reports[0].track_number, None);
    assert_eq!(reports[1].track_number, Some(42));
    assert!(reports[1].position.is_none());
}

#[test]
fn descriptor_flags_and_extension_decode() {
    let bytes = block(&[0xC0, 0x19, 0x07, 0x75, 0x00]);
    let reports = decode_legacy_reports(&bytes).expect("decodes");
    let r = reports[0];
    assert!(r.simulated);
    assert!(r.spi);
    assert_eq!(r.detection, Detection::SsrPsr);
}

#[test]
fn item_without_uap_selector_is_rejected() {
    let bytes = block(&[0xA0, 0x19, 0x07, 0x32, 0x00, 0x40, 0x00]);
    assert_eq!(decode_legacy_reports(&bytes), Err(Cat001DecodeError::MissingItem(2)));
}

#[test]
fn cat001_spare_and_rfs_frns_are_rejected() {
    let spare = block(&[0xC1, 0x01, 0x40, 0x19, 0x07, 0x10]);
    assert_eq!(decode_legacy_reports(&spare), Err(Cat001DecodeError::UnknownItem(16)));
    let rfs = block(&[0xC1, 0x01, 0x02, 0x19, 0x07, 0xA0]);
    assert_eq!(decode_legacy_reports(&rfs), Err(Cat001DecodeError::UnknownItem(21)));
}

#[test]
fn cat001_skips_unused_items_length_correctly() {
    let bytes = block(&[
        0xC5, 0x01, 0x04, 0x19, 0x07, 0x10, 0xA1, 0xA0, 0x03, 0xAA, 0xBB, 0xC0, 0x19, 0x07, 0x10,
    ]);
    let reports = decode_legacy_reports(&bytes).expect("decodes");
    assert_eq!(reports.len(), 2, "skip kept the stream in sync");
    assert_eq!(reports[1].detection, Detection::Psr);
}

#[test]
fn cat001_wrong_category_and_length_mismatch_are_rejected() {
    assert_eq!(decode_legacy_reports(&[48, 0x00, 0x03]), Err(Cat001DecodeError::WrongCategory(48)));
    assert_eq!(
        decode_legacy_reports(&[CATEGORY, 0xFF, 0xFF, 0x00]),
        Err(Cat001DecodeError::LengthMismatch { declared: 0xFFFF, actual: 4 })
    );
}

#[test]
fn cat001_truncations_never_panic() {
    let bytes = block(&[
        0xFA, 0x19, 0x07, 0x30, 0x32, 0x00, 0x40, 0x00, 0x02, 0x8B, 0x05, 0x78, 0x32, 0x00,
    ]);
    for cut in 0..bytes.len() {
        let mut shortened = bytes[..cut].to_vec();
        if shortened.len() >= 3 {
            shortened[1] = 0;
            shortened[2] = shortened.len() as u8;
        }
        let _ = decode_legacy_reports(&shortened);
    }
}

#[test]
fn cat001_overlong_fspec_chain_is_rejected_not_panicked() {
    let mut bytes = vec![CATEGORY, 0x00, 63];
    bytes.extend_from_slice(&[0xFF; 60]);
    assert_eq!(decode_legacy_reports(&bytes), Err(Cat001DecodeError::FspecTooLong));
}

#[test]
fn conversion_into_target_report_carries_fields() {
    let bytes = block(&[
        0xFA, 0x19, 0x07, 0x30, 0x32, 0x00, 0x40, 0x00, 0x02, 0x8B, 0x05, 0x78, 0x32, 0x00,
    ]);
    let legacy = decode_legacy_reports(&bytes).expect("decodes")[0];
    let report = legacy.into_target_report(Some((36_100.0 * TICKS_PER_SECOND) as u32));
    assert_eq!(report.time_ticks.map(|t| t as f64 / TICKS_PER_SECOND), Some(36_100.0));
    assert_eq!(report.detection, Detection::SsrPsr);
    assert_eq!(report.mode_3a, Some(0o1213));
    assert_eq!(report.flight_level.map(|l| l as f64 * FLIGHT_LEVEL_LSB_FT), Some(35_000.0));
    assert!(report.icao_address.is_none() && report.callsign.is_none());
    assert!(report.daps.is_empty());
    assert_eq!(report.position.map(|p| p.rho), Some(25_600));
}
