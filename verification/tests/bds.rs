use firefly::bds::{bit_field, decode_register, signed_bit_field, RawDaps};

/// Build a 7-byte MB field from 1-based (bit, len, value) writes.
fn mb(fields: &[(usize, usize, u32)]) -> [u8; 7] {
    let mut out = [0u8; 7];
    for &(start, len, value) in fields {
        for i in 0..len {
            let bit = start + i;
            let byte = (bit - 1) / 8;
            let shift = 7 - ((bit - 1) % 8);
            let v = (value >> (len - 1 - i)) & 1;
            out[byte] |= (v as u8) << shift;
        }
    }
    out
}

const SELECTED_ALTITUDE_LSB_FT: f64 = 16.0;
const ROLL_LSB_DEG: f64 = 45.0 / 256.0;
const ANGLE_LSB_DEG: f64 = 90.0 / 512.0;
const SPEED_LSB_KT: f64 = 2.0;
const MACH_LSB: f64 = 2.048 / 512.0;
const VERTICAL_RATE_LSB_FT_MIN: f64 = 32.0;

fn wrap_degrees(deg: f64) -> f64 {
    deg.rem_euclid(360.0)
}

#[test]
fn bds_4_0_decodes_selected_altitude() {
    let field = mb(&[(1, 1, 1), (2, 12, 2188)]);
    let daps = decode_register(0x40, &field);
    assert_eq!(daps.selected_altitude.map(|v| v as f64 * SELECTED_ALTITUDE_LSB_FT), Some(35_008.0));
    assert!(daps.magnetic_heading.is_none());
}

#[test]
fn cleared_status_bit_yields_none() {
    let field = mb(&[(2, 12, 2188)]);
    assert_eq!(decode_register(0x40, &field).selected_altitude, None);

    let field = mb(&[(1, 1, 1), (2, 11, 512), (14, 10, 250)]);
    let daps = decode_register(0x60, &field);
    assert!(daps.magnetic_heading.is_some());
    assert_eq!(daps.ias, None, "status bit 13 is clear");
}

#[test]
fn bds_5_0_decodes_track_and_turn() {
    let field = mb(&[
        (1, 1, 1),
        (2, 10, 910),
        (12, 1, 1),
        (13, 11, 512),
        (24, 1, 1),
        (25, 10, 220),
        (46, 1, 1),
        (47, 10, 230),
    ]);
    let daps = decode_register(0x50, &field);
    let roll = daps.roll_angle.unwrap() as f64 * ROLL_LSB_DEG;
    assert!((roll - (-114.0 * 45.0 / 256.0)).abs() < 1e-9);
    assert!((roll - (-20.0)).abs() < 0.1);
    assert_eq!(daps.true_track.map(|v| wrap_degrees(v as f64 * ANGLE_LSB_DEG)), Some(90.0));
    assert_eq!(daps.ground_speed.map(|v| v as f64 * SPEED_LSB_KT), Some(440.0));
    assert_eq!(daps.true_airspeed.map(|v| v as f64 * SPEED_LSB_KT), Some(460.0));
}

#[test]
fn bds_6_0_decodes_heading_and_speed() {
    let field = mb(&[
        (1, 1, 1),
        (2, 11, 1536),
        (13, 1, 1),
        (14, 10, 250),
        (24, 1, 1),
        (25, 10, 195),
        (35, 1, 1),
        (36, 10, 992),
    ]);
    let daps = decode_register(0x60, &field);
    assert_eq!(daps.magnetic_heading.map(|v| wrap_degrees(v as f64 * ANGLE_LSB_DEG)), Some(270.0));
    assert_eq!(daps.ias.map(|v| v as f64), Some(250.0));
    assert!((daps.mach.unwrap() as f64 * MACH_LSB - 0.78).abs() < 1e-9);
    assert_eq!(
        daps.barometric_vertical_rate.map(|v| v as f64 * VERTICAL_RATE_LSB_FT_MIN),
        Some(-1024.0)
    );
}

#[test]
fn unknown_register_yields_empty_daps() {
    let field = mb(&[(1, 1, 1), (2, 12, 2188)]);
    assert!(decode_register(0x30, &field).is_empty());
    assert!(decode_register(0x00, &field).is_empty());
}

#[test]
fn bit_fields_read_msb_first() {
    let bytes = [0b1010_0000u8, 0xFF];
    assert_eq!(bit_field(&bytes, 1, 3), 0b101);
    assert_eq!(bit_field(&bytes, 8, 2), 0b01);
    assert_eq!(bit_field(&bytes, 9, 8), 0xFF);
    assert_eq!(signed_bit_field(&bytes, 1, 3), -3);
    assert_eq!(signed_bit_field(&bytes, 2, 3), 2);
}

#[test]
fn merge_keeps_older_fields_the_newer_lacks() {
    let mut older = decode_register(0x40, &mb(&[(1, 1, 1), (2, 12, 100)]));
    let newer = decode_register(0x60, &mb(&[(13, 1, 1), (14, 10, 250)]));
    older.merge_from(&newer);
    assert_eq!(older.selected_altitude, Some(100));
    assert_eq!(older.ias, Some(250));
    let mut again = older;
    again.merge_from(&RawDaps::empty());
    assert_eq!(again, older);
    let replacing = decode_register(0x40, &mb(&[(1, 1, 1), (2, 12, 7)]));
    again.merge_from(&replacing);
    assert_eq!(again.selected_altitude, Some(7));
}
