use firefly::aircraft::{
    address_field, callsign_field, parse_radix, position_source, squawk_field, AddressField,
    PositionSource,
};
use firefly::plot::Callsign;

#[test]
fn radix_numbers_read_like_from_str_radix() {
    assert_eq!(parse_radix("3c6589", 16, u32::MAX as u64), Some(0x3C6589));
    assert_eq!(parse_radix("+FF", 16, u32::MAX as u64), Some(255));
    assert_eq!(parse_radix("ffffffff", 16, u32::MAX as u64), Some(0xFFFF_FFFF));
    assert_eq!(parse_radix("100000000", 16, u32::MAX as u64), None);
    assert_eq!(parse_radix("7700", 8, 0xffff), Some(0o7700));
    assert_eq!(parse_radix("7800", 8, 0xffff), None);
    assert_eq!(parse_radix("", 8, 0xffff), None);
    assert_eq!(parse_radix("+", 8, 0xffff), None);
    assert_eq!(parse_radix("zz", 36, u64::MAX), Some(35 * 36 + 35));
}

#[test]
fn address_field_keeps_tilde_aircraft_without_identity() {
    assert_eq!(address_field(Some(" 3c6589 ")), AddressField::Icao(0x3C6589));
    assert_eq!(address_field(Some("~3c6589")), AddressField::NotIcao);
    assert_eq!(address_field(None), AddressField::NotIcao);
    assert_eq!(address_field(Some("xyz")), AddressField::Malformed);
    assert_eq!(address_field(Some("")), AddressField::Malformed);
}

#[test]
fn squawk_field_is_octal() {
    assert_eq!(squawk_field(Some("7700")), Some(0o7700));
    assert_eq!(squawk_field(Some(" 1200 ")), Some(0o1200));
    assert_eq!(squawk_field(Some("7800")), None);
    assert_eq!(squawk_field(None), None);
}

#[test]
fn callsign_field_is_trimmed_and_needs_content() {
    assert_eq!(callsign_field(Some("DLH123  ")), Some(Callsign::new("DLH123")));
    assert_eq!(callsign_field(Some("   ")), None);
    assert_eq!(callsign_field(None), None);
}

#[test]
fn position_source_from_type() {
    assert_eq!(position_source(Some("adsb_icao")), PositionSource::Adsb);
    assert_eq!(position_source(Some("adsr_icao")), PositionSource::Adsb);
    assert_eq!(position_source(Some("mlat")), PositionSource::Mlat);
    assert_eq!(position_source(Some("mlat2")), PositionSource::Other);
    assert_eq!(position_source(Some("tisb_icao")), PositionSource::Other);
    assert_eq!(position_source(None), PositionSource::Other);
}
