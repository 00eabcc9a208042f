use firefly::ogn::{find_id, AddressType};

#[test]
fn id_byte_bits_decode_address_and_aircraft_type() {
    // 0x4D = 0b0100_1101 → aa=01 (ICAO), tttt=0011 (3)
    let rest = "'000/000/A=000000 id4D112233";
    let (address, address_type, aircraft_type) = find_id(rest).expect("id token");
    assert_eq!(address_type, AddressType::Icao);
    assert_eq!(aircraft_type, 3);
    assert_eq!(address, 0x112233);
}

#[test]
fn flarm_id_token_decodes() {
    let rest = "'086/007/A=000607 id0ADDE626 -019fpm +0.0rot 5.5dB 3e -4.3kHz";
    assert_eq!(find_id(rest), Some((0xDDE626, AddressType::Flarm, 2)));
}

#[test]
fn missing_or_malformed_id_token_yields_none() {
    assert_eq!(find_id("'260/059/A=002253 !W65!"), None);
    assert_eq!(find_id("idXX112233"), None);
    // Only the first ten-octet id token counts.
    assert_eq!(find_id("idZZ000000 id05112233"), None);
    // A nine-octet token is not an id token; the next one is.
    assert_eq!(find_id("id0511223 id05112233"), Some((0x112233, AddressType::Icao, 1)));
    // A plus sign is read as the standard library reads it.
    assert_eq!(find_id("id+5112233"), Some((0x112233, AddressType::Icao, 1)));
    // Non-ASCII characters never read as digits.
    assert_eq!(find_id("id0511223é"), None);
}

#[test]
fn address_type_from_bits_uses_the_low_two_bits() {
    assert_eq!(AddressType::from_bits(0), AddressType::Unknown);
    assert_eq!(AddressType::from_bits(1), AddressType::Icao);
    assert_eq!(AddressType::from_bits(2), AddressType::Flarm);
    assert_eq!(AddressType::from_bits(3), AddressType::OgnTracker);
    assert_eq!(AddressType::from_bits(0xFE), AddressType::Flarm);
}

#[test]
fn address_type_from_prefix() {
    assert_eq!(AddressType::from_prefix("ICA"), Some(AddressType::Icao));
    assert_eq!(AddressType::from_prefix("FLR"), Some(AddressType::Flarm));
    assert_eq!(AddressType::from_prefix("OGN"), Some(AddressType::OgnTracker));
    assert_eq!(AddressType::from_prefix("SKY"), None);
    assert_eq!(AddressType::from_prefix("ica"), None);
}
