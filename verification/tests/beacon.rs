use firefly::beacon::frame_beacon;
use firefly::ogn::AddressType;

const FLR_LINE: &str =
    "FLRDDE626>APRS,qAS,EGHL:/074548h5111.32N/00102.04W'086/007/A=000607 id0ADDE626 -019fpm +0.0rot 5.5dB 3e -4.3kHz";
const ICA_LINE: &str =
    "ICA4B4E68>APRS,qAS,Letzi:/152339h4726.50N/00814.20E'260/059/A=002253 !W65!";

#[test]
fn frames_a_flarm_beacon() {
    let b = frame_beacon(FLR_LINE).expect("valid FLARM line");
    assert_eq!(b.source_call, "FLRDDE626");
    assert_eq!(b.latitude_field, "5111.32N");
    assert_eq!(b.longitude_field, "00102.04W");
    assert_eq!(b.altitude_ft, Some(607));
    assert_eq!(b.address, Some(0xDDE626));
    assert_eq!(b.address_type, AddressType::Flarm);
    assert_eq!(b.aircraft_type, Some(2));
    // 07:45:48 → 27948 s
    assert_eq!(b.time_of_day_s, Some(27948));
    assert_eq!((b.dao_lat, b.dao_lon), (0, 0));
}

#[test]
fn frames_an_icao_beacon_without_id_field_via_prefix() {
    let b = frame_beacon(ICA_LINE).expect("valid ICAO line");
    assert_eq!(b.address, Some(0x4B4E68));
    assert_eq!(b.address_type, AddressType::Icao);
    assert!(b.aircraft_type.is_none());
    assert_eq!(b.altitude_ft, Some(2253));
    assert_eq!(b.time_of_day_s, Some(15 * 3600 + 23 * 60 + 39));
}

#[test]
fn dao_digits_are_read() {
    let b = frame_beacon(ICA_LINE).expect("valid");
    assert_eq!((b.dao_lat, b.dao_lon), (6, 5));
    assert_eq!(b.latitude_field, "4726.50N");
    assert_eq!(b.longitude_field, "00814.20E");
}

#[test]
fn base_91_dao_is_ignored() {
    let line = "ICA4B4E68>APRS,qAS,Letzi:/152339h4726.50N/00814.20E'260/059/A=002253 !w(a! !W12!";
    let b = frame_beacon(line).expect("valid");
    assert_eq!((b.dao_lat, b.dao_lon), (1, 2));
}

#[test]
fn southern_and_western_fields_are_kept() {
    let line = "FLRAABBCC>APRS,qAS,X:/000000h3344.00S/07012.00W^000/000/A=000100 id06AABBCC";
    let b = frame_beacon(line).expect("valid");
    assert_eq!(b.latitude_field, "3344.00S");
    assert_eq!(b.longitude_field, "07012.00W");
    assert_eq!(b.time_of_day_s, Some(0));
}

#[test]
fn id_byte_bits_name_the_address_type() {
    let line = "OGN112233>APRS,qAS,X:/000000h0000.00N/00000.00E'000/000/A=000000 id4D112233";
    let b = frame_beacon(line).expect("valid");
    assert_eq!(b.address_type, AddressType::Icao);
    assert_eq!(b.aircraft_type, Some(3));
    assert_eq!(b.address, Some(0x112233));
    assert_eq!(b.altitude_ft, Some(0));
}

#[test]
fn receiver_beacon_frames_no_aircraft() {
    let line = "EGHL>APRS,TCPIP*,qAC,GLIDERN1:/074555h5126.00NI00113.00W&/A=000077 v0.2.7";
    assert!(frame_beacon(line).is_none());
}

#[test]
fn comments_and_garbage_frame_nothing() {
    assert!(frame_beacon("# aprsc 2.1.10 ...").is_none());
    assert!(frame_beacon("not a packet").is_none());
    assert!(frame_beacon("").is_none());
    assert!(frame_beacon("SRC>APRS:>status text, not a position").is_none());
}

#[test]
fn untimed_beacon_has_no_time() {
    let line = "FLRDDE626>APRS:!5111.32N/00102.04W'086/007/A=000607";
    let b = frame_beacon(line).expect("valid");
    assert_eq!(b.time_of_day_s, None);
    assert_eq!(b.latitude_field, "5111.32N");
    assert_eq!(b.address, Some(0xDDE626));
    assert_eq!(b.address_type, AddressType::Flarm);
}

#[test]
fn out_of_range_or_zoned_time_is_unknown() {
    let late = "FLRDDE626>APRS:/246000h5111.32N/00102.04W'086/007/A=000607";
    assert_eq!(frame_beacon(late).expect("valid").time_of_day_s, None);
    let zoned = "FLRDDE626>APRS:/074548z5111.32N/00102.04W'086/007/A=000607";
    assert_eq!(frame_beacon(zoned).expect("valid").time_of_day_s, None);
}

#[test]
fn short_altitude_is_absent() {
    let line = "FLRDDE626>APRS:/074548h5111.32N/00102.04W'086/007/A=0006";
    assert_eq!(frame_beacon(line).expect("valid").altitude_ft, None);
}

#[test]
fn a_field_split_inside_a_character_is_refused() {
    // A two-byte character straddles the end of the latitude field.
    let line = "FLRDDE626>APRS:/074548h5111.32éN/00102.04W'086/007/A=000607";
    assert!(frame_beacon(line).is_none());
}

#[test]
fn beacon_truncations_never_panic() {
    for line in [FLR_LINE, ICA_LINE] {
        for end in 0..line.len() {
            if line.is_char_boundary(end) {
                let _ = frame_beacon(&line[..end]);
            }
        }
    }
}

#[test]
fn beacon_mutated_bytes_never_panic() {
    let base = FLR_LINE.as_bytes();
    for i in 0..base.len() {
        for repl in [b'0', b'/', b'!', b' ', 0xFF] {
            let mut bytes = base.to_vec();
            bytes[i] = repl;
            if let Ok(s) = std::str::from_utf8(&bytes) {
                let _ = frame_beacon(s);
            }
        }
    }
}

#[test]
fn known_prefix_without_a_readable_address_frames_nothing() {
    assert!(frame_beacon(
        "FLRZZZZZZ>APRS,qAS,X:/000000h0000.00N/00000.00E'000/000/A=000000"
    )
    .is_none());
    assert!(frame_beacon("ICA12>APRS,qAS,X:/000000h0000.00N/00000.00E'000/000/A=000000").is_none());
    let b = frame_beacon("OGN0A1B2C>APRS,qAS,X:/000000h0000.00N/00000.00E'000/000/A=000000")
        .expect("prefix with six hex digits");
    assert_eq!(b.address, Some(0x0A1B2C));
}
