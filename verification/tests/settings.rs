use firefly::adsbagg::Provider;
use firefly::ids::SensorId;
use firefly::settings::{
    byte_setting, effective_base_url, flag_setting, login_credentials, non_blank_setting,
    parse_i32, parse_unsigned, passcode_setting, port_setting, seconds_setting, sensor_id_setting,
    text_setting,
};

#[test]
fn unsigned_decimals_read_like_from_str() {
    assert_eq!(parse_unsigned("9021", 0xffff), Some(9021));
    assert_eq!(parse_unsigned("+7", 0xffff), Some(7));
    assert_eq!(parse_unsigned("65535", 0xffff), Some(65535));
    assert_eq!(parse_unsigned("65536", 0xffff), None);
    assert_eq!(parse_unsigned("", 0xffff), None);
    assert_eq!(parse_unsigned("+", 0xffff), None);
    assert_eq!(parse_unsigned("-1", 0xffff), None);
    assert_eq!(parse_unsigned(" 1", 0xffff), None);
    assert_eq!(parse_unsigned("18446744073709551615", u64::MAX), Some(u64::MAX));
    assert_eq!(parse_unsigned("18446744073709551616", u64::MAX), None);
    assert_eq!(parse_unsigned("99999999999999999999x", u64::MAX), None);
}

#[test]
fn signed_decimals_read_like_from_str() {
    assert_eq!(parse_i32("-1"), Some(-1));
    assert_eq!(parse_i32("12345"), Some(12345));
    assert_eq!(parse_i32("-2147483648"), Some(i32::MIN));
    assert_eq!(parse_i32("2147483647"), Some(i32::MAX));
    assert_eq!(parse_i32("2147483648"), None);
    assert_eq!(parse_i32("-2147483649"), None);
    assert_eq!(parse_i32("-"), None);
    assert_eq!(parse_i32("-+1"), None);
    assert_eq!(parse_i32("+1"), Some(1));
}

#[test]
fn flag_setting_keeps_default_only_when_unset() {
    assert!(flag_setting(Some(" TRUE "), false));
    assert!(flag_setting(Some("1"), false));
    assert!(!flag_setting(Some("on"), true));
    assert!(flag_setting(None, true));
    assert!(!flag_setting(None, false));
}

#[test]
fn byte_setting_trims_and_falls_back() {
    assert_eq!(byte_setting(Some(" 25 "), 0), 25);
    assert_eq!(byte_setting(Some("256"), 7), 7);
    assert_eq!(byte_setting(Some("x"), 7), 7);
    assert_eq!(byte_setting(None, 7), 7);
}

#[test]
fn port_setting_rejects_zero_and_garbage() {
    assert_eq!(port_setting(Some("9021"), 8021), 9021);
    assert_eq!(port_setting(Some("0"), 8021), 8021);
    assert_eq!(port_setting(Some(" 9021"), 8021), 8021);
    assert_eq!(port_setting(Some("70000"), 8021), 8021);
    assert_eq!(port_setting(None, 14580), 14580);
}

#[test]
fn sensor_id_setting_reads_as_written() {
    assert_eq!(sensor_id_setting(Some("231"), SensorId(230)), SensorId(231));
    assert_eq!(sensor_id_setting(Some("0"), SensorId(230)), SensorId(0));
    assert_eq!(sensor_id_setting(Some("garbage"), SensorId(230)), SensorId(230));
    assert_eq!(sensor_id_setting(None, SensorId(210)), SensorId(210));
}

#[test]
fn seconds_setting_rejects_zero() {
    assert_eq!(seconds_setting(Some("30"), 10), 30);
    assert_eq!(seconds_setting(Some("0"), 10), 10);
    assert_eq!(seconds_setting(Some("-5"), 10), 10);
    assert_eq!(seconds_setting(None, 300), 300);
}

#[test]
fn passcode_setting_accepts_negative_one() {
    assert_eq!(passcode_setting(Some("-1")), Some(-1));
    assert_eq!(passcode_setting(Some(" 12345 ")), Some(12345));
    assert_eq!(passcode_setting(Some("abc")), None);
    assert_eq!(passcode_setting(None), None);
}

#[test]
fn text_settings_need_content() {
    assert_eq!(text_setting(Some("EDXY".to_string())), Some("EDXY".to_string()));
    assert_eq!(text_setting(Some(String::new())), None);
    assert_eq!(text_setting(Some("  ".to_string())), Some("  ".to_string()));
    assert_eq!(non_blank_setting(Some("  ".to_string())), None);
    assert_eq!(
        non_blank_setting(Some(" http://x ".to_string())),
        Some(" http://x ".to_string())
    );
    assert_eq!(non_blank_setting(None), None);
}

#[test]
fn base_url_override_wins_and_is_trimmed() {
    assert_eq!(effective_base_url(None, Provider::AdsbLol), "https://api.adsb.lol");
    assert_eq!(effective_base_url(None, Provider::AdsbFi), "https://opendata.adsb.fi/api");
    assert_eq!(
        effective_base_url(Some("http://localhost:8080/"), Provider::AdsbFi),
        "http://localhost:8080"
    );
    assert_eq!(effective_base_url(Some("http://h//"), Provider::AdsbLol), "http://h");
    assert_eq!(effective_base_url(Some("///"), Provider::AdsbLol), "");
}

#[test]
fn anonymous_login_is_read_only() {
    assert_eq!(login_credentials(None, None), ("N0CALL", -1));
    assert_eq!(login_credentials(Some(""), None), ("N0CALL", -1));
}

#[test]
fn account_login_uses_callsign_and_passcode() {
    assert_eq!(login_credentials(Some("EDXY"), Some(12345)), ("EDXY", 12345));
}
