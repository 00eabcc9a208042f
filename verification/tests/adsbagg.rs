use firefly::adsbagg::{Backoff, Provider, MAX_BACKOFF_SECS};

#[test]
fn provider_parse_round_trips() {
    for p in [Provider::AdsbLol, Provider::AdsbFi] {
        assert_eq!(Provider::parse(p.as_str()), Some(p));
    }
    assert_eq!(Provider::parse(" ADSB_LOL "), Some(Provider::AdsbLol));
    assert_eq!(Provider::parse("airplanes_live"), None, "deferred");
    assert_eq!(Provider::parse("opensky"), None);
}

#[test]
fn provider_words_and_base_urls() {
    assert_eq!(Provider::AdsbLol.as_str(), "adsb_lol");
    assert_eq!(Provider::AdsbFi.as_str(), "adsb_fi");
    assert_eq!(Provider::AdsbLol.base_url(), "https://api.adsb.lol");
    assert_eq!(Provider::AdsbFi.base_url(), "https://opendata.adsb.fi/api");
    assert_eq!(Provider::default(), Provider::AdsbLol);
}

#[test]
fn provider_parse_trims_unicode_white_space() {
    assert_eq!(Provider::parse("\u{3000}\tAdsb_Fi\u{00A0}\n"), Some(Provider::AdsbFi));
    assert_eq!(Provider::parse("adsb_f i"), None);
    assert_eq!(Provider::parse(""), None);
    assert_eq!(Provider::parse("adsb_lolx"), None);
}

#[test]
fn backoff_doubles_and_caps_and_resets() {
    let mut b = Backoff::new(10);
    assert_eq!(b.fail(), 20, "first failure backs off at once");
    assert_eq!(b.fail(), 40);
    for _ in 0..20 {
        assert!(b.fail() <= MAX_BACKOFF_SECS);
    }
    assert_eq!(b.reset(), 10, "success drops back to base");
}

#[test]
fn backoff_never_polls_faster_than_a_slow_base() {
    let mut b = Backoff::new(3600);
    for _ in 0..5 {
        assert!(b.fail() >= 3600);
    }
}

#[test]
fn backoff_base_is_at_least_one_second() {
    let mut b = Backoff::new(0);
    assert_eq!(b.reset(), 1);
    assert_eq!(b.fail(), 2);
    assert_eq!(b.fail(), 4);
}

#[test]
fn backoff_reaches_the_cap_exactly() {
    let mut b = Backoff::new(10);
    let mut last = 0;
    for _ in 0..30 {
        last = b.fail();
    }
    assert_eq!(last, 300);
    let mut huge = Backoff::new(u64::MAX);
    assert_eq!(huge.fail(), u64::MAX);
}

#[test]
fn backoff_kth_failure_waits_base_times_two_to_the_k_capped() {
    let mut b = Backoff::new(10);
    let waits: Vec<u64> = (0..6).map(|_| b.fail()).collect();
    assert_eq!(waits, vec![20, 40, 80, 160, 300, 300]);
    assert_eq!(b.reset(), 10);
    assert_eq!(b.fail(), 20, "a reset restarts the doubling");
    let mut slow = Backoff::new(3600);
    for _ in 0..25 {
        assert_eq!(slow.fail(), 3600);
    }
}
