use firefly::track::Provenance;

// Technology positions: PSR, SSR, Mode S, ADS-B, FLARM.

#[test]
fn derive_unknown_without_any_age() {
    assert_eq!(Provenance::derive([false; 5], None), Provenance::Unknown);
}

#[test]
fn derive_single_fresh_technology() {
    // ADS-B seen 2 s ago, nothing else.
    assert_eq!(Provenance::derive([false, false, false, true, false], Some(3)), Provenance::AdsB);
}

#[test]
fn derive_two_fresh_technologies_combine() {
    // PSR 1 s, SSR 2 s.
    assert_eq!(Provenance::derive([true, true, false, false, false], Some(0)), Provenance::Combined);
}

#[test]
fn derive_falls_back_to_most_recent_when_all_stale() {
    // PSR and FLARM both stale, FLARM the more recent.
    assert_eq!(Provenance::derive([false; 5], Some(4)), Provenance::Flarm);
}

#[test]
fn derive_single_fresh_wins_over_a_more_recent_stale_one() {
    // Only SSR fresh; the most recent index is irrelevant then.
    assert_eq!(Provenance::derive([false, true, false, false, false], Some(1)), Provenance::Ssr);
    assert_eq!(Provenance::derive([true, true, true, true, true], Some(2)), Provenance::Combined);
}
