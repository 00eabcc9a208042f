use firefly::correlation::{correlate_plans, PlanIdentity, PlanMatch, CONSPICUITY_CODE};
use firefly::flight_plan::callsign_key;

fn plans() -> Vec<PlanIdentity> {
    vec![
        PlanIdentity { callsign: "DLH123".to_string(), squawk: Some(0o1234) },
        PlanIdentity { callsign: "BAW22".to_string(), squawk: Some(0o4321) },
        // The same squawk filed twice.
        PlanIdentity { callsign: "KLM88".to_string(), squawk: Some(0o2000) },
        PlanIdentity { callsign: "RYR9X".to_string(), squawk: Some(0o2000) },
        PlanIdentity { callsign: "GAVFR".to_string(), squawk: Some(CONSPICUITY_CODE) },
    ]
}

/// Every plan within its time window (the first plan only is timed).
const ALL_PLAUSIBLE: [bool; 5] = [true, true, true, true, true];

#[test]
fn callsign_first_and_normalised() {
    let p = plans();
    let m = correlate_plans(&p, Some(" dlh123 "), None, false, &ALL_PLAUSIBLE);
    assert_eq!(m, PlanMatch::ByCallsign(0));
    assert_eq!(callsign_key(&p[0].callsign), "DLH123");
}

#[test]
fn squawk_only_when_unique_and_clean() {
    let p = plans();
    assert_eq!(correlate_plans(&p, None, Some(0o4321), false, &ALL_PLAUSIBLE), PlanMatch::BySquawk(1));
    assert_eq!(
        correlate_plans(&p, None, Some(0o2000), false, &ALL_PLAUSIBLE),
        PlanMatch::SquawkRefused
    );
    assert_eq!(
        correlate_plans(&p, None, Some(CONSPICUITY_CODE), false, &ALL_PLAUSIBLE),
        PlanMatch::SquawkRefused
    );
    assert_eq!(
        correlate_plans(&p, None, Some(0o4321), true, &ALL_PLAUSIBLE),
        PlanMatch::SquawkRefused
    );
}

#[test]
fn expected_time_window_gates_correlation() {
    let p = plans();
    assert_eq!(
        correlate_plans(&p, Some("DLH123"), None, false, &ALL_PLAUSIBLE),
        PlanMatch::ByCallsign(0)
    );
    let outside = [false, true, true, true, true];
    assert_eq!(correlate_plans(&p, Some("DLH123"), None, false, &outside), PlanMatch::NoMatch);
}

#[test]
fn identity_conflict_blocks_only_the_code_path() {
    let p = plans();
    assert_eq!(
        correlate_plans(&p, Some("BAW22"), Some(0o4321), true, &ALL_PLAUSIBLE),
        PlanMatch::ByCallsign(1)
    );
}

#[test]
fn unknown_callsign_falls_back_to_the_squawk() {
    let p = plans();
    assert_eq!(
        correlate_plans(&p, Some("XYZ1"), Some(0o1234), false, &ALL_PLAUSIBLE),
        PlanMatch::BySquawk(0)
    );
    assert_eq!(correlate_plans(&p, Some("XYZ1"), None, false, &ALL_PLAUSIBLE), PlanMatch::NoMatch);
    assert_eq!(correlate_plans(&p, None, Some(0o7777), false, &ALL_PLAUSIBLE), PlanMatch::NoMatch);
}

#[test]
fn a_later_plan_replaces_an_earlier_one_under_the_same_key() {
    let p = vec![
        PlanIdentity { callsign: "DLH1".to_string(), squawk: None },
        PlanIdentity { callsign: "dlh1 ".to_string(), squawk: None },
    ];
    assert_eq!(correlate_plans(&p, Some("DLH1"), None, false, &[true, true]), PlanMatch::ByCallsign(1));
}
