use firefly::correlation::same_callsign_key;
use firefly::flight_plan::{
    callsign_key, squawk_from_number, squawk_from_text, squawk_text, validate_plans, PlanFault,
    SquawkError,
};

#[test]
fn squawk_numbers_are_read_as_octal_digits() {
    assert_eq!(squawk_from_number(1234), Ok(0o1234));
    assert_eq!(squawk_from_number(7500), Ok(0o7500));
    assert_eq!(squawk_from_number(0), Ok(0));
    assert_eq!(squawk_from_number(668), Err(SquawkError::NotOctal));
    assert_eq!(squawk_from_number(12345), Err(SquawkError::Length));
    assert_eq!(squawk_from_number(7777), Ok(0o7777));
}

#[test]
fn squawk_texts_are_read_as_octal_digits() {
    assert_eq!(squawk_from_text("1234"), Ok(668));
    assert_eq!(squawk_from_text(" 7500 "), Ok(0o7500));
    assert_eq!(squawk_from_text("+777"), Ok(0o777));
    assert_eq!(squawk_from_text(""), Err(SquawkError::Length));
    assert_eq!(squawk_from_text("   "), Err(SquawkError::Length));
    assert_eq!(squawk_from_text("12345"), Err(SquawkError::Length));
    assert_eq!(squawk_from_text("1239"), Err(SquawkError::NotOctal));
    assert_eq!(squawk_from_text("+"), Err(SquawkError::NotOctal));
    assert_eq!(squawk_from_text("ééé"), Err(SquawkError::Length));
    assert_eq!(squawk_from_text("é1"), Err(SquawkError::NotOctal));
}

#[test]
fn squawks_are_written_as_four_octal_digits() {
    assert_eq!(squawk_text(0o7500), "7500");
    assert_eq!(squawk_text(0o12), "0012");
    assert_eq!(squawk_text(0), "0000");
    assert_eq!(squawk_text(0o17777), "17777");
}

#[test]
fn written_squawks_read_back() {
    for code in [0u16, 0o7, 0o1000, 0o1234, 0o7500, 0o7777] {
        assert_eq!(squawk_from_text(&squawk_text(code)), Ok(code));
    }
}

#[test]
fn callsign_keys_are_trimmed_and_upper_cased() {
    assert_eq!(callsign_key(" dlh123 "), "DLH123");
    assert_eq!(callsign_key("Baw22"), "BAW22");
    assert_eq!(callsign_key("   "), "");
    assert_eq!(callsign_key("ßx"), "ßX");
}

fn names(v: &[&str]) -> Vec<String> {
    v.iter().map(|s| s.to_string()).collect()
}

#[test]
fn plan_lists_are_checked_in_order() {
    assert_eq!(validate_plans(&names(&["DLH123", "BAW22"]), &vec![true, true]), Ok(()));
    assert_eq!(validate_plans(&names(&[]), &vec![]), Ok(()));
    assert_eq!(
        validate_plans(&names(&["  "]), &vec![true]),
        Err(PlanFault::EmptyCallsign(0))
    );
    assert_eq!(
        validate_plans(&names(&["dlh123", "DLH123 "]), &vec![true, true]),
        Err(PlanFault::DuplicateCallsign(1))
    );
    assert_eq!(
        validate_plans(&names(&["A", "B"]), &vec![true, false]),
        Err(PlanFault::NonFiniteTime(1))
    );
    assert_eq!(
        validate_plans(&names(&["A", "a", ""]), &vec![false, true, true]),
        Err(PlanFault::NonFiniteTime(0))
    );
}

#[test]
fn equal_keys_mean_the_same_callsign() {
    for (a, b) in [(" dlh123 ", "DLH123"), ("BAW22", "baw 22"), ("ßx", "ßX"), ("", "  ")] {
        assert_eq!(callsign_key(a) == callsign_key(b), same_callsign_key(a, b));
    }
    assert!(same_callsign_key(" dlh123 ", "DLH123"));
    assert!(!same_callsign_key("BAW22", "baw 22"));
}

#[test]
fn every_squawk_round_trips_as_number_and_string() {
    for code in 0u16..=0o7777 {
        let written = format!("{code:o}");
        let number: u64 = written.parse().expect("decimal digits");
        assert_eq!(squawk_from_number(number), Ok(code));
        assert_eq!(squawk_from_text(&written), Ok(code));
        assert_eq!(squawk_from_text(&squawk_text(code)), Ok(code));
    }
}

#[test]
fn any_digit_eight_or_nine_is_rejected() {
    for bad in ['8', '9'] {
        for pos in 0..4 {
            let mut digits: Vec<char> = "1234".chars().collect();
            digits[pos] = bad;
            let text: String = digits.iter().collect();
            assert_eq!(squawk_from_text(&text), Err(SquawkError::NotOctal), "{text}");
            let number: u64 = text.parse().expect("decimal digits");
            assert_eq!(squawk_from_number(number), Err(SquawkError::NotOctal), "{number}");
        }
    }
}
