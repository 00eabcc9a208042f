use firefly::cat001::Cat001DecodeError;
use firefly::cat021::Cat021DecodeError;
use firefly::cat048::Cat048DecodeError;
use firefly::cat062::DecodeError;
use firefly::cat063::Cat063DecodeError;
use firefly::cat065::Cat065DecodeError;
use firefly::describe::{text_with_number, text_with_numbers};

#[test]
fn numbers_are_written_in_decimal() {
    assert_eq!(text_with_number("FRN ", 0, "!"), "FRN 0!");
    assert_eq!(text_with_number("", 1234567890, ""), "1234567890");
    assert_eq!(text_with_number("max ", u64::MAX, ""), "max 18446744073709551615");
    assert_eq!(text_with_numbers("a", 10, "b", 9, "c"), "a10b9c");
}

#[test]
fn category_errors_describe_themselves() {
    assert_eq!(DecodeError::Truncated.message(), "input ended before a complete item");
    assert_eq!(DecodeError::WrongCategory(48).message(), "expected CAT 62, got CAT 48");
    assert_eq!(
        DecodeError::LengthMismatch { declared: 40, actual: 39 }.message(),
        "LEN field says 40 bytes, but input is 39 bytes"
    );
    assert_eq!(DecodeError::UnknownItem(15).message(), "FSPEC marks unknown FRN 15 present");
    assert_eq!(DecodeError::MissingItem(13).message(), "record is missing required FRN 13");
    assert_eq!(
        Cat001DecodeError::UnknownItem(9).message(),
        "FSPEC marks unknown/unskippable FRN 9 present"
    );
    assert_eq!(Cat001DecodeError::WrongCategory(2).message(), "expected CAT 1, got CAT 2");
    assert_eq!(
        Cat021DecodeError::UnknownItem(50).message(),
        "FSPEC marks unknown FRN 50 present (edition mismatch?)"
    );
    assert_eq!(
        Cat048DecodeError::FspecTooLong.message(),
        "FSPEC FX chain exceeds the supported FRN space"
    );
    assert_eq!(Cat065DecodeError::WrongCategory(63).message(), "expected CAT 65, got CAT 63");
}

#[test]
fn sensor_status_errors_use_their_own_wording() {
    assert_eq!(Cat063DecodeError::Truncated.message(), "input truncated");
    assert_eq!(Cat063DecodeError::WrongCategory(65).message(), "expected CAT 63, got CAT 65");
    assert_eq!(
        Cat063DecodeError::LengthMismatch { declared: 12, actual: 9 }.message(),
        "LEN=12 but input is 9 bytes"
    );
    assert_eq!(Cat063DecodeError::UnknownFrn(7).message(), "unknown FRN 7");
    assert_eq!(Cat063DecodeError::MissingItem(4).message(), "missing required FRN 4");
}
