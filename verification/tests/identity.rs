use firefly::ids::{SensorId, TargetId, TrackId};
use firefly::plot::{Callsign, DetectionKind, SourceKind};
use firefly::text::parse_flag;
use firefly::track::{CourseTrend, ModeOfMovement, SpeedTrend, VerticalTrend};

#[test]
fn callsign_pads_truncates_and_trims() {
    let c = Callsign::new("DLH123");
    assert_eq!(c.0, *b"DLH123  ");
    assert_eq!(c.as_str(), "DLH123");
    assert_eq!(Callsign::new("ABCDEFGHIJ").as_str(), "ABCDEFGH");
    assert_eq!(Callsign::new("").as_str(), "");
    assert_eq!(Callsign(*b"  A     ").as_str(), "  A");
    assert_eq!(Callsign([0xFF, 0x41, 0x20, 0x20, 0x20, 0x20, 0x20, 0x20]).as_str(), "");
}

#[test]
fn detection_kind_channels() {
    assert!(DetectionKind::Primary.has_primary() && !DetectionKind::Primary.has_secondary());
    assert!(!DetectionKind::Secondary.has_primary() && DetectionKind::Secondary.has_secondary());
    assert!(DetectionKind::Combined.has_primary() && DetectionKind::Combined.has_secondary());
    assert_eq!(SourceKind::default(), SourceKind::Psr);
}

#[test]
fn mode_of_movement_is_determined_when_any_axis_is() {
    let none = ModeOfMovement {
        course: CourseTrend::Undetermined,
        speed: SpeedTrend::Undetermined,
        vertical: VerticalTrend::Undetermined,
    };
    assert!(!none.is_determined());
    assert!(ModeOfMovement { vertical: VerticalTrend::Climb, ..none }.is_determined());
    assert!(ModeOfMovement { course: CourseTrend::LeftTurn, ..none }.is_determined());
    assert!(ModeOfMovement { speed: SpeedTrend::Constant, ..none }.is_determined());
}

#[test]
fn identifiers_order_and_compare() {
    assert!(SensorId(1) < SensorId(2));
    assert_eq!(TrackId(7), TrackId(7));
    assert_ne!(TargetId(1), TargetId(2));
}

#[test]
fn flags_read_one_true_and_yes() {
    for v in ["1", "true", " TRUE ", "Yes", "yes\n"] {
        assert!(parse_flag(v), "{v:?}");
    }
    for v in ["0", "false", "no", "", "yess", "t rue"] {
        assert!(!parse_flag(v), "{v:?}");
    }
}

#[test]
fn callsign_keeps_eight_octets_and_trims_only_trailing_spaces() {
    assert_eq!(Callsign::new("KLM1234").as_str(), "KLM1234");
    assert_eq!(Callsign::new("ABCDEFG IJ").as_str(), "ABCDEFG");
    assert_eq!(Callsign::new("        ").as_str(), "");
    assert_eq!(Callsign::new("  ").as_str(), "");
    assert_eq!(Callsign::new(" A").as_str(), " A");
}
