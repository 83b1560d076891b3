//! Event messages.

use besom::ccsds::EVS_EVENT_MID;
use besom::evs::{cstr, parse, Severity};

/// Bytes captured off the wire from a real cFS instance, not synthesised from the
/// struct definition. The header size and the endianness of the payload fields are
/// both easy to get wrong in a way that yields plausible garbage instead of an
/// obvious failure, so this pins them to reality.
#[test]
fn decodes_a_real_event_captured_from_cfs() {
    let mut buf = vec![0u8; 172];
    buf[0..16].copy_from_slice(&[
        0x08, 0x08, 0xc0, 0x14, 0x00, 0xa5, // primary header
        0x00, 0x0f, 0x46, 0x2a, 0x28, 0xf5, // timestamp
        0x00, 0x00, 0x00, 0x00, // the 4-byte spare that makes the header 16, not 12
    ]);
    buf[16..22].copy_from_slice(b"TO_LAB");
    buf[36..48].copy_from_slice(&[
        0x03, 0x00, // EventID = 3, LITTLE-endian
        0x02, 0x00, // EventType = 2 (Info), little-endian
        0x42, 0x00, 0x00, 0x00, // SpacecraftID = 66 -- the giveaway
        0x01, 0x00, 0x00, 0x00, // ProcessorID = 1
    ]);
    buf[48..64].copy_from_slice(b"TO telemetry out");

    let e = parse(EVS_EVENT_MID, &buf).unwrap();

    assert_eq!(e.app, "TO_LAB");
    assert_eq!(e.event_id, 3);
    assert_eq!(e.severity, Severity::Info);
    assert_eq!(e.text, "TO telemetry out");
}

#[test]
fn ignores_non_event_telemetry() {
    assert!(parse(0x0883, &[0u8; 172]).is_none());
}

#[test]
fn a_short_event_is_malformed() {
    assert!(parse(EVS_EVENT_MID, &[0u8; 47]).is_none());
    let e = parse(EVS_EVENT_MID, &[0u8; 48]).unwrap();
    assert_eq!(e.app, "");
    assert_eq!(e.text, "");
    assert_eq!(e.event_id, 0);
    assert_eq!(e.severity, Severity::Info);
}

#[test]
fn severities_and_their_labels() {
    assert_eq!(Severity::from_event_type(1), Severity::Debug);
    assert_eq!(Severity::from_event_type(2), Severity::Info);
    assert_eq!(Severity::from_event_type(3), Severity::Error);
    assert_eq!(Severity::from_event_type(4), Severity::Critical);
    assert_eq!(Severity::from_event_type(0), Severity::Info);
    assert_eq!(Severity::from_event_type(0xFFFF), Severity::Info);
    assert_eq!(Severity::Debug.label(), "DEBUG");
    assert_eq!(Severity::Info.label(), "INFO");
    assert_eq!(Severity::Error.label(), "ERROR");
    assert_eq!(Severity::Critical.label(), "CRIT");
}

#[test]
fn a_field_stops_at_its_nul_and_is_trimmed() {
    assert_eq!(cstr(b"CI_LAB\0garbage"), "CI_LAB");
    assert_eq!(cstr(b"  padded \t\n"), "padded");
    assert_eq!(cstr(b"no terminator"), "no terminator");
    assert_eq!(cstr(b"\0hidden"), "");
    assert_eq!(cstr(b""), "");
}

#[test]
fn bytes_that_are_no_text_are_replaced() {
    assert_eq!(cstr(b"ab\xFFcd\0"), "ab\u{FFFD}cd");
    assert_eq!(cstr(&[0xE2, 0x82]), "\u{FFFD}");
    assert_eq!(cstr("Grüße \u{a0}".as_bytes()), "Grüße");
}

#[test]
fn a_full_width_name_needs_no_terminator() {
    let mut buf = vec![0u8; 60];
    buf[16..36].copy_from_slice(b"ABCDEFGHIJKLMNOPQRST");
    buf[36..40].copy_from_slice(&[0x34, 0x12, 0x04, 0x00]);
    buf[48..60].copy_from_slice(b"to the end  ");
    let e = parse(EVS_EVENT_MID, &buf).unwrap();
    assert_eq!(e.app, "ABCDEFGHIJKLMNOPQRST");
    assert_eq!(e.event_id, 0x1234);
    assert_eq!(e.severity, Severity::Critical);
    assert_eq!(e.text, "to the end");
}
