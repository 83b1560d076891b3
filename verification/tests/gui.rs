//! What the ground station window shows and reads.

use besom::gui::{parse_command, stream_name};

#[test]
fn well_known_streams_have_names() {
    for (mid, name) in [
        (0x08F0, "BESOM_IO state"),
        (0x0800, "cFE ES"),
        (0x0801, "cFE EVS"),
        (0x0803, "cFE SB"),
        (0x0804, "cFE TBL"),
        (0x0805, "cFE TIME"),
        (0x0808, "EVS events"),
        (0x0880, "TO_LAB"),
        (0x0883, "SAMPLE_APP"),
        (0x0884, "CI_LAB"),
        (0x08a4, "CS"),
        (0x08ad, "HS"),
    ] {
        assert_eq!(stream_name(mid), name);
    }
    assert_eq!(stream_name(0x0802), "");
    assert_eq!(stream_name(0), "");
}

#[test]
fn the_command_builder_reads_hex_and_decimal() {
    assert_eq!(parse_command("1882", "0"), Some((0x1882, 0)));
    assert_eq!(parse_command(" 1a2B\t", "\u{2003}255 "), Some((0x1A2B, 255)));
    assert_eq!(parse_command("+ffff", "+7"), Some((0xFFFF, 7)));
    assert_eq!(parse_command("0001", "007"), Some((1, 7)));
    for (mid, fn_code) in [
        ("", "0"),
        ("1882", ""),
        ("0x1882", "0"),
        ("10000", "0"),
        ("1882", "256"),
        ("1882", "f"),
        ("18 82", "0"),
        ("-1", "0"),
        ("+", "0"),
        ("++1", "0"),
    ] {
        assert_eq!(parse_command(mid, fn_code), None, "{mid:?} {fn_code:?}");
        let std = u16::from_str_radix(mid.trim(), 16).ok().zip(fn_code.trim().parse::<u8>().ok());
        assert_eq!(std, None);
    }
}
