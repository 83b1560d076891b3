//! Text and numbers, held against the standard library.

use besom::text::{decimal_text, is_white_space, parse_number, push_hex4, trim};

#[test]
fn white_space_is_what_unicode_says() {
    for c in '\0'..=char::MAX {
        assert_eq!(is_white_space(c), c.is_whitespace(), "{c:?}");
    }
}

#[test]
fn trimming_agrees_with_the_standard_library() {
    for s in ["", " ", "a", " a b ", "\t\u{a0}x\u{3000}\n", "\u{200b}x\u{200b}", "  \u{2028}"] {
        assert_eq!(trim(s), s.trim());
    }
}

#[test]
fn numbers_agree_with_the_standard_library() {
    for s in [
        "0", "7", "007", "255", "256", "65535", "65536", "4294967295", "4294967296", "+1", "-1", "-0",
        "+", "", " 1", "1 ", "1_0", "a", "F", "fF", "10000", "18446744073709551615",
        "18446744073709551616", "99999999999999999999999999", "\u{661}",
    ] {
        assert_eq!(parse_number(s, 10, 0xFF), s.parse::<u8>().ok().map(u64::from), "{s:?}");
        assert_eq!(parse_number(s, 10, 0xFFFF_FFFF), s.parse::<u32>().ok().map(u64::from), "{s:?}");
        assert_eq!(parse_number(s, 10, u64::MAX), s.parse::<u64>().ok(), "{s:?}");
        assert_eq!(
            parse_number(s, 16, 0xFFFF),
            u16::from_str_radix(s, 16).ok().map(u64::from),
            "{s:?}"
        );
    }
}

#[test]
fn digits_come_out_in_order() {
    for n in [0, 9, 10, 105, 1_000_000, u64::MAX] {
        assert_eq!(decimal_text(n), n.to_string());
    }
    for x in [0u16, 0x0800, 0x08ad, 0xffff] {
        let mut s = String::from("id ");
        push_hex4(&mut s, x);
        assert_eq!(s, format!("id {x:04x}"));
    }
}
