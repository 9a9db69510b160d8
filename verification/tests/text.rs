//! Text helpers.

use supvan::text::{
    contains, eq_ignore_ascii_case, hex_upper, parse_u16, parse_u8, push_decimal, push_signed,
    split_once_at, starts_with, trim,
};

#[test]
fn numbers_are_read_like_the_standard_library_does() {
    for s in ["0", "255", "256", "+7", "-1", "", "+", "007", "1 ", "1_0", "９"] {
        assert_eq!(parse_u8(s), s.parse::<u8>().ok(), "{s:?}");
        assert_eq!(parse_u16(s), s.parse::<u16>().ok(), "{s:?}");
    }
    assert_eq!(parse_u16("65535"), Some(65535));
    assert_eq!(parse_u16("65536"), None);
}

#[test]
fn numbers_are_written_in_decimal() {
    for n in [0u64, 9, 10, 12345, u64::MAX] {
        let mut s = String::from("n=");
        push_decimal(&mut s, n);
        assert_eq!(s, format!("n={n}"));
    }
    for n in [0i32, -1, 42, i32::MIN, i32::MAX] {
        let mut s = String::new();
        push_signed(&mut s, n);
        assert_eq!(s, n.to_string());
    }
    assert_eq!(hex_upper(&[0x00, 0x9A, 0xFF]), "009AFF");
}

#[test]
fn texts_are_searched_and_cut() {
    assert!(starts_with("supvan://x", "supvan://"));
    assert!(!starts_with("su", "supvan"));
    assert!(contains("xsupvan", "supvan") && contains("", "") && !contains("a", "ab"));
    assert!(eq_ignore_ascii_case("aBc", "AbC") && !eq_ignore_ascii_case("ä", "Ä"));
    assert_eq!(trim(" \t\u{2003}a b\u{a0}\n"), "a b");
    assert_eq!(trim("  "), "");
    assert_eq!(split_once_at("a:b:c", ':'), Some(("a".to_string(), "b:c".to_string())));
    assert_eq!(split_once_at("abc", ':'), None);
}

/// Every character is trimmed or kept as the standard library does it.
#[test]
fn white_space_is_the_unicode_property() {
    let mut blanks: Vec<u32> = Vec::new();
    for c in '\0'..='\u{10FFFF}' {
        if trim(c.encode_utf8(&mut [0; 4])).is_empty() {
            blanks.push(c as u32);
        }
    }
    let mut expected: Vec<u32> = (0x09..=0x0D).collect();
    expected.extend([0x20, 0x85, 0xA0, 0x1680]);
    expected.extend(0x2000..=0x200A);
    expected.extend([0x2028, 0x2029, 0x202F, 0x205F, 0x3000]);
    assert_eq!(blanks, expected);
}
