use streamd::text::{
    chars_of, decimal_text, is_before, parse_number, push_quoted,
    push_signed, starts_with, strip_prefix, trim,
};

#[test]
fn numbers_are_written_and_read() {
    assert_eq!(decimal_text(0), "0");
    assert_eq!(decimal_text(10), "10");
    assert_eq!(decimal_text(u64::MAX), "18446744073709551615");
    assert_eq!(parse_number("4294967295", u32::MAX), Some(u32::MAX));
    assert_eq!(parse_number("4294967296", u32::MAX), None);
    assert_eq!(parse_number("99999999999999999999999", u32::MAX), None);
    assert_eq!(parse_number("+7", u32::MAX), Some(7));
    assert_eq!(parse_number("007", u32::MAX), Some(7));
    for bad in ["", "+", "-1", " 1", "1 ", "1_0", "٣"] {
        assert_eq!(parse_number(bad, u32::MAX), None, "{bad:?}");
        assert!(bad.parse::<u32>().is_err());
    }
    let mut text = String::from("n=");
    push_signed(&mut text, i32::MIN);
    assert_eq!(text, "n=-2147483648");
}

#[test]
fn texts_are_trimmed_and_compared() {
    assert_eq!(trim(" \t\u{3000}DP-3 x\n"), "DP-3 x");
    assert_eq!(trim("  "), "");
    assert_eq!(trim("é"), "é");
}

#[test]
fn texts_are_taken_apart() {
    assert_eq!(chars_of("aé😀"), vec!['a', 'é', '😀']);
    assert!(starts_with("renderD128", "renderD"));
    assert!(!starts_with("rend", "renderD"));
    assert_eq!(strip_prefix("wl:68", "wl:"), Some("68"));
    assert_eq!(strip_prefix("éa", "é"), Some("a"));
    assert_eq!(strip_prefix("68", "wl:"), None);
}

#[test]
fn texts_are_ordered_like_bytes() {
    let texts = ["", "card0", "card1", "card10", "renderD128", "zé", "é"];
    for (i, a) in texts.iter().enumerate() {
        for (j, b) in texts.iter().enumerate() {
            assert_eq!(is_before(a, b), i < j);
            assert_eq!(a.as_bytes() < b.as_bytes(), i < j);
        }
    }
}

#[test]
fn texts_are_quoted() {
    let mut text = String::from("display ");
    push_quoted(&mut text, "a\"b\n");
    assert_eq!(text, "display \"a\\\"b\\n\"");
}

#[test]
fn white_space_is_that_of_unicode() {
    for c in (0..=0x10FFFFu32).filter_map(char::from_u32) {
        let text = c.to_string();
        assert_eq!(trim(&text), text.trim());
    }
    assert_eq!(trim("\u{3000}a b\u{85} "), "a b");
}
