use radio_core::text;

#[test]
fn control_codes_and_white_space_are_those_of_unicode() {
    for code in 0..=0x10ffff {
        if let Some(c) = char::from_u32(code) {
            assert_eq!(text::is_control(c), c.is_control(), "{code:x}");
            assert_eq!(text::is_white_space(c), c.is_whitespace(), "{code:x}");
        }
    }
}

#[test]
fn texts_are_searched_by_character() {
    assert!(text::has_control("a\u{9f}b") && !text::has_control("aé"));
    assert!(text::is_blank(" \u{3000}\t") && text::is_blank("") && !text::is_blank(" a"));
    assert!(text::contains_char("aé\0", '\0') && !text::contains_char("aé", 'e'));
    assert!(text::starts_with("v=0\r", "v=0") && text::starts_with("x", ""));
    assert!(!text::starts_with("v=", "v=0") && !text::starts_with("w=0", "v=0"));
    assert!(text::same("é", "é") && !text::same("é", "e") && !text::same("a", "ab"));
}

#[test]
fn bytes_decode_only_where_they_are_well_formed() {
    assert_eq!(text::decode("Café".as_bytes()).unwrap(), "Café");
    for bytes in [b"\xff".as_slice(), b"\xc3", b"\xed\xa0\x80"] {
        assert!(text::decode(bytes).is_none());
    }
}

#[test]
fn numbers_are_written_as_std_writes_them() {
    for value in [0u64, 7, 10, 99, 100, 12_345_678_901, u64::MAX] {
        let mut shown = String::from("n=");
        text::push_decimal(&mut shown, value);
        assert_eq!(shown, format!("n={value}"));
    }
    for value in [0i32, -1, 42, i32::MIN, i32::MAX] {
        let mut shown = String::new();
        text::push_signed(&mut shown, value);
        assert_eq!(shown, value.to_string());
    }
    for value in [0u32, 0xdeadbeef, 0x00ff00aa, u32::MAX] {
        let mut shown = String::new();
        text::push_hex8(&mut shown, value);
        assert_eq!(shown, format!("{value:08x}"));
    }
}
