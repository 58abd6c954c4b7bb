use heineos::text::{
    digit, ends_with_char, find_char, find_ws, is_whitespace, parse_usize, push_decimal, push_hex_fixed, push_str, push_zero_padded, starts_with, str_equal,
    trim_end_matches_char, trim_start_matches_char, trim_str,
};

#[test]
fn trim_removes_surrounding_whitespace() {
    assert_eq!(trim_str("  ls /roms \t\n"), "ls /roms");
    assert_eq!(trim_str("   "), "");
    assert_eq!(trim_str(""), "");
    assert_eq!(trim_str("\u{3000}x\u{a0}"), "x");
}

#[test]
fn whitespace_matches_std() {
    for c in ['a', ' ', '\t', '\n', '\u{85}', '\u{a0}', '\u{2028}', '\u{3000}', 'ä', '0'] {
        assert_eq!(is_whitespace(c), c.is_whitespace());
    }
}

#[test]
fn character_search() {
    assert_eq!(find_ws("echo hi"), 4);
    assert_eq!(find_ws("echo"), 4);
    assert_eq!(find_char("roms/2048.gb", '/'), 4);
    assert_eq!(find_char("file", '/'), 4);
    assert!(ends_with_char("dir/", '/'));
    assert!(!ends_with_char("", '/'));
}

#[test]
fn matching_characters_are_stripped() {
    assert_eq!(trim_start_matches_char("//heine.bmp", '/'), "heine.bmp");
    assert_eq!(trim_end_matches_char("roms///", '/'), "roms");
    assert_eq!(trim_end_matches_char("///", '/'), "");
}

#[test]
fn comparisons() {
    assert!(str_equal("help", "help"));
    assert!(!str_equal("help", "hel"));
    assert!(starts_with("hexdump", "he"));
    assert!(!starts_with("he", "hexdump"));
    assert!(starts_with("anything", ""));
}

#[test]
fn characters_are_appended() {
    let mut s = String::from("ab");
    push_str(&mut s, "c");
    assert_eq!(s, "abc");
    let mut n = String::from("n=");
    push_decimal(&mut n, 42);
    assert_eq!(n, "n=42");
}

#[test]
fn decimal_formatting() {
    let mut s = String::new();
    push_decimal(&mut s, 0);
    assert_eq!(s, "0");
    let mut s = String::new();
    push_decimal(&mut s, 1234567);
    assert_eq!(s, "1234567");
    let mut s = String::from("x");
    push_zero_padded(&mut s, 7, 3);
    assert_eq!(s, "x007");
    let mut s = String::new();
    push_zero_padded(&mut s, 12345, 3);
    assert_eq!(s, "12345");
    assert_eq!(digit(9), '9');
}

#[test]
fn hexadecimal_formatting() {
    let mut s = String::new();
    push_hex_fixed(&mut s, 0x1f0, 8);
    assert_eq!(s, "000001f0");
    let mut s = String::new();
    push_hex_fixed(&mut s, 0xab, 2);
    assert_eq!(s, "ab");
    let mut s = String::from("a");
    push_str(&mut s, "bc");
    assert_eq!(s, "abc");
}

#[test]
fn numbers_are_parsed_like_std() {
    for text in ["0", "42", "+7", "007", "", "+", "-1", "12a", " 5", "18446744073709551615", "18446744073709551616", "99999999999999999999999"] {
        assert_eq!(parse_usize(text), text.parse::<usize>().ok(), "text {:?}", text);
    }
}
