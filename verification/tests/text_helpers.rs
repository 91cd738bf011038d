use lana_boards::text::{
    char_ascii_lower, char_is_whitespace, chars_end_with, chars_eq_ignore_ascii_case, clean_text,
    from_chars, lowercase_starts_with, push_decimal, push_signed_decimal, str_eq, to_chars,
    trim_bounds,
};

#[test]
fn clean_text_trims_and_drops_blank_text() {
    assert_eq!(clean_text("  Foo \n"), Some("Foo".to_string()));
    assert_eq!(clean_text("Foo"), Some("Foo".to_string()));
    assert_eq!(clean_text("a  b"), Some("a  b".to_string()));
    assert_eq!(clean_text(""), None);
    assert_eq!(clean_text(" \t\r\n"), None);
    assert_eq!(clean_text("\u{a0}x\u{3000}"), Some("x".to_string()));
}

#[test]
fn clean_text_agrees_with_trim_on_mixed_texts() {
    let samples = ["", " ", "a", " a", "a ", "\u{2003}a b\u{2028}", "\u{feff}a", "\u{200b}a", "\u{85}z\u{1680}"];
    for s in samples {
        let expected = if s.trim().is_empty() { None } else { Some(s.trim().to_string()) };
        assert_eq!(clean_text(s), expected, "{:?}", s);
    }
}

#[test]
fn whitespace_is_what_char_says_it_is() {
    for code in 0u32..0x11000 {
        if let Some(c) = char::from_u32(code) {
            assert_eq!(char_is_whitespace(c), c.is_whitespace(), "{:x}", code);
        }
    }
}

#[test]
fn ascii_lower_agrees_with_std() {
    for code in 0u32..0x250 {
        if let Some(c) = char::from_u32(code) {
            assert_eq!(char_ascii_lower(c), c.to_ascii_lowercase());
        }
    }
}

#[test]
fn chars_round_trip() {
    let v = to_chars("h\u{e9}llo");
    assert_eq!(v, vec!['h', '\u{e9}', 'l', 'l', 'o']);
    assert_eq!(from_chars(&v, 0, 5), "h\u{e9}llo");
    assert_eq!(from_chars(&v, 1, 3), "\u{e9}l");
    assert_eq!(from_chars(&v, 2, 2), "");
}

#[test]
fn trim_bounds_of_padded_text() {
    let v = to_chars("  ab ");
    assert_eq!(trim_bounds(&v), (2, 4));
    let blank = to_chars("   ");
    let (lo, hi) = trim_bounds(&blank);
    assert_eq!(lo, hi);
}

#[test]
fn comparisons_on_characters() {
    assert!(str_eq("abc", "abc"));
    assert!(!str_eq("abc", "abd"));
    assert!(!str_eq("abc", "ab"));
    let v = to_chars("Image/JPEG; q=1");
    assert!(lowercase_starts_with(&v, "image/jpeg"));
    assert!(!lowercase_starts_with(&v, "image/png"));
    assert!(!lowercase_starts_with(&to_chars("im"), "image/"));
    assert!(chars_end_with(&to_chars("printer.local"), ".local"));
    assert!(!chars_end_with(&to_chars("local"), ".local"));
    assert!(chars_eq_ignore_ascii_case(&to_chars("LocalHost"), "localhost"));
    assert!(!chars_eq_ignore_ascii_case(&to_chars("localhos"), "localhost"));
}

#[test]
fn decimal_notation_of_numbers() {
    let mut s = String::new();
    push_decimal(&mut s, 0);
    assert_eq!(s, "0");
    let mut s = "n=".to_string();
    push_decimal(&mut s, 1234567890123);
    assert_eq!(s, "n=1234567890123");
    let mut s = String::new();
    push_decimal(&mut s, u128::MAX);
    assert_eq!(s, u128::MAX.to_string());
    let mut s = String::new();
    push_signed_decimal(&mut s, -42);
    assert_eq!(s, "-42");
    let mut s = String::new();
    push_signed_decimal(&mut s, i64::MIN);
    assert_eq!(s, i64::MIN.to_string());
    let mut s = String::new();
    push_signed_decimal(&mut s, i64::MAX);
    assert_eq!(s, i64::MAX.to_string());
}
