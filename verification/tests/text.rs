use revolut_trading::text::{chars_of, decimal_string, is_white_space_char, str_eq, string_from_chars, trim_chars};

#[test]
fn chars_round_trip() {
    let v = chars_of("añb€");
    assert_eq!(v, vec!['a', 'ñ', 'b', '€']);
    assert_eq!(string_from_chars(&v), "añb€");
}

#[test]
fn str_eq_compares_characters() {
    assert!(str_eq("USD", "USD"));
    assert!(!str_eq("USD", "usd"));
    assert!(!str_eq("USD", "USDT"));
    assert!(str_eq("", ""));
}

#[test]
fn trim_removes_unicode_white_space() {
    let t: String = trim_chars(" \t 3\r\n").into_iter().collect();
    assert_eq!(t, "3");
    let t: String = trim_chars("\u{3000}a b\u{a0}").into_iter().collect();
    assert_eq!(t, "a b");
    assert!(trim_chars("  \n").is_empty());
    assert!(is_white_space_char('\u{2028}'));
    assert!(!is_white_space_char('x'));
    assert!(!is_white_space_char('\u{200b}'));
}

#[test]
fn trim_matches_std() {
    for s in [" x ", "\u{85}y\u{1680}", "a\u{200a}", "", " ", "in\tner"] {
        let t: String = trim_chars(s).into_iter().collect();
        assert_eq!(t, s.trim());
    }
}

#[test]
fn decimal_matches_display() {
    assert_eq!(decimal_string(0), "0");
    assert_eq!(decimal_string(7), "7");
    assert_eq!(decimal_string(10), "10");
    assert_eq!(decimal_string(1725029869123), "1725029869123");
    assert_eq!(decimal_string(u128::MAX), u128::MAX.to_string());
}
