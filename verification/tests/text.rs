use ipinfo_round_robin_api::text::{
    chars_of, contains, count_pieces, decimal, eq_ignore_ascii_case, is_white_space, joined,
    parse_number, same, text_of, trim_end_matches, NumberFault,
};

#[test]
fn white_space_is_that_of_unicode() {
    for code in 0..=0x10ffffu32 {
        if let Some(c) = char::from_u32(code) {
            assert_eq!(is_white_space(c), c.is_whitespace(), "{code:x}");
        }
    }
}

#[test]
fn decimals() {
    for n in [0, 7, 10, 60, 99, 100, 4711, u64::MAX] {
        assert_eq!(decimal(n), n.to_string());
        assert_eq!(parse_number(&decimal(n), u64::MAX), Ok(n));
    }
}

#[test]
fn numbers_and_their_faults() {
    assert_eq!(parse_number("42", 42), Ok(42));
    assert_eq!(parse_number("43", 42), Err(NumberFault::TooLarge));
    assert_eq!(parse_number("", 42), Err(NumberFault::Empty));
    assert_eq!(parse_number("+", 42), Err(NumberFault::InvalidDigit));
    assert_eq!(parse_number("4_2", 42), Err(NumberFault::InvalidDigit));
    assert_eq!(parse_number("18446744073709551616", u64::MAX), Err(NumberFault::TooLarge));
}

#[test]
fn comparisons() {
    assert!(same("größe", "größe"));
    assert!(!same("größe", "große"));
    assert!(!same("a", "ab"));
    assert!(eq_ignore_ascii_case("TRUE", "true"));
    assert!(!eq_ignore_ascii_case("É", "é"));
    assert!(!eq_ignore_ascii_case("tru", "true"));
    assert!(!eq_ignore_ascii_case("@[`{", "`{@["));
}

#[test]
fn parts() {
    for (whole, part) in [
        ("max-age=0, no-cache", "no-cache"),
        ("no-cach", "no-cache"),
        ("no-cno-cache", "no-cache"),
        ("No-Cache", "no-cache"),
        ("", ""),
        ("abc", ""),
        ("", "a"),
    ] {
        assert_eq!(contains(whole, part), whole.contains(part));
    }
}

#[test]
fn pieces() {
    for path in ["", "/", "//", "/a", "/a/", "//a//b", "a/b/c", "/8.8.8.8/country"] {
        let expected = path.split('/').filter(|s| !s.is_empty()).count();
        assert_eq!(count_pieces(path, '/'), expected, "{path}");
        assert_eq!(trim_end_matches(path, '/'), path.trim_end_matches('/'));
    }
}

#[test]
fn characters_and_texts() {
    assert_eq!(chars_of("añb"), vec!['a', 'ñ', 'b']);
    assert_eq!(text_of(&['a', 'ñ']), "añ");
    assert_eq!(joined("GET", ":/"), "GET:/");
}
