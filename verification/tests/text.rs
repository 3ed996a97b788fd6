use zeroin::text::{
    chars_eq_ignore_ascii_case, chars_of, find_char, is_whitespace, lowercase_chars, string_of,
    trim_chars,
};

#[test]
fn whitespace_matches_std_for_every_char() {
    for u in 0u32..=0x10FFFF {
        if let Some(c) = char::from_u32(u) {
            assert_eq!(is_whitespace(c), c.is_whitespace(), "U+{:04X}", u);
        }
    }
}

#[test]
fn trim_matches_std() {
    for s in ["", "  ", "a", " a ", "\t\r\n x y \u{3000}", "\u{a0}\u{2028}z\u{85}", "é ", " \u{200b}"] {
        let v = chars_of(s);
        let t: String = trim_chars(&v).into_iter().collect();
        assert_eq!(t, s.trim(), "{:?}", s);
    }
}

#[test]
fn lowercase_matches_std() {
    for s in ["", "abc_9", "ABC", "ÀÉÎ", "ΟΔΥΣΣΕΥΣ", "\u{212a}elvin", "İ", "Mixed Case"] {
        let v = chars_of(s);
        let l: String = lowercase_chars(&v).into_iter().collect();
        assert_eq!(l, s.to_lowercase(), "{:?}", s);
    }
}

#[test]
fn chars_and_strings_round_trip() {
    let s = "héllo, 世界";
    let v = chars_of(s);
    assert_eq!(v, s.chars().collect::<Vec<char>>());
    assert_eq!(string_of(&v), s);
}

#[test]
fn ascii_case_comparison() {
    assert!(chars_eq_ignore_ascii_case(&chars_of("TrUe"), &chars_of("true")));
    assert!(!chars_eq_ignore_ascii_case(&chars_of("tru"), &chars_of("true")));
    assert!(!chars_eq_ignore_ascii_case(&chars_of("É"), &chars_of("é")));
}

#[test]
fn find_first_char() {
    assert_eq!(find_char(&chars_of("a=b=c"), '='), Some(1));
    assert_eq!(find_char(&chars_of("abc"), '='), None);
}
