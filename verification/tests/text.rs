use fetch_server::number::{decimal_text, float_text, parse_unsigned};
use fetch_server::text::{
    chars_of, contains, find_first, find_last, same_text, slice_text, starts_with, trim, white_space,
};

#[test]
fn white_space_is_that_of_std() {
    for u in 0..=0x10FFFFu32 {
        if let Some(c) = char::from_u32(u) {
            assert_eq!(white_space(c), c.is_whitespace(), "U+{:X}", u);
        }
    }
}

#[test]
fn trim_agrees_with_std() {
    for s in [
        "", " ", " \t\n", "a", " a", "a ", "  a b  ", "\u{a0}x\u{3000}", "\u{2028}", "\u{200b}x ",
        "ä \u{85}", "\u{1680}é\u{205f}",
    ] {
        assert_eq!(trim(s), s.trim(), "{:?}", s);
        assert_eq!(trim(trim(s)), trim(s));
        assert!(s.contains(trim(s)));
    }
}

#[test]
fn finds_the_first_and_the_last() {
    let s = chars_of("ab][cd][e");
    let mark = chars_of("][");
    assert_eq!(find_first(&s, &mark), Some(2));
    assert_eq!(find_last(&s, &mark), Some(6));
    assert_eq!(find_first(&s, &chars_of("x")), None);
    assert_eq!(find_last(&s, &chars_of("x")), None);
    assert_eq!(find_first(&mark, &s), None);
    assert_eq!(find_last(&mark, &s), None);
    assert_eq!(find_first(&s, &[]), Some(0));
    assert_eq!(find_last(&s, &[]), Some(9));
    assert_eq!(find_last(&chars_of("]]]"), &chars_of("]]")), Some(1));
}

#[test]
fn beginnings_and_parts() {
    assert!(starts_with(&chars_of("bytes=0-"), &chars_of("bytes=")));
    assert!(!starts_with(&chars_of("byte"), &chars_of("bytes=")));
    assert!(!starts_with(&chars_of(" bytes="), &chars_of("bytes=")));
    assert!(contains("https://mega.nz/x", "mega.nz"));
    assert!(!contains("https://mega.co/x", "mega.nz"));
    assert!(contains("x", ""));
    assert!(same_text("ä", "ä"));
    assert!(!same_text("ab", "abc"));
    assert!(!same_text("ab", "ac"));
}

#[test]
fn slices_are_built_character_by_character() {
    let cs = chars_of("aé…z");
    assert_eq!(slice_text(&cs, 0, 4), "aé…z");
    assert_eq!(slice_text(&cs, 1, 3), "é…");
    assert_eq!(slice_text(&cs, 2, 2), "");
}

#[test]
fn unsigned_numbers_agree_with_std() {
    for s in [
        "", "+", "-", "0", "007", "+7", "++7", "-1", "-0", "12a", " 1", "1_0", "4294967295",
        "4294967296", "18446744073709551615", "18446744073709551616", "99999999999999999999",
        "000000000000000000000000000012", "1.0", "٣",
    ] {
        assert_eq!(parse_unsigned(s, u64::MAX), s.parse::<u64>().ok(), "{:?}", s);
        assert_eq!(
            parse_unsigned(s, u32::MAX as u64),
            s.parse::<u32>().ok().map(|v| v as u64),
            "{:?}",
            s
        );
    }
}

#[test]
fn decimal_digits_read_back() {
    for n in [0, 1, 9, 10, 11, 99, 100, 65535, 4294967296, u64::MAX] {
        assert_eq!(decimal_text(n), n.to_string());
        assert_eq!(parse_unsigned(&decimal_text(n), u64::MAX), Some(n));
    }
}

#[test]
fn float_literals_agree_with_std() {
    for s in [
        "", "+", "-", ".", "1", "1.", ".1", "1.5", "-1.5", "+1.5", "1e5", "1E-5", "1e+5", "1e", "1e+",
        "e5", ".e5", "1.e5", ".5e5", "1.5.5", "1..5", "inf", "-inf", "+Infinity", "INF", "infinit",
        "nan", "NaN", "-nan", "nano", "0x10", "1_000", " 1", "1 ", "--1", "1e5.5", "12a", "٣", "1,5",
        "infinityy", "1f", "00012.500", "1e1000", "1e-1000",
    ] {
        assert_eq!(float_text(s), s.parse::<f64>().is_ok(), "{:?}", s);
    }
}
