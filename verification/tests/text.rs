use mcclwrap::slang::{ResultExt, StringExt, VecExt};
use mcclwrap::text::{
    chars_of, decimal_text, digits_end, literal_at, newline_free, parse_number, same_text,
};
use mcclwrap::util::{strip_leading_ascii_hspace, strip_trailing_ascii_space};

#[test]
fn leading_spaces_and_tabs_are_stripped() {
    assert_eq!(strip_leading_ascii_hspace(" \t list \n"), "list \n");
    assert_eq!(strip_leading_ascii_hspace("\n list"), "\n list");
    assert_eq!(strip_leading_ascii_hspace("\u{a0}list"), "\u{a0}list");
    assert_eq!(strip_leading_ascii_hspace(" \t"), "");
    assert_eq!(strip_leading_ascii_hspace(""), "");
}

#[test]
fn stripping_is_what_std_does() {
    for s in ["", " ", "\t\n x \t\n ", "été \t", "\ta\tb", "x\r\n"].iter() {
        assert_eq!(strip_leading_ascii_hspace(s), s.trim_start_matches(&[' ', '\t'] as &[_]));
        assert_eq!(
            strip_trailing_ascii_space(s),
            s.trim_end_matches(&[' ', '\t', '\n'] as &[_])
        );
    }
}

#[test]
fn decimal_numbers_read_back() {
    for n in [0u64, 7, 10, 99, 100, 4294967295, u64::MAX].iter() {
        let digits = decimal_text(*n);
        assert_eq!(digits, n.to_string());
        let chars = chars_of(&digits);
        assert_eq!(parse_number(&chars, 0, chars.len(), u64::MAX), Some(*n));
    }
}

#[test]
fn numbers_have_a_limit() {
    let chars = chars_of("x4294967296");
    assert_eq!(parse_number(&chars, 1, chars.len(), u32::MAX as u64), None);
    assert_eq!(parse_number(&chars, 1, chars.len() - 1, u32::MAX as u64), Some(429496729));
    let chars = chars_of("18446744073709551616");
    assert_eq!(parse_number(&chars, 0, chars.len(), u64::MAX), None);
    let chars = chars_of("000000000000000000000000000018446744073709551615");
    assert_eq!(parse_number(&chars, 0, chars.len(), u64::MAX), Some(u64::MAX));
}

#[test]
fn texts_are_compared_by_character() {
    assert!(same_text("é", "é"));
    assert!(!same_text("ready", "ready "));
    assert!(!same_text("slash", "slasH"));
    assert!(same_text("", ""));
    let chars = chars_of("aéb\n12c");
    assert!(literal_at(&chars, 1, "éb"));
    assert!(!literal_at(&chars, 6, "cc"));
    assert!(newline_free(&chars, 4));
    assert!(!newline_free(&chars, 3));
    assert_eq!(digits_end(&chars, 4), 6);
    assert_eq!(digits_end(&chars, 0), 0);
}

#[test]
fn either_side_is_the_inner_value() {
    let ok: Result<u8, u8> = Ok(1);
    let err: Result<u8, u8> = Err(2);
    assert_eq!(ok.into_inner(), 1);
    assert_eq!(err.into_inner(), 2);
}

#[test]
fn suffix_is_added_once() {
    let mut s = String::from("list");
    s.now_ends_with("\n");
    assert_eq!(s, "list\n");
    s.now_ends_with("\n");
    assert_eq!(s, "list\n");
    let mut short = String::from("m");
    short.now_ends_with("\x1B[m");
    assert_eq!(short, "m\x1B[m");
    let mut empty = String::new();
    empty.now_ends_with("");
    assert_eq!(empty, "");
}

#[test]
fn map_retain_changes_and_filters_in_place() {
    let mut numbers = vec![1, 2, 3, 4, 5, 6];
    let removed = numbers.map_retain(|n: &mut i32| {
        *n *= 10;
        *n % 20 == 0
    });
    assert_eq!(numbers, vec![20, 40, 60]);
    assert_eq!(removed, 3);
    assert_eq!(numbers.map_retain(|_: &mut i32| true), 0);
    assert_eq!(numbers, vec![20, 40, 60]);
    assert_eq!(numbers.map_retain(|_: &mut i32| false), 3);
    assert!(numbers.is_empty());
}
