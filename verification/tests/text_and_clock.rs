use simpermut::clock::{fmt_duration, LONGEST};
use simpermut::text::{
    chars_of, decimal_of, joined, matches_at, parse_u32, replace, rfind, slice, str_eq,
};

fn text(chars: &Vec<char>) -> String {
    chars.iter().collect()
}

#[test]
fn duration_is_written_in_days_and_two_digit_parts() {
    assert_eq!(fmt_duration(0), "0 Days - 00:00:00");
    assert_eq!(fmt_duration(59), "0 Days - 00:00:59");
    assert_eq!(fmt_duration(60), "0 Days - 00:01:00");
    assert_eq!(fmt_duration(3599), "0 Days - 00:59:59");
    assert_eq!(fmt_duration(86399), "0 Days - 23:59:59");
    assert_eq!(fmt_duration(86400), "1 Days - 00:00:00");
    assert_eq!(fmt_duration(93784), "1 Days - 02:03:04");
    assert_eq!(fmt_duration(15 * 1_000_000), "173 Days - 14:40:00");
    assert_eq!(fmt_duration(LONGEST), "106751991167 Days - 07:12:55");
}

#[test]
fn strings_are_equal_when_their_characters_are() {
    assert!(str_eq("", ""));
    assert!(str_eq("head", "head"));
    assert!(!str_eq("head", "heads"));
    assert!(!str_eq("head", "hear"));
    assert!(str_eq("gr\u{f6}\u{df}e", "gr\u{f6}\u{df}e"));
    assert!(!str_eq("gr\u{f6}\u{df}e", "grosse"));
}

#[test]
fn numbers_are_written_without_leading_zeros() {
    assert_eq!(text(&decimal_of(0)), "0");
    assert_eq!(text(&decimal_of(7)), "7");
    assert_eq!(text(&decimal_of(10)), "10");
    assert_eq!(text(&decimal_of(120)), "120");
    assert_eq!(text(&decimal_of(u64::MAX)), "18446744073709551615");
}

#[test]
fn numbers_are_read_from_digits_only() {
    assert_eq!(parse_u32(&chars_of("0")), Some(0));
    assert_eq!(parse_u32(&chars_of("007")), Some(7));
    assert_eq!(parse_u32(&chars_of("132444")), Some(132444));
    assert_eq!(parse_u32(&chars_of("4294967295")), Some(u32::MAX));
    assert_eq!(parse_u32(&chars_of("4294967296")), None);
    assert_eq!(parse_u32(&chars_of("99999999999999999999999")), None);
    assert_eq!(parse_u32(&chars_of("")), None);
    assert_eq!(parse_u32(&chars_of("12/34")), None);
    assert_eq!(parse_u32(&chars_of("+1")), None);
    assert_eq!(parse_u32(&chars_of("-1")), None);
    assert_eq!(parse_u32(&chars_of(" 1")), None);
    assert_eq!(parse_u32(&chars_of("\u{663}")), None);
}

#[test]
fn replace_goes_from_the_left_without_overlap() {
    let replaced = |t: &str, p: &str, w: &str| text(&replace(&chars_of(t), &chars_of(p), &chars_of(w)));
    assert_eq!(replaced("aaa", "aa", "b"), "ba");
    assert_eq!(replaced("abcabc", "bc", "x"), "axax");
    assert_eq!(replaced("abc", "d", "x"), "abc");
    assert_eq!(replaced("abc", "", "x"), "abc");
    assert_eq!(replaced("", "a", "x"), "");
    assert_eq!(replaced("aaaa", "a", "aa"), "aaaaaaaa");
    assert_eq!(replaced("report_{}.html", "{}", "12"), "report_12.html");
    assert_eq!(replaced("{}{}", "{}", ""), "");
    assert_eq!(replaced("ab", "abc", "x"), "ab");
}

#[test]
fn small_text_routines() {
    assert_eq!(text(&joined(&chars_of("ab"), &chars_of("cd"))), "abcd");
    assert_eq!(text(&joined(&chars_of(""), &chars_of(""))), "");
    assert_eq!(rfind(&chars_of("a/b/c"), '/'), Some(3));
    assert_eq!(rfind(&chars_of("abc"), '/'), None);
    assert_eq!(rfind(&chars_of("/"), '/'), Some(0));
    assert_eq!(text(&slice(&chars_of("abcdef"), 2, 4)), "cd");
    assert_eq!(text(&slice(&chars_of("abcdef"), 3, 3)), "");
    assert!(matches_at(&chars_of("abcdef"), &chars_of("cd"), 2));
    assert!(!matches_at(&chars_of("abcdef"), &chars_of("cd"), 3));
    assert!(!matches_at(&chars_of("abcdef"), &chars_of("efg"), 4));
    assert!(matches_at(&chars_of("abc"), &chars_of(""), 3));
    assert_eq!(chars_of("h\u{e9}!"), vec!['h', '\u{e9}', '!']);
}
