use grep_cmd::text;
use grep_cmd::text::NumberError;

const SAMPLES: [&str; 20] = [
    "", " ", "a", "\n", "\r\n", "\r", "a\n", "a\r\n", "a\r", "a\n\nb", "\n\n", "a\rb\r\nc\r",
    "  a b \t", "\u{2003}x\u{85}", "\u{200b}x", "a/b//c/", "/", "+12", "0012", "ครับ/é",
];

#[test]
fn white_space_is_that_of_unicode() {
    for c in '\0'..=char::MAX {
        assert_eq!(text::is_white_char(c), c.is_whitespace(), "{:?}", c);
    }
}

#[test]
fn trimming_agrees_with_the_standard_library() {
    for s in SAMPLES {
        assert_eq!(text::trim(s), s.trim());
    }
}

#[test]
fn lines_agree_with_the_standard_library() {
    for s in SAMPLES {
        assert_eq!(text::lines(s), s.lines().collect::<Vec<_>>(), "{:?}", s);
    }
}

#[test]
fn splitting_and_joining_undo_each_other() {
    for s in SAMPLES {
        let parts = text::split(s, '/');
        assert_eq!(parts, s.split('/').collect::<Vec<_>>());
        assert_eq!(text::join(&parts, "/"), s);
    }
    assert_eq!(text::join(&Vec::new(), "/"), "");
}

#[test]
fn numbers_are_read_as_by_the_standard_library() {
    for s in [
        "", "+", "-", "-0", "0", "7", "+7", "++7", "007", " 7", "7 ", "7a", "1_000", "٣",
        "18446744073709551615", "18446744073709551616", "99999999999999999999999", "4294967296",
    ] {
        assert_eq!(text::parse_number(s).ok(), s.parse::<usize>().ok(), "{:?}", s);
    }
    let digits = text::chars_of("x42y");
    assert_eq!(text::parse_digits(&digits, 1, 3), Ok(42));
    assert_eq!(text::parse_digits(&digits, 1, 1), Err(NumberError::InvalidDigit));
    assert_eq!(text::parse_digits(&text::chars_of("+1"), 0, 2), Err(NumberError::InvalidDigit));
}

#[test]
fn what_is_wrong_with_a_number_is_said_as_by_the_standard_library() {
    for s in [
        "", "+", "-", "-0", "++7", " 7", "7 ", "7a", "a7", "1_000", "٣", "1٣", "é",
        "18446744073709551616", "+18446744073709551616", "99999999999999999999999",
        "99999999999999999999999x", "1x99999999999999999999999", "x99999999999999999999999",
        "18446744073709551615x", "+18446744073709551616x", "184467440737095516150",
        "0000000000000000000000000000x", "99999999999999999999x9999",
    ] {
        let ours = text::parse_number(s).expect_err("no number").message();
        let theirs = s.parse::<usize>().expect_err("no number").to_string();
        assert_eq!(ours, theirs, "{:?}", s);
    }
    assert_eq!(text::parse_number(""), Err(NumberError::Empty));
    assert_eq!(text::parse_number("+"), Err(NumberError::InvalidDigit));
    assert_eq!(text::parse_number("99999999999999999999999x"), Err(NumberError::TooLarge));
}

#[test]
fn numbers_are_written_as_they_are_read() {
    for n in [0, 7, 10, 19, 100, 65536, usize::MAX] {
        let mut s = String::from("n=");
        text::push_number(&mut s, n);
        assert_eq!(s, format!("n={}", n));
        assert_eq!(text::parse_number(&s[2..]), Ok(n));
    }
}

#[test]
fn the_first_occurrence_is_found() {
    for (hay, needle) in [
        ("", ""), ("abc", ""), ("", "a"), ("abcabc", "bc"), ("abcabc", "cab"), ("aab", "ab"),
        ("abc", "abcd"), ("abc", "x"), ("ครับ นี่ ครับ", "นี่"), ("ééa", "a"),
    ] {
        let expected = hay.find(needle).map(|pos| hay[..pos].chars().count());
        assert_eq!(text::find(hay, needle), expected, "{:?} {:?}", hay, needle);
    }
}

#[test]
fn bars_are_replaced_from_the_left() {
    for s in [r"", r"\|", r"a\|b\|c", r"\\|", r"|\", r"a|b", r"\\", r"\|\|", r"x\"] {
        assert_eq!(text::plain_bars(s), s.replace(r"\|", "|"), "{:?}", s);
    }
}

#[test]
fn pieces_of_strings() {
    assert_eq!(text::strip_prefix("--max=3", "--max="), Some("3"));
    assert_eq!(text::strip_prefix("--max", "--max="), None);
    assert_eq!(text::strip_prefix("-x", "-"), Some("x"));
    assert_eq!(text::strip_prefix("éa", "é"), Some("a"));
    assert_eq!(text::strip_prefix("abc", "abd"), None);
    assert!(text::starts_with("-a", '-'));
    assert!(!text::starts_with("", '-'));
    assert!(text::same_text("é", "é"));
    assert!(!text::same_text("é", "e"));
    assert!(!text::same_text("ab", "a"));
    assert_eq!(text::concat("a", "bé"), "abé");
    assert_eq!(text::byte_count("aé"), 3);
    assert_eq!(text::text_of(&text::chars_of("aébc"), 1, 3), "éb");
    assert!(text::holds_from(&text::chars_of("abc"), 1, 'c'));
    assert!(!text::holds_from(&text::chars_of("abc"), 1, 'a'));
    let mut list = vec!["x".to_string()];
    text::push_from(&mut list, &["a".to_string(), "b".to_string()], 1);
    assert_eq!(list, vec!["x", "b"]);
}
