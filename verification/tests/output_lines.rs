use grep_cmd::args::{parse_grep_args, GrepInvocation, GrepSearch};
use grep_cmd::clean::{clean_line, context_regex, cut_line, show_whole, try_clean_line};
use grep_cmd::match_line::parse_match_line;
use regex::Regex;

fn search_for(args: &[&str]) -> GrepSearch {
    let args: Vec<String> = args.iter().map(|arg| arg.to_string()).collect();
    match parse_grep_args(&args).expect("valid grep args") {
        GrepInvocation::Search(search) => search,
        GrepInvocation::RgPassthrough(_) => panic!("expected search invocation"),
    }
}

#[test]
fn test_clean_line() {
    let line = "            const result = someFunction();";
    let cleaned = clean_line(line, 50, None, "result");
    assert!(!cleaned.starts_with(' '));
    assert!(cleaned.len() <= 50);
}

#[test]
fn test_clean_line_multibyte() {
    // Thai text that exceeds max_len in bytes
    let line = "  สวัสดีครับ นี่คือข้อความที่ยาวมากสำหรับทดสอบ  ";
    let cleaned = clean_line(line, 20, None, "ครับ");
    // Should not panic
    assert!(!cleaned.is_empty());
}

#[test]
fn test_clean_line_emoji() {
    let line = "🎉🎊🎈🎁🎂🎄 some text 🎃🎆🎇✨";
    let cleaned = clean_line(line, 15, None, "text");
    assert!(!cleaned.is_empty());
}

#[test]
fn test_parse_match_line_simple() {
    let line = "file.php\x0010:use Foo\\Bar;";
    let (file, line_num, content) = parse_match_line(line).unwrap();
    assert_eq!(file, "file.php");
    assert_eq!(line_num, 10);
    assert_eq!(content, "use Foo\\Bar;");
}

// Content with `::` must not split into a phantom file bucket.
#[test]
fn test_parse_match_line_content_with_double_colon() {
    let line = "externalImportShell.class.php\x0081:        $this->queueProcessModel = ClassRegistry::init('Collections.QueueProcess');";
    let (file, line_num, content) = parse_match_line(line).unwrap();
    assert_eq!(file, "externalImportShell.class.php");
    assert_eq!(line_num, 81);
    assert_eq!(
        content,
        "        $this->queueProcessModel = ClassRegistry::init('Collections.QueueProcess');"
    );
}

// Drive letters and backslashes must not break the parser.
#[test]
fn test_parse_match_line_windows_path() {
    let line = "C:\\src\\file.rs\x0042:fn main() {}";
    let (file, line_num, content) = parse_match_line(line).unwrap();
    assert_eq!(file, r"C:\src\file.rs");
    assert_eq!(line_num, 42);
    assert_eq!(content, "fn main() {}");
}

// Filenames containing `:digits:` must still parse correctly.
#[test]
fn test_parse_match_line_filename_with_colons() {
    let line = "badly_named:52:file.txt\x001:xxx";
    let (file, line_num, content) = parse_match_line(line).unwrap();
    assert_eq!(file, "badly_named:52:file.txt");
    assert_eq!(line_num, 1);
    assert_eq!(content, "xxx");
}

// Content that itself contains `:digits:` must not confuse the parser.
#[test]
fn test_parse_match_line_content_with_digit_colons() {
    let line = "log.txt\x007:debug: counter is :42: now";
    let (file, line_num, content) = parse_match_line(line).unwrap();
    assert_eq!(file, "log.txt");
    assert_eq!(line_num, 7);
    assert_eq!(content, "debug: counter is :42: now");
}

#[test]
fn test_parse_match_line_malformed_returns_none() {
    // No NUL separator (e.g. rg/grep invoked without --null/-Z, or a
    // context line written with `-`).
    assert!(parse_match_line("file.rs:1:content").is_none());
    assert!(parse_match_line("not a match line").is_none());
    // Missing line number after NUL
    assert!(parse_match_line("file.rs\x00fn foo()").is_none());
    // Empty
    assert!(parse_match_line("").is_none());
}

#[test]
fn test_parse_match_line_empty_content() {
    let line = "file.rs\x007:";
    let (file, line_num, content) = parse_match_line(line).unwrap();
    assert_eq!(file, "file.rs");
    assert_eq!(line_num, 7);
    assert_eq!(content, "");
}

/// The same reading, by a regular expression.
fn by_expression(line: &str) -> Option<(String, usize, String)> {
    let re = Regex::new(r"^([^\x00]+)\x00(\d+):(.*)$").unwrap();
    let caps = re.captures(line)?;
    let line_num: usize = caps[2].parse().ok()?;
    Some((caps[1].to_string(), line_num, caps[3].to_string()))
}

#[test]
fn match_lines_agree_with_a_regular_expression() {
    let pieces = ["", "a", "\0", ":", "7", "12", "\n", "\r", "٣", "+", "-", "é", "18446744073709551616"];
    let mut lines: Vec<String> = vec![String::new()];
    for _ in 0..5 {
        let mut longer: Vec<String> = Vec::new();
        for line in &lines {
            for piece in pieces {
                longer.push(format!("{}{}", line, piece));
            }
        }
        longer.sort();
        longer.dedup();
        lines = longer;
    }
    let re = Regex::new(r"^([^\x00]+)\x00(\d+):(.*)$").unwrap();
    for line in &lines {
        let expected = re.captures(line).and_then(|caps| {
            let line_num: usize = caps[2].parse().ok()?;
            Some((caps[1].to_string(), line_num, caps[3].to_string()))
        });
        let actual = parse_match_line(line).map(|(f, n, c)| (f, n, c.to_string()));
        assert_eq!(actual, expected, "{:?}", line);
    }
    for line in ["f\x000018:x", "f\x0018446744073709551615:x", "a\nb\x001:c", "a\x001:b\0c", "a\x001:c\n"] {
        let actual = parse_match_line(line).map(|(f, n, c)| (f, n, c.to_string()));
        assert_eq!(actual, by_expression(line), "{:?}", line);
    }
}

#[test]
fn a_written_match_is_read_back() {
    for (file, line_num, content) in [
        ("a:1:b", 3, "x::y:4:"), ("é", usize::MAX, ""), ("a b", 0, "\0:\0"), (" ", 10, " "),
    ] {
        let line = format!("{}\0{}:{}", file, line_num, content);
        assert_eq!(parse_match_line(&line), Some((file.to_string(), line_num, content)));
    }
}

#[test]
fn short_lines_are_shown_whole() {
    assert_eq!(clean_line("  abc\t", 3, None, "x"), "abc");
    assert_eq!(clean_line("", 0, None, "x"), "");
    assert_eq!(clean_line("\u{a0}é ", 2, None, "x"), "é");
}

#[test]
fn long_lines_are_cut_around_the_pattern() {
    let line = "0123456789abcdefghijKLMNOPQRSTuvwxyz";
    // In the middle: a third before the hit, dots on both sides.
    assert_eq!(clean_line(line, 9, None, "klm"), "...hijKLMNOP...");
    // Near the end.
    assert_eq!(clean_line(line, 9, None, "xyz"), "...rSTuvwxyz".replace('r', "R"));
    // Near the start.
    assert_eq!(clean_line(line, 9, None, "012"), "012345678...");
    // Nowhere: cut at the end, the dots count.
    assert_eq!(clean_line(line, 9, None, "nope"), "012345...");
    // An empty pattern stands at the start.
    assert_eq!(clean_line(line, 9, None, ""), "012345678...");
    // Long in bytes only: nothing is left out, and the dots come all the same.
    assert_eq!(clean_line("ééé", 4, None, "é"), "ééé...");
    assert_eq!(clean_line("ééé", 4, None, "x"), "é...");
    assert_eq!(clean_line("ééééé", 9, None, "x"), "ééééé...");
}

#[test]
fn the_pattern_is_found_in_either_case() {
    assert_eq!(clean_line("xxxxxxxxxxÄBCxxxxxxxxxx", 6, None, "äbc"), "...xxÄBCx...");
    assert_eq!(clean_line("xxxxxxxxxxäbcxxxxxxxxxx", 6, None, "ÄBC"), "...xxäbcx...");
    // The lower-case form may be longer than the line.
    assert_eq!(clean_line("İİİİİİİİz", 6, None, "z"), "...İİİİİz");
}

#[test]
fn lines_without_room_for_dots_are_undefined() {
    assert_eq!(try_clean_line("abcd", 2, None, "x"), None);
    assert_eq!(try_clean_line("abcd", 0, None, "x"), None);
    assert_eq!(try_clean_line("abcd", 3, None, "x"), Some("...".to_string()));
    assert_eq!(try_clean_line("abcd", 2, None, "c"), Some("...cd".to_string()));
    assert_eq!(try_clean_line("ab", 2, None, "x"), Some("ab".to_string()));
    assert_eq!(try_clean_line("abcd", 0, None, "b"), Some("......".to_string()));
}

#[test]
fn a_shown_line_is_never_much_longer_than_asked() {
    let line = "the quick brown fox jumps over the lazy dog";
    for max_len in 3..60 {
        for pattern in ["the", "fox", "dog", "cat", "o", ""] {
            let shown = clean_line(line, max_len, None, pattern);
            assert!(shown.chars().count() <= max_len + 6);
        }
    }
}

#[test]
fn a_cut_line_shows_the_whole_pattern() {
    let line = "0123456789abcdefghijKLMNOPQRSTuvwxyz";
    for from in 0..line.len() {
        for n in 1..7 {
            if from + n <= line.len() {
                // Nine characters leave room for six from the hit on.
                let pattern = &line[from..from + n];
                assert!(clean_line(line, 9, None, pattern).contains(pattern));
            }
        }
    }
    // A pattern that is longer than the room behind the hit may be cut.
    assert_eq!(clean_line(line, 9, None, "fghijkl"), "...cdefghijK...");
}

#[test]
fn cutting_goes_by_the_lower_case_form_that_is_given() {
    assert_eq!(cut_line("ABCDEFGHIJ", "abcdefghij", "f", 3), "...EFG...");
    assert_eq!(cut_line("ABCDEFGHIJ", "xxxxxxxxxx", "f", 5), "AB...");
    assert_eq!(cut_line("ABCDEFGHIJ", "xxxxxxxxxxxxxxxf", "f", 3), "...HIJ");
    assert_eq!(show_whole("abcdef", Some("cd"), 2), Some("cd"));
    assert_eq!(show_whole("abcdef", Some("bcd"), 2), None);
    assert_eq!(show_whole("ab", Some("bcd"), 2), Some("ab"));
    assert_eq!(show_whole("abc", None, 2), None);
}

#[test]
fn the_surroundings_of_the_pattern_are_shown() {
    let search = search_for(&["--context-only", "a.b(c)"]);
    let re = context_regex(&search).expect("the expression compiles");
    assert_eq!(re.as_str(), r"(?i).{0,20}a\.b\(c\).*");
    let line = "  0123456789012345678901234567890123456789 A.B(C) tail ";
    assert_eq!(
        clean_line(line, 80, Some(&re), "a.b(c)"),
        "1234567890123456789 A.B(C) tail"
    );
    // The dot stands for itself.
    assert_eq!(clean_line(" axb(c) ", 80, Some(&re), "a.b(c)"), "axb(c)");
    // Surroundings that are too long are not shown.
    assert_eq!(clean_line(line, 12, Some(&re), "a.b(c)"), "...789 A.B(C) t...");
}

#[test]
fn escaping_touches_only_characters_with_a_meaning() {
    let search = search_for(&["--context-only", r"a\.+*?()|[]{}^$#&-~/:é "]);
    let re = context_regex(&search).expect("the expression compiles");
    assert_eq!(
        re.as_str(),
        r"(?i).{0,20}a\\\.\+\*\?\(\)\|\[\]\{\}\^\$\#\&\-\~/:é .*"
    );
}

#[test]
fn without_the_option_or_with_a_huge_pattern_there_is_no_expression() {
    assert!(context_regex(&search_for(&["needle"])).is_none());
    let mut search = search_for(&["--context-only", "needle"]);
    assert!(context_regex(&search).is_some());
    search.pattern = "k".repeat(1_000_000);
    assert!(context_regex(&search).is_none());
}
