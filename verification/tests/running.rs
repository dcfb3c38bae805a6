use grep_cmd::args::{parse_grep_args, GrepInvocation, GrepSearch};
use grep_cmd::report::{compact_path, render, Entry};
use grep_cmd::run::{
    report_entries, resume, run_from_args, run_rg_passthrough, run_search, Captured, Pending,
    Print, Record, RunError, Step,
};

fn strings(args: &[&str]) -> Vec<String> {
    args.iter().map(|arg| (*arg).to_string()).collect()
}

fn search_for(args: &[&str]) -> GrepSearch {
    match parse_grep_args(&strings(args)).expect("valid grep args") {
        GrepInvocation::Search(search) => search,
        GrepInvocation::RgPassthrough(_) => panic!("expected search invocation"),
    }
}

fn captured(stdout: &str, stderr: &str, exit_code: i32) -> Captured {
    Captured { stdout: stdout.to_string(), stderr: stderr.to_string(), exit_code }
}

fn entry(file: &str, line_num: usize, shown: &str) -> Entry {
    Entry { file: file.to_string(), line_num, shown: shown.to_string() }
}

fn out(s: &str) -> Print {
    Print::Stdout(s.to_string())
}

fn err(s: &str) -> Print {
    Print::Stderr(s.to_string())
}

fn filtered(original: &str, raw: &str, filtered: &str) -> Record {
    Record::Filtered {
        original: original.to_string(),
        command: "rtk grep".to_string(),
        raw: raw.to_string(),
        filtered: filtered.to_string(),
    }
}

fn passthrough(original: &str, command: &str) -> Record {
    Record::Passthrough { original: original.to_string(), command: command.to_string() }
}

#[test]
fn test_compact_path() {
    let path = "/Users/patrick/dev/project/src/components/Button.tsx";
    let compact = compact_path(path);
    assert!(compact.len() <= 60);
    assert_eq!(compact, "/.../components/Button.tsx");
}

#[test]
fn test_grep_overflow_uses_uncapped_total() {
    // The number of hidden matches is taken from all of them, not from a capped list.
    let per_file: usize = 25;
    let total_matches = per_file + 42;
    let entries: Vec<Entry> = (0..total_matches).map(|n| entry("f", n, "x")).collect();
    let listing = render(total_matches, &entries, per_file, 200);
    let overflow: usize = listing
        .lines()
        .last()
        .and_then(|line| line.strip_prefix("[+"))
        .and_then(|line| line.strip_suffix(" more]"))
        .and_then(|n| n.parse().ok())
        .expect("a last line");
    assert_eq!(overflow, 42, "overflow must equal true suppressed count");
    // Demonstrate why capping before subtraction is wrong:
    let hypothetical_cap = per_file + 5;
    let capped = total_matches.min(hypothetical_cap);
    let wrong_overflow = capped - per_file;
    assert_ne!(
        wrong_overflow, overflow,
        "capping before subtraction gives wrong overflow"
    );
}

#[test]
fn paths_are_compacted_when_long_and_deep() {
    let short = "a".repeat(25) + "/b/c/" + &"d".repeat(20);
    assert_eq!(short.len(), 50);
    assert_eq!(compact_path(&short), short);
    let long = short.clone() + "d";
    assert_eq!(compact_path(&long), "a".repeat(25) + "/.../c/" + &"d".repeat(21));
    let flat = "a".repeat(60) + "/b/c";
    assert_eq!(compact_path(&flat), flat);
    let deep = "a".repeat(40) + "/b/c/d/" + &"e".repeat(40);
    assert_eq!(compact_path(&deep), "a".repeat(40) + "/.../d/" + &"e".repeat(40));
    assert_eq!(compact_path(&compact_path(&deep)), compact_path(&deep));
    assert_eq!(compact_path(&compact_path(&long)), compact_path(&long));
    assert_eq!(compact_path(&("é".repeat(30) + "/x/y/")), "é".repeat(30) + "/.../y/");
}

#[test]
fn a_listing_is_grouped_and_in_order() {
    let entries = vec![
        entry("b.rs", 9, "one"),
        entry("a.rs", 7, "two"),
        entry("b.rs", 2, "three"),
        entry("B.rs", 1, "four"),
        entry("a", 1, "five"),
        entry("é.rs", 1, "six"),
        entry("a.rs", 3, "seven"),
    ];
    assert_eq!(
        render(8, &entries, 25, 200),
        "8 matches in 5 files:\n\n\
         B.rs:1:four\n\
         a:1:five\n\
         a.rs:7:two\n\
         a.rs:3:seven\n\
         b.rs:9:one\n\
         b.rs:2:three\n\
         é.rs:1:six\n\
         [+1 more]\n"
    );
    assert_eq!(render(0, &Vec::new(), 25, 200), "0 matches in 0 files:\n\n");
}

#[test]
fn files_are_sorted_as_strings_are() {
    let names = ["", "a", "A", "aa", "ab", "b", "\u{ffff}", "\u{10000}", "é", "z", "a/b", "a.b", "ครับ"];
    let entries: Vec<Entry> = names.iter().map(|name| entry(name, 1, "")).collect();
    let mut sorted: Vec<&str> = names.to_vec();
    sorted.sort();
    let listing = render(names.len(), &entries, 1, 100);
    let shown: Vec<&str> =
        listing.lines().skip(2).map(|line| line.strip_suffix(":1:").expect("an entry")).collect();
    assert_eq!(shown, sorted);
}

#[test]
fn limits_are_kept() {
    let mut entries: Vec<Entry> = Vec::new();
    for n in 0..5 {
        entries.push(entry("x", n, "x"));
        entries.push(entry("y", n, "y"));
    }
    assert_eq!(
        render(10, &entries, 2, 3),
        "10 matches in 2 files:\n\nx:0:x\nx:1:x\ny:0:y\n[+7 more]\n"
    );
    assert_eq!(render(10, &entries, 0, 3), "10 matches in 2 files:\n\n[+10 more]\n");
    assert_eq!(render(10, &entries, 3, 0), "10 matches in 2 files:\n\n[+10 more]\n");
    assert!(!render(10, &entries, 5, 10).contains("more"));
    assert_eq!(render(10, &entries, 5, 10).lines().count(), 12);
}

#[test]
fn a_run_begins_with_ripgrep() {
    let start = run_from_args(&strings(&[r"a\|b", "src", "lib", "-r", "-i"]), 1).expect("a start");
    assert_eq!(start.notice, Some("grep: 'a\\|b' in src lib\n".to_string()));
    assert_eq!(start.call.program, "rg");
    assert_eq!(
        start.call.args,
        vec!["-nH0", "--no-heading", "--no-ignore-vcs", "-i", "a|b", "src", "lib"]
    );
    assert!(matches!(start.pending, Pending::Ripgrep(_)));
    assert_eq!(run_from_args(&strings(&["x"]), 0).expect("a start").notice, None);
    assert_eq!(
        run_from_args(&[], 0).expect_err("an error").message(),
        "grep requires a pattern"
    );
}

#[test]
fn grep_takes_the_place_of_ripgrep_once() {
    let start = run_from_args(&strings(&[r"a\|b", "-trust", "-i"]), 0).expect("a start");
    let Step::Call { call, pending } = resume(start.pending, None, 25) else {
        panic!("expected another call");
    };
    assert_eq!(call.program, "grep");
    assert_eq!(call.args, vec!["-rnHZ", "--include=*.rs", "-i", r"a\|b", "."]);
    let answered = resume(pending.clone(), Some(captured("", "", 1)), 25);
    assert!(matches!(answered, Step::Done(_)));
    let step = resume(pending, None, 25);
    assert_eq!(step, Step::Failed(RunError::NoBackend));
    assert_eq!(RunError::NoBackend.message(), "grep/rg failed");
}

#[test]
fn a_passthrough_is_left_alone() {
    let start = run_from_args(&strings(&["--files", "src"]), 1).expect("a start");
    assert_eq!(start.notice, None);
    assert_eq!(start.call.program, "rg");
    assert_eq!(start.call.args, vec!["--files", "src"]);
    let step = resume(start.pending.clone(), Some(captured("a\nb\n", " oops \n", 3)), 25);
    let Step::Done(report) = step else {
        panic!("expected a report");
    };
    assert_eq!(report.prints, vec![out("a\nb\n"), err("oops")]);
    assert_eq!(
        report.record,
        passthrough("rg --files src", "rtk grep --files src (passthrough)")
    );
    assert_eq!(report.exit_code, 3);
    assert_eq!(resume(start.pending, None, 25), Step::Failed(RunError::NoRipgrep));
    assert_eq!(RunError::NoRipgrep.message(), "rg failed");
    let report = run_rg_passthrough(&strings(&["-V"]), &captured("rg 1\n", "", 0));
    assert_eq!(report.prints, vec![out("rg 1\n")]);
}

#[test]
fn other_formats_are_left_alone() {
    let search = search_for(&["-c", "needle", "a", "b"]);
    let report = run_search(&search, &captured("a:3\n", "", 0), 25).expect("a report");
    assert_eq!(report.prints, vec![out("a:3\n")]);
    assert_eq!(
        report.record,
        passthrough("grep -c 'needle' a b", "rtk grep -c 'needle' a b (passthrough)")
    );
    let report = run_search(&search, &captured("", "\n", 2), 25).expect("a report");
    assert_eq!(report.prints, vec![out(""), err("")]);
    assert_eq!(report.exit_code, 2);
}

#[test]
fn a_search_without_matches_says_so() {
    let search = search_for(&["needle", "src"]);
    let report = run_search(&search, &captured(" \n", "bad\n", 1), 25).expect("a report");
    assert_eq!(report.prints, vec![out("0 matches for 'needle'\n")]);
    assert_eq!(
        report.record,
        filtered("grep -rn 'needle' src", " \n", "0 matches for 'needle'")
    );
    assert_eq!(report.exit_code, 1);
    let report = run_search(&search, &captured("", " bad regex \n", 2), 25).expect("a report");
    assert_eq!(report.prints, vec![err("bad regex\n"), out("0 matches for 'needle'\n")]);
    let report = run_search(&search, &captured("", " \n", 2), 25).expect("a report");
    assert_eq!(report.prints, vec![out("0 matches for 'needle'\n")]);
}

#[test]
fn a_search_with_matches_is_condensed() {
    let search = search_for(&["needle", "src"]);
    let stdout = "src/b.rs\x003:  let needle = 1;\r\n--\nsrc/a.rs\x0012:// needle::x\n";
    let listing = "3 matches in 2 files:\n\n\
                   src/a.rs:12:// needle::x\n\
                   src/b.rs:3:let needle = 1;\n\
                   [+1 more]\n";
    let report = run_search(&search, &captured(stdout, "", 0), 25).expect("a report");
    assert_eq!(report.prints, vec![out(listing)]);
    assert_eq!(report.record, filtered("grep -rn 'needle' src", stdout, listing));
    assert_eq!(report.exit_code, 0);
    let same = report_entries(
        &search,
        &captured(stdout, "", 0),
        3,
        &vec![entry("src/b.rs", 3, "let needle = 1;"), entry("src/a.rs", 12, "// needle::x")],
        25,
    );
    assert_eq!(same, report);
}

#[test]
fn what_a_backend_reports_is_read_back() {
    let matches = [("a:1", 4, "x:y"), ("b", 2, ""), ("a:1", 7, "z")];
    let stdout: String =
        matches.iter().map(|(f, n, c)| format!("{}\0{}:{}\n", f, n, c)).collect();
    let search = search_for(&["q"]);
    let report = run_search(&search, &captured(&stdout, "", 0), 25).expect("a report");
    assert_eq!(
        report.prints,
        vec![out("3 matches in 2 files:\n\na:1:4:x:y\na:1:7:z\nb:2:\n")]
    );
}

#[test]
fn only_surroundings_are_shown_on_request() {
    let search = search_for(&["--context-only", "needle"]);
    let stdout = format!("f\x001:{}NEEDLE tail\n", "x".repeat(60));
    let report = run_search(&search, &captured(&stdout, "", 0), 25).expect("a report");
    let shown = format!("1 matches in 1 files:\n\nf:1:{}NEEDLE tail\n", "x".repeat(20));
    assert_eq!(report.prints, vec![out(&shown)]);
}

#[test]
fn a_line_without_room_for_dots_has_no_report() {
    let search = search_for(&["--max-len=2", "needle"]);
    let long = captured("f\x001:no match here\n", "", 0);
    assert_eq!(run_search(&search, &long, 25), None);
    assert_eq!(
        resume(Pending::Ripgrep(search.clone()), Some(long), 25),
        Step::Failed(RunError::NoRoomForDots)
    );
    assert_eq!(RunError::NoRoomForDots.message(), "no room for the dots of a cut line");
    assert!(run_search(&search, &captured("f\x001:ab\n", "", 0), 25).is_some());
    assert!(run_search(&search, &captured("f\x001:a needle\n", "", 0), 25).is_some());
}
