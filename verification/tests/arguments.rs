use grep_cmd::args::{
    is_rg_passthrough_without_pattern, is_rg_pattern_source_arg, parse_grep_args, parse_usize_arg,
    rg_pattern_display, takes_rg_value, ArgError, GrepInvocation, GrepSearch,
};
use grep_cmd::backend::{
    build_grep_fallback_args, build_rg_args, grep_fallback_extra_args, grep_glob_for_type,
    has_format_flag, push_grep_glob, push_grep_include_for_type,
};
use grep_cmd::run::{resume, Step};
use grep_cmd::run_from_args;
use grep_cmd::text::{plain_bars, NumberError};

fn strings(args: &[&str]) -> Vec<String> {
    args.iter().map(|arg| (*arg).to_string()).collect()
}

fn search_for(args: &[&str]) -> GrepSearch {
    match parse_grep_args(&strings(args)).expect("valid grep args") {
        GrepInvocation::Search(search) => search,
        GrepInvocation::RgPassthrough(_) => panic!("expected search invocation"),
    }
}

fn error_for(args: &[&str]) -> ArgError {
    parse_grep_args(&strings(args)).expect_err("invalid grep args")
}

fn build_rg_args_from_test_args(args: &[String]) -> Result<Vec<String>, ArgError> {
    match parse_grep_args(args)? {
        GrepInvocation::Search(search) => Ok(build_rg_args(&search, &search.pattern)),
        GrepInvocation::RgPassthrough(args) => Ok(args),
    }
}

#[test]
fn test_extra_args_accepted() {
    // The parser keeps trailing rg args available for backend forwarding.
    let extra: Vec<String> = vec!["-i".to_string(), "-A".to_string(), "3".to_string()];
    let search = search_for(&["needle", "-i", "-A", "3"]);
    assert_eq!(search.rg_args, extra);
    assert_eq!(search.paths, vec!["."]);
}

#[test]
fn test_parse_rg_type_long_preserves_pattern_and_path() {
    let invocation = parse_grep_args(&strings(&["--type", "rust", "needle", "src/"]))
        .expect("valid grep args");
    match invocation {
        GrepInvocation::Search(search) => {
            assert_eq!(search.pattern, "needle");
            assert_eq!(search.paths, vec!["src/"]);
            assert_eq!(search.rg_args, vec!["--type", "rust"]);
        }
        GrepInvocation::RgPassthrough(_) => panic!("expected search invocation"),
    }
}

#[test]
fn test_parse_rg_type_short_preserves_pattern_and_path() {
    let invocation =
        parse_grep_args(&strings(&["-t", "rust", "needle", "src/"])).expect("valid grep args");
    match invocation {
        GrepInvocation::Search(search) => {
            assert_eq!(search.pattern, "needle");
            assert_eq!(search.paths, vec!["src/"]);
            assert_eq!(search.rg_args, vec!["-t", "rust"]);
        }
        GrepInvocation::RgPassthrough(_) => panic!("expected search invocation"),
    }
}

#[test]
fn test_parse_file_type_alias_maps_to_rg_type() {
    let invocation = parse_grep_args(&strings(&["--file-type", "rust", "needle", "src/"]))
        .expect("valid grep args");
    match invocation {
        GrepInvocation::Search(search) => {
            assert_eq!(search.pattern, "needle");
            assert_eq!(search.paths, vec!["src/"]);
            assert_eq!(search.rg_args, vec!["--type", "rust"]);
        }
        GrepInvocation::RgPassthrough(_) => panic!("expected search invocation"),
    }
}

#[test]
fn test_parse_file_type_equals_alias_maps_to_rg_type() {
    let invocation = parse_grep_args(&strings(&["--file-type=rust", "needle", "src/"]))
        .expect("valid grep args");
    match invocation {
        GrepInvocation::Search(search) => {
            assert_eq!(search.pattern, "needle");
            assert_eq!(search.paths, vec!["src/"]);
            assert_eq!(search.rg_args, vec!["--type=rust"]);
        }
        GrepInvocation::RgPassthrough(_) => panic!("expected search invocation"),
    }
}

#[test]
fn test_parse_rg_glob_long_preserves_pattern_and_path() {
    let invocation = parse_grep_args(&strings(&["--glob", "*.rs", "needle", "src/"]))
        .expect("valid grep args");
    match invocation {
        GrepInvocation::Search(search) => {
            assert_eq!(search.pattern, "needle");
            assert_eq!(search.paths, vec!["src/"]);
            assert_eq!(search.rg_args, vec!["--glob", "*.rs"]);
        }
        GrepInvocation::RgPassthrough(_) => panic!("expected search invocation"),
    }
}

#[test]
fn test_build_rg_args_uses_regexp_flag_pattern_and_keeps_path() {
    let invocation =
        parse_grep_args(&strings(&["-e", "needle", "src/"])).expect("valid grep args");
    match invocation {
        GrepInvocation::Search(search) => {
            assert_eq!(search.pattern, "needle");
            assert_eq!(search.paths, vec!["src/"]);
            assert_eq!(search.rg_args, vec!["-e", "needle"]);
            let args = build_rg_args(&search, &search.pattern);
            assert_eq!(
                args,
                vec![
                    "-nH0",
                    "--no-heading",
                    "--no-ignore-vcs",
                    "-e",
                    "needle",
                    "src/"
                ]
            );
        }
        GrepInvocation::RgPassthrough(_) => panic!("expected search invocation"),
    }
}

#[test]
fn test_build_rg_args_preserves_multiple_regexp_flags() {
    let invocation =
        parse_grep_args(&strings(&["-e", "a", "-e", "b", "src/"])).expect("valid grep args");
    match invocation {
        GrepInvocation::Search(search) => {
            assert_eq!(search.pattern, "a");
            assert_eq!(search.paths, vec!["src/"]);
            assert_eq!(search.rg_args, vec!["-e", "a", "-e", "b"]);
            let args = build_rg_args(&search, &search.pattern);
            assert_eq!(
                args,
                vec![
                    "-nH0",
                    "--no-heading",
                    "--no-ignore-vcs",
                    "-e",
                    "a",
                    "-e",
                    "b",
                    "src/"
                ]
            );
        }
        GrepInvocation::RgPassthrough(_) => panic!("expected search invocation"),
    }
}

#[test]
fn test_build_rg_args_uses_file_flag_pattern_and_keeps_path() {
    let invocation =
        parse_grep_args(&strings(&["-f", "patterns.txt", "src/"])).expect("valid grep args");
    match invocation {
        GrepInvocation::Search(search) => {
            assert_eq!(search.pattern, "patterns from patterns.txt");
            assert_eq!(search.paths, vec!["src/"]);
            assert_eq!(search.rg_args, vec!["-f", "patterns.txt"]);
            let args = build_rg_args(&search, &search.pattern);
            assert_eq!(
                args,
                vec![
                    "-nH0",
                    "--no-heading",
                    "--no-ignore-vcs",
                    "-f",
                    "patterns.txt",
                    "src/"
                ]
            );
        }
        GrepInvocation::RgPassthrough(_) => panic!("expected search invocation"),
    }
}

#[test]
fn test_build_rg_args_keeps_rg_flags_before_pattern() {
    let invocation = parse_grep_args(&strings(&[
        "-n", "--type", "rust", "--glob", "*.rs", "needle", "src/",
    ]))
    .expect("valid grep args");
    match invocation {
        GrepInvocation::Search(search) => {
            let args = build_rg_args(&search, &search.pattern);
            assert_eq!(
                args,
                vec![
                    "-nH0",
                    "--no-heading",
                    "--no-ignore-vcs",
                    "--type",
                    "rust",
                    "--glob",
                    "*.rs",
                    "needle",
                    "src/"
                ]
            );
        }
        GrepInvocation::RgPassthrough(_) => panic!("expected search invocation"),
    }
}

#[test]
fn test_build_rg_args_preserves_double_dash_before_leading_hyphen_pattern_and_path() {
    let invocation = parse_grep_args(&strings(&["--", "-foo", "src/"])).expect("valid grep args");
    match invocation {
        GrepInvocation::Search(search) => {
            assert_eq!(search.pattern, "-foo");
            assert_eq!(search.paths, vec!["src/"]);
            assert!(search.had_pattern_terminator);
            let args = build_rg_args(&search, &search.pattern);
            assert_eq!(
                args,
                vec!["-nH0", "--no-heading", "--no-ignore-vcs", "--", "-foo", "src/"]
            );
        }
        GrepInvocation::RgPassthrough(_) => panic!("expected search invocation"),
    }
}

#[test]
fn test_build_rg_args_preserves_double_dash_before_leading_hyphen_pattern_default_path() {
    let invocation = parse_grep_args(&strings(&["--", "-foo"])).expect("valid grep args");
    match invocation {
        GrepInvocation::Search(search) => {
            assert_eq!(search.pattern, "-foo");
            assert_eq!(search.paths, vec!["."]);
            assert!(search.had_pattern_terminator);
            let args = build_rg_args(&search, &search.pattern);
            assert_eq!(
                args,
                vec!["-nH0", "--no-heading", "--no-ignore-vcs", "--", "-foo", "."]
            );
        }
        GrepInvocation::RgPassthrough(_) => panic!("expected search invocation"),
    }
}

#[test]
fn test_build_rg_args_places_double_dash_before_paths_for_regexp_pattern_source() {
    let invocation =
        parse_grep_args(&strings(&["-e", "-foo", "--", "src/"])).expect("valid grep args");
    match invocation {
        GrepInvocation::Search(search) => {
            assert_eq!(search.pattern, "-foo");
            assert_eq!(search.paths, vec!["src/"]);
            assert_eq!(search.rg_args, vec!["-e", "-foo"]);
            assert!(search.had_pattern_terminator);
            let args = build_rg_args(&search, &search.pattern);
            assert_eq!(
                args,
                vec![
                    "-nH0",
                    "--no-heading",
                    "--no-ignore-vcs",
                    "-e",
                    "-foo",
                    "--",
                    "src/"
                ]
            );
        }
        GrepInvocation::RgPassthrough(_) => panic!("expected search invocation"),
    }
}

#[test]
fn test_build_grep_fallback_preserves_double_dash_before_leading_hyphen_pattern() {
    let invocation = parse_grep_args(&strings(&["--", "-foo", "src/"])).expect("valid grep args");
    match invocation {
        GrepInvocation::Search(search) => {
            let args = build_grep_fallback_args(&search);
            assert_eq!(args, vec!["-rnHZ", "--", "-foo", "src/"]);
        }
        GrepInvocation::RgPassthrough(_) => panic!("expected search invocation"),
    }
}

#[test]
fn test_parse_rg_files_passthrough_preserves_double_dash() {
    let invocation =
        parse_grep_args(&strings(&["--files", "--", "src/"])).expect("valid grep args");
    match invocation {
        GrepInvocation::RgPassthrough(args) => {
            assert_eq!(args, vec!["--files", "--", "src/"]);
        }
        GrepInvocation::Search(_) => panic!("expected passthrough invocation"),
    }
}

#[test]
fn test_build_grep_fallback_translates_rg_only_flags() {
    let invocation = parse_grep_args(&strings(&[
        "--type",
        "rust",
        "--glob",
        "*.rs",
        "--type-add",
        "foo:*.foo",
        "needle",
        "src/",
    ]))
    .expect("valid grep args");
    match invocation {
        GrepInvocation::Search(search) => {
            let args = build_grep_fallback_args(&search);
            assert_eq!(
                args,
                vec!["-rnHZ", "--include=*.rs", "--include=*.rs", "needle", "src/"]
            );
            assert!(!args.iter().any(|arg| matches!(
                arg.as_str(),
                "--type" | "-t" | "--glob" | "-g" | "--type-add" | "--type-list"
            )));
        }
        GrepInvocation::RgPassthrough(_) => panic!("expected search invocation"),
    }
}

#[test]
fn test_parse_rg_type_list_passthrough_without_pattern() {
    let invocation = parse_grep_args(&strings(&["--type-list"])).expect("valid grep args");
    match invocation {
        GrepInvocation::RgPassthrough(args) => assert_eq!(args, vec!["--type-list"]),
        GrepInvocation::Search(_) => panic!("expected passthrough invocation"),
    }
}

#[test]
fn test_parse_rg_files_passthrough_preserves_path() {
    let invocation = parse_grep_args(&strings(&["--files", "src/"])).expect("valid grep args");
    match invocation {
        GrepInvocation::RgPassthrough(args) => assert_eq!(args, vec!["--files", "src/"]),
        GrepInvocation::Search(_) => panic!("expected passthrough invocation"),
    }
}

#[test]
fn test_parse_rg_trim_preserves_pattern_and_path() {
    let invocation =
        parse_grep_args(&strings(&["--trim", "needle", "src/"])).expect("valid grep args");
    match invocation {
        GrepInvocation::Search(search) => {
            assert_eq!(search.pattern, "needle");
            assert_eq!(search.paths, vec!["src/"]);
            assert_eq!(search.rg_args, vec!["--trim"]);
        }
        GrepInvocation::RgPassthrough(_) => panic!("expected search invocation"),
    }
}

// BRE \| alternation is translated to | for rg.
#[test]
fn test_bre_alternation_translated() {
    let pattern = r"fn foo\|pub.*bar";
    let rg_pattern = plain_bars(pattern);
    assert_eq!(rg_pattern, "fn foo|pub.*bar");
}

// The -r flag (grep recursive) is not handed on: rg is recursive anyway.
#[test]
fn test_recursive_flag_stripped() {
    let extra_args: Vec<String> = vec!["-r".to_string(), "-i".to_string()];
    let mut search = search_for(&["needle", "--recursive"]);
    assert_eq!(build_rg_args(&search, "needle").len(), 5);
    search.rg_args = extra_args;
    let args = build_rg_args(&search, "needle");
    let filtered: Vec<&String> = args[3..args.len() - 2].iter().collect();
    assert_eq!(filtered.len(), 1);
    assert_eq!(filtered[0], "-i");
}

#[test]
fn test_format_flag_detects_count() {
    assert!(has_format_flag(&["-c".to_string()]));
    assert!(has_format_flag(&["--count".to_string()]));
}

#[test]
fn test_format_flag_detects_files_with_matches() {
    assert!(has_format_flag(&["-l".to_string()]));
    assert!(has_format_flag(&["--files-with-matches".to_string()]));
}

#[test]
fn test_format_flag_detects_files_without_match() {
    assert!(has_format_flag(&["-L".to_string()]));
    assert!(has_format_flag(&["--files-without-match".to_string()]));
}

#[test]
fn test_format_flag_detects_only_matching() {
    assert!(has_format_flag(&["-o".to_string()]));
    assert!(has_format_flag(&["--only-matching".to_string()]));
}

#[test]
fn test_format_flag_detects_null() {
    assert!(has_format_flag(&["-Z".to_string()]));
    assert!(has_format_flag(&["--null".to_string()]));
}

#[test]
fn test_format_flag_ignores_normal_flags() {
    assert!(!has_format_flag(&[
        "-i".to_string(),
        "-w".to_string(),
        "-A".to_string(),
        "3".to_string(),
    ]));
}

// Line numbers are always asked for, so that -n on the command line is a no-op.
#[test]
fn test_rg_always_has_line_numbers() {
    let args = build_rg_args_from_test_args(&strings(&[
        "-n",
        "--no-heading",
        "NONEXISTENT_PATTERN_12345",
        ".",
    ]))
    .expect("rg -n should be accepted");
    assert_eq!(
        args,
        vec![
            "-nH0",
            "--no-heading",
            "--no-ignore-vcs",
            "--no-heading",
            "NONEXISTENT_PATTERN_12345",
            "."
        ]
    );
}

#[test]
fn test_rg_no_ignore_vcs_flag_accepted() {
    let args = build_rg_args_from_test_args(&strings(&[
        "-n",
        "--no-heading",
        "--no-ignore-vcs",
        "NONEXISTENT_PATTERN_12345",
        ".",
    ]))
    .expect("rg --no-ignore-vcs should be accepted");
    assert_eq!(
        args,
        vec![
            "-nH0",
            "--no-heading",
            "--no-ignore-vcs",
            "--no-heading",
            "--no-ignore-vcs",
            "NONEXISTENT_PATTERN_12345",
            "."
        ]
    );
}

#[test]
fn limits_are_read_in_every_form() {
    for args in [
        vec!["--max-len=50", "--max=7", "x"],
        vec!["--max-len", "50", "--max", "7", "x"],
        vec!["-l", "50", "-m", "7", "x"],
        vec!["--max-len", "+050", "--max", "+7", "x"],
    ] {
        let search = search_for(&args);
        assert_eq!(search.max_line_len, 50);
        assert_eq!(search.max_results, 7);
        assert_eq!(search.pattern, "x");
        assert!(search.rg_args.is_empty());
    }
    let search = search_for(&["x"]);
    assert_eq!(search.max_line_len, 80);
    assert_eq!(search.max_results, 200);
    assert!(!search.context_only);
    assert!(search_for(&["--context-only", "x"]).context_only);
}

#[test]
fn short_limits_without_a_number_are_options_of_the_backend() {
    let search = search_for(&["-l", "needle"]);
    assert_eq!(search.rg_args, vec!["-l"]);
    assert_eq!(search.pattern, "needle");
    assert_eq!(search.max_line_len, 80);
    let search = search_for(&["needle", "-m"]);
    assert_eq!(search.rg_args, vec!["-m"]);
}

#[test]
fn attached_values_are_taken_apart() {
    assert_eq!(search_for(&["-trust", "x"]).rg_args, vec!["-t", "rust"]);
    assert_eq!(search_for(&["-g*.rs", "x"]).rg_args, vec!["-g", "*.rs"]);
    assert_eq!(search_for(&["-trust", "x"]), search_for(&["-t", "rust", "x"]));
    assert_eq!(search_for(&["-g*.rs", "x"]), search_for(&["-g", "*.rs", "x"]));
    assert_eq!(search_for(&["--glob=*.rs", "--type-add=a:*.a", "--type=go", "x"]).rg_args,
        vec!["--glob=*.rs", "--type-add=a:*.a", "--type=go"]);
}

#[test]
fn line_number_options_change_nothing() {
    assert_eq!(search_for(&["-n", "x", "y"]), search_for(&["x", "y"]));
    assert_eq!(search_for(&["--line-numbers", "x", "y"]), search_for(&["x", "y"]));
    assert_eq!(search_for(&["x", "-n", "y"]), search_for(&["x", "y"]));
    assert_eq!(search_for(&["-e", "x", "-n", "y"]), search_for(&["-e", "x", "y"]));
    // Between `-l` and a number it does: there is no limit then.
    assert_eq!(search_for(&["-l", "5", "x"]).max_line_len, 5);
    let search = search_for(&["-l", "-n", "5", "x"]);
    assert_eq!(search.max_line_len, 80);
    assert_eq!(search.pattern, "5");
    // As the value of an option, it is no option.
    assert_eq!(search_for(&["-e", "-n", "y"]).pattern, "-n");
}

#[test]
fn limits_have_three_forms_anywhere() {
    for forms in [
        [vec!["--max=7"], vec!["--max", "7"], vec!["-m", "7"]],
        [vec!["--max-len=7"], vec!["--max-len", "7"], vec!["-l", "7"]],
    ] {
        let read = |form: &[&str]| {
            let args = [&["-e", "q"], form, &["p", "-i"]].concat();
            search_for(&args)
        };
        assert_eq!(read(&forms[0]), read(&forms[1]));
        assert_eq!(read(&forms[0]), read(&forms[2]));
    }
    assert_eq!(error_for(&["--max=q"]), error_for(&["--max", "q"]));
}

#[test]
fn what_is_shown_does_not_reach_the_backends() {
    let plain = run_from_args(&strings(&["-i", "x", "-tgo", "--", "y"]), 1).expect("a start");
    for own in [
        vec!["--context-only"],
        vec!["--max=7"],
        vec!["--max", "7"],
        vec!["-m", "7"],
        vec!["--max-len=7"],
        vec!["--max-len", "7"],
        vec!["-l", "7"],
    ] {
        let args = [&["-i", "x"], &own[..], &["-tgo", "--", "y"]].concat();
        let start = run_from_args(&strings(&args), 1).expect("a start");
        assert_eq!(start.call, plain.call);
        assert_eq!(start.notice, plain.notice);
        let (Step::Call { call: a, .. }, Step::Call { call: b, .. }) =
            (resume(start.pending, None, 25), resume(plain.pending.clone(), None, 25))
        else {
            panic!("expected another call");
        };
        assert_eq!(a, b);
    }
}

#[test]
fn arguments_are_read_in_turn() {
    let search = search_for(&["--max", "3", "x", "-i", "--max", "4", "y", "--file-type", "go"]);
    assert_eq!(search.max_results, 4);
    assert_eq!(search.pattern, "x");
    assert_eq!(search.paths, vec!["y"]);
    assert_eq!(search.rg_args, vec!["-i", "--type", "go"]);
    assert_eq!(search, search_for(&["--max", "4", "x", "-i", "y", "--type", "go"]));
}

#[test]
fn nothing_behind_the_terminator_is_an_option() {
    let search = search_for(&["-i", "--", "-n", "--max", "--"]);
    assert_eq!(search.rg_args, vec!["-i"]);
    assert_eq!(search.pattern, "-n");
    assert_eq!(search.paths, vec!["--max", "--"]);
    assert!(search.had_pattern_terminator);
    // As the value of an option, two dashes end nothing.
    let search = search_for(&["-e", "--", "x"]);
    assert_eq!(search.pattern, "--");
    assert!(!search.had_pattern_terminator);
}

#[test]
fn operands_alone_are_a_pattern_and_paths() {
    let search = search_for(&["needle", "a", "b"]);
    assert_eq!(search.pattern, "needle");
    assert_eq!(search.paths, vec!["a", "b"]);
    assert_eq!(search_for(&["", "a"]).pattern, "");
    assert_eq!(search_for(&["-", "a"]).rg_args, vec!["-"]);
}

#[test]
fn a_pattern_from_options_is_always_shown() {
    for (args, pattern) in [
        (vec!["--regexp=a=b"], "a=b"),
        (vec!["--file=p.txt"], "patterns from p.txt"),
        (vec!["--file", "p.txt"], "patterns from p.txt"),
        (vec!["--regexp", "r"], "r"),
        (vec!["-A", "-e", "-e", "x"], "-e"),
    ] {
        let search = search_for(&args);
        assert!(search.pattern_from_rg_args);
        assert_eq!(search.pattern, pattern);
        assert_eq!(search.paths, vec!["."]);
    }
    assert_eq!(rg_pattern_display(&strings(&["-i"])), None);
    assert_eq!(rg_pattern_display(&strings(&["-e"])), None);
    assert_eq!(rg_pattern_display(&strings(&["-f"])), None);
    assert_eq!(rg_pattern_display(&[]), None);
}

#[test]
fn every_mistake_has_its_error() {
    assert_eq!(error_for(&[]), ArgError::MissingPattern);
    assert_eq!(error_for(&["-i"]), ArgError::MissingPattern);
    for flag in ["--max-len", "--max", "--file-type", "-t", "-e", "-A", "--threads", "-j"] {
        assert_eq!(error_for(&["x", flag]), ArgError::MissingValue(flag.to_string()));
    }
    let not_a_number = |flag: &str, cause: NumberError| ArgError::NotANumber {
        flag: flag.to_string(),
        cause,
    };
    assert_eq!(
        error_for(&["--max-len=ten"]),
        not_a_number("--max-len", NumberError::InvalidDigit)
    );
    assert_eq!(
        error_for(&["--max-len", "-1"]),
        not_a_number("--max-len", NumberError::InvalidDigit)
    );
    assert_eq!(error_for(&["--max="]), not_a_number("--max", NumberError::Empty));
    assert_eq!(
        error_for(&["--max", "99999999999999999999999999"]),
        not_a_number("--max", NumberError::TooLarge)
    );
    assert_eq!(
        parse_usize_arg("--max", "3 "),
        Err(not_a_number("--max", NumberError::InvalidDigit))
    );
    assert_eq!(parse_usize_arg("--max", "18"), Ok(18));
}

#[test]
fn errors_read_as_they_should() {
    assert_eq!(error_for(&[]).message(), "grep requires a pattern");
    assert_eq!(error_for(&["--max-len"]).message(), "--max-len requires a value");
    assert_eq!(error_for(&["--file-type"]).message(), "--file-type requires a value");
    assert_eq!(error_for(&["--max=x"]).message(), "--max must be a positive integer");
}

#[test]
fn families_of_options_are_told_apart() {
    for flag in [
        "-t", "--type", "-g", "--glob", "--type-add", "-A", "--after-context", "-B",
        "--before-context", "-C", "--context", "-e", "--regexp", "-f", "--file", "--encoding",
        "--engine", "--max-count", "--max-depth", "--path-separator", "--sort", "--sortr",
        "--threads", "-j",
    ] {
        assert!(takes_rg_value(flag), "{}", flag);
    }
    assert!(!takes_rg_value("-i"));
    assert!(!takes_rg_value("-m"));
    assert!(is_rg_pattern_source_arg("-e"));
    assert!(is_rg_pattern_source_arg("--file"));
    assert!(!is_rg_pattern_source_arg("-g"));
    for flag in ["--type-list", "--files", "--help", "-h", "--version", "-V"] {
        assert!(is_rg_passthrough_without_pattern(&strings(&["-i", flag])));
    }
    assert!(!is_rg_passthrough_without_pattern(&strings(&["-i", "--file"])));
}

#[test]
fn grep_gets_options_in_its_own_words() {
    assert_eq!(
        grep_fallback_extra_args(&strings(&[
            "--type=py", "--type=unknown", "--glob=!*.min.js", "--glob=*.js", "-g", "!a", "-t",
            "md", "--type-add=x:y", "--type-list", "--hidden", "-r", "--recursive", "-i", "-A", "3",
        ])),
        vec![
            "--include=*.py", "--exclude=*.min.js", "--include=*.js", "--exclude=a",
            "--include=*.md", "-i", "-A", "3",
        ]
    );
    assert!(grep_fallback_extra_args(&strings(&["-t"])).is_empty());
    assert!(grep_fallback_extra_args(&strings(&["--glob"])).is_empty());
    assert!(grep_fallback_extra_args(&strings(&["--type-add"])).is_empty());
    assert_eq!(grep_fallback_extra_args(&strings(&["-i", "-w"])), vec!["-i", "-w"]);
}

#[test]
fn common_file_types_have_globs() {
    for (file_type, glob) in [
        ("rust", "*.rs"), ("rs", "*.rs"), ("py", "*.py"), ("python", "*.py"), ("ts", "*.ts"),
        ("typescript", "*.ts"), ("tsx", "*.tsx"), ("js", "*.js"), ("javascript", "*.js"),
        ("jsx", "*.jsx"), ("go", "*.go"), ("java", "*.java"), ("rb", "*.rb"), ("ruby", "*.rb"),
        ("md", "*.md"), ("markdown", "*.md"),
    ] {
        assert_eq!(grep_glob_for_type(file_type), Some(glob));
    }
    assert_eq!(grep_glob_for_type("cobol"), None);
    let mut args = strings(&["a"]);
    push_grep_include_for_type(&mut args, "go");
    push_grep_include_for_type(&mut args, "cobol");
    push_grep_glob(&mut args, "!x");
    push_grep_glob(&mut args, "");
    assert_eq!(args, vec!["a", "--include=*.go", "--exclude=x", "--include="]);
}
