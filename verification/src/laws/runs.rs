//! Laws of a run as a whole.

use crate::args;
use crate::backend;
use crate::clean;
use crate::laws::listings;
use crate::laws::lines;
use crate::laws::texts;
use crate::match_line;
use crate::report;
use crate::report::EntryView;
use crate::run;
use crate::text;
use vstd::prelude::*;

verus! {

/// A match as a backend reports it.
pub struct Match {
    pub file: Seq<char>,
    pub line_num: usize,
    pub content: Seq<char>,
}

/// Whether a match can be told from a line of output: neither the file name nor the
/// content breaks the line, and the content does not end with a carriage return.
pub open spec fn fits_a_line(m: Match) -> bool {
    &&& m.file.len() > 0
    &&& !m.file.contains('\0')
    &&& !m.file.contains('\n')
    &&& !m.content.contains('\n')
    &&& m.content.len() > 0 ==> m.content.last() != '\r'
}

/// The line for a match.
pub open spec fn line_for(m: Match) -> Seq<char> {
    match_line::written(m.file, text::decimal(m.line_num as nat), m.content)
}

/// The output for some matches: a line for each.
pub open spec fn output_for(matches: Seq<Match>) -> Seq<char>
    decreases matches.len(),
{
    if matches.len() == 0 {
        Seq::empty()
    } else {
        line_for(matches[0]).push('\n') + output_for(matches.drop_first())
    }
}

/// The line for a match is one line, without a carriage return at its end.
proof fn lemma_line_for(m: Match)
    requires
        fits_a_line(m),
    ensures
        !line_for(m).contains('\n'),
        text::without_carriage_return(line_for(m)) == line_for(m),
{
    let number = text::decimal(m.line_num as nat);
    let line = line_for(m);
    texts::lemma_decimal(m.line_num as nat);
    assert forall|i: int| 0 <= i < line.len() implies line[i] != '\n' by {
        let nul = m.file.len() as int;
        let colon = nul + 1 + number.len();
        if i < nul {
            assert(line[i] == m.file[i]);
            assert(m.file.contains(m.file[i]));
        } else if nul < i < colon {
            assert(line[i] == number[i - nul - 1]);
        } else if i > colon {
            assert(line[i] == m.content[i - colon - 1]);
            assert(m.content.contains(m.content[i - colon - 1]));
        }
    }
    if m.content.len() > 0 {
        assert(line.last() == m.content.last());
    } else {
        assert(line.last() == ':');
    }
}

/// The lines of the output for some matches.
proof fn lemma_output_lines(matches: Seq<Match>)
    requires
        forall|i: int| 0 <= i < matches.len() ==> fits_a_line(#[trigger] matches[i]),
    ensures
        text::lines_of(output_for(matches)) == matches.map_values(|m: Match| line_for(m)),
    decreases matches.len(),
{
    let wanted = matches.map_values(|m: Match| line_for(m));
    if matches.len() == 0 {
        let parts = text::split_at_each(output_for(matches), '\n');
        assert(parts.drop_last() =~= Seq::empty());
        assert(text::lines_of(output_for(matches)) =~= wanted);
    } else {
        let rest = matches.drop_first();
        assert forall|i: int| 0 <= i < rest.len() implies fits_a_line(#[trigger] rest[i]) by {
            assert(rest[i] == matches[i + 1]);
        }
        lemma_output_lines(rest);
        lemma_line_for(matches[0]);
        texts::law_first_line(line_for(matches[0]), output_for(rest));
        assert(text::lines_of(output_for(matches)) =~= wanted);
    }
}

/// The entry for a match.
pub open spec fn entry_for(
    m: Match,
    search: args::SearchView,
    re: Option<regex::Regex>,
) -> EntryView {
    EntryView {
        file: m.file,
        line_num: m.line_num,
        shown: clean::cleaned(m.content, search.max_line_len as int, re, search.pattern)->0,
    }
}

/// What a backend reports is read back: each match that it prints a line for, and no
/// other, has an entry, with its file, its line number and its content made short.
pub proof fn law_output_is_read_back(
    matches: Seq<Match>,
    search: args::SearchView,
    re: Option<regex::Regex>,
)
    requires
        forall|i: int| 0 <= i < matches.len() ==> fits_a_line(#[trigger] matches[i]),
        forall|i: int|
            0 <= i < matches.len() ==> clean::cleaned(
                (#[trigger] matches[i]).content,
                search.max_line_len as int,
                re,
                search.pattern,
            ) is Some,
    ensures
        text::lines_of(output_for(matches)).len() == matches.len(),
        run::entries_of(text::lines_of(output_for(matches)), search, re) == Some(
            matches.map_values(|m: Match| entry_for(m, search, re)),
        ),
{
    lemma_output_lines(matches);
    lemma_entries_for(matches, search, re);
}

/// The entries for the lines of some matches.
proof fn lemma_entries_for(
    matches: Seq<Match>,
    search: args::SearchView,
    re: Option<regex::Regex>,
)
    requires
        forall|i: int| 0 <= i < matches.len() ==> fits_a_line(#[trigger] matches[i]),
        forall|i: int|
            0 <= i < matches.len() ==> clean::cleaned(
                (#[trigger] matches[i]).content,
                search.max_line_len as int,
                re,
                search.pattern,
            ) is Some,
    ensures
        run::entries_of(matches.map_values(|m: Match| line_for(m)), search, re) == Some(
            matches.map_values(|m: Match| entry_for(m, search, re)),
        ),
    decreases matches.len(),
{
    let all = matches.map_values(|m: Match| line_for(m));
    let wanted = matches.map_values(|m: Match| entry_for(m, search, re));
    if matches.len() == 0 {
        assert(wanted =~= Seq::empty());
    } else {
        let front = matches.drop_last();
        let last = matches.last();
        assert forall|i: int| 0 <= i < front.len() implies fits_a_line(#[trigger] front[i])
            && clean::cleaned(
            front[i].content,
            search.max_line_len as int,
            re,
            search.pattern,
        ) is Some by {
            assert(front[i] == matches[i]);
        }
        lemma_entries_for(front, search, re);
        assert(all.drop_last() =~= front.map_values(|m: Match| line_for(m)));
        assert(matches[matches.len() - 1] == last);
        lines::law_match_line_round_trip(last.file, last.line_num, last.content);
        assert(wanted =~= front.map_values(|m: Match| entry_for(m, search, re)).push(
            entry_for(last, search, re),
        ));
    }
}

/// The output for some matches is more than white space.
proof fn lemma_output_is_not_blank(matches: Seq<Match>)
    requires
        matches.len() > 0,
    ensures
        text::trimmed(output_for(matches)).len() > 0,
{
    let output = output_for(matches);
    let first = matches[0];
    let nul = first.file.len() as int;
    assert(output[nul] == '\0');
    texts::law_trimmed_is_bare(output);
}

/// A search whose backend prints a line for each of some matches is reported with the
/// listing of exactly these matches.
pub proof fn law_matches_are_listed(
    matches: Seq<Match>,
    search: args::SearchView,
    stderr: Seq<char>,
    exit_code: i32,
    per_file: nat,
)
    requires
        matches.len() > 0,
        !backend::another_format(search.rg_args),
        forall|i: int| 0 <= i < matches.len() ==> fits_a_line(#[trigger] matches[i]),
        forall|i: int|
            0 <= i < matches.len() ==> clean::cleaned(
                (#[trigger] matches[i]).content,
                search.max_line_len as int,
                clean::context_of(search),
                search.pattern,
            ) is Some,
    ensures
        ({
            let captured = run::CapturedView { stdout: output_for(matches), stderr, exit_code };
            let entries = matches.map_values(
                |m: Match| entry_for(m, search, clean::context_of(search)),
            );
            run::search_report(search, captured, per_file) == Some(
                run::listing_report(search, captured, matches.len(), entries, per_file),
            )
        }),
{
    lemma_output_is_not_blank(matches);
    law_output_is_read_back(matches, search, clean::context_of(search));
}

/// Not every line need be a match, but no line is more than one.
proof fn lemma_entries_within_lines(
    lines: Seq<Seq<char>>,
    search: args::SearchView,
    re: Option<regex::Regex>,
)
    ensures
        run::entries_of(lines, search, re) matches Some(entries) ==> entries.len() <= lines.len(),
    decreases lines.len(),
{
    if lines.len() > 0 {
        lemma_entries_within_lines(lines.drop_last(), search, re);
    }
}

/// Every line of the output is counted: those that are shown and those that the last
/// line of the listing speaks of are together as many as the heading says, however
/// few are shown.
pub proof fn law_every_line_is_counted(
    lines: Seq<Seq<char>>,
    search: args::SearchView,
    re: Option<regex::Regex>,
    per_file: nat,
)
    ensures
        run::entries_of(lines, search, re) matches Some(entries) ==> {
            let shown = report::selected(entries, per_file, search.max_results as nat).len();
            let hidden = (lines.len() - shown) as nat;
            &&& shown + hidden == lines.len()
            &&& report::remainder(lines.len(), shown) == if hidden > 0 {
                "[+"@ + text::decimal(hidden) + " more]\n"@
            } else {
                Seq::empty()
            }
        },
{
    if let Some(entries) = run::entries_of(lines, search, re) {
        lemma_entries_within_lines(lines, search, re);
        listings::law_limits_are_kept(
            entries,
            per_file,
            search.max_results as nat,
            Seq::empty(),
        );
    }
}

/// The exit code of a run is that of the program that answered.
pub proof fn law_exit_code_is_kept(
    pending: run::PendingView,
    captured: run::CapturedView,
    per_file: nat,
)
    ensures
        run::after_answer(pending, captured, per_file) matches run::StepView::Done(report)
            ==> report.exit_code == captured.exit_code,
{
}

/// A program that answers ends the run.
pub proof fn law_an_answer_ends_the_run(
    pending: run::PendingView,
    captured: run::CapturedView,
    per_file: nat,
)
    ensures
        !(run::after_answer(pending, captured, per_file) is Call),
{
}

/// At most two programs are called: grep after ripgrep, for the same search, and
/// nothing after grep.
pub proof fn law_two_calls_at_most(pending: run::PendingView)
    ensures
        run::after_failure(pending) matches run::StepView::Call { call, pending: next } ==> {
            &&& pending matches run::PendingView::Ripgrep(search) && next
                == run::PendingView::Grep(search) && call.args == backend::grep_arguments(search)
            &&& !(run::after_failure(next) is Call)
        },
{
}

/// What is reported does not depend on which of the two programs has answered.
pub proof fn law_backends_are_interchangeable(
    search: args::SearchView,
    captured: run::CapturedView,
    per_file: nat,
)
    ensures
        run::after_answer(run::PendingView::Ripgrep(search), captured, per_file)
            == run::after_answer(run::PendingView::Grep(search), captured, per_file),
{
}

/// With room for the dots in a cut line, a search that is answered is reported.
pub proof fn law_answered_search_is_reported(
    search: args::SearchView,
    captured: run::CapturedView,
    per_file: nat,
)
    requires
        search.max_line_len >= 3,
    ensures
        run::search_report(search, captured, per_file) is Some,
{
    lemma_entries_defined(
        text::lines_of(captured.stdout),
        search,
        clean::context_of(search),
    );
}

/// With room for the dots, the entries are defined.
proof fn lemma_entries_defined(
    lines: Seq<Seq<char>>,
    search: args::SearchView,
    re: Option<regex::Regex>,
)
    requires
        search.max_line_len >= 3,
    ensures
        run::entries_of(lines, search, re) is Some,
    decreases lines.len(),
{
    if lines.len() > 0 {
        lemma_entries_defined(lines.drop_last(), search, re);
    }
}

/// The entries of an output are those of its parts, one behind the other, and are
/// defined where those of both parts are.
pub proof fn law_entries_come_in_turn(
    a: Seq<Seq<char>>,
    b: Seq<Seq<char>>,
    search: args::SearchView,
    re: Option<regex::Regex>,
)
    ensures
        match (run::entries_of(a, search, re), run::entries_of(b, search, re)) {
            (Some(x), Some(y)) => run::entries_of(a + b, search, re) == Some(x + y),
            _ => run::entries_of(a + b, search, re) is None,
        },
    decreases b.len(),
{
    let all = a + b;
    if b.len() == 0 {
        assert(all =~= a);
        if let Some(x) = run::entries_of(a, search, re) {
            assert(x + Seq::<EntryView>::empty() =~= x);
        }
    } else {
        law_entries_come_in_turn(a, b.drop_last(), search, re);
        assert(all.drop_last() =~= a + b.drop_last());
        assert(all.last() == b.last());
        if let (Some(x), Some(y)) = (
            run::entries_of(a, search, re),
            run::entries_of(b, search, re),
        ) {
            assert(run::entries_of(all, search, re)->0 =~= x + y);
        }
    }
}

/// A line that is read as a match has one entry, with the file and the line number of
/// the match and its content made short; another line has none.
pub proof fn law_line_has_the_entry_of_its_match(
    line: Seq<char>,
    search: args::SearchView,
    re: Option<regex::Regex>,
)
    ensures
        run::entries_of(Seq::empty(), search, re) == Some(Seq::<EntryView>::empty()),
        match match_line::match_in(line) {
            None => run::entries_of(seq![line], search, re) == Some(Seq::<EntryView>::empty()),
            Some((file, line_num, content)) => {
                let content = clean::cleaned(
                    content,
                    search.max_line_len as int,
                    re,
                    search.pattern,
                );
                match content {
                    Some(shown) => run::entries_of(seq![line], search, re) == Some(
                        seq![EntryView { file, line_num, shown }],
                    ),
                    None => run::entries_of(seq![line], search, re) is None,
                }
            },
        },
{
    let lines = seq![line];
    assert(lines.drop_last() =~= Seq::empty());
    assert(lines.last() == line);
    if let Some(entries) = run::entries_of(lines, search, re) {
        if entries.len() == 1 {
            assert(entries =~= seq![entries[0]]);
        }
    }
}

/// A line that is no match, wherever it stands, leaves the entries as they are.
pub proof fn law_other_lines_are_skipped(
    a: Seq<Seq<char>>,
    line: Seq<char>,
    b: Seq<Seq<char>>,
    search: args::SearchView,
    re: Option<regex::Regex>,
)
    requires
        match_line::match_in(line) is None,
    ensures
        run::entries_of(a + seq![line] + b, search, re) == run::entries_of(a + b, search, re),
{
    law_line_has_the_entry_of_its_match(line, search, re);
    law_entries_come_in_turn(a, seq![line], search, re);
    law_entries_come_in_turn(a + seq![line], b, search, re);
    law_entries_come_in_turn(a, b, search, re);
    if let Some(x) = run::entries_of(a, search, re) {
        assert(x + Seq::<EntryView>::empty() =~= x);
    }
}

/// Whether what is printed is what the program has printed, unchanged, and behind it, if
/// there is any, what it has said on the error stream, without white space around it.
pub open spec fn prints_as_it_is(prints: Seq<run::PrintView>, captured: run::CapturedView) -> bool {
    if captured.stderr.len() == 0 {
        prints == seq![run::PrintView::Stdout(captured.stdout)]
    } else {
        prints == seq![
            run::PrintView::Stdout(captured.stdout),
            run::PrintView::Stderr(text::trimmed(captured.stderr)),
        ]
    }
}

/// Where the options change the format of the output, it is printed as it is, with the
/// exit code of the program, and recorded under the words of the command line.
pub proof fn law_other_formats_are_printed_as_they_are(
    search: args::SearchView,
    captured: run::CapturedView,
    per_file: nat,
)
    requires
        backend::another_format(search.rg_args),
    ensures
        run::search_report(search, captured, per_file) matches Some(report) && {
            let operands = "'"@ + search.pattern + "' "@ + text::joined(search.paths, " "@);
            let words = if search.rg_args.len() == 0 {
                operands
            } else {
                text::joined(search.rg_args, " "@) + " "@ + operands
            };
            &&& prints_as_it_is(report.prints, captured)
            &&& report.exit_code == captured.exit_code
            &&& report.record == run::RecordView::Passthrough {
                original: "grep"@ + " "@ + words,
                command: "rtk grep "@ + words + " (passthrough)"@,
            }
        },
{
    lemma_prints_as_it_is(captured);
}

/// Where ripgrep is called without a pattern, its output is printed as it is, with its
/// exit code, and recorded under its arguments.
pub proof fn law_passthrough_is_printed_as_it_is(
    rg_args: Seq<Seq<char>>,
    captured: run::CapturedView,
    per_file: nat,
)
    ensures
        run::after_answer(run::PendingView::Passthrough(rg_args), captured, per_file)
            matches run::StepView::Done(report) && {
            let words = text::joined(rg_args, " "@);
            &&& report == run::passthrough_report(rg_args, captured)
            &&& prints_as_it_is(report.prints, captured)
            &&& report.exit_code == captured.exit_code
            &&& report.record == run::RecordView::Passthrough {
                original: "rg"@ + " "@ + words,
                command: "rtk grep "@ + words + " (passthrough)"@,
            }
        },
{
    lemma_prints_as_it_is(captured);
}

/// What is printed of an output that is left alone.
proof fn lemma_prints_as_it_is(captured: run::CapturedView)
    ensures
        prints_as_it_is(run::left_alone(captured), captured),
{
    let prints = run::left_alone(captured);
    if captured.stderr.len() == 0 {
        assert(prints =~= seq![run::PrintView::Stdout(captured.stdout)]);
    } else {
        assert(prints =~= seq![
            run::PrintView::Stdout(captured.stdout),
            run::PrintView::Stderr(text::trimmed(captured.stderr)),
        ]);
    }
}

/// Whether a record holds what was printed by the program and what is printed instead,
/// under the search as grep would be asked for it.
pub open spec fn records_the_replacement(
    record: run::RecordView,
    search: args::SearchView,
    raw: Seq<char>,
    filtered: Seq<char>,
) -> bool {
    record == run::RecordView::Filtered {
        original: "grep -rn '"@ + search.pattern + "' "@ + text::joined(search.paths, " "@),
        command: "rtk grep"@,
        raw,
        filtered,
    }
}

/// Where the program has printed white space alone, it is said that nothing was found;
/// with the exit code of an error, what the program complains of comes first, if it
/// complains.
pub proof fn law_blank_output_is_no_match(
    search: args::SearchView,
    captured: run::CapturedView,
    per_file: nat,
)
    requires
        !backend::another_format(search.rg_args),
        forall|i: int|
            0 <= i < captured.stdout.len() ==> text::is_white(#[trigger] captured.stdout[i]),
    ensures
        run::search_report(search, captured, per_file) matches Some(report) && {
            let message = "0 matches for '"@ + search.pattern + "'"@;
            let complaint = text::trimmed(captured.stderr);
            &&& report.prints == if captured.exit_code == 2 && complaint.len() > 0 {
                seq![
                    run::PrintView::Stderr(complaint + "\n"@),
                    run::PrintView::Stdout(message + "\n"@),
                ]
            } else {
                seq![run::PrintView::Stdout(message + "\n"@)]
            }
            &&& report.exit_code == captured.exit_code
            &&& records_the_replacement(report.record, search, captured.stdout, message)
        },
{
    texts::law_blank_text_is_trimmed_away(captured.stdout);
    let report = run::empty_report(search, captured);
    let message = "0 matches for '"@ + search.pattern + "'"@;
    let complaint = text::trimmed(captured.stderr);
    if captured.exit_code == 2 && complaint.len() > 0 {
        assert(report.prints =~= seq![
            run::PrintView::Stderr(complaint + "\n"@),
            run::PrintView::Stdout(message + "\n"@),
        ]);
    } else {
        assert(report.prints =~= seq![run::PrintView::Stdout(message + "\n"@)]);
    }
}

/// Where the program has printed more than white space, the listing of the entries of
/// all its lines is printed, and nothing else, if they are defined.
pub proof fn law_output_is_replaced_by_its_listing(
    search: args::SearchView,
    captured: run::CapturedView,
    per_file: nat,
    i: int,
)
    requires
        !backend::another_format(search.rg_args),
        0 <= i < captured.stdout.len(),
        !text::is_white(captured.stdout[i]),
    ensures
        ({
            let lines = text::lines_of(captured.stdout);
            match run::entries_of(lines, search, clean::context_of(search)) {
                Some(entries) => {
                    let listing = report::listing(
                        lines.len(),
                        entries,
                        per_file,
                        search.max_results as nat,
                    );
                    &&& run::search_report(search, captured, per_file) matches Some(report)
                    &&& report.prints == seq![run::PrintView::Stdout(listing)]
                    &&& report.exit_code == captured.exit_code
                    &&& records_the_replacement(report.record, search, captured.stdout, listing)
                },
                None => run::search_report(search, captured, per_file) is None,
            }
        }),
{
    texts::law_blank_text_is_trimmed_away(captured.stdout);
}

/// A report of given entries, out of so many lines, prints their listing and nothing
/// else.
pub proof fn law_entries_are_reported_by_their_listing(
    search: args::SearchView,
    captured: run::CapturedView,
    total: nat,
    entries: Seq<EntryView>,
    per_file: nat,
)
    ensures
        ({
            let listing = report::listing(total, entries, per_file, search.max_results as nat);
            let report = run::listing_report(search, captured, total, entries, per_file);
            &&& report.prints == seq![run::PrintView::Stdout(listing)]
            &&& report.exit_code == captured.exit_code
            &&& records_the_replacement(report.record, search, captured.stdout, listing)
        }),
{
}

/// A search begins with a call of ripgrep, for the pattern with plain bars, and, where
/// it is asked for, with a notice that says what is searched for and where.
pub proof fn law_search_begins_with_ripgrep(search: args::SearchView, verbose: u8)
    ensures
        ({
            let start = run::start_of(args::InvocationView::Search(search), verbose);
            &&& start.call.program == "rg"@
            &&& start.call.args == backend::ripgrep_arguments(
                search,
                text::with_plain_bars(search.pattern),
            )
            &&& start.pending == run::PendingView::Ripgrep(search)
            &&& verbose == 0 ==> start.notice is None
            &&& verbose > 0 ==> start.notice == Some(
                "grep: '"@ + search.pattern + "' in "@ + text::joined(search.paths, " "@) + "\n"@,
            )
        }),
{
}

/// A command line without a pattern to search for is handed to ripgrep, without a notice.
pub proof fn law_passthrough_begins_with_ripgrep(rg_args: Seq<Seq<char>>, verbose: u8)
    ensures
        ({
            let start = run::start_of(args::InvocationView::RgPassthrough(rg_args), verbose);
            &&& start.call.program == "rg"@
            &&& start.call.args == rg_args
            &&& start.pending == run::PendingView::Passthrough(rg_args)
            &&& start.notice is None
        }),
{
}

/// Where ripgrep cannot be run for a search, grep is called for it; where grep cannot be
/// run either, or ripgrep is called without a pattern, the run fails.
pub proof fn law_failures_are_followed_up(
    search: args::SearchView,
    rg_args: Seq<Seq<char>>,
    per_file: nat,
)
    ensures
        run::step_after(run::PendingView::Ripgrep(search), None, per_file)
            matches run::StepView::Call { call, pending } && call.program == "grep"@ && call.args
            == backend::grep_arguments(search) && pending == run::PendingView::Grep(search),
        run::step_after(run::PendingView::Grep(search), None, per_file) == run::StepView::Failed(
            run::RunError::NoBackend,
        ),
        run::step_after(run::PendingView::Passthrough(rg_args), None, per_file)
            == run::StepView::Failed(run::RunError::NoRipgrep),
{
}

/// A search that is answered, by either program, ends with its report, and fails only
/// where there is none.
pub proof fn law_answers_are_reported(
    search: args::SearchView,
    captured: run::CapturedView,
    per_file: nat,
)
    ensures
        ({
            let step = match run::search_report(search, captured, per_file) {
                Some(report) => run::StepView::Done(report),
                None => run::StepView::Failed(run::RunError::NoRoomForDots),
            };
            &&& run::step_after(run::PendingView::Ripgrep(search), Some(captured), per_file)
                == step
            &&& run::step_after(run::PendingView::Grep(search), Some(captured), per_file) == step
        }),
        forall|rg_args: Seq<Seq<char>>| #[trigger]
            run::step_after(run::PendingView::Passthrough(rg_args), Some(captured), per_file)
                == run::StepView::Done(run::passthrough_report(rg_args, captured)),
{
}

} // verus!
