//! A run from the command line to the report. The library decides which program
//! is called with what, and what is printed once it has answered; calling and
//! printing are left to the caller.

use crate::args;
use crate::args::{ArgError, GrepInvocation, GrepSearch};
use crate::backend;
use crate::clean;
use crate::match_line;
use crate::report;
use crate::report::Entry;
use crate::text;
use vstd::prelude::*;
use vstd::string::*;

verus! {

// ---------------------------------------------------------------------------
// What goes in and what comes out
// ---------------------------------------------------------------------------

/// A program to call, with its arguments.
#[derive(Debug, Clone, PartialEq, Eq)]
pub struct Call {
    pub program: String,
    pub args: Vec<String>,
}

/// A `Call` over texts.
pub struct CallView {
    pub program: Seq<char>,
    pub args: Seq<Seq<char>>,
}

impl View for Call {
    type V = CallView;

    open spec fn view(&self) -> CallView {
        CallView { program: self.program@, args: text::texts(self.args@) }
    }
}

/// What a program that ran has printed, and its exit code.
#[derive(Debug, Clone, PartialEq, Eq)]
pub struct Captured {
    pub stdout: String,
    pub stderr: String,
    pub exit_code: i32,
}

/// A `Captured` over texts.
pub struct CapturedView {
    pub stdout: Seq<char>,
    pub stderr: Seq<char>,
    pub exit_code: i32,
}

impl View for Captured {
    type V = CapturedView;

    open spec fn view(&self) -> CapturedView {
        CapturedView { stdout: self.stdout@, stderr: self.stderr@, exit_code: self.exit_code }
    }
}

/// Something to print, as it stands.
#[derive(Debug, Clone, PartialEq, Eq)]
pub enum Print {
    Stdout(String),
    Stderr(String),
}

/// A `Print` over texts.
pub enum PrintView {
    Stdout(Seq<char>),
    Stderr(Seq<char>),
}

impl View for Print {
    type V = PrintView;

    open spec fn view(&self) -> PrintView {
        match self {
            Print::Stdout(s) => PrintView::Stdout(s@),
            Print::Stderr(s) => PrintView::Stderr(s@),
        }
    }
}

/// What a list of prints holds.
pub open spec fn prints(list: Seq<Print>) -> Seq<PrintView> {
    list.map_values(|p: Print| p@)
}

/// What is recorded of a run.
#[derive(Debug, Clone, PartialEq, Eq)]
pub enum Record {
    /// The output was left alone.
    Passthrough { original: String, command: String },
    /// `raw` was replaced by `filtered`.
    Filtered { original: String, command: String, raw: String, filtered: String },
}

/// A `Record` over texts.
pub enum RecordView {
    Passthrough { original: Seq<char>, command: Seq<char> },
    Filtered { original: Seq<char>, command: Seq<char>, raw: Seq<char>, filtered: Seq<char> },
}

impl View for Record {
    type V = RecordView;

    open spec fn view(&self) -> RecordView {
        match self {
            Record::Passthrough { original, command } => RecordView::Passthrough {
                original: original@,
                command: command@,
            },
            Record::Filtered { original, command, raw, filtered } => RecordView::Filtered {
                original: original@,
                command: command@,
                raw: raw@,
                filtered: filtered@,
            },
        }
    }
}

/// The end of a run: what to print, in this order, what to record, and the exit code.
#[derive(Debug, Clone, PartialEq, Eq)]
pub struct Report {
    pub prints: Vec<Print>,
    pub record: Record,
    pub exit_code: i32,
}

/// A `Report` over texts.
pub struct ReportView {
    pub prints: Seq<PrintView>,
    pub record: RecordView,
    pub exit_code: i32,
}

impl View for Report {
    type V = ReportView;

    open spec fn view(&self) -> ReportView {
        ReportView {
            prints: prints(self.prints@),
            record: self.record@,
            exit_code: self.exit_code,
        }
    }
}

/// Why a run has no report.
#[derive(Debug, Clone, Copy, PartialEq, Eq)]
pub enum RunError {
    /// Neither ripgrep nor grep could be run.
    NoBackend,
    /// Ripgrep could not be run, and nothing can stand in for it.
    NoRipgrep,
    /// A long line without the pattern has to be cut to fewer than three
    /// characters, which leaves no room for the dots.
    NoRoomForDots,
}

impl RunError {
    /// How the error reads.
    pub open spec fn wording(self) -> Seq<char> {
        match self {
            RunError::NoBackend => "grep/rg failed"@,
            RunError::NoRipgrep => "rg failed"@,
            RunError::NoRoomForDots => "no room for the dots of a cut line"@,
        }
    }

    /// The message to print.
    pub fn message(&self) -> (r: String)
        ensures
            r@ == self.wording(),
    {
        match self {
            RunError::NoBackend => "grep/rg failed".to_string(),
            RunError::NoRipgrep => "rg failed".to_string(),
            RunError::NoRoomForDots => "no room for the dots of a cut line".to_string(),
        }
    }
}

/// Which answer a run waits for.
#[derive(Debug, Clone, PartialEq, Eq)]
pub enum Pending {
    /// That of ripgrep, for a search.
    Ripgrep(GrepSearch),
    /// That of grep, for a search that ripgrep could not be run for.
    Grep(GrepSearch),
    /// That of ripgrep, called with these arguments, which is left alone.
    Passthrough(Vec<String>),
}

/// A `Pending` over texts.
pub enum PendingView {
    Ripgrep(args::SearchView),
    Grep(args::SearchView),
    Passthrough(Seq<Seq<char>>),
}

impl View for Pending {
    type V = PendingView;

    open spec fn view(&self) -> PendingView {
        match self {
            Pending::Ripgrep(search) => PendingView::Ripgrep(search@),
            Pending::Grep(search) => PendingView::Grep(search@),
            Pending::Passthrough(rg_args) => PendingView::Passthrough(text::texts(rg_args@)),
        }
    }
}

/// The beginning of a run: something to print on the error stream, a program to
/// call, and what to do with its answer.
#[derive(Debug, Clone, PartialEq, Eq)]
pub struct Start {
    pub notice: Option<String>,
    pub call: Call,
    pub pending: Pending,
}

/// A `Start` over texts.
pub struct StartView {
    pub notice: Option<Seq<char>>,
    pub call: CallView,
    pub pending: PendingView,
}

impl View for Start {
    type V = StartView;

    open spec fn view(&self) -> StartView {
        StartView {
            notice: match self.notice {
                Some(notice) => Some(notice@),
                None => None,
            },
            call: self.call@,
            pending: self.pending@,
        }
    }
}

/// What follows an answer.
#[derive(Debug, Clone, PartialEq, Eq)]
pub enum Step {
    /// Another program has to be called.
    Call { call: Call, pending: Pending },
    /// The run is over.
    Done(Report),
    /// The run has failed.
    Failed(RunError),
}

/// A `Step` over texts.
pub enum StepView {
    Call { call: CallView, pending: PendingView },
    Done(ReportView),
    Failed(RunError),
}

impl View for Step {
    type V = StepView;

    open spec fn view(&self) -> StepView {
        match self {
            Step::Call { call, pending } => StepView::Call { call: call@, pending: pending@ },
            Step::Done(report) => StepView::Done(report@),
            Step::Failed(e) => StepView::Failed(*e),
        }
    }
}

// ---------------------------------------------------------------------------
// The beginning
// ---------------------------------------------------------------------------

/// What is said of a search beforehand.
pub open spec fn notice_of(search: args::SearchView) -> Seq<char> {
    "grep: '"@ + search.pattern + "' in "@ + text::joined(search.paths, " "@) + "\n"@
}

/// How a run begins, with a notice of a search where `verbose` is not zero.
pub open spec fn start_of(asked: args::InvocationView, verbose: u8) -> StartView {
    match asked {
        args::InvocationView::Search(search) => StartView {
            notice: if verbose > 0 {
                Some(notice_of(search))
            } else {
                None
            },
            call: CallView {
                program: "rg"@,
                args: backend::ripgrep_arguments(search, text::with_plain_bars(search.pattern)),
            },
            pending: PendingView::Ripgrep(search),
        },
        args::InvocationView::RgPassthrough(rg_args) => StartView {
            notice: None,
            call: CallView { program: "rg"@, args: rg_args },
            pending: PendingView::Passthrough(rg_args),
        },
    }
}

/// The beginning of a run for a command line.
pub fn run_from_args(args: &[String], verbose: u8) -> (r: Result<Start, ArgError>)
    ensures
        match r {
            Ok(start) => args::invocation(text::texts(args@)) matches Ok(asked) && start@
                == start_of(asked, verbose),
            Err(e) => args::invocation(text::texts(args@)) == Err::<
                args::InvocationView,
                args::ArgErrorView,
            >(e@),
        },
{
    match args::parse_grep_args(args) {
        Err(e) => Err(e),
        Ok(GrepInvocation::Search(search)) => Ok(start_search(search, verbose)),
        Ok(GrepInvocation::RgPassthrough(rg_args)) => Ok(start_passthrough(rg_args)),
    }
}

/// The beginning of a search.
fn start_search(search: GrepSearch, verbose: u8) -> (r: Start)
    ensures
        r@ == start_of(args::InvocationView::Search(search@), verbose),
{
    let notice = if verbose > 0 {
        let mut notice = "grep: '".to_string();
        notice.append(search.pattern.as_str());
        notice.append("' in ");
        notice.append(text::join(&search.paths, " ").as_str());
        notice.append("\n");
        assert(notice@ =~= notice_of(search@));
        Some(notice)
    } else {
        None
    };
    let rg_pattern = text::plain_bars(search.pattern.as_str());
    let call = Call {
        program: "rg".to_string(),
        args: backend::build_rg_args(&search, rg_pattern.as_str()),
    };
    Start { notice, call, pending: Pending::Ripgrep(search) }
}

/// The beginning of a call of ripgrep whose output is left alone.
fn start_passthrough(rg_args: Vec<String>) -> (r: Start)
    ensures
        forall|verbose: u8|
            r@ == #[trigger] start_of(
                args::InvocationView::RgPassthrough(text::texts(rg_args@)),
                verbose,
            ),
{
    let mut copy: Vec<String> = Vec::new();
    text::push_from(&mut copy, rg_args.as_slice(), 0);
    assert(text::texts(copy@) =~= text::texts(rg_args@));
    Start {
        notice: None,
        call: Call { program: "rg".to_string(), args: copy },
        pending: Pending::Passthrough(rg_args),
    }
}

// ---------------------------------------------------------------------------
// The report of a search
// ---------------------------------------------------------------------------

/// The entries for the matching lines of an output, in their order. They are
/// undefined where one of them is.
pub open spec fn entries_of(
    lines: Seq<Seq<char>>,
    search: args::SearchView,
    re: Option<regex::Regex>,
) -> Option<Seq<report::EntryView>>
    decreases lines.len(),
{
    if lines.len() == 0 {
        Some(Seq::empty())
    } else {
        match (entries_of(lines.drop_last(), search, re), match_line::match_in(lines.last())) {
            (None, _) => None,
            (Some(before), None) => Some(before),
            (Some(before), Some((file, line_num, content))) => match clean::cleaned(
                content,
                search.max_line_len as int,
                re,
                search.pattern,
            ) {
                Some(shown) => Some(before.push(report::EntryView { file, line_num, shown })),
                None => None,
            },
        }
    }
}

/// Once undefined, the entries stay undefined.
proof fn lemma_entries_undefined(
    lines: Seq<Seq<char>>,
    n: int,
    search: args::SearchView,
    re: Option<regex::Regex>,
)
    requires
        0 <= n <= lines.len(),
        entries_of(lines.take(n), search, re) is None,
    ensures
        entries_of(lines, search, re) is None,
    decreases lines.len(),
{
    if n == lines.len() {
        assert(lines.take(n) =~= lines);
    } else {
        assert(lines.drop_last().take(n) =~= lines.take(n));
        lemma_entries_undefined(lines.drop_last(), n, search, re);
    }
}

/// The entries for the matching lines of an output.
fn collect_entries(lines: &Vec<String>, search: &GrepSearch, re: Option<&regex::Regex>) -> (r:
    Option<Vec<Entry>>)
    ensures
        match r {
            Some(entries) => entries_of(text::texts(lines@), search@, clean::expression(re))
                == Some(report::views(entries@)),
            None => entries_of(text::texts(lines@), search@, clean::expression(re)) is None,
        },
{
    let ghost all = text::texts(lines@);
    let ghost expr = clean::expression(re);
    let mut entries: Vec<Entry> = Vec::new();
    let mut i: usize = 0;
    assert(report::views(entries@) =~= Seq::empty());
    while i < lines.len()
        invariant
            i <= lines@.len(),
            all == text::texts(lines@),
            expr == clean::expression(re),
            entries_of(all.take(i as int), search@, expr) == Some(report::views(entries@)),
        decreases lines.len() - i,
    {
        let line = lines[i].as_str();
        assert(line@ == all[i as int]);
        assert(all.take(i + 1).drop_last() =~= all.take(i as int));
        if let Some((file, line_num, content)) = match_line::parse_match_line(line) {
            match clean::try_clean_line(
                content,
                search.max_line_len,
                re,
                search.pattern.as_str(),
            ) {
                Some(shown) => {
                    let ghost before = report::views(entries@);
                    let entry = Entry { file, line_num, shown };
                    entries.push(entry);
                    assert(report::views(entries@) =~= before.push(entry@));
                },
                None => {
                    proof {
                        lemma_entries_undefined(all, i + 1, search@, expr);
                    }
                    return None;
                },
            }
        }
        i = i + 1;
    }
    assert(all.take(all.len() as int) =~= all);
    Some(entries)
}

/// A print of one line or more, if there is anything to print.
pub open spec fn printed_if(wanted: bool, print: PrintView) -> Seq<PrintView> {
    if wanted {
        seq![print]
    } else {
        Seq::empty()
    }
}

/// An output that is left alone: what was printed, and what was said on the error
/// stream without white space around it.
pub open spec fn left_alone(captured: CapturedView) -> Seq<PrintView> {
    seq![PrintView::Stdout(captured.stdout)] + printed_if(
        captured.stderr.len() > 0,
        PrintView::Stderr(text::trimmed(captured.stderr)),
    )
}

/// A call as a record of it reads, where the output was left alone.
pub open spec fn passthrough_record(program: Seq<char>, words: Seq<char>) -> RecordView {
    RecordView::Passthrough {
        original: program + " "@ + words,
        command: "rtk grep "@ + words + " (passthrough)"@,
    }
}

/// The words of a search: its options, its pattern and its paths.
pub open spec fn words_of(search: args::SearchView) -> Seq<char> {
    let operands = "'"@ + search.pattern + "' "@ + text::joined(search.paths, " "@);
    if search.rg_args.len() == 0 {
        operands
    } else {
        text::joined(search.rg_args, " "@) + " "@ + operands
    }
}

/// The report of a search whose output has another shape.
pub open spec fn formatted_report(search: args::SearchView, captured: CapturedView) -> ReportView {
    ReportView {
        prints: left_alone(captured),
        record: passthrough_record("grep"@, words_of(search)),
        exit_code: captured.exit_code,
    }
}

/// The record of a search whose output is replaced.
pub open spec fn filtered_record(
    search: args::SearchView,
    raw: Seq<char>,
    filtered: Seq<char>,
) -> RecordView {
    RecordView::Filtered {
        original: "grep -rn '"@ + search.pattern + "' "@ + text::joined(search.paths, " "@),
        command: "rtk grep"@,
        raw,
        filtered,
    }
}

/// What is said where nothing is found.
pub open spec fn nothing_found(search: args::SearchView) -> Seq<char> {
    "0 matches for '"@ + search.pattern + "'"@
}

/// The report of a search without matches. Where the backend has met an error,
/// what it said comes first.
pub open spec fn empty_report(search: args::SearchView, captured: CapturedView) -> ReportView {
    let complaint = text::trimmed(captured.stderr);
    ReportView {
        prints: printed_if(
            captured.exit_code == 2 && complaint.len() > 0,
            PrintView::Stderr(complaint + "\n"@),
        ) + seq![PrintView::Stdout(nothing_found(search) + "\n"@)],
        record: filtered_record(search, captured.stdout, nothing_found(search)),
        exit_code: captured.exit_code,
    }
}

/// The report of a search with these entries, out of `total` lines.
pub open spec fn listing_report(
    search: args::SearchView,
    captured: CapturedView,
    total: nat,
    entries: Seq<report::EntryView>,
    per_file: nat,
) -> ReportView {
    let listing = report::listing(total, entries, per_file, search.max_results as nat);
    ReportView {
        prints: seq![PrintView::Stdout(listing)],
        record: filtered_record(search, captured.stdout, listing),
        exit_code: captured.exit_code,
    }
}

/// The report of a search.
pub open spec fn search_report(
    search: args::SearchView,
    captured: CapturedView,
    per_file: nat,
) -> Option<ReportView> {
    if backend::another_format(search.rg_args) {
        Some(formatted_report(search, captured))
    } else if text::trimmed(captured.stdout).len() == 0 {
        Some(empty_report(search, captured))
    } else {
        let lines = text::lines_of(captured.stdout);
        match entries_of(lines, search, clean::context_of(search)) {
            Some(entries) => Some(
                listing_report(search, captured, lines.len(), entries, per_file),
            ),
            None => None,
        }
    }
}

/// The prints for an output that is left alone.
fn leave_alone(captured: &Captured) -> (r: Vec<Print>)
    ensures
        prints(r@) == left_alone(captured@),
{
    let mut out: Vec<Print> = Vec::new();
    out.push(Print::Stdout(captured.stdout.clone()));
    if !captured.stderr.as_str().is_empty() {
        out.push(Print::Stderr(text::trim(captured.stderr.as_str()).to_string()));
    }
    assert(prints(out@) =~= left_alone(captured@));
    out
}

/// The record of a call whose output was left alone.
fn record_passthrough(program: &str, words: &str) -> (r: Record)
    ensures
        r@ == passthrough_record(program@, words@),
{
    let mut original = program.to_string();
    original.append(" ");
    original.append(words);
    let mut command = "rtk grep ".to_string();
    command.append(words);
    command.append(" (passthrough)");
    Record::Passthrough { original, command }
}

/// The record of a search whose output is replaced.
fn record_filtered(search: &GrepSearch, raw: String, filtered: String) -> (r: Record)
    ensures
        r@ == filtered_record(search@, raw@, filtered@),
{
    let mut original = "grep -rn '".to_string();
    original.append(search.pattern.as_str());
    original.append("' ");
    original.append(text::join(&search.paths, " ").as_str());
    Record::Filtered { original, command: "rtk grep".to_string(), raw, filtered }
}

/// The words of a search.
fn search_words(search: &GrepSearch) -> (r: String)
    ensures
        r@ == words_of(search@),
{
    let mut operands = "'".to_string();
    operands.append(search.pattern.as_str());
    operands.append("' ");
    operands.append(text::join(&search.paths, " ").as_str());
    if search.rg_args.is_empty() {
        operands
    } else {
        let mut words = text::join(&search.rg_args, " ");
        words.append(" ");
        words.append(operands.as_str());
        words
    }
}

/// The report of a search without matches.
fn report_nothing(search: &GrepSearch, captured: &Captured) -> (r: Report)
    ensures
        r@ == empty_report(search@, captured@),
{
    let mut out: Vec<Print> = Vec::new();
    let complaint = text::trim(captured.stderr.as_str());
    if captured.exit_code == 2 && !complaint.is_empty() {
        out.push(Print::Stderr(text::concat(complaint, "\n")));
    }
    let mut message = "0 matches for '".to_string();
    message.append(search.pattern.as_str());
    message.append("'");
    assert(message@ =~= nothing_found(search@));
    out.push(Print::Stdout(text::concat(message.as_str(), "\n")));
    let report = Report {
        prints: out,
        record: record_filtered(search, captured.stdout.clone(), message),
        exit_code: captured.exit_code,
    };
    assert(report@.prints =~= empty_report(search@, captured@).prints);
    report
}

/// The report of a search with these entries, out of `total` lines.
pub fn report_entries(
    search: &GrepSearch,
    captured: &Captured,
    total: usize,
    entries: &Vec<Entry>,
    per_file: usize,
) -> (r: Report)
    ensures
        r@ == listing_report(
            search@,
            captured@,
            total as nat,
            report::views(entries@),
            per_file as nat,
        ),
{
    let listing = report::render(total, entries, per_file, search.max_results);
    let mut out: Vec<Print> = Vec::new();
    out.push(Print::Stdout(listing.clone()));
    let report = Report {
        prints: out,
        record: record_filtered(search, captured.stdout.clone(), listing),
        exit_code: captured.exit_code,
    };
    assert(report@.prints =~= seq![PrintView::Stdout(listing@)]);
    report
}

/// The report of a search, from what the backend has printed. At most `per_file`
/// matches of each file are shown. There is none where a line cannot be cut.
pub fn run_search(search: &GrepSearch, captured: &Captured, per_file: usize) -> (r: Option<Report>)
    ensures
        match r {
            Some(report) => search_report(search@, captured@, per_file as nat) == Some(report@),
            None => search_report(search@, captured@, per_file as nat) is None,
        },
{
    if backend::has_format_flag(search.rg_args.as_slice()) {
        return Some(
            Report {
                prints: leave_alone(captured),
                record: record_passthrough("grep", search_words(search).as_str()),
                exit_code: captured.exit_code,
            },
        );
    }
    if text::trim(captured.stdout.as_str()).is_empty() {
        return Some(report_nothing(search, captured));
    }
    let lines = text::lines(captured.stdout.as_str());
    let re = clean::context_regex(search);
    match collect_entries(&lines, search, re.as_ref()) {
        Some(entries) => Some(report_entries(search, captured, lines.len(), &entries, per_file)),
        None => None,
    }
}

// ---------------------------------------------------------------------------
// The report of a call that is left alone
// ---------------------------------------------------------------------------

/// The report of a call of ripgrep whose output is left alone.
pub open spec fn passthrough_report(rg_args: Seq<Seq<char>>, captured: CapturedView) -> ReportView {
    ReportView {
        prints: left_alone(captured),
        record: passthrough_record("rg"@, text::joined(rg_args, " "@)),
        exit_code: captured.exit_code,
    }
}

/// The report of a call of ripgrep whose output is left alone.
pub fn run_rg_passthrough(rg_args: &Vec<String>, captured: &Captured) -> (r: Report)
    ensures
        r@ == passthrough_report(text::texts(rg_args@), captured@),
{
    Report {
        prints: leave_alone(captured),
        record: record_passthrough("rg", text::join(rg_args, " ").as_str()),
        exit_code: captured.exit_code,
    }
}

// ---------------------------------------------------------------------------
// From one answer to the next step
// ---------------------------------------------------------------------------

/// What follows where a program has run.
pub open spec fn after_answer(
    pending: PendingView,
    captured: CapturedView,
    per_file: nat,
) -> StepView {
    match pending {
        PendingView::Passthrough(rg_args) => StepView::Done(passthrough_report(rg_args, captured)),
        PendingView::Ripgrep(search) | PendingView::Grep(search) => match search_report(
            search,
            captured,
            per_file,
        ) {
            Some(report) => StepView::Done(report),
            None => StepView::Failed(RunError::NoRoomForDots),
        },
    }
}

/// What follows where a program could not be run: grep takes the place of ripgrep
/// in a search, and nothing takes the place of grep.
pub open spec fn after_failure(pending: PendingView) -> StepView {
    match pending {
        PendingView::Ripgrep(search) => StepView::Call {
            call: CallView { program: "grep"@, args: backend::grep_arguments(search) },
            pending: PendingView::Grep(search),
        },
        PendingView::Grep(_) => StepView::Failed(RunError::NoBackend),
        PendingView::Passthrough(_) => StepView::Failed(RunError::NoRipgrep),
    }
}

/// What follows an answer: what the program has printed, or nothing where it could
/// not be run.
pub open spec fn step_after(
    pending: PendingView,
    answer: Option<CapturedView>,
    per_file: nat,
) -> StepView {
    match answer {
        Some(captured) => after_answer(pending, captured, per_file),
        None => after_failure(pending),
    }
}

/// What follows an answer: what the program has printed, or nothing where it could
/// not be run. At most `per_file` matches of each file are shown.
pub fn resume(pending: Pending, answer: Option<Captured>, per_file: usize) -> (r: Step)
    ensures
        r@ == step_after(
            pending@,
            match answer {
                Some(captured) => Some(captured@),
                None => None,
            },
            per_file as nat,
        ),
{
    match answer {
        Some(captured) => match &pending {
            Pending::Passthrough(rg_args) => Step::Done(run_rg_passthrough(rg_args, &captured)),
            Pending::Ripgrep(search) | Pending::Grep(search) => match run_search(
                search,
                &captured,
                per_file,
            ) {
                Some(report) => Step::Done(report),
                None => Step::Failed(RunError::NoRoomForDots),
            },
        },
        None => match pending {
            Pending::Ripgrep(search) => {
                let args = backend::build_grep_fallback_args(&search);
                Step::Call {
                    call: Call { program: "grep".to_string(), args },
                    pending: Pending::Grep(search),
                }
            },
            Pending::Grep(_) => Step::Failed(RunError::NoBackend),
            Pending::Passthrough(_) => Step::Failed(RunError::NoRipgrep),
        },
    }
}

} // verus!
