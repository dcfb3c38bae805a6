//! Laws of the views: each holds all that the value holds.

use crate::args;
use crate::report;
use crate::run;
use crate::text;
use vstd::prelude::*;

verus! {

/// A search is seen with all its fields.
pub proof fn law_search_is_seen_whole(search: args::GrepSearch)
    ensures
        search@.pattern == search.pattern@,
        search@.pattern_from_rg_args == search.pattern_from_rg_args,
        search@.had_pattern_terminator == search.had_pattern_terminator,
        search@.max_line_len == search.max_line_len,
        search@.max_results == search.max_results,
        search@.context_only == search.context_only,
        search@.paths.len() == search.paths@.len(),
        search@.rg_args.len() == search.rg_args@.len(),
        forall|i: int| 0 <= i < search.paths@.len() ==> #[trigger] search@.paths[i]
            == search.paths@[i]@,
        forall|i: int| 0 <= i < search.rg_args@.len() ==> #[trigger] search@.rg_args[i]
            == search.rg_args@[i]@,
{
}

/// What a command line asks for is seen whole.
pub proof fn law_invocation_is_seen_whole(search: args::GrepSearch, rg_args: Vec<String>)
    ensures
        args::GrepInvocation::Search(search)@ == args::InvocationView::Search(search@),
        args::GrepInvocation::RgPassthrough(rg_args)@ == args::InvocationView::RgPassthrough(
            text::texts(rg_args@),
        ),
{
}

/// A mistake on the command line is seen whole, and reads as it should.
pub proof fn law_mistake_is_seen_whole(flag: String, cause: text::NumberError)
    ensures
        (args::ArgError::NotANumber { flag, cause })@ == (args::ArgErrorView::NotANumber {
            flag: flag@,
            cause,
        }),
        args::ArgError::MissingValue(flag)@ == args::ArgErrorView::MissingValue(flag@),
        args::ArgError::MissingPattern@ == args::ArgErrorView::MissingPattern,
        (args::ArgErrorView::NotANumber { flag: flag@, cause }).wording() == flag@
            + " must be a positive integer"@,
        args::ArgErrorView::MissingValue(flag@).wording() == flag@ + " requires a value"@,
        args::ArgErrorView::MissingPattern.wording() == "grep requires a pattern"@,
{
}

/// An entry is seen with all its fields, and a list of them with all of them.
pub proof fn law_entries_are_seen_whole(entries: Seq<report::Entry>)
    ensures
        report::views(entries).len() == entries.len(),
        forall|i: int|
            0 <= i < entries.len() ==> #[trigger] report::views(entries)[i] == (report::EntryView {
                file: entries[i].file@,
                line_num: entries[i].line_num,
                shown: entries[i].shown@,
            }),
{
}

/// What goes into a call and what comes out of it is seen whole.
pub proof fn law_call_and_answer_are_seen_whole(call: run::Call, captured: run::Captured)
    ensures
        call@.program == call.program@,
        call@.args == text::texts(call.args@),
        captured@.stdout == captured.stdout@,
        captured@.stderr == captured.stderr@,
        captured@.exit_code == captured.exit_code,
{
}

/// A report is seen with all its prints, on their streams, and with its record.
pub proof fn law_report_is_seen_whole(report: run::Report)
    ensures
        report@.exit_code == report.exit_code,
        report@.prints.len() == report.prints@.len(),
        forall|i: int|
            0 <= i < report.prints@.len() ==> (#[trigger] report@.prints[i]) == match report.prints@[i] {
                run::Print::Stdout(s) => run::PrintView::Stdout(s@),
                run::Print::Stderr(s) => run::PrintView::Stderr(s@),
            },
        report@.record == match report.record {
            run::Record::Passthrough { original, command } => run::RecordView::Passthrough {
                original: original@,
                command: command@,
            },
            run::Record::Filtered { original, command, raw, filtered } => {
                run::RecordView::Filtered {
                    original: original@,
                    command: command@,
                    raw: raw@,
                    filtered: filtered@,
                }
            },
        },
{
}

/// The beginning of a run is seen whole.
pub proof fn law_start_is_seen_whole(start: run::Start)
    ensures
        start.notice matches Some(notice) ==> start@.notice == Some(notice@),
        start.notice is None ==> start@.notice is None,
        start@.call == start.call@,
        start@.pending == match start.pending {
            run::Pending::Ripgrep(search) => run::PendingView::Ripgrep(search@),
            run::Pending::Grep(search) => run::PendingView::Grep(search@),
            run::Pending::Passthrough(rg_args) => run::PendingView::Passthrough(
                text::texts(rg_args@),
            ),
        },
{
}

/// A step is seen whole.
pub proof fn law_step_is_seen_whole(step: run::Step)
    ensures
        step@ == match step {
            run::Step::Call { call, pending } => run::StepView::Call {
                call: call@,
                pending: pending@,
            },
            run::Step::Done(report) => run::StepView::Done(report@),
            run::Step::Failed(e) => run::StepView::Failed(e),
        },
{
}

} // verus!
