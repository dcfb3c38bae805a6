//! Reading the command line: which arguments belong to the search itself, which
//! are handed on to the backend, and what is searched for and where.

use crate::text;
use vstd::prelude::*;

verus! {

pub const DEFAULT_MAX_LINE_LEN: usize = 80;

pub const DEFAULT_MAX_RESULTS: usize = 200;

// ---------------------------------------------------------------------------
// Errors
// ---------------------------------------------------------------------------

/// Why a command line cannot be read.
#[derive(Debug, Clone, PartialEq, Eq)]
pub enum ArgError {
    /// The value of this option is not a number, for this reason.
    NotANumber { flag: String, cause: text::NumberError },
    /// This option stands last, without its value.
    MissingValue(String),
    /// Nothing says what to search for.
    MissingPattern,
}

/// An `ArgError` over texts.
pub enum ArgErrorView {
    NotANumber { flag: Seq<char>, cause: text::NumberError },
    MissingValue(Seq<char>),
    MissingPattern,
}

impl View for ArgError {
    type V = ArgErrorView;

    open spec fn view(&self) -> ArgErrorView {
        match self {
            ArgError::NotANumber { flag, cause } => ArgErrorView::NotANumber {
                flag: flag@,
                cause: *cause,
            },
            ArgError::MissingValue(flag) => ArgErrorView::MissingValue(flag@),
            ArgError::MissingPattern => ArgErrorView::MissingPattern,
        }
    }
}

impl ArgErrorView {
    /// How the error reads.
    pub open spec fn wording(self) -> Seq<char> {
        match self {
            ArgErrorView::NotANumber { flag, .. } => flag + " must be a positive integer"@,
            ArgErrorView::MissingValue(flag) => flag + " requires a value"@,
            ArgErrorView::MissingPattern => "grep requires a pattern"@,
        }
    }
}

impl ArgError {
    /// The message to print.
    pub fn message(&self) -> (r: String)
        ensures
            r@ == self@.wording(),
    {
        match self {
            ArgError::NotANumber { flag, .. } => text::concat(
                flag.as_str(),
                " must be a positive integer",
            ),
            ArgError::MissingValue(flag) => text::concat(flag.as_str(), " requires a value"),
            ArgError::MissingPattern => "grep requires a pattern".to_string(),
        }
    }
}

// ---------------------------------------------------------------------------
// What a command line asks for
// ---------------------------------------------------------------------------

/// A search: what for, where, how much of it is shown, and what is handed on.
#[derive(Debug, Clone, PartialEq, Eq)]
pub struct GrepSearch {
    pub pattern: String,
    pub pattern_from_rg_args: bool,
    pub had_pattern_terminator: bool,
    pub paths: Vec<String>,
    pub max_line_len: usize,
    pub max_results: usize,
    pub context_only: bool,
    pub rg_args: Vec<String>,
}

/// A `GrepSearch` over texts.
#[verifier::ext_equal]
pub struct SearchView {
    pub pattern: Seq<char>,
    pub pattern_from_rg_args: bool,
    pub had_pattern_terminator: bool,
    pub paths: Seq<Seq<char>>,
    pub max_line_len: usize,
    pub max_results: usize,
    pub context_only: bool,
    pub rg_args: Seq<Seq<char>>,
}

impl View for GrepSearch {
    type V = SearchView;

    open spec fn view(&self) -> SearchView {
        SearchView {
            pattern: self.pattern@,
            pattern_from_rg_args: self.pattern_from_rg_args,
            had_pattern_terminator: self.had_pattern_terminator,
            paths: text::texts(self.paths@),
            max_line_len: self.max_line_len,
            max_results: self.max_results,
            context_only: self.context_only,
            rg_args: text::texts(self.rg_args@),
        }
    }
}

/// What is to be done: a search, or a call of ripgrep whose output is left alone.
#[derive(Debug, Clone, PartialEq, Eq)]
pub enum GrepInvocation {
    Search(GrepSearch),
    RgPassthrough(Vec<String>),
}

/// A `GrepInvocation` over texts.
pub enum InvocationView {
    Search(SearchView),
    RgPassthrough(Seq<Seq<char>>),
}

impl View for GrepInvocation {
    type V = InvocationView;

    open spec fn view(&self) -> InvocationView {
        match self {
            GrepInvocation::Search(search) => InvocationView::Search(search@),
            GrepInvocation::RgPassthrough(args) => InvocationView::RgPassthrough(
                text::texts(args@),
            ),
        }
    }
}

// ---------------------------------------------------------------------------
// Families of options
// ---------------------------------------------------------------------------

/// The options of ripgrep that are followed by a value.
pub open spec fn expects_value(arg: Seq<char>) -> bool {
    ||| arg == "-t"@
    ||| arg == "--type"@
    ||| arg == "-g"@
    ||| arg == "--glob"@
    ||| arg == "--type-add"@
    ||| arg == "-A"@
    ||| arg == "--after-context"@
    ||| arg == "-B"@
    ||| arg == "--before-context"@
    ||| arg == "-C"@
    ||| arg == "--context"@
    ||| arg == "-e"@
    ||| arg == "--regexp"@
    ||| arg == "-f"@
    ||| arg == "--file"@
    ||| arg == "--encoding"@
    ||| arg == "--engine"@
    ||| arg == "--max-count"@
    ||| arg == "--max-depth"@
    ||| arg == "--path-separator"@
    ||| arg == "--sort"@
    ||| arg == "--sortr"@
    ||| arg == "--threads"@
    ||| arg == "-j"@
}

/// The options whose value is a pattern, or a file of patterns.
pub open spec fn names_pattern(arg: Seq<char>) -> bool {
    arg == "-e"@ || arg == "--regexp"@ || arg == "-f"@ || arg == "--file"@
}

/// The options with which ripgrep searches for nothing.
pub open spec fn needs_no_pattern(arg: Seq<char>) -> bool {
    ||| arg == "--type-list"@
    ||| arg == "--files"@
    ||| arg == "--help"@
    ||| arg == "-h"@
    ||| arg == "--version"@
    ||| arg == "-V"@
}

/// Whether ripgrep, with these arguments, searches for nothing.
pub open spec fn searches_for_nothing(rg_args: Seq<Seq<char>>) -> bool {
    exists|i: int| 0 <= i < rg_args.len() && needs_no_pattern(#[trigger] rg_args[i])
}

/// Whether an option of ripgrep is followed by a value.
pub fn takes_rg_value(arg: &str) -> (r: bool)
    ensures
        r == expects_value(arg@),
{
    text::same_text(arg, "-t")
        || text::same_text(arg, "--type")
        || text::same_text(arg, "-g")
        || text::same_text(arg, "--glob")
        || text::same_text(arg, "--type-add")
        || text::same_text(arg, "-A")
        || text::same_text(arg, "--after-context")
        || text::same_text(arg, "-B")
        || text::same_text(arg, "--before-context")
        || text::same_text(arg, "-C")
        || text::same_text(arg, "--context")
        || text::same_text(arg, "-e")
        || text::same_text(arg, "--regexp")
        || text::same_text(arg, "-f")
        || text::same_text(arg, "--file")
        || text::same_text(arg, "--encoding")
        || text::same_text(arg, "--engine")
        || text::same_text(arg, "--max-count")
        || text::same_text(arg, "--max-depth")
        || text::same_text(arg, "--path-separator")
        || text::same_text(arg, "--sort")
        || text::same_text(arg, "--sortr")
        || text::same_text(arg, "--threads")
        || text::same_text(arg, "-j")
}

/// Whether the value of an option is a pattern, or a file of patterns.
pub fn is_rg_pattern_source_arg(arg: &str) -> (r: bool)
    ensures
        r == names_pattern(arg@),
{
    text::same_text(arg, "-e") || text::same_text(arg, "--regexp") || text::same_text(arg, "-f")
        || text::same_text(arg, "--file")
}

/// Whether some argument has ripgrep search for nothing.
pub fn is_rg_passthrough_without_pattern(rg_args: &[String]) -> (r: bool)
    ensures
        r == searches_for_nothing(text::texts(rg_args@)),
{
    let ghost all = text::texts(rg_args@);
    let mut i: usize = 0;
    while i < rg_args.len()
        invariant
            i <= rg_args@.len(),
            all == text::texts(rg_args@),
            forall|j: int| 0 <= j < i ==> !needs_no_pattern(#[trigger] all[j]),
        decreases rg_args.len() - i,
    {
        let arg = rg_args[i].as_str();
        assert(arg@ == all[i as int]);
        if text::same_text(arg, "--type-list")
            || text::same_text(arg, "--files")
            || text::same_text(arg, "--help")
            || text::same_text(arg, "-h")
            || text::same_text(arg, "--version")
            || text::same_text(arg, "-V")
        {
            return true;
        }
        i = i + 1;
    }
    false
}

/// The number that is the value of an option.
pub open spec fn option_number(flag: Seq<char>, value: Seq<char>) -> Result<usize, ArgErrorView> {
    match text::to_number(value) {
        Some(n) => Ok(n),
        None => Err(ArgErrorView::NotANumber { flag, cause: text::number_fault(value) }),
    }
}

/// The number that is the value of the option `name`.
pub fn parse_usize_arg(name: &str, value: &str) -> (r: Result<usize, ArgError>)
    ensures
        match r {
            Ok(n) => option_number(name@, value@) == Ok::<usize, ArgErrorView>(n),
            Err(e) => option_number(name@, value@) == Err::<usize, ArgErrorView>(e@),
        },
{
    match text::parse_number(value) {
        Ok(n) => Ok(n),
        Err(cause) => Err(ArgError::NotANumber { flag: name.to_string(), cause }),
    }
}

/// How the pattern that is given by options is called: the first pattern, or the
/// first file of patterns.
pub open spec fn pattern_in_options(rg_args: Seq<Seq<char>>) -> Option<Seq<char>>
    decreases rg_args.len(),
{
    if rg_args.len() == 0 {
        None
    } else {
        let arg = rg_args[0];
        let value = if rg_args.len() > 1 {
            Some(rg_args[1])
        } else {
            None
        };
        if let Some(pattern) = text::after_prefix(arg, "--regexp="@) {
            Some(pattern)
        } else if arg == "-e"@ || arg == "--regexp"@ {
            value
        } else if let Some(file) = text::after_prefix(arg, "--file="@) {
            Some("patterns from "@ + file)
        } else if arg == "-f"@ || arg == "--file"@ {
            match value {
                Some(file) => Some("patterns from "@ + file),
                None => None,
            }
        } else {
            pattern_in_options(rg_args.drop_first())
        }
    }
}

/// How the pattern that is given by options is called, if one is.
pub fn rg_pattern_display(rg_args: &[String]) -> (r: Option<String>)
    ensures
        match r {
            Some(shown) => pattern_in_options(text::texts(rg_args@)) == Some(shown@),
            None => pattern_in_options(text::texts(rg_args@)) is None,
        },
{
    let ghost all = text::texts(rg_args@);
    let mut i: usize = 0;
    assert(all.skip(0) =~= all);
    while i < rg_args.len()
        invariant
            i <= rg_args@.len(),
            all == text::texts(rg_args@),
            pattern_in_options(all) == pattern_in_options(all.skip(i as int)),
        decreases rg_args.len() - i,
    {
        let arg = rg_args[i].as_str();
        let ghost rest = all.skip(i as int);
        assert(arg@ == rest[0]);
        if let Some(pattern) = text::strip_prefix(arg, "--regexp=") {
            return Some(pattern.to_string());
        }
        if text::same_text(arg, "-e") || text::same_text(arg, "--regexp") {
            if rg_args.len() - i > 1 {
                assert(rest[1] == rg_args@[i + 1]@);
                return Some(rg_args[i + 1].clone());
            }
            return None;
        }
        if let Some(file) = text::strip_prefix(arg, "--file=") {
            return Some(text::concat("patterns from ", file));
        }
        if text::same_text(arg, "-f") || text::same_text(arg, "--file") {
            if rg_args.len() - i > 1 {
                assert(rest[1] == rg_args@[i + 1]@);
                return Some(text::concat("patterns from ", rg_args[i + 1].as_str()));
            }
            return None;
        }
        assert(rest.drop_first() =~= all.skip(i + 1));
        i = i + 1;
    }
    None
}

// ---------------------------------------------------------------------------
// The arguments, one after the other
// ---------------------------------------------------------------------------

/// What the first argument of a list means, together with its value if it takes
/// one. `used` is the number of arguments that it takes up.
pub enum Meaning {
    /// No option follows.
    EndOfOptions,
    /// Only the surroundings of the pattern are shown.
    ContextOnly,
    /// How long a line may be.
    LineLimit { limit: usize, used: int },
    /// How many matches are shown.
    ResultLimit { limit: usize, used: int },
    /// Nothing: it asks for what is done anyway.
    Nothing,
    /// An option for the backend. `pattern` tells whether it gives the pattern.
    Forwarded { args: Seq<Seq<char>>, pattern: bool, used: int },
    /// The pattern or a path.
    Positional,
    /// A mistake.
    Wrong(ArgErrorView),
}

/// A limit given as `--flag=value` or as `--flag value`.
pub open spec fn limit_meaning(
    flag: Seq<char>,
    value: Seq<char>,
    used: int,
    of_lines: bool,
) -> Meaning {
    match option_number(flag, value) {
        Ok(limit) => if of_lines {
            Meaning::LineLimit { limit, used }
        } else {
            Meaning::ResultLimit { limit, used }
        },
        Err(e) => Meaning::Wrong(e),
    }
}

/// An option for the backend that takes up one argument.
pub open spec fn forwarded_alone(args: Seq<Seq<char>>, pattern: bool) -> Meaning {
    Meaning::Forwarded { args, pattern, used: 1 }
}

/// An option for the backend, under the name `flag`, with the value that follows it.
pub open spec fn forwarded_with_value(
    args: Seq<Seq<char>>,
    flag: Seq<char>,
    pattern: bool,
) -> Meaning {
    if args.len() > 1 {
        Meaning::Forwarded { args: seq![flag, args[1]], pattern, used: 2 }
    } else {
        Meaning::Wrong(ArgErrorView::MissingValue(args[0]))
    }
}

/// The value that is written directly behind a flag, if one is.
pub open spec fn attached_value(arg: Seq<char>, flag: Seq<char>) -> Option<Seq<char>> {
    match text::after_prefix(arg, flag) {
        Some(value) => if value.len() > 0 {
            Some(value)
        } else {
            None
        },
        None => None,
    }
}

/// What the first argument of a list means.
pub open spec fn meaning(args: Seq<Seq<char>>) -> Meaning
    recommends
        args.len() > 0,
{
    let arg = args[0];
    if arg == "--"@ {
        Meaning::EndOfOptions
    } else if arg == "--context-only"@ {
        Meaning::ContextOnly
    } else if let Some(value) = text::after_prefix(arg, "--max-len="@) {
        limit_meaning("--max-len"@, value, 1, true)
    } else if arg == "--max-len"@ {
        if args.len() > 1 {
            limit_meaning(arg, args[1], 2, true)
        } else {
            Meaning::Wrong(ArgErrorView::MissingValue(arg))
        }
    } else if let Some(value) = text::after_prefix(arg, "--max="@) {
        limit_meaning("--max"@, value, 1, false)
    } else if arg == "--max"@ {
        if args.len() > 1 {
            limit_meaning(arg, args[1], 2, false)
        } else {
            Meaning::Wrong(ArgErrorView::MissingValue(arg))
        }
    } else if (arg == "-l"@ || arg == "-m"@) && args.len() > 1 && text::to_number(args[1]) is Some {
        limit_meaning(arg, args[1], 2, arg == "-l"@)
    } else if arg == "-n"@ || arg == "--line-numbers"@ {
        Meaning::Nothing
    } else if "--type="@.is_prefix_of(arg) {
        forwarded_alone(seq![arg], false)
    } else if let Some(value) = text::after_prefix(arg, "--file-type="@) {
        forwarded_alone(seq!["--type="@ + value], false)
    } else if "--glob="@.is_prefix_of(arg) || "--type-add="@.is_prefix_of(arg) {
        forwarded_alone(seq![arg], false)
    } else if let Some(value) = attached_value(arg, "-t"@) {
        forwarded_alone(seq!["-t"@, value], false)
    } else if let Some(value) = attached_value(arg, "-g"@) {
        forwarded_alone(seq!["-g"@, value], false)
    } else if arg == "--file-type"@ {
        forwarded_with_value(args, "--type"@, false)
    } else if "--regexp="@.is_prefix_of(arg) || "--file="@.is_prefix_of(arg) {
        forwarded_alone(seq![arg], true)
    } else if expects_value(arg) {
        forwarded_with_value(args, arg, names_pattern(arg))
    } else if arg.len() > 0 && arg[0] == '-' {
        forwarded_alone(seq![arg], false)
    } else {
        Meaning::Positional
    }
}

/// What the arguments read so far have said.
#[verifier::ext_equal]
pub struct Reading {
    pub terminated: bool,
    pub context_only: bool,
    pub max_line_len: usize,
    pub max_results: usize,
    pub pattern_given: bool,
    pub forwarded: Seq<Seq<char>>,
    pub positionals: Seq<Seq<char>>,
}

/// Before any argument is read.
pub open spec fn nothing_read() -> Reading {
    Reading {
        terminated: false,
        context_only: false,
        max_line_len: DEFAULT_MAX_LINE_LEN,
        max_results: DEFAULT_MAX_RESULTS,
        pattern_given: false,
        forwarded: Seq::empty(),
        positionals: Seq::empty(),
    }
}

/// What is known once the arguments of a list are read too.
pub open spec fn read_on(args: Seq<Seq<char>>, so_far: Reading) -> Result<Reading, ArgErrorView>
    decreases args.len(),
{
    if args.len() == 0 {
        Ok(so_far)
    } else {
        match meaning(args) {
            Meaning::EndOfOptions => Ok(
                Reading {
                    terminated: true,
                    positionals: so_far.positionals + args.drop_first(),
                    ..so_far
                },
            ),
            Meaning::ContextOnly => read_on(
                args.drop_first(),
                Reading { context_only: true, ..so_far },
            ),
            Meaning::LineLimit { limit, used } => read_on(
                args.skip(used),
                Reading { max_line_len: limit, ..so_far },
            ),
            Meaning::ResultLimit { limit, used } => read_on(
                args.skip(used),
                Reading { max_results: limit, ..so_far },
            ),
            Meaning::Nothing => read_on(args.drop_first(), so_far),
            Meaning::Forwarded { args: more, pattern, used } => read_on(
                args.skip(used),
                Reading {
                    pattern_given: so_far.pattern_given || pattern,
                    forwarded: so_far.forwarded + more,
                    ..so_far
                },
            ),
            Meaning::Positional => read_on(
                args.drop_first(),
                Reading { positionals: so_far.positionals.push(args[0]), ..so_far },
            ),
            Meaning::Wrong(e) => Err(e),
        }
    }
}

/// The paths to search: the current directory where none is given.
pub open spec fn paths_or_here(paths: Seq<Seq<char>>) -> Seq<Seq<char>> {
    if paths.len() == 0 {
        seq!["."@]
    } else {
        paths
    }
}

/// The search that arguments describe, for a pattern in some paths.
pub open spec fn search_of(read: Reading, pattern: Seq<char>, paths: Seq<Seq<char>>) -> SearchView {
    SearchView {
        pattern,
        pattern_from_rg_args: read.pattern_given,
        had_pattern_terminator: read.terminated,
        paths: paths_or_here(paths),
        max_line_len: read.max_line_len,
        max_results: read.max_results,
        context_only: read.context_only,
        rg_args: read.forwarded,
    }
}

/// The end of options, where it has to be repeated.
pub open spec fn terminator(needed: bool) -> Seq<Seq<char>> {
    if needed {
        seq!["--"@]
    } else {
        Seq::empty()
    }
}

/// What is to be done once all arguments are read.
pub open spec fn invocation_of(read: Reading) -> Result<InvocationView, ArgErrorView> {
    if searches_for_nothing(read.forwarded) {
        Ok(
            InvocationView::RgPassthrough(
                read.forwarded + terminator(read.terminated) + read.positionals,
            ),
        )
    } else if read.pattern_given {
        let pattern = match pattern_in_options(read.forwarded) {
            Some(pattern) => pattern,
            None => Seq::empty(),
        };
        Ok(InvocationView::Search(search_of(read, pattern, read.positionals)))
    } else if read.positionals.len() > 0 {
        Ok(
            InvocationView::Search(
                search_of(read, read.positionals[0], read.positionals.drop_first()),
            ),
        )
    } else {
        Err(ArgErrorView::MissingPattern)
    }
}

/// What a command line asks for.
pub open spec fn invocation(args: Seq<Seq<char>>) -> Result<InvocationView, ArgErrorView> {
    match read_on(args, nothing_read()) {
        Ok(read) => invocation_of(read),
        Err(e) => Err(e),
    }
}

/// What one argument means, as `Meaning` says it.
pub enum ArgMeaning {
    EndOfOptions,
    ContextOnly,
    LineLimit { limit: usize, used: usize },
    ResultLimit { limit: usize, used: usize },
    Nothing,
    Forwarded { args: Vec<String>, pattern: bool, used: usize },
    Positional,
    Wrong(ArgError),
}

impl View for ArgMeaning {
    type V = Meaning;

    open spec fn view(&self) -> Meaning {
        match self {
            ArgMeaning::EndOfOptions => Meaning::EndOfOptions,
            ArgMeaning::ContextOnly => Meaning::ContextOnly,
            ArgMeaning::LineLimit { limit, used } => Meaning::LineLimit {
                limit: *limit,
                used: *used as int,
            },
            ArgMeaning::ResultLimit { limit, used } => Meaning::ResultLimit {
                limit: *limit,
                used: *used as int,
            },
            ArgMeaning::Nothing => Meaning::Nothing,
            ArgMeaning::Forwarded { args, pattern, used } => Meaning::Forwarded {
                args: text::texts(args@),
                pattern: *pattern,
                used: *used as int,
            },
            ArgMeaning::Positional => Meaning::Positional,
            ArgMeaning::Wrong(e) => Meaning::Wrong(e@),
        }
    }
}

/// The meaning of a limit with its value.
fn read_limit(flag: &str, value: &str, used: usize, of_lines: bool) -> (r: ArgMeaning)
    ensures
        r@ == limit_meaning(flag@, value@, used as int, of_lines),
{
    match parse_usize_arg(flag, value) {
        Ok(limit) => if of_lines {
            ArgMeaning::LineLimit { limit, used }
        } else {
            ArgMeaning::ResultLimit { limit, used }
        },
        Err(e) => ArgMeaning::Wrong(e),
    }
}

/// The meaning of an option for the backend that is handed on as one argument.
fn forward_one(arg: String, pattern: bool) -> (r: ArgMeaning)
    ensures
        r@ == forwarded_alone(seq![arg@], pattern),
{
    let mut args: Vec<String> = Vec::new();
    args.push(arg);
    assert(text::texts(args@) =~= seq![arg@]);
    ArgMeaning::Forwarded { args, pattern, used: 1 }
}

/// The meaning of an option for the backend that is handed on as two arguments.
fn forward_two(flag: &str, value: &str, pattern: bool, used: usize) -> (r: ArgMeaning)
    ensures
        r@ == (Meaning::Forwarded { args: seq![flag@, value@], pattern, used: used as int }),
{
    let mut args: Vec<String> = Vec::new();
    args.push(flag.to_string());
    args.push(value.to_string());
    assert(text::texts(args@) =~= seq![flag@, value@]);
    ArgMeaning::Forwarded { args, pattern, used }
}

/// What the argument at position `i` means.
fn read_arg(args: &[String], i: usize) -> (r: ArgMeaning)
    requires
        i < args@.len(),
    ensures
        r@ == meaning(text::texts(args@).skip(i as int)),
{
    let ghost rest = text::texts(args@).skip(i as int);
    let arg = args[i].as_str();
    let has_next = args.len() - i > 1;
    let next = if has_next {
        args[i + 1].as_str()
    } else {
        ""
    };
    assert(arg@ == rest[0]);
    assert(has_next == (rest.len() > 1));
    assert(has_next ==> next@ == rest[1]);
    if text::same_text(arg, "--") {
        return ArgMeaning::EndOfOptions;
    }
    if text::same_text(arg, "--context-only") {
        return ArgMeaning::ContextOnly;
    }
    if let Some(value) = text::strip_prefix(arg, "--max-len=") {
        return read_limit("--max-len", value, 1, true);
    }
    if text::same_text(arg, "--max-len") {
        if !has_next {
            return ArgMeaning::Wrong(ArgError::MissingValue(arg.to_string()));
        }
        return read_limit(arg, next, 2, true);
    }
    if let Some(value) = text::strip_prefix(arg, "--max=") {
        return read_limit("--max", value, 1, false);
    }
    if text::same_text(arg, "--max") {
        if !has_next {
            return ArgMeaning::Wrong(ArgError::MissingValue(arg.to_string()));
        }
        return read_limit(arg, next, 2, false);
    }
    let short_line_limit = text::same_text(arg, "-l");
    if (short_line_limit || text::same_text(arg, "-m")) && has_next && text::parse_number(
        next,
    ).is_ok() {
        return read_limit(arg, next, 2, short_line_limit);
    }
    if text::same_text(arg, "-n") || text::same_text(arg, "--line-numbers") {
        return ArgMeaning::Nothing;
    }
    if text::strip_prefix(arg, "--type=").is_some() {
        return forward_one(arg.to_string(), false);
    }
    if let Some(value) = text::strip_prefix(arg, "--file-type=") {
        return forward_one(text::concat("--type=", value), false);
    }
    if text::strip_prefix(arg, "--glob=").is_some() || text::strip_prefix(
        arg,
        "--type-add=",
    ).is_some() {
        return forward_one(arg.to_string(), false);
    }
    if let Some(value) = text::strip_prefix(arg, "-t") {
        if !value.is_empty() {
            return forward_two("-t", value, false, 1);
        }
    }
    if let Some(value) = text::strip_prefix(arg, "-g") {
        if !value.is_empty() {
            return forward_two("-g", value, false, 1);
        }
    }
    if text::same_text(arg, "--file-type") {
        if !has_next {
            return ArgMeaning::Wrong(ArgError::MissingValue(arg.to_string()));
        }
        return forward_two("--type", next, false, 2);
    }
    if text::strip_prefix(arg, "--regexp=").is_some() || text::strip_prefix(
        arg,
        "--file=",
    ).is_some() {
        return forward_one(arg.to_string(), true);
    }
    if takes_rg_value(arg) {
        if !has_next {
            return ArgMeaning::Wrong(ArgError::MissingValue(arg.to_string()));
        }
        return forward_two(arg, next, is_rg_pattern_source_arg(arg), 2);
    }
    if text::starts_with(arg, '-') {
        return forward_one(arg.to_string(), false);
    }
    ArgMeaning::Positional
}

/// The current directory where no path is given.
fn or_here(paths: Vec<String>) -> (r: Vec<String>)
    ensures
        text::texts(r@) == paths_or_here(text::texts(paths@)),
{
    if paths.is_empty() {
        let mut here: Vec<String> = Vec::new();
        here.push(".".to_string());
        assert(text::texts(here@) =~= seq!["."@]);
        here
    } else {
        paths
    }
}

/// Reads a command line.
pub fn parse_grep_args(args: &[String]) -> (r: Result<GrepInvocation, ArgError>)
    ensures
        match r {
            Ok(asked) => invocation(text::texts(args@)) == Ok::<InvocationView, ArgErrorView>(
                asked@,
            ),
            Err(e) => invocation(text::texts(args@)) == Err::<InvocationView, ArgErrorView>(e@),
        },
{
    let ghost all = text::texts(args@);
    let mut terminated = false;
    let mut context_only = false;
    let mut max_line_len: usize = DEFAULT_MAX_LINE_LEN;
    let mut max_results: usize = DEFAULT_MAX_RESULTS;
    let mut pattern_given = false;
    let mut rg_args: Vec<String> = Vec::new();
    let mut positionals: Vec<String> = Vec::new();
    let mut i: usize = 0;
    let ghost mut read = nothing_read();
    assert(all.skip(0) =~= all);
    assert(text::texts(rg_args@) =~= Seq::empty());
    assert(text::texts(positionals@) =~= Seq::empty());
    while i < args.len()
        invariant_except_break
            i <= args@.len(),
            all == text::texts(args@),
            read == (Reading {
                terminated,
                context_only,
                max_line_len,
                max_results,
                pattern_given,
                forwarded: text::texts(rg_args@),
                positionals: text::texts(positionals@),
            }),
            read_on(all, nothing_read()) == read_on(all.skip(i as int), read),
        ensures
            read == (Reading {
                terminated,
                context_only,
                max_line_len,
                max_results,
                pattern_given,
                forwarded: text::texts(rg_args@),
                positionals: text::texts(positionals@),
            }),
            read_on(all, nothing_read()) == Ok::<Reading, ArgErrorView>(read),
        decreases args.len() - i,
    {
        let ghost rest = all.skip(i as int);
        let ghost before = read;
        assert(rest.drop_first() =~= all.skip(i + 1));
        assert(rest.len() > 1 ==> rest.skip(2) =~= all.skip(i + 2));
        assert(rest.skip(1) =~= all.skip(i + 1));
        match read_arg(args, i) {
            ArgMeaning::EndOfOptions => {
                terminated = true;
                text::push_from(&mut positionals, args, i + 1);
                proof {
                    read = Reading {
                        terminated: true,
                        positionals: text::texts(positionals@),
                        ..before
                    };
                }
                break;
            },
            ArgMeaning::ContextOnly => {
                context_only = true;
                proof {
                    read = Reading { context_only: true, ..before };
                }
                i = i + 1;
            },
            ArgMeaning::LineLimit { limit, used } => {
                max_line_len = limit;
                proof {
                    read = Reading { max_line_len: limit, ..before };
                }
                i = i + used;
            },
            ArgMeaning::ResultLimit { limit, used } => {
                max_results = limit;
                proof {
                    read = Reading { max_results: limit, ..before };
                }
                i = i + used;
            },
            ArgMeaning::Nothing => {
                i = i + 1;
            },
            ArgMeaning::Forwarded { args: more, pattern, used } => {
                let mut more = more;
                let ghost added = text::texts(more@);
                pattern_given = pattern_given || pattern;
                let ghost held = rg_args@;
                let ghost taken = more@;
                rg_args.append(&mut more);
                assert(text::texts(held + taken) =~= text::texts(held) + text::texts(taken));
                proof {
                    read = Reading {
                        pattern_given,
                        forwarded: before.forwarded + added,
                        ..before
                    };
                }
                i = i + used;
            },
            ArgMeaning::Positional => {
                let ghost held = positionals@;
                positionals.push(args[i].clone());
                assert(text::texts(positionals@) =~= text::texts(held).push(rest[0]));
                proof {
                    read = Reading { positionals: before.positionals.push(rest[0]), ..before };
                }
                i = i + 1;
            },
            ArgMeaning::Wrong(e) => {
                return Err(e);
            },
        }
    }
    if is_rg_passthrough_without_pattern(rg_args.as_slice()) {
        let mut passed = rg_args;
        let ghost end = terminator(terminated);
        if terminated {
            let ghost held = passed@;
            passed.push("--".to_string());
            assert(text::texts(passed@) =~= text::texts(held) + end);
        } else {
            assert(text::texts(passed@) =~= text::texts(passed@) + end);
        }
        text::push_from(&mut passed, positionals.as_slice(), 0);
        assert(text::texts(positionals@).skip(0) =~= text::texts(positionals@));
        return Ok(GrepInvocation::RgPassthrough(passed));
    }
    let pattern: String;
    let paths: Vec<String>;
    if pattern_given {
        pattern = match rg_pattern_display(rg_args.as_slice()) {
            Some(shown) => shown,
            None => String::new(),
        };
        paths = positionals;
    } else if positionals.is_empty() {
        return Err(ArgError::MissingPattern);
    } else {
        pattern = positionals[0].clone();
        let mut others: Vec<String> = Vec::new();
        text::push_from(&mut others, positionals.as_slice(), 1);
        assert(text::texts(others@) =~= text::texts(positionals@).drop_first());
        paths = others;
    }
    Ok(
        GrepInvocation::Search(
            GrepSearch {
                pattern,
                pattern_from_rg_args: pattern_given,
                had_pattern_terminator: terminated,
                paths: or_here(paths),
                max_line_len,
                max_results,
                context_only,
                rg_args,
            },
        ),
    )
}

} // verus!
