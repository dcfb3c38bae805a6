//! The arguments for ripgrep, and those for plain grep where ripgrep cannot run.

use crate::args;
use crate::args::GrepSearch;
use crate::text;
use vstd::prelude::*;

verus! {

// ---------------------------------------------------------------------------
// Ripgrep
// ---------------------------------------------------------------------------

/// The options that ask grep for what ripgrep does anyway.
pub open spec fn asks_for_recursion(arg: Seq<char>) -> bool {
    arg == "-r"@ || arg == "--recursive"@
}

/// The pattern as an argument, unless options give it.
pub open spec fn pattern_argument(search: args::SearchView, pattern: Seq<char>) -> Seq<Seq<char>> {
    if search.pattern_from_rg_args {
        Seq::empty()
    } else {
        seq![pattern]
    }
}

/// What follows the options on the command line of either backend.
pub open spec fn operands(search: args::SearchView, pattern: Seq<char>) -> Seq<Seq<char>> {
    args::terminator(search.had_pattern_terminator) + pattern_argument(search, pattern)
        + search.paths
}

/// The options that every call of ripgrep has: line numbers, file names that end
/// with a NUL, no headings, and ignored files searched too.
pub open spec fn standing_options() -> Seq<Seq<char>> {
    seq!["-nH0"@, "--no-heading"@, "--no-ignore-vcs"@]
}

/// The options that are handed on to ripgrep.
pub open spec fn handed_on(rg_args: Seq<Seq<char>>) -> Seq<Seq<char>> {
    rg_args.filter(|arg: Seq<char>| !asks_for_recursion(arg))
}

/// The arguments for ripgrep.
pub open spec fn ripgrep_arguments(search: args::SearchView, pattern: Seq<char>) -> Seq<Seq<char>> {
    standing_options() + handed_on(search.rg_args) + operands(search, pattern)
}

/// Appends what follows the options on the command line of either backend.
fn push_operands(out: &mut Vec<String>, search: &GrepSearch, pattern: &str)
    ensures
        text::texts(final(out)@) == text::texts(old(out)@) + operands(search@, pattern@),
{
    let ghost before = text::texts(out@);
    if search.had_pattern_terminator {
        let end = "--".to_string();
        proof {
            text::lemma_texts_push(out@, end);
        }
        out.push(end);
    }
    assert(text::texts(out@) =~= before + args::terminator(search.had_pattern_terminator));
    let ghost middle = text::texts(out@);
    if !search.pattern_from_rg_args {
        let copy = pattern.to_string();
        proof {
            text::lemma_texts_push(out@, copy);
        }
        out.push(copy);
    }
    assert(text::texts(out@) =~= middle + pattern_argument(search@, pattern@));
    text::push_from(out, search.paths.as_slice(), 0);
    assert(text::texts(search.paths@).skip(0) =~= search@.paths);
    assert(text::texts(out@) =~= before + operands(search@, pattern@));
}

/// The arguments for ripgrep, with the pattern written as ripgrep reads it.
pub fn build_rg_args(search: &GrepSearch, rg_pattern: &str) -> (r: Vec<String>)
    ensures
        text::texts(r@) == ripgrep_arguments(search@, rg_pattern@),
{
    let mut out: Vec<String> = Vec::new();
    out.push("-nH0".to_string());
    out.push("--no-heading".to_string());
    out.push("--no-ignore-vcs".to_string());
    assert(text::texts(out@) =~= standing_options());
    let ghost all = search@.rg_args;
    let ghost kept = |arg: Seq<char>| !asks_for_recursion(arg);
    let mut i: usize = 0;
    assert(all.take(0).filter(kept) =~= Seq::empty()) by {
        all.take(0).lemma_filter_len(kept);
    }
    assert(standing_options() + Seq::empty() =~= standing_options());
    while i < search.rg_args.len()
        invariant
            i <= search.rg_args@.len(),
            all == search@.rg_args,
            kept == (|arg: Seq<char>| !asks_for_recursion(arg)),
            text::texts(out@) == standing_options() + all.take(i as int).filter(kept),
        decreases search.rg_args.len() - i,
    {
        let arg = search.rg_args[i].as_str();
        assert(arg@ == all[i as int]);
        assert(all.take(i + 1) =~= all.take(i as int).push(arg@));
        proof {
            all.take(i as int).lemma_filter_push(arg@, kept);
        }
        if !text::same_text(arg, "-r") && !text::same_text(arg, "--recursive") {
            let copy = arg.to_string();
            proof {
                text::lemma_texts_push(out@, copy);
            }
            out.push(copy);
            assert(text::texts(out@) =~= standing_options() + all.take(i as int).filter(
                kept,
            ).push(arg@));
        }
        i = i + 1;
    }
    assert(all.take(all.len() as int) =~= all);
    assert(handed_on(all) =~= all.filter(kept));
    push_operands(&mut out, search, rg_pattern);
    assert(text::texts(out@) =~= ripgrep_arguments(search@, rg_pattern@));
    out
}

// ---------------------------------------------------------------------------
// Plain grep
// ---------------------------------------------------------------------------

/// The files that belong to a file type of ripgrep, where it is a common one.
pub open spec fn glob_of_type(file_type: Seq<char>) -> Option<Seq<char>> {
    if file_type == "rust"@ || file_type == "rs"@ {
        Some("*.rs"@)
    } else if file_type == "py"@ || file_type == "python"@ {
        Some("*.py"@)
    } else if file_type == "ts"@ || file_type == "typescript"@ {
        Some("*.ts"@)
    } else if file_type == "tsx"@ {
        Some("*.tsx"@)
    } else if file_type == "js"@ || file_type == "javascript"@ {
        Some("*.js"@)
    } else if file_type == "jsx"@ {
        Some("*.jsx"@)
    } else if file_type == "go"@ {
        Some("*.go"@)
    } else if file_type == "java"@ {
        Some("*.java"@)
    } else if file_type == "rb"@ || file_type == "ruby"@ {
        Some("*.rb"@)
    } else if file_type == "md"@ || file_type == "markdown"@ {
        Some("*.md"@)
    } else {
        None
    }
}

/// The option of grep for a file type of ripgrep: none where the type is unknown.
pub open spec fn options_for_type(file_type: Seq<char>) -> Seq<Seq<char>> {
    match glob_of_type(file_type) {
        Some(glob) => seq!["--include="@ + glob],
        None => Seq::empty(),
    }
}

/// The option of grep for a glob of ripgrep: one that begins with `!` leaves files out.
pub open spec fn option_for_glob(glob: Seq<char>) -> Seq<char> {
    if glob.len() > 0 && glob[0] == '!' {
        "--exclude="@ + glob.skip(1)
    } else {
        "--include="@ + glob
    }
}

/// The files that belong to a file type, where it is a common one.
pub fn grep_glob_for_type(file_type: &str) -> (r: Option<&'static str>)
    ensures
        match r {
            Some(glob) => glob_of_type(file_type@) == Some(glob@),
            None => glob_of_type(file_type@) is None,
        },
{
    if text::same_text(file_type, "rust") || text::same_text(file_type, "rs") {
        Some("*.rs")
    } else if text::same_text(file_type, "py") || text::same_text(file_type, "python") {
        Some("*.py")
    } else if text::same_text(file_type, "ts") || text::same_text(file_type, "typescript") {
        Some("*.ts")
    } else if text::same_text(file_type, "tsx") {
        Some("*.tsx")
    } else if text::same_text(file_type, "js") || text::same_text(file_type, "javascript") {
        Some("*.js")
    } else if text::same_text(file_type, "jsx") {
        Some("*.jsx")
    } else if text::same_text(file_type, "go") {
        Some("*.go")
    } else if text::same_text(file_type, "java") {
        Some("*.java")
    } else if text::same_text(file_type, "rb") || text::same_text(file_type, "ruby") {
        Some("*.rb")
    } else if text::same_text(file_type, "md") || text::same_text(file_type, "markdown") {
        Some("*.md")
    } else {
        None
    }
}

/// Appends the option of grep for a file type of ripgrep.
pub fn push_grep_include_for_type(args: &mut Vec<String>, file_type: &str)
    ensures
        text::texts(final(args)@) == text::texts(old(args)@) + options_for_type(file_type@),
{
    let ghost before = text::texts(args@);
    if let Some(glob) = grep_glob_for_type(file_type) {
        let option = text::concat("--include=", glob);
        proof {
            text::lemma_texts_push(args@, option);
        }
        args.push(option);
    }
    assert(text::texts(args@) =~= before + options_for_type(file_type@));
}

/// Appends the option of grep for a glob of ripgrep.
pub fn push_grep_glob(args: &mut Vec<String>, glob: &str)
    ensures
        text::texts(final(args)@) == text::texts(old(args)@).push(option_for_glob(glob@)),
{
    let option = if text::starts_with(glob, '!') {
        let chars = text::chars_of(glob);
        assert(chars@.subrange(1, chars@.len() as int) =~= glob@.skip(1));
        text::concat("--exclude=", text::text_of(&chars, 1, chars.len()).as_str())
    } else {
        text::concat("--include=", glob)
    };
    proof {
        text::lemma_texts_push(args@, option);
    }
    args.push(option);
}

/// The options of grep for the first option of a list, with its value if it has
/// one, and the number of arguments that they stand for.
pub open spec fn first_for_grep(rg_args: Seq<Seq<char>>) -> (Seq<Seq<char>>, int)
    recommends
        rg_args.len() > 0,
{
    let arg = rg_args[0];
    let has_value = rg_args.len() > 1;
    let both = if has_value {
        2int
    } else {
        1
    };
    if let Some(file_type) = text::after_prefix(arg, "--type="@) {
        (options_for_type(file_type), 1)
    } else if let Some(glob) = text::after_prefix(arg, "--glob="@) {
        (seq![option_for_glob(glob)], 1)
    } else if "--type-add="@.is_prefix_of(arg) || arg == "--type-list"@ {
        (Seq::empty(), 1)
    } else if arg == "--type"@ || arg == "-t"@ {
        (if has_value {
            options_for_type(rg_args[1])
        } else {
            Seq::empty()
        }, both)
    } else if arg == "--glob"@ || arg == "-g"@ {
        (if has_value {
            seq![option_for_glob(rg_args[1])]
        } else {
            Seq::empty()
        }, both)
    } else if arg == "--type-add"@ {
        (Seq::empty(), both)
    } else if asks_for_recursion(arg) || arg == "--hidden"@ {
        (Seq::empty(), 1)
    } else {
        (seq![arg], 1)
    }
}

/// The options of grep for options of ripgrep. Those that grep does not know are
/// put in its words or left out; all others stay, in their order.
pub open spec fn options_for_grep(rg_args: Seq<Seq<char>>) -> Seq<Seq<char>>
    decreases rg_args.len(),
{
    if rg_args.len() == 0 {
        Seq::empty()
    } else {
        let (options, used) = first_for_grep(rg_args);
        options + options_for_grep(rg_args.skip(used))
    }
}

/// The arguments for grep.
pub open spec fn grep_arguments(search: args::SearchView) -> Seq<Seq<char>> {
    seq!["-rnHZ"@] + options_for_grep(search.rg_args) + operands(search, search.pattern)
}

/// Appends the options of grep for the option of ripgrep at position `i`, and
/// tells where the next one stands.
fn push_first_for_grep(out: &mut Vec<String>, rg_args: &[String], i: usize) -> (next: usize)
    requires
        i < rg_args@.len(),
    ensures
        ({
            let (options, used) = first_for_grep(text::texts(rg_args@).skip(i as int));
            &&& text::texts(final(out)@) == text::texts(old(out)@) + options
            &&& next == i + used
        }),
        i < next <= rg_args@.len(),
{
    let ghost rest = text::texts(rg_args@).skip(i as int);
    let ghost before = text::texts(out@);
    let arg = rg_args[i].as_str();
    assert(arg@ == rest[0]);
    let has_value = rg_args.len() - i > 1;
    let behind: usize = if has_value {
        i + 2
    } else {
        i + 1
    };
    assert(before + Seq::<Seq<char>>::empty() =~= before);
    assert(has_value ==> rest[1] == rg_args@[i + 1]@);
    if let Some(file_type) = text::strip_prefix(arg, "--type=") {
        push_grep_include_for_type(out, file_type);
        return i + 1;
    }
    if let Some(glob) = text::strip_prefix(arg, "--glob=") {
        push_grep_glob(out, glob);
        assert(text::texts(out@) =~= before + seq![option_for_glob(glob@)]);
        return i + 1;
    }
    if text::strip_prefix(arg, "--type-add=").is_some() || text::same_text(arg, "--type-list") {
        return i + 1;
    }
    if text::same_text(arg, "--type") || text::same_text(arg, "-t") {
        if has_value {
            push_grep_include_for_type(out, rg_args[i + 1].as_str());
        }
        return behind;
    }
    if text::same_text(arg, "--glob") || text::same_text(arg, "-g") {
        if has_value {
            push_grep_glob(out, rg_args[i + 1].as_str());
            assert(text::texts(out@) =~= before + seq![option_for_glob(rest[1])]);
        }
        return behind;
    }
    if text::same_text(arg, "--type-add") {
        return behind;
    }
    if text::same_text(arg, "-r") || text::same_text(arg, "--recursive") || text::same_text(
        arg,
        "--hidden",
    ) {
        return i + 1;
    }
    let copy = arg.to_string();
    proof {
        text::lemma_texts_push(out@, copy);
    }
    out.push(copy);
    assert(text::texts(out@) =~= before + seq![arg@]);
    i + 1
}

/// The options of grep for options of ripgrep.
pub fn grep_fallback_extra_args(rg_args: &[String]) -> (r: Vec<String>)
    ensures
        text::texts(r@) == options_for_grep(text::texts(rg_args@)),
{
    let ghost all = text::texts(rg_args@);
    let mut out: Vec<String> = Vec::new();
    let mut i: usize = 0;
    assert(all.skip(0) =~= all);
    assert(text::texts(out@) + options_for_grep(all) =~= options_for_grep(all));
    while i < rg_args.len()
        invariant
            i <= rg_args@.len(),
            all == text::texts(rg_args@),
            text::texts(out@) + options_for_grep(all.skip(i as int)) == options_for_grep(all),
        decreases rg_args.len() - i,
    {
        let ghost rest = all.skip(i as int);
        let ghost before = text::texts(out@);
        let next = push_first_for_grep(&mut out, rg_args, i);
        proof {
            let (options, used) = first_for_grep(rest);
            assert(rest.skip(used) =~= all.skip(next as int));
            assert(before + (options + options_for_grep(rest.skip(used))) =~= text::texts(out@)
                + options_for_grep(all.skip(next as int)));
        }
        i = next;
    }
    assert(text::texts(out@) + Seq::<Seq<char>>::empty() =~= text::texts(out@));
    out
}

/// The arguments for grep, for when ripgrep cannot run.
pub fn build_grep_fallback_args(search: &GrepSearch) -> (r: Vec<String>)
    ensures
        text::texts(r@) == grep_arguments(search@),
{
    let mut out: Vec<String> = Vec::new();
    out.push("-rnHZ".to_string());
    assert(text::texts(out@) =~= seq!["-rnHZ"@]);
    let extra = grep_fallback_extra_args(search.rg_args.as_slice());
    text::push_from(&mut out, extra.as_slice(), 0);
    assert(text::texts(extra@).skip(0) =~= text::texts(extra@));
    push_operands(&mut out, search, search.pattern.as_str());
    assert(text::texts(out@) =~= grep_arguments(search@));
    out
}

// ---------------------------------------------------------------------------
// Output formats
// ---------------------------------------------------------------------------

/// The options with which the output has another shape, and is short.
pub open spec fn changes_format(arg: Seq<char>) -> bool {
    ||| arg == "-c"@
    ||| arg == "--count"@
    ||| arg == "-l"@
    ||| arg == "--files-with-matches"@
    ||| arg == "-L"@
    ||| arg == "--files-without-match"@
    ||| arg == "-o"@
    ||| arg == "--only-matching"@
    ||| arg == "-Z"@
    ||| arg == "--null"@
}

/// Whether the output, with these arguments, has another shape.
pub open spec fn another_format(extra_args: Seq<Seq<char>>) -> bool {
    exists|i: int| 0 <= i < extra_args.len() && changes_format(#[trigger] extra_args[i])
}

/// Whether the output, with these arguments, has another shape.
pub fn has_format_flag(extra_args: &[String]) -> (r: bool)
    ensures
        r == another_format(text::texts(extra_args@)),
{
    let ghost all = text::texts(extra_args@);
    let mut i: usize = 0;
    while i < extra_args.len()
        invariant
            i <= extra_args@.len(),
            all == text::texts(extra_args@),
            forall|j: int| 0 <= j < i ==> !changes_format(#[trigger] all[j]),
        decreases extra_args.len() - i,
    {
        let arg = extra_args[i].as_str();
        assert(arg@ == all[i as int]);
        if text::same_text(arg, "-c")
            || text::same_text(arg, "--count")
            || text::same_text(arg, "-l")
            || text::same_text(arg, "--files-with-matches")
            || text::same_text(arg, "-L")
            || text::same_text(arg, "--files-without-match")
            || text::same_text(arg, "-o")
            || text::same_text(arg, "--only-matching")
            || text::same_text(arg, "-Z")
            || text::same_text(arg, "--null")
        {
            return true;
        }
        i = i + 1;
    }
    false
}

} // verus!
