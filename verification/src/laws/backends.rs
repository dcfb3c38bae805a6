//! Laws of the arguments for the backends.

use crate::args;
use crate::backend;
use crate::laws::command_line;
use crate::run;
use crate::text;
use vstd::prelude::*;

verus! {

/// Every call of ripgrep for a search asks for line numbers, for file names that end
/// with a NUL, for no headings, and for ignored files too.
pub proof fn law_ripgrep_always_has_standing_options(search: args::SearchView, pattern: Seq<char>)
    ensures
        backend::standing_options().is_prefix_of(backend::ripgrep_arguments(search, pattern)),
{
    let all = backend::ripgrep_arguments(search, pattern);
    assert(all.subrange(0, backend::standing_options().len() as int)
        =~= backend::standing_options());
}

/// The options that ask for recursion never reach ripgrep; all others do.
pub proof fn law_recursion_is_not_handed_on(rg_args: Seq<Seq<char>>, arg: Seq<char>)
    ensures
        backend::handed_on(rg_args).contains(arg) <==> rg_args.contains(arg) && arg != "-r"@ && arg
            != "--recursive"@,
{
    let kept = |arg: Seq<char>| !backend::asks_for_recursion(arg);
    if backend::handed_on(rg_args).contains(arg) {
        let i = backend::handed_on(rg_args).index_of(arg);
        rg_args.lemma_filter_pred(kept, i);
        rg_args.lemma_filter_contains_rev(kept, arg);
    }
    if rg_args.contains(arg) && !backend::asks_for_recursion(arg) {
        let i = rg_args.index_of(arg);
        rg_args.lemma_filter_contains(kept, i);
    }
}

/// Either backend searches the paths of the search, which stand last.
pub proof fn law_paths_stand_last(search: args::SearchView, pattern: Seq<char>)
    ensures
        ({
            let rg = backend::ripgrep_arguments(search, pattern);
            rg.skip(rg.len() - search.paths.len()) == search.paths
        }),
        ({
            let grep = backend::grep_arguments(search);
            grep.skip(grep.len() - search.paths.len()) == search.paths
        }),
{
    let rg = backend::ripgrep_arguments(search, pattern);
    let grep = backend::grep_arguments(search);
    assert(rg.skip(rg.len() - search.paths.len()) =~= search.paths);
    assert(grep.skip(grep.len() - search.paths.len()) =~= search.paths);
}

/// What says how much is shown does not reach the backends: behind complete arguments,
/// it leaves the call of ripgrep, and that of grep in its place, as they are.
pub proof fn law_showing_does_not_reach_the_backends(
    first: Seq<Seq<char>>,
    own: Seq<Seq<char>>,
    value: Seq<char>,
    rest: Seq<Seq<char>>,
    verbose: u8,
)
    requires
        command_line::complete(first),
        command_line::stands_alone(first, rest),
        command_line::is_about_showing(own, value),
    ensures
        match (args::invocation(first + (own + rest)), args::invocation(first + rest)) {
            (Ok(x), Ok(y)) => {
                let with = run::start_of(x, verbose);
                let without = run::start_of(y, verbose);
                &&& with.call == without.call
                &&& with.notice == without.notice
                &&& match (
                    run::after_failure(with.pending),
                    run::after_failure(without.pending),
                ) {
                    (
                        run::StepView::Call { call: a, .. },
                        run::StepView::Call { call: b, .. },
                    ) => a == b,
                    (run::StepView::Failed(e), run::StepView::Failed(f)) => e == f,
                    _ => false,
                }
            },
            (Err(e), Err(f)) => e == f,
            _ => false,
        },
{
    command_line::law_showing_is_read_apart(first, own, value, rest);
}

/// The options that only ripgrep knows, and those that grep has anyway.
pub open spec fn not_for_grep(arg: Seq<char>) -> bool {
    ||| arg == "--type"@
    ||| arg == "-t"@
    ||| arg == "--glob"@
    ||| arg == "-g"@
    ||| arg == "--type-add"@
    ||| arg == "--type-list"@
    ||| arg == "--hidden"@
    ||| arg == "-r"@
    ||| arg == "--recursive"@
    ||| "--type="@.is_prefix_of(arg)
    ||| "--glob="@.is_prefix_of(arg)
    ||| "--type-add="@.is_prefix_of(arg)
}

/// Grep is never given an option that only ripgrep knows.
pub proof fn law_grep_gets_no_ripgrep_option(rg_args: Seq<Seq<char>>, i: int)
    requires
        0 <= i < backend::options_for_grep(rg_args).len(),
    ensures
        !not_for_grep(backend::options_for_grep(rg_args)[i]),
    decreases rg_args.len(),
{
    if rg_args.len() > 0 {
        let (options, used) = backend::first_for_grep(rg_args);
        if i < options.len() {
            lemma_first_for_grep(rg_args, i);
        } else {
            law_grep_gets_no_ripgrep_option(rg_args.skip(used), i - options.len());
        }
    }
}

/// An option that selects files by their names is one of grep.
proof fn lemma_file_option(arg: Seq<char>)
    requires
        "--include="@.is_prefix_of(arg) || "--exclude="@.is_prefix_of(arg),
    ensures
        !not_for_grep(arg),
{
    reveal_strlit("--include=");
    reveal_strlit("--exclude=");
    reveal_strlit("--type");
    reveal_strlit("-t");
    reveal_strlit("--glob");
    reveal_strlit("-g");
    reveal_strlit("--type-add");
    reveal_strlit("--type-list");
    reveal_strlit("--hidden");
    reveal_strlit("-r");
    reveal_strlit("--recursive");
    reveal_strlit("--type=");
    reveal_strlit("--glob=");
    reveal_strlit("--type-add=");
    assert(arg.len() >= 10);
    assert(arg.subrange(0, 10)[1] == arg[1]);
    assert(arg.subrange(0, 10)[2] == arg[2]);
    assert("--include="@[1] == '-' && "--include="@[2] == 'i');
    assert("--exclude="@[1] == '-' && "--exclude="@[2] == 'e');
    command_line::lemma_differ("--type"@, arg, 2);
    command_line::lemma_differ("--glob"@, arg, 2);
    command_line::lemma_differ("--type-add"@, arg, 2);
    command_line::lemma_differ("--type-list"@, arg, 2);
    command_line::lemma_differ("--hidden"@, arg, 2);
    command_line::lemma_differ("--recursive"@, arg, 2);
    command_line::lemma_differ("--type="@, arg, 2);
    command_line::lemma_differ("--glob="@, arg, 2);
    command_line::lemma_differ("--type-add="@, arg, 2);
    command_line::lemma_differ("-t"@, arg, 1);
    command_line::lemma_differ("-g"@, arg, 1);
    command_line::lemma_differ("-r"@, arg, 1);
}

/// What grep is given for one option.
proof fn lemma_first_for_grep(rg_args: Seq<Seq<char>>, i: int)
    requires
        rg_args.len() > 0,
        0 <= i < backend::first_for_grep(rg_args).0.len(),
    ensures
        !not_for_grep(backend::first_for_grep(rg_args).0[i]),
{
    let arg = rg_args[0];
    let option = backend::first_for_grep(rg_args).0[i];
    if not_for_grep(arg) {
        let taken = if let Some(file_type) = text::after_prefix(arg, "--type="@) {
            file_type
        } else if let Some(glob) = text::after_prefix(arg, "--glob="@) {
            glob
        } else {
            rg_args[1]
        };
        let included = if backend::glob_of_type(taken) is Some {
            backend::glob_of_type(taken)->0
        } else {
            taken
        };
        assert(("--include="@ + included).subrange(0, "--include="@.len() as int)
            =~= "--include="@);
        assert(("--include="@ + taken).subrange(0, "--include="@.len() as int) =~= "--include="@);
        assert(("--exclude="@ + taken.skip(1)).subrange(0, "--exclude="@.len() as int)
            =~= "--exclude="@);
        lemma_file_option(option);
    }
}

/// Options that grep knows too are given to it as they are.
pub proof fn law_common_options_are_kept(rg_args: Seq<Seq<char>>)
    requires
        forall|i: int| 0 <= i < rg_args.len() ==> !not_for_grep(#[trigger] rg_args[i]),
    ensures
        backend::options_for_grep(rg_args) == rg_args,
    decreases rg_args.len(),
{
    if rg_args.len() == 0 {
        assert(backend::options_for_grep(rg_args) =~= rg_args);
    } else {
        assert(!not_for_grep(rg_args[0]));
        let rest = rg_args.skip(1);
        assert forall|i: int| 0 <= i < rest.len() implies !not_for_grep(#[trigger] rest[i]) by {
            assert(rest[i] == rg_args[i + 1]);
        }
        law_common_options_are_kept(rest);
        assert(seq![rg_args[0]] + rest =~= rg_args);
    }
}

/// What follows the options: the terminator where there was one, the pattern unless
/// options give it, and the paths.
pub open spec fn behind_the_options(search: args::SearchView, pattern: Seq<char>) -> Seq<Seq<char>> {
    let end = if search.had_pattern_terminator {
        seq!["--"@]
    } else {
        Seq::empty()
    };
    if search.pattern_from_rg_args {
        end + search.paths
    } else {
        end.push(pattern) + search.paths
    }
}

/// Ripgrep is asked for line numbers, for file names that end with a NUL, for no
/// headings and for ignored files; then come the options that were given, in their
/// order, but for those that ask for recursion; and then the operands.
pub proof fn law_ripgrep_is_called_with(search: args::SearchView, pattern: Seq<char>)
    ensures
        backend::ripgrep_arguments(search, pattern) == seq![
            "-nH0"@,
            "--no-heading"@,
            "--no-ignore-vcs"@,
        ] + search.rg_args.filter(|arg: Seq<char>| arg != "-r"@ && arg != "--recursive"@)
            + behind_the_options(search, pattern),
{
    let ours = |arg: Seq<char>| arg != "-r"@ && arg != "--recursive"@;
    let theirs = |arg: Seq<char>| !backend::asks_for_recursion(arg);
    assert(ours =~= theirs);
    assert(backend::operands(search, pattern) =~= behind_the_options(search, pattern));
}

/// Grep is asked to search directories, for line numbers and for file names that end
/// with a NUL; then come the options as grep knows them; and then the operands.
pub proof fn law_grep_is_called_with(search: args::SearchView)
    ensures
        backend::grep_arguments(search) == seq!["-rnHZ"@] + backend::options_for_grep(
            search.rg_args,
        ) + behind_the_options(search, search.pattern),
{
    assert(backend::operands(search, search.pattern) =~= behind_the_options(
        search,
        search.pattern,
    ));
}

/// A file type becomes, for grep, the files that belong to it; one that is not common
/// becomes nothing.
pub proof fn law_file_types_are_put_for_grep(file_type: Seq<char>, rest: Seq<Seq<char>>)
    ensures
        ({
            let behind = backend::options_for_grep(rest);
            let wanted = match backend::glob_of_type(file_type) {
                Some(glob) => seq!["--include="@ + glob] + behind,
                None => behind,
            };
            &&& backend::options_for_grep(seq!["--type="@ + file_type] + rest) == wanted
            &&& backend::options_for_grep(seq!["--type"@, file_type] + rest) == wanted
            &&& backend::options_for_grep(seq!["-t"@, file_type] + rest) == wanted
        }),
{
    reveal_strlit("--type=");
    reveal_strlit("--type");
    reveal_strlit("-t");
    reveal_strlit("--glob=");
    reveal_strlit("--type-add=");
    reveal_strlit("--type-list");
    let behind = backend::options_for_grep(rest);
    let a = "--type="@ + file_type;
    assert(a.subrange(0, 7) =~= "--type="@);
    assert(a.skip(7) =~= file_type);
    command_line::lemma_differ("--type="@, "--type"@, 6);
    command_line::lemma_differ("--glob="@, "--type"@, 2);
    command_line::lemma_differ("--type-add="@, "--type"@, 6);
    command_line::lemma_differ("--type="@, "-t"@, 2);
    command_line::lemma_differ("--glob="@, "-t"@, 2);
    command_line::lemma_differ("--type-add="@, "-t"@, 2);
    lemma_first_alone(a, rest);
    lemma_first_with_value("--type"@, file_type, rest);
    lemma_first_with_value("-t"@, file_type, rest);
    assert(Seq::<Seq<char>>::empty() + behind =~= behind);
}

/// A glob becomes, for grep, the files to search, or, behind an exclamation mark, those
/// to leave out.
pub proof fn law_globs_are_put_for_grep(glob: Seq<char>, rest: Seq<Seq<char>>)
    ensures
        ({
            let behind = backend::options_for_grep(rest);
            let wanted = if glob.len() > 0 && glob[0] == '!' {
                seq!["--exclude="@ + glob.subrange(1, glob.len() as int)] + behind
            } else {
                seq!["--include="@ + glob] + behind
            };
            &&& backend::options_for_grep(seq!["--glob="@ + glob] + rest) == wanted
            &&& backend::options_for_grep(seq!["--glob"@, glob] + rest) == wanted
            &&& backend::options_for_grep(seq!["-g"@, glob] + rest) == wanted
        }),
{
    reveal_strlit("--type=");
    reveal_strlit("--type");
    reveal_strlit("-t");
    reveal_strlit("--glob=");
    reveal_strlit("--glob");
    reveal_strlit("-g");
    reveal_strlit("--type-add=");
    reveal_strlit("--type-list");
    let a = "--glob="@ + glob;
    assert(a.subrange(0, 7) =~= "--glob="@);
    assert(a.skip(7) =~= glob);
    assert(glob.len() > 0 ==> glob.skip(1) =~= glob.subrange(1, glob.len() as int));
    command_line::lemma_differ("--type="@, a, 2);
    command_line::lemma_differ("--type="@, "--glob"@, 2);
    command_line::lemma_differ("--glob="@, "--glob"@, 6);
    command_line::lemma_differ("--type-add="@, "--glob"@, 2);
    command_line::lemma_differ("--type-list"@, "--glob"@, 2);
    command_line::lemma_differ("--type"@, "--glob"@, 2);
    command_line::lemma_differ("--type="@, "-g"@, 2);
    command_line::lemma_differ("--glob="@, "-g"@, 2);
    command_line::lemma_differ("--type-add="@, "-g"@, 2);
    command_line::lemma_differ("-t"@, "-g"@, 1);
    lemma_first_alone(a, rest);
    lemma_first_with_value("--glob"@, glob, rest);
    lemma_first_with_value("-g"@, glob, rest);
}

/// Grep is given nothing for what only ripgrep can do, nor for what grep does anyway.
pub proof fn law_other_ripgrep_options_are_left_out(value: Seq<char>, rest: Seq<Seq<char>>)
    ensures
        ({
            let behind = backend::options_for_grep(rest);
            &&& backend::options_for_grep(seq!["--type-add="@ + value] + rest) == behind
            &&& backend::options_for_grep(seq!["--type-add"@, value] + rest) == behind
            &&& backend::options_for_grep(seq!["--type-list"@] + rest) == behind
            &&& backend::options_for_grep(seq!["--hidden"@] + rest) == behind
            &&& backend::options_for_grep(seq!["-r"@] + rest) == behind
            &&& backend::options_for_grep(seq!["--recursive"@] + rest) == behind
        }),
{
    reveal_strlit("--type=");
    reveal_strlit("--type");
    reveal_strlit("-t");
    reveal_strlit("--glob=");
    reveal_strlit("--glob");
    reveal_strlit("-g");
    reveal_strlit("--type-add=");
    reveal_strlit("--type-add");
    reveal_strlit("--type-list");
    reveal_strlit("--hidden");
    reveal_strlit("-r");
    reveal_strlit("--recursive");
    let behind = backend::options_for_grep(rest);
    let a = "--type-add="@ + value;
    assert(a.subrange(0, 11) =~= "--type-add="@);
    lemma_unlike_types_and_globs(a, 6);
    lemma_unlike_types_and_globs("--type-add"@, 6);
    lemma_unlike_types_and_globs("--type-list"@, 6);
    lemma_unlike_types_and_globs("--hidden"@, 2);
    lemma_unlike_types_and_globs("-r"@, 1);
    lemma_unlike_types_and_globs("--recursive"@, 2);
    command_line::lemma_differ("--type-add="@, "--type-add"@, 10);
    command_line::lemma_differ("--type-list"@, "--type-add"@, 7);
    command_line::lemma_differ("--type-add="@, "--hidden"@, 2);
    command_line::lemma_differ("--type-list"@, "--hidden"@, 2);
    command_line::lemma_differ("--type-add"@, "--hidden"@, 2);
    command_line::lemma_differ("--type-add="@, "-r"@, 1);
    command_line::lemma_differ("--type-add="@, "--recursive"@, 2);
    command_line::lemma_differ("--type-list"@, "--recursive"@, 2);
    command_line::lemma_differ("--type-add"@, "--recursive"@, 2);
    lemma_first_alone(a, rest);
    lemma_first_with_value("--type-add"@, value, rest);
    lemma_first_alone("--type-list"@, rest);
    lemma_first_alone("--hidden"@, rest);
    lemma_first_alone("-r"@, rest);
    lemma_first_alone("--recursive"@, rest);
    assert(Seq::<Seq<char>>::empty() + behind =~= behind);
}

/// Any other option is given to grep as it is, where it stands.
pub proof fn law_other_options_are_given_to_grep(arg: Seq<char>, rest: Seq<Seq<char>>)
    requires
        !not_for_grep(arg),
    ensures
        backend::options_for_grep(seq![arg] + rest) == seq![arg] + backend::options_for_grep(rest),
        backend::options_for_grep(Seq::empty()) == Seq::<Seq<char>>::empty(),
{
    lemma_first_alone(arg, rest);
}

/// An option without its value, at the end, is nothing to grep.
pub proof fn law_missing_value_is_nothing_to_grep(flag: Seq<char>)
    requires
        flag == "--type"@ || flag == "-t"@ || flag == "--glob"@ || flag == "-g"@ || flag
            == "--type-add"@,
    ensures
        backend::options_for_grep(seq![flag]) == Seq::<Seq<char>>::empty(),
{
    reveal_strlit("--type=");
    reveal_strlit("--type");
    reveal_strlit("-t");
    reveal_strlit("--glob=");
    reveal_strlit("--glob");
    reveal_strlit("-g");
    reveal_strlit("--type-add");
    assert(!"--type="@.is_prefix_of(flag)) by {
        if flag == "--type-add"@ {
            command_line::lemma_differ("--type="@, flag, 6);
        } else if flag == "--type"@ || flag == "--glob"@ {
            command_line::lemma_differ("--type="@, flag, 6);
        } else {
            command_line::lemma_differ("--type="@, flag, 2);
        }
    }
    assert(!"--glob="@.is_prefix_of(flag)) by {
        if flag == "--type-add"@ {
            command_line::lemma_differ("--glob="@, flag, 2);
        } else if flag == "--type"@ || flag == "--glob"@ {
            command_line::lemma_differ("--glob="@, flag, 6);
        } else {
            command_line::lemma_differ("--glob="@, flag, 2);
        }
    }
    let list = seq![flag];
    assert(backend::first_for_grep(list).0 =~= Seq::empty());
    assert(backend::first_for_grep(list).1 == 1);
    assert(list.skip(1) =~= Seq::empty());
    assert(backend::options_for_grep(list.skip(1)) =~= Seq::empty());
    assert(backend::options_for_grep(list) =~= Seq::empty());
}

/// A text that differs from the options for types and globs at a place.
proof fn lemma_unlike_types_and_globs(arg: Seq<char>, k: int)
    requires
        1 <= k <= 6,
        k < arg.len(),
        k == 1 ==> arg[1] != '-' && arg[1] != 't' && arg[1] != 'g' && arg.len() == 2,
        k > 1 ==> arg.len() > 2 && arg[1] == '-',
        k == 2 ==> arg[2] != 't' && arg[2] != 'g',
        k == 6 ==> arg[6] == '-' && arg[2] == 't',
        k == 1 || k == 2 || k == 6,
    ensures
        !"--type="@.is_prefix_of(arg),
        !"--glob="@.is_prefix_of(arg),
        arg != "--type"@,
        arg != "-t"@,
        arg != "--glob"@,
        arg != "-g"@,
{
    reveal_strlit("--type=");
    reveal_strlit("--type");
    reveal_strlit("-t");
    reveal_strlit("--glob=");
    reveal_strlit("--glob");
    reveal_strlit("-g");
    command_line::lemma_differ("--type="@, arg, k);
    if k == 6 {
        command_line::lemma_differ("--glob="@, arg, 2);
    } else {
        command_line::lemma_differ("--glob="@, arg, k);
        command_line::lemma_differ("--type"@, arg, k);
        command_line::lemma_differ("--glob"@, arg, k);
    }
    if k == 1 {
        command_line::lemma_differ("-t"@, arg, 1);
        command_line::lemma_differ("-g"@, arg, 1);
    }
}

/// The options of grep for an option that is one argument.
proof fn lemma_first_alone(arg: Seq<char>, rest: Seq<Seq<char>>)
    ensures
        ({
            let (options, used) = backend::first_for_grep(seq![arg] + rest);
            used == 1 ==> backend::options_for_grep(seq![arg] + rest) == options
                + backend::options_for_grep(rest)
        }),
        (seq![arg] + rest)[0] == arg,
{
    assert((seq![arg] + rest).skip(1) =~= rest);
}

/// The options of grep for an option that is two arguments.
proof fn lemma_first_with_value(flag: Seq<char>, value: Seq<char>, rest: Seq<Seq<char>>)
    ensures
        ({
            let (options, used) = backend::first_for_grep(seq![flag, value] + rest);
            used == 2 ==> backend::options_for_grep(seq![flag, value] + rest) == options
                + backend::options_for_grep(rest)
        }),
        (seq![flag, value] + rest)[0] == flag,
        (seq![flag, value] + rest)[1] == value,
        (seq![flag, value] + rest).len() > 1,
{
    assert((seq![flag, value] + rest).skip(2) =~= rest);
}

/// Only these file types are common.
pub proof fn law_common_file_types(file_type: Seq<char>)
    ensures
        backend::glob_of_type(file_type) is Some ==> seq![
            "rust"@,
            "rs"@,
            "py"@,
            "python"@,
            "ts"@,
            "typescript"@,
            "tsx"@,
            "js"@,
            "javascript"@,
            "jsx"@,
            "go"@,
            "java"@,
            "rb"@,
            "ruby"@,
            "md"@,
            "markdown"@,
        ].contains(file_type),
{
    let known = seq![
        "rust"@,
        "rs"@,
        "py"@,
        "python"@,
        "ts"@,
        "typescript"@,
        "tsx"@,
        "js"@,
        "javascript"@,
        "jsx"@,
        "go"@,
        "java"@,
        "rb"@,
        "ruby"@,
        "md"@,
        "markdown"@,
    ];
    assert(known[0] == "rust"@ && known[1] == "rs"@ && known[2] == "py"@ && known[3] == "python"@);
    assert(known[4] == "ts"@ && known[5] == "typescript"@ && known[6] == "tsx"@);
    assert(known[7] == "js"@ && known[8] == "javascript"@ && known[9] == "jsx"@);
    assert(known[10] == "go"@ && known[11] == "java"@ && known[12] == "rb"@);
    assert(known[13] == "ruby"@ && known[14] == "md"@ && known[15] == "markdown"@);
}

/// The output has another format exactly where one of these options is given.
pub proof fn law_formats_are_told_by_options(list: Seq<Seq<char>>)
    ensures
        backend::another_format(list) <==> {
            ||| list.contains("-c"@)
            ||| list.contains("--count"@)
            ||| list.contains("-l"@)
            ||| list.contains("--files-with-matches"@)
            ||| list.contains("-L"@)
            ||| list.contains("--files-without-match"@)
            ||| list.contains("-o"@)
            ||| list.contains("--only-matching"@)
            ||| list.contains("-Z"@)
            ||| list.contains("--null"@)
        },
{
    if backend::another_format(list) {
        let i = choose|i: int|
            0 <= i < list.len() && backend::changes_format(#[trigger] list[i]);
        assert(list.contains(list[i]));
    }
}

} // verus!
