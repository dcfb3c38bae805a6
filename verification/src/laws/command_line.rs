//! Laws of the command line.

use crate::args;
use crate::text;
use vstd::prelude::*;

verus! {

/// Two texts that differ at a place.
pub proof fn lemma_differ(p: Seq<char>, s: Seq<char>, k: int)
    requires
        0 <= k < p.len(),
        k >= s.len() || p[k] != s[k],
    ensures
        !p.is_prefix_of(s),
        p != s,
{
    if p.is_prefix_of(s) {
        assert(s.subrange(0, p.len() as int)[k] == s[k]);
    }
}

/// The options that are looked for before those of the backend, none of which
/// begins like `arg`.
proof fn lemma_no_own_option(arg: Seq<char>)
    requires
        arg.len() >= 2,
        arg[0] == '-',
        arg[1] == '-' ==> arg.len() > 2 && arg[2] != 'c' && arg[2] != 'm' && arg[2] != 'l',
        arg[1] == 'l' || arg[1] == 'm' || arg[1] == 'n' ==> arg.len() > 2,
    ensures
        arg != "--"@,
        arg != "--context-only"@,
        !"--max-len="@.is_prefix_of(arg),
        arg != "--max-len"@,
        !"--max="@.is_prefix_of(arg),
        arg != "--max"@,
        arg != "-l"@,
        arg != "-m"@,
        arg != "-n"@,
        arg != "--line-numbers"@,
{
    reveal_strlit("--");
    reveal_strlit("--context-only");
    reveal_strlit("--max-len=");
    reveal_strlit("--max-len");
    reveal_strlit("--max=");
    reveal_strlit("--max");
    reveal_strlit("-l");
    reveal_strlit("-m");
    reveal_strlit("-n");
    reveal_strlit("--line-numbers");
    let k: int = if arg[1] == '-' {
        2
    } else {
        1
    };
    lemma_differ("--context-only"@, arg, k);
    lemma_differ("--max-len="@, arg, k);
    lemma_differ("--max-len"@, arg, k);
    lemma_differ("--max="@, arg, k);
    lemma_differ("--max"@, arg, k);
    lemma_differ("--line-numbers"@, arg, k);
}

/// Whether what stands first is read the same whatever follows it: not so only of
/// `-l` and `-m` at its end, which take a number that follows them for a limit.
pub open spec fn stands_alone(first: Seq<Seq<char>>, rest: Seq<Seq<char>>) -> bool {
    ||| first.len() == 0
    ||| rest.len() == 0
    ||| text::to_number(rest[0]) is None
    ||| first.last() != "-l"@ && first.last() != "-m"@
}

/// A command line is read from left to right: what follows complete arguments is read
/// on from where they end.
pub proof fn law_arguments_are_read_in_turn(
    first: Seq<Seq<char>>,
    rest: Seq<Seq<char>>,
    so_far: args::Reading,
    read: args::Reading,
)
    requires
        args::read_on(first, so_far) == Ok::<args::Reading, args::ArgErrorView>(read),
        !read.terminated,
        stands_alone(first, rest),
    ensures
        args::read_on(first + rest, so_far) == args::read_on(rest, read),
    decreases first.len(),
{
    let all = first + rest;
    if first.len() == 0 {
        assert(all =~= rest);
    } else if rest.len() == 0 {
        assert(all =~= first);
    } else {
        assert(all[0] == first[0]);
        assert(first.len() > 1 ==> all[1] == first[1]);
        assert(first.len() == 1 ==> all[1] == rest[0] && first.last() == first[0]);
        assert(args::meaning(all) == args::meaning(first));
        assert(all.drop_first() =~= first.drop_first() + rest);
        assert(all.skip(1) =~= first.skip(1) + rest);
        assert(first.len() > 1 ==> all.skip(2) =~= first.skip(2) + rest);
        match args::meaning(first) {
            args::Meaning::EndOfOptions => {},
            args::Meaning::ContextOnly => {
                law_arguments_are_read_in_turn(
                    first.drop_first(),
                    rest,
                    args::Reading { context_only: true, ..so_far },
                    read,
                );
            },
            args::Meaning::LineLimit { limit, used } => {
                law_arguments_are_read_in_turn(
                    first.skip(used),
                    rest,
                    args::Reading { max_line_len: limit, ..so_far },
                    read,
                );
            },
            args::Meaning::ResultLimit { limit, used } => {
                law_arguments_are_read_in_turn(
                    first.skip(used),
                    rest,
                    args::Reading { max_results: limit, ..so_far },
                    read,
                );
            },
            args::Meaning::Nothing => {
                law_arguments_are_read_in_turn(first.drop_first(), rest, so_far, read);
            },
            args::Meaning::Forwarded { args: more, pattern, used } => {
                law_arguments_are_read_in_turn(
                    first.skip(used),
                    rest,
                    args::Reading {
                        pattern_given: so_far.pattern_given || pattern,
                        forwarded: so_far.forwarded + more,
                        ..so_far
                    },
                    read,
                );
            },
            args::Meaning::Positional => {
                law_arguments_are_read_in_turn(
                    first.drop_first(),
                    rest,
                    args::Reading { positionals: so_far.positionals.push(first[0]), ..so_far },
                    read,
                );
            },
            args::Meaning::Wrong(_) => {},
        }
    }
}

/// Whether arguments are complete and do not end the options.
pub open spec fn complete(first: Seq<Seq<char>>) -> bool {
    args::read_on(first, args::nothing_read()) matches Ok(read) && !read.terminated
}

/// What complete arguments have said.
pub open spec fn reading(first: Seq<Seq<char>>) -> args::Reading {
    args::read_on(first, args::nothing_read())->Ok_0
}

/// An argument that begins with a dash is no number.
pub proof fn lemma_dash_is_no_number(arg: Seq<char>)
    requires
        arg.len() > 0,
        arg[0] == '-',
    ensures
        text::to_number(arg) is None,
{
}

/// The meaning of the options that ask for line numbers.
pub proof fn lemma_line_numbers(rest: Seq<Seq<char>>)
    ensures
        (seq!["-n"@] + rest).drop_first() == rest,
        (seq!["--line-numbers"@] + rest).drop_first() == rest,
        args::meaning(seq!["-n"@] + rest) == args::Meaning::Nothing,
        args::meaning(seq!["--line-numbers"@] + rest) == args::Meaning::Nothing,
{
    reveal_strlit("--");
    reveal_strlit("--context-only");
    reveal_strlit("--max-len=");
    reveal_strlit("--max-len");
    reveal_strlit("--max=");
    reveal_strlit("--max");
    reveal_strlit("-l");
    reveal_strlit("-m");
    reveal_strlit("-n");
    reveal_strlit("--line-numbers");
    let short = seq!["-n"@] + rest;
    let long = seq!["--line-numbers"@] + rest;
    assert(short.drop_first() =~= rest);
    assert(long.drop_first() =~= rest);
    lemma_differ("--context-only"@, "--line-numbers"@, 2);
    lemma_differ("--max-len="@, "--line-numbers"@, 2);
    lemma_differ("--max-len"@, "--line-numbers"@, 2);
    lemma_differ("--max="@, "--line-numbers"@, 2);
    lemma_differ("--max"@, "--line-numbers"@, 2);
    lemma_differ("--max-len="@, "-n"@, 2);
    lemma_differ("--max="@, "-n"@, 2);
    assert("-n"@[1] == 'n');
    assert("-l"@[1] == 'l');
    assert("-m"@[1] == 'm');
    assert("--"@[1] == '-');
    assert(args::meaning(short) == args::Meaning::Nothing);
    assert(args::meaning(long) == args::Meaning::Nothing);
}

/// `-n` and `--line-numbers` ask for what is done anyway: behind complete arguments,
/// they change nothing.
pub proof fn law_line_number_options_change_nothing(first: Seq<Seq<char>>, rest: Seq<Seq<char>>)
    requires
        complete(first),
        stands_alone(first, rest),
    ensures
        args::invocation(first + (seq!["-n"@] + rest)) == args::invocation(first + rest),
        args::invocation(first + (seq!["--line-numbers"@] + rest)) == args::invocation(
            first + rest,
        ),
{
    reveal_strlit("-n");
    reveal_strlit("--line-numbers");
    let short = seq!["-n"@] + rest;
    let long = seq!["--line-numbers"@] + rest;
    lemma_line_numbers(rest);
    let read = reading(first);
    lemma_dash_is_no_number(short[0]);
    lemma_dash_is_no_number(long[0]);
    law_arguments_are_read_in_turn(first, rest, args::nothing_read(), read);
    law_arguments_are_read_in_turn(first, short, args::nothing_read(), read);
    law_arguments_are_read_in_turn(first, long, args::nothing_read(), read);
}

/// The options of the search itself that take a value need one.
pub proof fn lemma_own_flags_need_values()
    ensures
        args::meaning(seq!["--max-len"@]) == args::Meaning::Wrong(
            args::ArgErrorView::MissingValue("--max-len"@),
        ),
        args::meaning(seq!["--max"@]) == args::Meaning::Wrong(
            args::ArgErrorView::MissingValue("--max"@),
        ),
        args::meaning(seq!["--file-type"@]) == args::Meaning::Wrong(
            args::ArgErrorView::MissingValue("--file-type"@),
        ),
{
    reveal_strlit("--");
    reveal_strlit("--context-only");
    reveal_strlit("--max-len=");
    reveal_strlit("--max-len");
    reveal_strlit("--max=");
    reveal_strlit("--max");
    reveal_strlit("--file-type");
    reveal_strlit("--type=");
    reveal_strlit("--file-type=");
    reveal_strlit("--glob=");
    reveal_strlit("--type-add=");
    reveal_strlit("-t");
    reveal_strlit("-g");
    let a = "--max-len"@;
    let b = "--max"@;
    let c = "--file-type"@;
    lemma_differ("--context-only"@, a, 2);
    lemma_differ("--context-only"@, b, 2);
    lemma_differ("--max-len="@, a, 9);
    lemma_differ("--max-len="@, b, 5);
    lemma_differ("--max="@, b, 5);
    lemma_no_own_option(c);
    lemma_differ("--type="@, c, 2);
    lemma_differ("--file-type="@, c, 11);
    lemma_differ("--glob="@, c, 2);
    lemma_differ("--type-add="@, c, 2);
    lemma_differ("-t"@, c, 1);
    lemma_differ("-g"@, c, 1);
}

/// Behind complete arguments, `--file-type` is another name of `--type`, with its value
/// behind an equals sign or as the next argument.
pub proof fn law_file_type_is_type(
    first: Seq<Seq<char>>,
    value: Seq<char>,
    rest: Seq<Seq<char>>,
)
    requires
        complete(first),
    ensures
        args::invocation(first + (seq!["--file-type="@ + value] + rest)) == args::invocation(
            first + (seq!["--type="@ + value] + rest),
        ),
        args::invocation(first + (seq!["--file-type"@, value] + rest)) == args::invocation(
            first + (seq!["--type"@, value] + rest),
        ),
{
    reveal_strlit("--type=");
    reveal_strlit("--file-type=");
    reveal_strlit("--file-type");
    reveal_strlit("--type");
    reveal_strlit("--glob=");
    reveal_strlit("--type-add=");
    reveal_strlit("-t");
    reveal_strlit("-g");
    reveal_strlit("-e");
    reveal_strlit("-f");
    reveal_strlit("--regexp=");
    reveal_strlit("--file=");
    reveal_strlit("--regexp");
    reveal_strlit("--file");
    let a = "--file-type="@ + value;
    let b = "--type="@ + value;
    lemma_no_own_option(a);
    lemma_no_own_option(b);
    lemma_differ("--type="@, a, 2);
    assert("--type="@.is_prefix_of(b)) by {
        assert(b.subrange(0, "--type="@.len() as int) =~= "--type="@);
    }
    assert("--file-type="@.is_prefix_of(a)) by {
        assert(a.subrange(0, "--file-type="@.len() as int) =~= "--file-type="@);
    }
    assert(a.skip("--file-type="@.len() as int) =~= value);
    let one = seq![a] + rest;
    let two = seq![b] + rest;
    assert(args::meaning(one) == args::forwarded_alone(seq![b], false));
    assert(args::meaning(two) == args::forwarded_alone(seq![b], false));
    assert(one.skip(1) =~= rest);
    assert(two.skip(1) =~= rest);
    let c = "--file-type"@;
    let d = "--type"@;
    lemma_no_own_option(c);
    lemma_no_own_option(d);
    lemma_differ("--type="@, c, 2);
    lemma_differ("--type="@, d, 6);
    lemma_differ("--file-type="@, c, 11);
    lemma_differ("--file-type="@, d, 2);
    lemma_differ("--glob="@, c, 2);
    lemma_differ("--glob="@, d, 2);
    lemma_differ("--type-add="@, c, 2);
    lemma_differ("--type-add="@, d, 6);
    lemma_differ("-t"@, c, 1);
    lemma_differ("-t"@, d, 1);
    lemma_differ("-g"@, c, 1);
    lemma_differ("-g"@, d, 1);
    lemma_differ("--regexp="@, d, 2);
    lemma_differ("--file="@, d, 2);
    lemma_differ("--regexp"@, d, 2);
    lemma_differ("--file"@, d, 2);
    lemma_differ(c, d, 2);
    let three = seq![c, value] + rest;
    let four = seq![d, value] + rest;
    assert(three[0] == c && three[1] == value);
    assert(four[0] == d && four[1] == value);
    assert(args::meaning(three) == (args::Meaning::Forwarded {
        args: seq![d, value],
        pattern: false,
        used: 2,
    }));
    assert(args::meaning(four) == (args::Meaning::Forwarded {
        args: seq![d, value],
        pattern: false,
        used: 2,
    }));
    assert(three.skip(2) =~= rest);
    assert(four.skip(2) =~= rest);
    let read = reading(first);
    lemma_dash_is_no_number(a);
    lemma_dash_is_no_number(b);
    lemma_dash_is_no_number(c);
    lemma_dash_is_no_number(d);
    law_arguments_are_read_in_turn(first, one, args::nothing_read(), read);
    law_arguments_are_read_in_turn(first, two, args::nothing_read(), read);
    law_arguments_are_read_in_turn(first, three, args::nothing_read(), read);
    law_arguments_are_read_in_turn(first, four, args::nothing_read(), read);
}

/// Behind complete arguments, the value of `-t` and of `-g` may stand directly behind it.
pub proof fn law_short_option_value_may_be_attached(
    first: Seq<Seq<char>>,
    value: Seq<char>,
    rest: Seq<Seq<char>>,
)
    requires
        complete(first),
        value.len() > 0,
    ensures
        args::invocation(first + (seq!["-t"@ + value] + rest)) == args::invocation(
            first + (seq!["-t"@, value] + rest),
        ),
        args::invocation(first + (seq!["-g"@ + value] + rest)) == args::invocation(
            first + (seq!["-g"@, value] + rest),
        ),
{
    lemma_attached(first, "-t"@, value, rest);
    lemma_attached(first, "-g"@, value, rest);
}

/// The value of a short option, attached or not.
proof fn lemma_attached(
    first: Seq<Seq<char>>,
    flag: Seq<char>,
    value: Seq<char>,
    rest: Seq<Seq<char>>,
)
    requires
        complete(first),
        value.len() > 0,
        flag == "-t"@ || flag == "-g"@,
    ensures
        args::invocation(first + (seq![flag + value] + rest)) == args::invocation(
            first + (seq![flag, value] + rest),
        ),
{
    reveal_strlit("--type=");
    reveal_strlit("--file-type=");
    reveal_strlit("--file-type");
    reveal_strlit("--glob=");
    reveal_strlit("--type-add=");
    reveal_strlit("-t");
    reveal_strlit("-g");
    reveal_strlit("-e");
    reveal_strlit("-f");
    reveal_strlit("--regexp=");
    reveal_strlit("--file=");
    reveal_strlit("--regexp");
    reveal_strlit("--file");
    let a = flag + value;
    lemma_no_own_option(a);
    lemma_no_own_option(flag);
    lemma_differ("--type="@, a, 1);
    lemma_differ("--type="@, flag, 1);
    lemma_differ("--file-type="@, a, 1);
    lemma_differ("--file-type="@, flag, 1);
    lemma_differ("--file-type"@, flag, 1);
    lemma_differ("--glob="@, a, 1);
    lemma_differ("--glob="@, flag, 1);
    lemma_differ("--type-add="@, a, 1);
    lemma_differ("--type-add="@, flag, 1);
    lemma_differ("--regexp="@, flag, 1);
    lemma_differ("--file="@, flag, 1);
    lemma_differ("--regexp"@, flag, 1);
    lemma_differ("--file"@, flag, 1);
    assert("-t"@[1] == 't' && "-g"@[1] == 'g' && "-e"@[1] == 'e' && "-f"@[1] == 'f');
    let other = if flag == "-t"@ {
        "-g"@
    } else {
        "-t"@
    };
    lemma_differ(other, a, 1);
    lemma_differ(other, flag, 1);
    assert(flag.is_prefix_of(a)) by {
        assert(a.subrange(0, flag.len() as int) =~= flag);
    }
    assert(a.skip(flag.len() as int) =~= value);
    assert(flag.skip(flag.len() as int).len() == 0);
    let one = seq![a] + rest;
    let two = seq![flag, value] + rest;
    assert(two[0] == flag && two[1] == value);
    assert(args::meaning(one) == (args::Meaning::Forwarded {
        args: seq![flag, value],
        pattern: false,
        used: 1,
    }));
    assert(args::meaning(two) == (args::Meaning::Forwarded {
        args: seq![flag, value],
        pattern: false,
        used: 2,
    }));
    assert(one.skip(1) =~= rest);
    assert(two.skip(2) =~= rest);
    lemma_dash_is_no_number(a);
    lemma_dash_is_no_number(flag);
    law_arguments_are_read_in_turn(first, one, args::nothing_read(), reading(first));
    law_arguments_are_read_in_turn(first, two, args::nothing_read(), reading(first));
}

/// The meaning of each form of the limit on lines and of the limit on matches.
pub proof fn lemma_limit_forms(value: Seq<char>, rest: Seq<Seq<char>>)
    ensures
        args::meaning(seq!["--max-len="@ + value] + rest) == args::limit_meaning(
            "--max-len"@,
            value,
            1,
            true,
        ),
        args::meaning(seq!["--max-len"@, value] + rest) == args::limit_meaning(
            "--max-len"@,
            value,
            2,
            true,
        ),
        args::meaning(seq!["--max="@ + value] + rest) == args::limit_meaning(
            "--max"@,
            value,
            1,
            false,
        ),
        args::meaning(seq!["--max"@, value] + rest) == args::limit_meaning(
            "--max"@,
            value,
            2,
            false,
        ),
        text::to_number(value) is Some ==> args::meaning(seq!["-l"@, value] + rest)
            == args::limit_meaning("-l"@, value, 2, true),
        text::to_number(value) is Some ==> args::meaning(seq!["-m"@, value] + rest)
            == args::limit_meaning("-m"@, value, 2, false),
{
    reveal_strlit("--");
    reveal_strlit("--context-only");
    reveal_strlit("--max-len=");
    reveal_strlit("--max-len");
    reveal_strlit("--max=");
    reveal_strlit("--max");
    reveal_strlit("-l");
    reveal_strlit("-m");
    let a = "--max-len="@ + value;
    let b = "--max-len"@;
    let c = "--max="@ + value;
    let d = "--max"@;
    let e = "-l"@;
    let f = "-m"@;
    assert(a.subrange(0, 10) =~= "--max-len="@);
    assert(a.skip(10) =~= value);
    assert(c.subrange(0, 6) =~= "--max="@);
    assert(c.skip(6) =~= value);
    lemma_differ("--context-only"@, a, 2);
    lemma_differ("--context-only"@, b, 2);
    lemma_differ("--context-only"@, c, 2);
    lemma_differ("--context-only"@, d, 2);
    lemma_differ("--max-len="@, b, 9);
    lemma_differ("--max-len="@, c, 5);
    lemma_differ("--max-len="@, d, 5);
    lemma_differ("--max-len"@, c, 5);
    lemma_differ("--max-len"@, d, 5);
    lemma_differ("--max="@, d, 5);
    lemma_differ("--max-len="@, e, 2);
    lemma_differ("--max-len="@, f, 2);
    lemma_differ("--max="@, e, 2);
    lemma_differ("--max="@, f, 2);
    lemma_differ("--"@, e, 1);
    lemma_differ("--"@, f, 1);
    lemma_differ(e, f, 1);
    assert((seq![a] + rest)[0] == a);
    assert((seq![c] + rest)[0] == c);
    assert((seq![b, value] + rest)[0] == b && (seq![b, value] + rest)[1] == value);
    assert((seq![d, value] + rest)[0] == d && (seq![d, value] + rest)[1] == value);
    assert((seq![e, value] + rest)[0] == e && (seq![e, value] + rest)[1] == value);
    assert((seq![f, value] + rest)[0] == f && (seq![f, value] + rest)[1] == value);
}

/// Behind complete arguments, the value of `--max-len` and of `--max` may stand behind
/// an equals sign or as the next argument, and `-l` and `-m` with a number are short
/// for them.
pub proof fn law_limits_have_three_forms(
    first: Seq<Seq<char>>,
    value: Seq<char>,
    rest: Seq<Seq<char>>,
)
    requires
        complete(first),
    ensures
        args::invocation(first + (seq!["--max-len="@ + value] + rest)) == args::invocation(
            first + (seq!["--max-len"@, value] + rest),
        ),
        args::invocation(first + (seq!["--max="@ + value] + rest)) == args::invocation(
            first + (seq!["--max"@, value] + rest),
        ),
        text::to_number(value) is Some ==> args::invocation(first + (seq!["-l"@, value] + rest))
            == args::invocation(first + (seq!["--max-len"@, value] + rest)),
        text::to_number(value) is Some ==> args::invocation(first + (seq!["-m"@, value] + rest))
            == args::invocation(first + (seq!["--max"@, value] + rest)),
{
    lemma_limit_forms(value, rest);
    lemma_read_limits(first, value, rest);
}

/// Reading a limit behind complete arguments.
proof fn lemma_read_limits(first: Seq<Seq<char>>, value: Seq<char>, rest: Seq<Seq<char>>)
    requires
        complete(first),
    ensures
        ({
            let a = seq!["--max-len="@ + value] + rest;
            let b = seq!["--max-len"@, value] + rest;
            let c = seq!["--max="@ + value] + rest;
            let d = seq!["--max"@, value] + rest;
            let e = seq!["-l"@, value] + rest;
            let f = seq!["-m"@, value] + rest;
            let read = reading(first);
            let start = args::nothing_read();
            &&& a.skip(1) == rest && b.skip(2) == rest && c.skip(1) == rest
            &&& d.skip(2) == rest && e.skip(2) == rest && f.skip(2) == rest
            &&& args::read_on(first + a, start) == args::read_on(a, read)
            &&& args::read_on(first + b, start) == args::read_on(b, read)
            &&& args::read_on(first + c, start) == args::read_on(c, read)
            &&& args::read_on(first + d, start) == args::read_on(d, read)
            &&& args::read_on(first + e, start) == args::read_on(e, read)
            &&& args::read_on(first + f, start) == args::read_on(f, read)
        }),
{
    reveal_strlit("--max-len=");
    reveal_strlit("--max-len");
    reveal_strlit("--max=");
    reveal_strlit("--max");
    reveal_strlit("-l");
    reveal_strlit("-m");
    lemma_read_dashed(first, seq!["--max-len="@ + value], rest);
    lemma_read_dashed(first, seq!["--max-len"@, value], rest);
    lemma_read_dashed(first, seq!["--max="@ + value], rest);
    lemma_read_dashed(first, seq!["--max"@, value], rest);
    lemma_read_dashed(first, seq!["-l"@, value], rest);
    lemma_read_dashed(first, seq!["-m"@, value], rest);
}

/// Reading an option behind complete arguments.
proof fn lemma_read_dashed(
    first: Seq<Seq<char>>,
    option: Seq<Seq<char>>,
    rest: Seq<Seq<char>>,
)
    requires
        complete(first),
        option.len() > 0,
        option[0].len() > 0,
        option[0][0] == '-',
    ensures
        (option + rest).skip(option.len() as int) == rest,
        args::read_on(first + (option + rest), args::nothing_read()) == args::read_on(
            option + rest,
            reading(first),
        ),
{
    let all = option + rest;
    assert(all.skip(option.len() as int) =~= rest);
    assert(all[0] == option[0]);
    lemma_dash_is_no_number(all[0]);
    law_arguments_are_read_in_turn(first, all, args::nothing_read(), reading(first));
}

/// Whether arguments say only how much is shown: `--context-only`, or one of the limits
/// with the number `value`.
pub open spec fn is_about_showing(own: Seq<Seq<char>>, value: Seq<char>) -> bool {
    ||| own == seq!["--context-only"@]
    ||| text::to_number(value) is Some && {
        ||| own == seq!["--max-len="@ + value]
        ||| own == seq!["--max-len"@, value]
        ||| own == seq!["-l"@, value]
        ||| own == seq!["--max="@ + value]
        ||| own == seq!["--max"@, value]
        ||| own == seq!["-m"@, value]
    }
}

/// Whether two readings differ only in how much is shown.
pub open spec fn same_but_for_showing(a: args::Reading, b: args::Reading) -> bool {
    &&& a.terminated == b.terminated
    &&& a.pattern_given == b.pattern_given
    &&& a.forwarded == b.forwarded
    &&& a.positionals == b.positionals
}

/// What differs only in how much is shown still does once more is read.
proof fn lemma_showing_is_apart(list: Seq<Seq<char>>, a: args::Reading, b: args::Reading)
    requires
        same_but_for_showing(a, b),
    ensures
        match (args::read_on(list, a), args::read_on(list, b)) {
            (Ok(x), Ok(y)) => same_but_for_showing(x, y),
            (Err(e), Err(f)) => e == f,
            _ => false,
        },
    decreases list.len(),
{
    if list.len() > 0 {
        match args::meaning(list) {
            args::Meaning::EndOfOptions => {},
            args::Meaning::ContextOnly => {
                lemma_showing_is_apart(
                    list.drop_first(),
                    args::Reading { context_only: true, ..a },
                    args::Reading { context_only: true, ..b },
                );
            },
            args::Meaning::LineLimit { limit, used } => {
                lemma_showing_is_apart(
                    list.skip(used),
                    args::Reading { max_line_len: limit, ..a },
                    args::Reading { max_line_len: limit, ..b },
                );
            },
            args::Meaning::ResultLimit { limit, used } => {
                lemma_showing_is_apart(
                    list.skip(used),
                    args::Reading { max_results: limit, ..a },
                    args::Reading { max_results: limit, ..b },
                );
            },
            args::Meaning::Nothing => {
                lemma_showing_is_apart(list.drop_first(), a, b);
            },
            args::Meaning::Forwarded { args: more, pattern, used } => {
                lemma_showing_is_apart(
                    list.skip(used),
                    args::Reading {
                        pattern_given: a.pattern_given || pattern,
                        forwarded: a.forwarded + more,
                        ..a
                    },
                    args::Reading {
                        pattern_given: b.pattern_given || pattern,
                        forwarded: b.forwarded + more,
                        ..b
                    },
                );
            },
            args::Meaning::Positional => {
                lemma_showing_is_apart(
                    list.drop_first(),
                    args::Reading { positionals: a.positionals.push(list[0]), ..a },
                    args::Reading { positionals: b.positionals.push(list[0]), ..b },
                );
            },
            args::Meaning::Wrong(_) => {},
        }
    }
}

/// Behind complete arguments, what says how much is shown changes nothing else that is
/// read, nor whether the command line is right.
pub proof fn law_showing_is_read_apart(
    first: Seq<Seq<char>>,
    own: Seq<Seq<char>>,
    value: Seq<char>,
    rest: Seq<Seq<char>>,
)
    requires
        complete(first),
        stands_alone(first, rest),
        is_about_showing(own, value),
    ensures
        match (
            args::read_on(first + (own + rest), args::nothing_read()),
            args::read_on(first + rest, args::nothing_read()),
        ) {
            (Ok(x), Ok(y)) => same_but_for_showing(x, y),
            (Err(e), Err(f)) => e == f,
            _ => false,
        },
{
    let read = reading(first);
    law_arguments_are_read_in_turn(first, rest, args::nothing_read(), read);
    if own == seq!["--context-only"@] {
        reveal_strlit("--");
        reveal_strlit("--context-only");
        assert("--"@.len() == 2);
        assert((own + rest)[0] == "--context-only"@);
        lemma_read_dashed(first, own, rest);
        assert((own + rest).drop_first() =~= rest);
        lemma_showing_is_apart(rest, args::Reading { context_only: true, ..read }, read);
    } else {
        let limit = text::to_number(value)->0;
        lemma_limit_forms(value, rest);
        lemma_read_limits(first, value, rest);
        lemma_showing_is_apart(rest, args::Reading { max_line_len: limit, ..read }, read);
        lemma_showing_is_apart(rest, args::Reading { max_results: limit, ..read }, read);
    }
}

/// All that follows `--` is the pattern and paths, whatever it looks like; what
/// stands before it means what it means alone.
pub proof fn law_nothing_behind_terminator_is_an_option(
    first: Seq<Seq<char>>,
    operands: Seq<Seq<char>>,
)
    requires
        complete(first),
    ensures
        args::invocation(first + (seq!["--"@] + operands)) == args::invocation_of(
            args::Reading {
                terminated: true,
                positionals: reading(first).positionals + operands,
                ..reading(first)
            },
        ),
{
    reveal_strlit("--");
    let tail = seq!["--"@] + operands;
    lemma_dash_is_no_number(tail[0]);
    law_arguments_are_read_in_turn(first, tail, args::nothing_read(), reading(first));
    assert(tail.drop_first() =~= operands);
}

/// A search always has a path to search.
pub proof fn law_search_has_a_path(command_line: Seq<Seq<char>>)
    ensures
        args::invocation(command_line) matches Ok(args::InvocationView::Search(search))
            ==> search.paths.len() > 0,
{
}

/// Without options, the first argument is the pattern and the others are the paths; the
/// current directory is searched where there are none.
pub proof fn law_operands_alone(operands: Seq<Seq<char>>)
    requires
        operands.len() > 0,
        forall|i: int|
            0 <= i < operands.len() ==> !((#[trigger] operands[i]).len() > 0 && operands[i][0]
                == '-'),
    ensures
        args::invocation(operands) == Ok::<args::InvocationView, args::ArgErrorView>(
            args::InvocationView::Search(
                args::SearchView {
                    pattern: operands[0],
                    pattern_from_rg_args: false,
                    had_pattern_terminator: false,
                    paths: if operands.len() == 1 {
                        seq!["."@]
                    } else {
                        operands.subrange(1, operands.len() as int)
                    },
                    max_line_len: 80,
                    max_results: 200,
                    context_only: false,
                    rg_args: Seq::empty(),
                },
            ),
        ),
{
    lemma_operands_alone(operands, args::nothing_read());
    assert(args::nothing_read().positionals + operands =~= operands);
    assert(operands.drop_first() =~= operands.subrange(1, operands.len() as int));
}

/// Reading arguments that are no options.
proof fn lemma_operands_alone(operands: Seq<Seq<char>>, so_far: args::Reading)
    requires
        forall|i: int|
            0 <= i < operands.len() ==> !((#[trigger] operands[i]).len() > 0 && operands[i][0]
                == '-'),
    ensures
        args::read_on(operands, so_far) == Ok::<args::Reading, args::ArgErrorView>(
            args::Reading { positionals: so_far.positionals + operands, ..so_far },
        ),
    decreases operands.len(),
{
    if operands.len() == 0 {
        assert(so_far.positionals + operands =~= so_far.positionals);
    } else {
        let arg = operands[0];
        lemma_no_dash(arg);
        assert(args::meaning(operands) == args::Meaning::Positional);
        let rest = operands.drop_first();
        assert forall|i: int| 0 <= i < rest.len() implies !((#[trigger] rest[i]).len() > 0
            && rest[i][0] == '-') by {
            assert(rest[i] == operands[i + 1]);
        }
        lemma_operands_alone(
            rest,
            args::Reading { positionals: so_far.positionals.push(arg), ..so_far },
        );
        assert(so_far.positionals.push(arg) + rest =~= so_far.positionals + operands);
    }
}

/// A text that does not begin with a dash is none of the options.
pub proof fn lemma_no_dash(arg: Seq<char>)
    requires
        !(arg.len() > 0 && arg[0] == '-'),
    ensures
        forall|list: Seq<Seq<char>>|
            list.len() > 0 && list[0] == arg ==> #[trigger] args::meaning(list)
                == args::Meaning::Positional,
{
    reveal_strlit("--");
    reveal_strlit("--context-only");
    reveal_strlit("--max-len=");
    reveal_strlit("--max-len");
    reveal_strlit("--max=");
    reveal_strlit("--max");
    reveal_strlit("-l");
    reveal_strlit("-m");
    reveal_strlit("-n");
    reveal_strlit("--line-numbers");
    reveal_strlit("--type=");
    reveal_strlit("--file-type=");
    reveal_strlit("--glob=");
    reveal_strlit("--type-add=");
    reveal_strlit("-t");
    reveal_strlit("-g");
    reveal_strlit("--file-type");
    reveal_strlit("--regexp=");
    reveal_strlit("--file=");
    reveal_strlit("--type");
    reveal_strlit("--glob");
    reveal_strlit("--type-add");
    reveal_strlit("-A");
    reveal_strlit("--after-context");
    reveal_strlit("-B");
    reveal_strlit("--before-context");
    reveal_strlit("-C");
    reveal_strlit("--context");
    reveal_strlit("-e");
    reveal_strlit("--regexp");
    reveal_strlit("-f");
    reveal_strlit("--file");
    reveal_strlit("--encoding");
    reveal_strlit("--engine");
    reveal_strlit("--max-count");
    reveal_strlit("--max-depth");
    reveal_strlit("--path-separator");
    reveal_strlit("--sort");
    reveal_strlit("--sortr");
    reveal_strlit("--threads");
    reveal_strlit("-j");
    lemma_differ("--"@, arg, 0);
    lemma_differ("--context-only"@, arg, 0);
    lemma_differ("--max-len="@, arg, 0);
    lemma_differ("--max-len"@, arg, 0);
    lemma_differ("--max="@, arg, 0);
    lemma_differ("--max"@, arg, 0);
    lemma_differ("-l"@, arg, 0);
    lemma_differ("-m"@, arg, 0);
    lemma_differ("-n"@, arg, 0);
    lemma_differ("--line-numbers"@, arg, 0);
    lemma_differ("--type="@, arg, 0);
    lemma_differ("--file-type="@, arg, 0);
    lemma_differ("--glob="@, arg, 0);
    lemma_differ("--type-add="@, arg, 0);
    lemma_differ("-t"@, arg, 0);
    lemma_differ("-g"@, arg, 0);
    lemma_differ("--file-type"@, arg, 0);
    lemma_differ("--regexp="@, arg, 0);
    lemma_differ("--file="@, arg, 0);
    lemma_differ("--type"@, arg, 0);
    lemma_differ("--glob"@, arg, 0);
    lemma_differ("--type-add"@, arg, 0);
    lemma_differ("-A"@, arg, 0);
    lemma_differ("--after-context"@, arg, 0);
    lemma_differ("-B"@, arg, 0);
    lemma_differ("--before-context"@, arg, 0);
    lemma_differ("-C"@, arg, 0);
    lemma_differ("--context"@, arg, 0);
    lemma_differ("-e"@, arg, 0);
    lemma_differ("--regexp"@, arg, 0);
    lemma_differ("-f"@, arg, 0);
    lemma_differ("--file"@, arg, 0);
    lemma_differ("--encoding"@, arg, 0);
    lemma_differ("--engine"@, arg, 0);
    lemma_differ("--max-count"@, arg, 0);
    lemma_differ("--max-depth"@, arg, 0);
    lemma_differ("--path-separator"@, arg, 0);
    lemma_differ("--sort"@, arg, 0);
    lemma_differ("--sortr"@, arg, 0);
    lemma_differ("--threads"@, arg, 0);
    lemma_differ("-j"@, arg, 0);
}

/// Where options give the pattern, there is always something to call it by.
pub proof fn law_given_pattern_is_shown(command_line: Seq<Seq<char>>, read: args::Reading)
    requires
        args::read_on(command_line, args::nothing_read()) == Ok::<
            args::Reading,
            args::ArgErrorView,
        >(read),
        read.pattern_given,
    ensures
        args::pattern_in_options(read.forwarded) is Some,
{
    lemma_pattern_stays_shown(command_line, args::nothing_read(), read);
}

/// A pattern that is found stays found where more options follow.
proof fn lemma_pattern_before(options: Seq<Seq<char>>, more: Seq<Seq<char>>)
    requires
        args::pattern_in_options(options) is Some,
    ensures
        args::pattern_in_options(options + more) is Some,
    decreases options.len(),
{
    let all = options + more;
    assert(all[0] == options[0]);
    assert(options.len() > 1 ==> all[1] == options[1]);
    if args::pattern_in_options(options.drop_first()) is Some {
        lemma_pattern_before(options.drop_first(), more);
    }
    assert(all.drop_first() =~= options.drop_first() + more);
}

/// A pattern is found behind any options.
proof fn lemma_pattern_behind(options: Seq<Seq<char>>, more: Seq<Seq<char>>)
    requires
        args::pattern_in_options(more) is Some,
    ensures
        args::pattern_in_options(options + more) is Some,
    decreases options.len(),
{
    let all = options + more;
    if options.len() == 0 {
        assert(all =~= more);
    } else {
        assert(all[0] == options[0]);
        assert(all.len() > 1);
        assert(all.drop_first() =~= options.drop_first() + more);
        lemma_pattern_behind(options.drop_first(), more);
    }
}

/// An option that gives the pattern.
proof fn lemma_pattern_in_meaning(list: Seq<Seq<char>>)
    requires
        list.len() > 0,
        args::meaning(list) matches args::Meaning::Forwarded { pattern, .. } && pattern,
    ensures
        args::meaning(list) matches args::Meaning::Forwarded { args: more, .. }
            && args::pattern_in_options(more) is Some,
{
    reveal_strlit("--file=");
    reveal_strlit("-e");
    reveal_strlit("--regexp");
    let arg = list[0];
    if "--file="@.is_prefix_of(arg) {
        assert(arg.subrange(0, 7)[2] == arg[2]);
        assert("--file="@[2] == 'f');
        lemma_differ("--regexp"@, arg, 2);
        assert(arg.len() > "-e"@.len());
    }
}

/// Reading on keeps a given pattern shown.
proof fn lemma_pattern_stays_shown(
    list: Seq<Seq<char>>,
    so_far: args::Reading,
    read: args::Reading,
)
    requires
        args::read_on(list, so_far) == Ok::<args::Reading, args::ArgErrorView>(read),
        so_far.pattern_given ==> args::pattern_in_options(so_far.forwarded) is Some,
    ensures
        read.pattern_given ==> args::pattern_in_options(read.forwarded) is Some,
    decreases list.len(),
{
    if list.len() > 0 {
        match args::meaning(list) {
            args::Meaning::EndOfOptions => {},
            args::Meaning::ContextOnly => {
                lemma_pattern_stays_shown(
                    list.drop_first(),
                    args::Reading { context_only: true, ..so_far },
                    read,
                );
            },
            args::Meaning::LineLimit { limit, used } => {
                lemma_pattern_stays_shown(
                    list.skip(used),
                    args::Reading { max_line_len: limit, ..so_far },
                    read,
                );
            },
            args::Meaning::ResultLimit { limit, used } => {
                lemma_pattern_stays_shown(
                    list.skip(used),
                    args::Reading { max_results: limit, ..so_far },
                    read,
                );
            },
            args::Meaning::Nothing => {
                lemma_pattern_stays_shown(list.drop_first(), so_far, read);
            },
            args::Meaning::Forwarded { args: more, pattern, used } => {
                if pattern {
                    lemma_pattern_in_meaning(list);
                    lemma_pattern_behind(so_far.forwarded, more);
                } else if so_far.pattern_given {
                    lemma_pattern_before(so_far.forwarded, more);
                }
                lemma_pattern_stays_shown(
                    list.skip(used),
                    args::Reading {
                        pattern_given: so_far.pattern_given || pattern,
                        forwarded: so_far.forwarded + more,
                        ..so_far
                    },
                    read,
                );
            },
            args::Meaning::Positional => {
                lemma_pattern_stays_shown(
                    list.drop_first(),
                    args::Reading { positionals: so_far.positionals.push(list[0]), ..so_far },
                    read,
                );
            },
            args::Meaning::Wrong(_) => {},
        }
    }
}

} // verus!
