//! Laws of whole command lines: what is written is what is read.

use crate::args;
use crate::laws::command_line;
use crate::text;
use vstd::prelude::*;

verus! {

/// Something that a command line may say.
pub enum Item {
    /// A pattern or a path.
    Operand(Seq<char>),
    /// Show the surroundings of the pattern only.
    ContextOnly,
    /// Number the lines.
    LineNumbers,
    /// Show so much of a line.
    LineLimit(Seq<char>),
    /// Show so many matches.
    ResultLimit(Seq<char>),
    /// An option of the backend that ends with an equals sign, and its value.
    Joined(Seq<char>, Seq<char>),
    /// An option of the backend and, as the next argument, its value.
    Valued(Seq<char>, Seq<char>),
    /// An option of the backend without a value.
    Plain(Seq<char>),
}

/// How an item is written.
pub open spec fn written(item: Item) -> Seq<Seq<char>> {
    match item {
        Item::Operand(operand) => seq![operand],
        Item::ContextOnly => seq!["--context-only"@],
        Item::LineNumbers => seq!["-n"@],
        Item::LineLimit(value) => seq!["--max-len"@, value],
        Item::ResultLimit(value) => seq!["--max"@, value],
        Item::Joined(flag, value) => seq![flag + value],
        Item::Valued(flag, value) => seq![flag, value],
        Item::Plain(arg) => seq![arg],
    }
}

/// What the backend is given for an item.
pub open spec fn for_backend(item: Item) -> Seq<Seq<char>> {
    match item {
        Item::Joined(..) | Item::Valued(..) | Item::Plain(_) => written(item),
        _ => Seq::empty(),
    }
}

/// The operand that an item is, if it is one.
pub open spec fn as_operand(item: Item) -> Seq<Seq<char>> {
    match item {
        Item::Operand(operand) => seq![operand],
        _ => Seq::empty(),
    }
}

/// Whether an item gives a pattern, or a file of them.
pub open spec fn gives_pattern(item: Item) -> bool {
    match item {
        Item::Joined(flag, _) => flag == "--regexp="@ || flag == "--file="@,
        Item::Valued(flag, _) => flag == "-e"@ || flag == "--regexp"@ || flag == "-f"@ || flag
            == "--file"@,
        _ => false,
    }
}

/// The options with a value as the next argument.
pub open spec fn takes_a_value(flag: Seq<char>) -> bool {
    ||| is_short_with_value(flag)
    ||| is_long_with_value(flag)
}

/// The short ones of them.
pub open spec fn is_short_with_value(flag: Seq<char>) -> bool {
    ||| flag == "-t"@
    ||| flag == "-g"@
    ||| flag == "-A"@
    ||| flag == "-B"@
    ||| flag == "-C"@
    ||| flag == "-e"@
    ||| flag == "-f"@
    ||| flag == "-j"@
}

/// The long ones of them.
pub open spec fn is_long_with_value(flag: Seq<char>) -> bool {
    ||| flag == "--type"@
    ||| flag == "--glob"@
    ||| flag == "--type-add"@
    ||| flag == "--after-context"@
    ||| flag == "--before-context"@
    ||| flag == "--context"@
    ||| flag == "--regexp"@
    ||| flag == "--file"@
    ||| flag == "--encoding"@
    ||| flag == "--engine"@
    ||| flag == "--max-count"@
    ||| flag == "--max-depth"@
    ||| flag == "--path-separator"@
    ||| flag == "--sort"@
    ||| flag == "--sortr"@
    ||| flag == "--threads"@
}

/// Whether an argument is an option that is neither known here nor takes a value.
pub open spec fn is_plain_option(arg: Seq<char>) -> bool {
    &&& arg.len() > 0
    &&& arg[0] == '-'
    &&& !takes_a_value(arg)
    &&& arg != "--"@
    &&& arg != "--context-only"@
    &&& arg != "--max-len"@
    &&& arg != "--max"@
    &&& arg != "-n"@
    &&& arg != "--line-numbers"@
    &&& arg != "--file-type"@
    &&& !"--max-len="@.is_prefix_of(arg)
    &&& !"--max="@.is_prefix_of(arg)
    &&& !"--type="@.is_prefix_of(arg)
    &&& !"--file-type="@.is_prefix_of(arg)
    &&& !"--glob="@.is_prefix_of(arg)
    &&& !"--type-add="@.is_prefix_of(arg)
    &&& !"--regexp="@.is_prefix_of(arg)
    &&& !"--file="@.is_prefix_of(arg)
    &&& !"-t"@.is_prefix_of(arg)
    &&& !"-g"@.is_prefix_of(arg)
}

/// Whether an item can be written.
pub open spec fn can_be_written(item: Item) -> bool {
    match item {
        Item::Operand(operand) => operand.len() == 0 || operand[0] != '-',
        Item::ContextOnly | Item::LineNumbers => true,
        Item::LineLimit(value) | Item::ResultLimit(value) => text::to_number(value) is Some,
        Item::Joined(flag, _) => flag == "--type="@ || flag == "--glob="@ || flag
            == "--type-add="@ || flag == "--regexp="@ || flag == "--file="@,
        Item::Valued(flag, _) => takes_a_value(flag),
        Item::Plain(arg) => is_plain_option(arg),
    }
}

/// Whether an item may stand before another: `-l` and `-m` take a number for a limit.
pub open spec fn may_stand_before(item: Item, next: Item) -> bool {
    match (item, next) {
        (Item::Plain(arg), Item::Operand(operand)) => arg != "-l"@ && arg != "-m"@
            || text::to_number(operand) is None,
        _ => true,
    }
}

/// Whether items can be written, one behind the other.
pub open spec fn all_can_be_written(items: Seq<Item>) -> bool {
    &&& forall|i: int| 0 <= i < items.len() ==> can_be_written(#[trigger] items[i])
    &&& forall|i: int, j: int|
        0 <= i && j == i + 1 && j < items.len() ==> may_stand_before(
            #[trigger] items[i],
            #[trigger] items[j],
        )
}

/// How items are written.
pub open spec fn all_written(items: Seq<Item>) -> Seq<Seq<char>> {
    items.map_values(|item: Item| written(item)).flatten()
}

/// What the backend is given for items.
pub open spec fn all_for_backend(items: Seq<Item>) -> Seq<Seq<char>> {
    items.map_values(|item: Item| for_backend(item)).flatten()
}

/// The operands among items.
pub open spec fn all_operands(items: Seq<Item>) -> Seq<Seq<char>> {
    items.map_values(|item: Item| as_operand(item)).flatten()
}

/// Whether a pattern is given.
pub open spec fn pattern_is_given(items: Seq<Item>) -> bool {
    exists|i: int| 0 <= i < items.len() && gives_pattern(#[trigger] items[i])
}

/// Whether the surroundings of the pattern are asked for.
pub open spec fn context_is_asked_for(items: Seq<Item>) -> bool {
    exists|i: int| 0 <= i < items.len() && (#[trigger] items[i]) is ContextOnly
}

/// The last limit on lines, or else `otherwise`.
pub open spec fn line_limit(items: Seq<Item>, otherwise: usize) -> usize
    decreases items.len(),
{
    if items.len() == 0 {
        otherwise
    } else {
        match items.last() {
            Item::LineLimit(value) => text::to_number(value)->0,
            _ => line_limit(items.drop_last(), otherwise),
        }
    }
}

/// The last limit on matches, or else `otherwise`.
pub open spec fn result_limit(items: Seq<Item>, otherwise: usize) -> usize
    decreases items.len(),
{
    if items.len() == 0 {
        otherwise
    } else {
        match items.last() {
            Item::ResultLimit(value) => text::to_number(value)->0,
            _ => result_limit(items.drop_last(), otherwise),
        }
    }
}

/// What is read once items are read too.
spec fn read_with(items: Seq<Item>, so_far: args::Reading) -> args::Reading {
    args::Reading {
        terminated: so_far.terminated,
        context_only: so_far.context_only || context_is_asked_for(items),
        max_line_len: line_limit(items, so_far.max_line_len),
        max_results: result_limit(items, so_far.max_results),
        pattern_given: so_far.pattern_given || pattern_is_given(items),
        forwarded: so_far.forwarded + all_for_backend(items),
        positionals: so_far.positionals + all_operands(items),
    }
}

/// The limits that items set, from the first item on.
proof fn lemma_limits_from_the_first(items: Seq<Item>, otherwise: usize)
    requires
        items.len() > 0,
    ensures
        line_limit(items, otherwise) == line_limit(
            items.drop_first(),
            line_limit(seq![items[0]], otherwise),
        ),
        result_limit(items, otherwise) == result_limit(
            items.drop_first(),
            result_limit(seq![items[0]], otherwise),
        ),
    decreases items.len(),
{
    if items.len() == 1 {
        assert(items =~= seq![items[0]]);
    } else {
        lemma_limits_from_the_first(items.drop_last(), otherwise);
        assert(items.drop_last().drop_first() =~= items.drop_first().drop_last());
        assert(items.drop_first().last() == items.last());
        assert(items.drop_last()[0] == items[0]);
    }
}

/// Items from the first on: what is read of one and then of the others.
proof fn lemma_read_from_the_first(items: Seq<Item>, so_far: args::Reading)
    requires
        items.len() > 0,
    ensures
        read_with(items, so_far) == read_with(
            items.drop_first(),
            read_with(seq![items[0]], so_far),
        ),
        all_written(items) == written(items[0]) + all_written(items.drop_first()),
{
    let first = seq![items[0]];
    let rest = items.drop_first();
    lemma_limits_from_the_first(items, so_far.max_line_len);
    lemma_limits_from_the_first(items, so_far.max_results);
    lemma_flat_first(
        items.map_values(|item: Item| written(item)),
        rest.map_values(|item: Item| written(item)),
    );
    lemma_flat_first(
        items.map_values(|item: Item| for_backend(item)),
        rest.map_values(|item: Item| for_backend(item)),
    );
    lemma_flat_first(
        items.map_values(|item: Item| as_operand(item)),
        rest.map_values(|item: Item| as_operand(item)),
    );
    lemma_one_item(items[0]);
    if pattern_is_given(items) {
        let i = choose|i: int| 0 <= i < items.len() && gives_pattern(#[trigger] items[i]);
        if i > 0 {
            assert(gives_pattern(rest[i - 1]));
        }
    }
    if pattern_is_given(rest) {
        let i = choose|i: int| 0 <= i < rest.len() && gives_pattern(#[trigger] rest[i]);
        assert(gives_pattern(items[i + 1]));
    }
    if context_is_asked_for(items) {
        let i = choose|i: int| 0 <= i < items.len() && (#[trigger] items[i]) is ContextOnly;
        if i > 0 {
            assert(rest[i - 1] is ContextOnly);
        }
    }
    if context_is_asked_for(rest) {
        let i = choose|i: int| 0 <= i < rest.len() && (#[trigger] rest[i]) is ContextOnly;
        assert(items[i + 1] is ContextOnly);
    }
    assert(read_with(items, so_far) =~= read_with(rest, read_with(first, so_far)));
}

/// What one item says.
proof fn lemma_one_item(item: Item)
    ensures
        all_for_backend(seq![item]) == for_backend(item),
        all_operands(seq![item]) == as_operand(item),
        pattern_is_given(seq![item]) == gives_pattern(item),
        context_is_asked_for(seq![item]) == (item is ContextOnly),
{
    let items = seq![item];
    assert(items[0] == item);
    lemma_flat_first(
        items.map_values(|item: Item| for_backend(item)),
        Seq::empty(),
    );
    lemma_flat_first(
        items.map_values(|item: Item| as_operand(item)),
        Seq::empty(),
    );
    assert(all_for_backend(items) =~= for_backend(item));
    assert(all_operands(items) =~= as_operand(item));
}

/// Lists, one behind the other, from the first on.
proof fn lemma_flat_first(lists: Seq<Seq<Seq<char>>>, rest: Seq<Seq<Seq<char>>>)
    requires
        lists.len() > 0,
        rest =~= lists.drop_first(),
    ensures
        lists.flatten() == lists[0] + rest.flatten(),
        Seq::<Seq<Seq<char>>>::empty().flatten() == Seq::<Seq<char>>::empty(),
{
}

/// A text and an option that begins otherwise at the third character.
proof fn lemma_third_character(flag: Seq<char>)
    requires
        flag.len() > 2,
    ensures
        flag[2] != 'c' ==> flag != "--context-only"@,
        flag[2] != 'm' ==> !"--max-len="@.is_prefix_of(flag) && flag != "--max-len"@
            && !"--max="@.is_prefix_of(flag) && flag != "--max"@,
        flag[2] != 'l' ==> flag != "--line-numbers"@,
        flag[2] != 't' ==> !"--type="@.is_prefix_of(flag) && !"--type-add="@.is_prefix_of(flag),
        flag[2] != 'f' ==> !"--file-type="@.is_prefix_of(flag) && flag != "--file-type"@
            && !"--file="@.is_prefix_of(flag),
        flag[2] != 'g' ==> !"--glob="@.is_prefix_of(flag),
        flag[2] != 'r' ==> !"--regexp="@.is_prefix_of(flag),
{
    reveal_strlit("--context-only");
    reveal_strlit("--max-len=");
    reveal_strlit("--max-len");
    reveal_strlit("--max=");
    reveal_strlit("--max");
    reveal_strlit("--line-numbers");
    reveal_strlit("--type=");
    reveal_strlit("--type-add=");
    reveal_strlit("--file-type=");
    reveal_strlit("--file-type");
    reveal_strlit("--file=");
    reveal_strlit("--glob=");
    reveal_strlit("--regexp=");
    if flag[2] != 'c' {
        command_line::lemma_differ("--context-only"@, flag, 2);
    }
    if flag[2] != 'm' {
        command_line::lemma_differ("--max-len="@, flag, 2);
        command_line::lemma_differ("--max-len"@, flag, 2);
        command_line::lemma_differ("--max="@, flag, 2);
        command_line::lemma_differ("--max"@, flag, 2);
    }
    if flag[2] != 'l' {
        command_line::lemma_differ("--line-numbers"@, flag, 2);
    }
    if flag[2] != 't' {
        command_line::lemma_differ("--type="@, flag, 2);
        command_line::lemma_differ("--type-add="@, flag, 2);
    }
    if flag[2] != 'f' {
        command_line::lemma_differ("--file-type="@, flag, 2);
        command_line::lemma_differ("--file-type"@, flag, 2);
        command_line::lemma_differ("--file="@, flag, 2);
    }
    if flag[2] != 'g' {
        command_line::lemma_differ("--glob="@, flag, 2);
    }
    if flag[2] != 'r' {
        command_line::lemma_differ("--regexp="@, flag, 2);
    }
}

/// Whether an argument is none of the options that are looked for before those with a
/// value as the next argument.
spec fn is_no_other(flag: Seq<char>) -> bool {
    &&& flag.len() > 1
    &&& flag[0] == '-'
    &&& flag != "--"@
    &&& flag != "--context-only"@
    &&& !"--max-len="@.is_prefix_of(flag)
    &&& flag != "--max-len"@
    &&& !"--max="@.is_prefix_of(flag)
    &&& flag != "--max"@
    &&& flag != "-l"@
    &&& flag != "-m"@
    &&& flag != "-n"@
    &&& flag != "--line-numbers"@
    &&& !"--type="@.is_prefix_of(flag)
    &&& !"--file-type="@.is_prefix_of(flag)
    &&& !"--glob="@.is_prefix_of(flag)
    &&& !"--type-add="@.is_prefix_of(flag)
    &&& args::attached_value(flag, "-t"@) is None
    &&& args::attached_value(flag, "-g"@) is None
    &&& flag != "--file-type"@
    &&& !"--regexp="@.is_prefix_of(flag)
    &&& !"--file="@.is_prefix_of(flag)
}

/// A short option is none of the long ones.
proof fn lemma_short_is_no_other(flag: Seq<char>)
    requires
        is_short_with_value(flag),
    ensures
        is_no_other(flag),
{
    reveal_strlit("-t");
    reveal_strlit("-g");
    reveal_strlit("-A");
    reveal_strlit("-B");
    reveal_strlit("-C");
    reveal_strlit("-e");
    reveal_strlit("-f");
    reveal_strlit("-j");
    reveal_strlit("--");
    reveal_strlit("-l");
    reveal_strlit("-m");
    reveal_strlit("-n");
    reveal_strlit("--context-only");
    reveal_strlit("--max-len=");
    reveal_strlit("--max-len");
    reveal_strlit("--max=");
    reveal_strlit("--max");
    reveal_strlit("--line-numbers");
    reveal_strlit("--type=");
    reveal_strlit("--type-add=");
    reveal_strlit("--file-type=");
    reveal_strlit("--file-type");
    reveal_strlit("--file=");
    reveal_strlit("--glob=");
    reveal_strlit("--regexp=");
    assert(flag.len() == 2);
    assert(flag[1] != '-' && flag[1] != 'l' && flag[1] != 'm' && flag[1] != 'n');
    assert("--"@[1] == '-' && "-l"@[1] == 'l' && "-m"@[1] == 'm' && "-n"@[1] == 'n');
    command_line::lemma_differ("--max-len="@, flag, 2);
    command_line::lemma_differ("--max="@, flag, 2);
    command_line::lemma_differ("--type="@, flag, 2);
    command_line::lemma_differ("--type-add="@, flag, 2);
    command_line::lemma_differ("--file-type="@, flag, 2);
    command_line::lemma_differ("--file="@, flag, 2);
    command_line::lemma_differ("--glob="@, flag, 2);
    command_line::lemma_differ("--regexp="@, flag, 2);
    assert(flag.skip(2).len() == 0);
}

/// A long option with a value is none of the others.
#[verifier::spinoff_prover]
proof fn lemma_long_is_no_other(flag: Seq<char>)
    requires
        is_long_with_value(flag),
    ensures
        is_no_other(flag),
{
    reveal_strlit("--type");
    reveal_strlit("--glob");
    reveal_strlit("--type-add");
    reveal_strlit("--after-context");
    reveal_strlit("--before-context");
    reveal_strlit("--context");
    reveal_strlit("--regexp");
    reveal_strlit("--file");
    reveal_strlit("--encoding");
    reveal_strlit("--engine");
    reveal_strlit("--max-count");
    reveal_strlit("--max-depth");
    reveal_strlit("--path-separator");
    reveal_strlit("--sort");
    reveal_strlit("--sortr");
    reveal_strlit("--threads");
    reveal_strlit("--");
    reveal_strlit("-l");
    reveal_strlit("-m");
    reveal_strlit("-n");
    reveal_strlit("-t");
    reveal_strlit("-g");
    assert(flag.len() > 2 && flag[0] == '-' && flag[1] == '-');
    lemma_third_character(flag);
    command_line::lemma_differ("-t"@, flag, 1);
    command_line::lemma_differ("-g"@, flag, 1);
    reveal_strlit("--context-only");
    reveal_strlit("--max-len=");
    reveal_strlit("--max-len");
    reveal_strlit("--max=");
    reveal_strlit("--max");
    reveal_strlit("--type=");
    reveal_strlit("--type-add=");
    reveal_strlit("--file-type=");
    reveal_strlit("--file-type");
    reveal_strlit("--file=");
    reveal_strlit("--glob=");
    reveal_strlit("--regexp=");
    if flag == "--type"@ || flag == "--type-add"@ {
        command_line::lemma_differ("--type="@, flag, 6);
        command_line::lemma_differ("--type-add="@, flag, if flag == "--type"@ {
            6
        } else {
            10
        });
    } else if flag == "--threads"@ {
        command_line::lemma_differ("--type="@, flag, 3);
        command_line::lemma_differ("--type-add="@, flag, 3);
    } else if flag == "--glob"@ {
        command_line::lemma_differ("--glob="@, flag, 6);
    } else if flag == "--context"@ {
        command_line::lemma_differ("--context-only"@, flag, 9);
    } else if flag == "--regexp"@ {
        command_line::lemma_differ("--regexp="@, flag, 8);
    } else if flag == "--file"@ {
        command_line::lemma_differ("--file-type="@, flag, 6);
        command_line::lemma_differ("--file-type"@, flag, 6);
        command_line::lemma_differ("--file="@, flag, 6);
    } else if flag == "--max-count"@ || flag == "--max-depth"@ {
        command_line::lemma_differ("--max-len="@, flag, 6);
        command_line::lemma_differ("--max-len"@, flag, 6);
        command_line::lemma_differ("--max="@, flag, 5);
        assert("--max"@.len() < flag.len());
    }
}

/// The meaning of an option with a value as the next argument.
proof fn lemma_valued(flag: Seq<char>, value: Seq<char>, rest: Seq<Seq<char>>)
    requires
        takes_a_value(flag),
    ensures
        args::meaning(seq![flag, value] + rest) == (args::Meaning::Forwarded {
            args: seq![flag, value],
            pattern: gives_pattern(Item::Valued(flag, value)),
            used: 2,
        }),
        args::meaning(seq![flag]) == args::Meaning::Wrong(args::ArgErrorView::MissingValue(flag)),
{
    if is_short_with_value(flag) {
        lemma_short_is_no_other(flag);
    } else {
        lemma_long_is_no_other(flag);
    }
    let all = seq![flag, value] + rest;
    assert(all[0] == flag && all[1] == value);
}

/// The meaning of an option that ends with an equals sign.
proof fn lemma_joined(flag: Seq<char>, value: Seq<char>, rest: Seq<Seq<char>>)
    requires
        can_be_written(Item::Joined(flag, value)),
    ensures
        args::meaning(seq![flag + value] + rest) == (args::Meaning::Forwarded {
            args: seq![flag + value],
            pattern: gives_pattern(Item::Joined(flag, value)),
            used: 1,
        }),
{
    reveal_strlit("--");
    reveal_strlit("-l");
    reveal_strlit("-m");
    reveal_strlit("-n");
    reveal_strlit("-t");
    reveal_strlit("-g");
    reveal_strlit("--type=");
    reveal_strlit("--type-add=");
    reveal_strlit("--file-type=");
    reveal_strlit("--file-type");
    reveal_strlit("--file=");
    reveal_strlit("--glob=");
    reveal_strlit("--regexp=");
    let arg = flag + value;
    assert(arg.subrange(0, flag.len() as int) =~= flag);
    assert(flag.is_prefix_of(arg));
    assert(arg.len() > 2 && arg[0] == '-' && arg[1] == '-');
    assert(arg[2] == flag[2]);
    lemma_third_character(arg);
    command_line::lemma_differ("-t"@, arg, 1);
    command_line::lemma_differ("-g"@, arg, 1);
    if flag == "--type-add="@ {
        command_line::lemma_differ("--type="@, arg, 6);
    }
    if flag == "--file="@ {
        command_line::lemma_differ("--file-type="@, arg, 6);
        command_line::lemma_differ("--file-type"@, arg, 6);
    }
    let all = seq![arg] + rest;
    assert(all[0] == arg);
}

/// An item is read as what it says, whatever follows it.
proof fn lemma_read_item(item: Item, rest: Seq<Seq<char>>, so_far: args::Reading)
    requires
        can_be_written(item),
        item == Item::Plain("-l"@) || item == Item::Plain("-m"@) ==> rest.len() == 0
            || text::to_number(rest[0]) is None,
    ensures
        args::read_on(written(item) + rest, so_far) == args::read_on(
            rest,
            read_with(seq![item], so_far),
        ),
{
    let all = written(item) + rest;
    let after = read_with(seq![item], so_far);
    let none = Seq::<Seq<char>>::empty();
    lemma_one_item(item);
    reveal_with_fuel(line_limit, 2);
    reveal_with_fuel(result_limit, 2);
    assert(seq![item].drop_last() =~= Seq::empty());
    assert(seq![item].last() == item);
    assert(so_far.forwarded + none =~= so_far.forwarded);
    assert(so_far.positionals + none =~= so_far.positionals);
    assert(written(item).len() == 1 ==> all.drop_first() =~= rest && all.skip(1) =~= rest);
    assert(written(item).len() == 2 ==> all.skip(2) =~= rest);
    assert(all[0] == written(item)[0]);
    match item {
        Item::Operand(operand) => {
            command_line::lemma_no_dash(operand);
            assert(args::meaning(all) == args::Meaning::Positional);
            assert(after =~= args::Reading {
                positionals: so_far.positionals.push(operand),
                ..so_far
            });
        },
        Item::ContextOnly => {
            reveal_strlit("--");
            reveal_strlit("--context-only");
            assert("--"@.len() == 2);
            assert(after =~= args::Reading { context_only: true, ..so_far });
        },
        Item::LineNumbers => {
            command_line::lemma_line_numbers(rest);
            assert(after =~= so_far);
        },
        Item::LineLimit(value) => {
            command_line::lemma_limit_forms(value, rest);
            assert(after =~= args::Reading {
                max_line_len: text::to_number(value)->0,
                ..so_far
            });
        },
        Item::ResultLimit(value) => {
            command_line::lemma_limit_forms(value, rest);
            assert(after =~= args::Reading { max_results: text::to_number(value)->0, ..so_far });
        },
        Item::Joined(flag, value) => {
            lemma_joined(flag, value, rest);
        },
        Item::Valued(flag, value) => {
            lemma_valued(flag, value, rest);
        },
        Item::Plain(arg) => {
            assert(args::attached_value(arg, "-t"@) is None);
            assert(args::attached_value(arg, "-g"@) is None);
            assert(all.len() > 1 ==> all[1] == rest[0]);
            assert(args::meaning(all) == args::forwarded_alone(seq![arg], false));
        },
    }
    if item is Joined || item is Valued || item is Plain {
        assert(after =~= args::Reading {
            pattern_given: so_far.pattern_given || gives_pattern(item),
            forwarded: so_far.forwarded + for_backend(item),
            ..so_far
        });
    }
}

/// The first argument of an item is no number, but for an operand.
proof fn lemma_first_is_no_number(item: Item)
    requires
        can_be_written(item),
    ensures
        written(item).len() > 0,
        !(item is Operand) ==> text::to_number(written(item)[0]) is None,
{
    reveal_strlit("--context-only");
    reveal_strlit("-n");
    reveal_strlit("--max-len");
    reveal_strlit("--max");
    reveal_strlit("--type=");
    reveal_strlit("--type-add=");
    reveal_strlit("--file=");
    reveal_strlit("--glob=");
    reveal_strlit("--regexp=");
    match item {
        Item::Valued(flag, _) => {
            lemma_with_value_begins_with_a_dash(flag);
            command_line::lemma_dash_is_no_number(flag);
        },
        Item::Operand(_) => {},
        _ => {
            command_line::lemma_dash_is_no_number(written(item)[0]);
        },
    }
}

/// An option with a value begins with a dash.
proof fn lemma_with_value_begins_with_a_dash(flag: Seq<char>)
    requires
        takes_a_value(flag),
    ensures
        flag.len() > 0,
        flag[0] == '-',
{
    if is_short_with_value(flag) {
        lemma_short_is_no_other(flag);
    } else {
        lemma_long_is_no_other(flag);
    }
}

/// Items are read as what they say, one after the other.
proof fn lemma_read_items(items: Seq<Item>, rest: Seq<Seq<char>>, so_far: args::Reading)
    requires
        all_can_be_written(items),
        rest.len() == 0 || text::to_number(rest[0]) is None,
    ensures
        args::read_on(all_written(items) + rest, so_far) == args::read_on(
            rest,
            read_with(items, so_far),
        ),
    decreases items.len(),
{
    if items.len() == 0 {
        let none = Seq::<Seq<char>>::empty();
        assert(all_written(items) =~= none);
        assert(all_written(items) + rest =~= rest);
        assert(all_for_backend(items) =~= none);
        assert(all_operands(items) =~= none);
        assert(read_with(items, so_far) =~= so_far);
    } else {
        let first = items[0];
        let others = items.drop_first();
        assert forall|i: int| 0 <= i < others.len() implies can_be_written(#[trigger] others[i]) by {
            assert(can_be_written(items[i + 1]));
        }
        assert forall|i: int, j: int|
            0 <= i && j == i + 1 && j < others.len() implies may_stand_before(
            #[trigger] others[i],
            #[trigger] others[j],
        ) by {
            assert(may_stand_before(items[i + 1], items[j + 1]));
        }
        let behind = all_written(others) + rest;
        lemma_read_from_the_first(items, so_far);
        assert(all_written(items) + rest =~= written(first) + behind);
        if others.len() > 0 {
            lemma_first_is_no_number(others[0]);
            lemma_read_from_the_first(others, so_far);
            assert(may_stand_before(items[0], items[1]));
            assert(behind[0] == written(others[0])[0]);
        } else {
            assert(all_written(others) =~= Seq::empty());
            assert(behind =~= rest);
        }
        lemma_read_item(first, behind, so_far);
        lemma_read_items(others, rest, read_with(seq![first], so_far));
    }
}

/// The arguments behind the options, where something ends them.
pub open spec fn ending(terminated: bool, more: Seq<Seq<char>>) -> Seq<Seq<char>> {
    if terminated {
        seq!["--"@] + more
    } else {
        Seq::empty()
    }
}

/// Whether ripgrep searches for nothing.
pub open spec fn asks_for_no_search(list: Seq<Seq<char>>) -> bool {
    ||| list.contains("--type-list"@)
    ||| list.contains("--files"@)
    ||| list.contains("--help"@)
    ||| list.contains("-h"@)
    ||| list.contains("--version"@)
    ||| list.contains("-V"@)
}

/// A command line is read as what it says. The options for the backend are handed on in
/// their order. The operands, with all that follows `--`, are the pattern and the
/// paths, or, where options give the pattern, the paths alone; without a path the
/// current directory is searched. The last limits hold, or else 80 characters of a line
/// and 200 matches. Options with which ripgrep searches for nothing make it a call that
/// is left alone; and otherwise, without a pattern, there is nothing to search for.
pub proof fn law_command_line_is_read_as_it_is_written(
    items: Seq<Item>,
    terminated: bool,
    more: Seq<Seq<char>>,
)
    requires
        all_can_be_written(items),
        more.len() > 0 ==> terminated,
    ensures
        ({
            let options = all_for_backend(items);
            let operands = all_operands(items) + more;
            let given = pattern_is_given(items);
            let paths = if given {
                operands
            } else {
                operands.drop_first()
            };
            let asked = args::invocation(all_written(items) + ending(terminated, more));
            if asks_for_no_search(options) {
                asked == Ok::<args::InvocationView, args::ArgErrorView>(
                    args::InvocationView::RgPassthrough(
                        if terminated {
                            options + seq!["--"@] + operands
                        } else {
                            options + operands
                        },
                    ),
                )
            } else if !given && operands.len() == 0 {
                asked == Err::<args::InvocationView, args::ArgErrorView>(
                    args::ArgErrorView::MissingPattern,
                )
            } else {
                asked matches Ok(args::InvocationView::Search(search)) && {
                    &&& given ==> args::pattern_in_options(options) == Some(search.pattern)
                    &&& !given ==> search.pattern == operands[0]
                    &&& search.paths == if paths.len() == 0 {
                        seq!["."@]
                    } else {
                        paths
                    }
                    &&& search.rg_args == options
                    &&& search.pattern_from_rg_args == given
                    &&& search.had_pattern_terminator == terminated
                    &&& search.max_line_len == line_limit(items, 80)
                    &&& search.max_results == result_limit(items, 200)
                    &&& search.context_only == context_is_asked_for(items)
                }
            }
        }),
{
    reveal_strlit("--");
    let start = args::nothing_read();
    let tail = ending(terminated, more);
    let options = all_for_backend(items);
    let operands = all_operands(items) + more;
    if terminated {
        assert(tail[0] == "--"@);
        command_line::lemma_dash_is_no_number(tail[0]);
        assert(tail.drop_first() =~= more);
    } else {
        assert(more =~= Seq::empty());
        assert(operands =~= all_operands(items));
    }
    lemma_read_items(items, tail, start);
    let read = args::Reading {
        terminated,
        positionals: operands,
        ..read_with(items, start)
    };
    assert(read_with(items, start).forwarded =~= options);
    assert(read_with(items, start).positionals =~= all_operands(items));
    assert(args::read_on(all_written(items) + tail, start) == Ok::<
        args::Reading,
        args::ArgErrorView,
    >(read)) by {
        if terminated {
            assert(args::meaning(tail) == args::Meaning::EndOfOptions);
        } else {
            assert(read =~= read_with(items, start));
        }
    }
    lemma_no_search(options);
    if pattern_is_given(items) {
        command_line::law_given_pattern_is_shown(all_written(items) + tail, read);
    }
    assert(options + Seq::<Seq<char>>::empty() =~= options);
}

/// Whether ripgrep searches for nothing is told by its options.
proof fn lemma_no_search(list: Seq<Seq<char>>)
    ensures
        args::searches_for_nothing(list) == asks_for_no_search(list),
{
    if args::searches_for_nothing(list) {
        let i = choose|i: int| 0 <= i < list.len() && args::needs_no_pattern(#[trigger] list[i]);
        assert(list.contains(list[i]));
    }
}

/// An option that stands last, without the value that it takes, is a mistake, and so is
/// a limit that is not a number.
pub proof fn law_mistakes_are_reported(
    items: Seq<Item>,
    flag: Seq<char>,
    value: Seq<char>,
    rest: Seq<Seq<char>>,
)
    requires
        all_can_be_written(items),
    ensures
        takes_a_value(flag) || flag == "--max-len"@ || flag == "--max"@ || flag == "--file-type"@
            ==> args::invocation(all_written(items) + seq![flag]) == Err::<
            args::InvocationView,
            args::ArgErrorView,
        >(args::ArgErrorView::MissingValue(flag)),
        text::to_number(value) is None && (flag == "--max-len"@ || flag == "--max"@)
            ==> args::invocation(all_written(items) + (seq![flag, value] + rest)) == Err::<
            args::InvocationView,
            args::ArgErrorView,
        >(args::ArgErrorView::NotANumber { flag, cause: text::number_fault(value) }),
{
    reveal_strlit("--max-len");
    reveal_strlit("--max");
    reveal_strlit("--file-type");
    let start = args::nothing_read();
    let read = read_with(items, start);
    let alone = seq![flag];
    let both = seq![flag, value] + rest;
    assert(both[0] == flag);
    if takes_a_value(flag) {
        lemma_with_value_begins_with_a_dash(flag);
        command_line::lemma_dash_is_no_number(flag);
        lemma_valued(flag, value, rest);
        lemma_read_items(items, alone, start);
    }
    if flag == "--max-len"@ || flag == "--max"@ || flag == "--file-type"@ {
        command_line::lemma_dash_is_no_number(flag);
        lemma_read_items(items, alone, start);
        lemma_read_items(items, both, start);
        command_line::lemma_limit_forms(value, rest);
        command_line::lemma_own_flags_need_values();
    }
}

/// The pattern that options give is called by the first of them that gives one: by the
/// pattern itself, or by the file that holds it.
pub proof fn law_first_given_pattern_is_shown(
    before: Seq<Seq<char>>,
    value: Seq<char>,
    rest: Seq<Seq<char>>,
)
    requires
        forall|i: int|
            0 <= i < before.len() ==> {
                &&& (#[trigger] before[i]) != "-e"@
                &&& before[i] != "--regexp"@
                &&& before[i] != "-f"@
                &&& before[i] != "--file"@
                &&& !"--regexp="@.is_prefix_of(before[i])
                &&& !"--file="@.is_prefix_of(before[i])
            },
    ensures
        args::pattern_in_options(before + (seq!["-e"@, value] + rest)) == Some(value),
        args::pattern_in_options(before + (seq!["--regexp"@, value] + rest)) == Some(value),
        args::pattern_in_options(before + (seq!["--regexp="@ + value] + rest)) == Some(value),
        args::pattern_in_options(before + (seq!["-f"@, value] + rest)) == Some(
            "patterns from "@ + value,
        ),
        args::pattern_in_options(before + (seq!["--file"@, value] + rest)) == Some(
            "patterns from "@ + value,
        ),
        args::pattern_in_options(before + (seq!["--file="@ + value] + rest)) == Some(
            "patterns from "@ + value,
        ),
        args::pattern_in_options(before) is None,
{
    lemma_no_pattern_before(before, seq!["-e"@, value] + rest);
    lemma_no_pattern_before(before, seq!["--regexp"@, value] + rest);
    lemma_no_pattern_before(before, seq!["--regexp="@ + value] + rest);
    lemma_no_pattern_before(before, seq!["-f"@, value] + rest);
    lemma_no_pattern_before(before, seq!["--file"@, value] + rest);
    lemma_no_pattern_before(before, seq!["--file="@ + value] + rest);
    lemma_no_pattern_before(before, Seq::empty());
    assert(before + Seq::<Seq<char>>::empty() =~= before);
    reveal_strlit("-e");
    reveal_strlit("-f");
    reveal_strlit("--regexp");
    reveal_strlit("--regexp=");
    reveal_strlit("--file");
    reveal_strlit("--file=");
    let a = "--regexp="@ + value;
    let b = "--file="@ + value;
    assert(a.subrange(0, 9) =~= "--regexp="@);
    assert(a.skip(9) =~= value);
    assert(b.subrange(0, 7) =~= "--file="@);
    assert(b.skip(7) =~= value);
    assert((seq![a] + rest)[0] == a);
    assert((seq![b] + rest)[0] == b);
    command_line::lemma_differ("--regexp="@, b, 2);
    command_line::lemma_differ("--regexp"@, b, 2);
    command_line::lemma_differ("--regexp="@, "-e"@, 2);
    command_line::lemma_differ("--regexp="@, "--regexp"@, 8);
    command_line::lemma_differ("--regexp="@, "-f"@, 2);
    command_line::lemma_differ("--regexp="@, "--file"@, 2);
    command_line::lemma_differ("--regexp"@, "--file"@, 2);
    command_line::lemma_differ("--file="@, "-f"@, 2);
    command_line::lemma_differ("--file="@, "--file"@, 6);
    command_line::lemma_differ("-e"@, "-f"@, 1);
    assert((seq!["-e"@, value] + rest)[0] == "-e"@ && (seq!["-e"@, value] + rest)[1] == value);
    assert((seq!["-f"@, value] + rest)[0] == "-f"@ && (seq!["-f"@, value] + rest)[1] == value);
    let c = seq!["--regexp"@, value] + rest;
    let d = seq!["--file"@, value] + rest;
    assert(c[0] == "--regexp"@ && c[1] == value);
    assert(d[0] == "--file"@ && d[1] == value);
}

/// Options that give no pattern are passed over.
proof fn lemma_no_pattern_before(before: Seq<Seq<char>>, rest: Seq<Seq<char>>)
    requires
        forall|i: int|
            0 <= i < before.len() ==> {
                &&& (#[trigger] before[i]) != "-e"@
                &&& before[i] != "--regexp"@
                &&& before[i] != "-f"@
                &&& before[i] != "--file"@
                &&& !"--regexp="@.is_prefix_of(before[i])
                &&& !"--file="@.is_prefix_of(before[i])
            },
    ensures
        args::pattern_in_options(before + rest) == args::pattern_in_options(rest),
    decreases before.len(),
{
    if before.len() == 0 {
        assert(before + rest =~= rest);
    } else {
        let others = before.drop_first();
        assert(before[0] != "-e"@);
        assert forall|i: int| 0 <= i < others.len() implies {
            &&& (#[trigger] others[i]) != "-e"@
            &&& others[i] != "--regexp"@
            &&& others[i] != "-f"@
            &&& others[i] != "--file"@
            &&& !"--regexp="@.is_prefix_of(others[i])
            &&& !"--file="@.is_prefix_of(others[i])
        } by {
            assert(others[i] == before[i + 1]);
        }
        lemma_no_pattern_before(others, rest);
        assert((before + rest)[0] == before[0]);
        assert((before + rest).drop_first() =~= others + rest);
    }
}

/// Which options take a value, and which of them give a pattern.
pub proof fn law_families_of_options(arg: Seq<char>)
    ensures
        args::expects_value(arg) <==> takes_a_value(arg),
        args::names_pattern(arg) <==> arg == "-e"@ || arg == "--regexp"@ || arg == "-f"@ || arg
            == "--file"@,
{
}

/// Ripgrep searches for nothing exactly where one of its options says so.
pub proof fn law_no_search_is_told_by_options(list: Seq<Seq<char>>)
    ensures
        args::searches_for_nothing(list) <==> asks_for_no_search(list),
{
    lemma_no_search(list);
}

/// The value of an option is the number that it stands for; where it stands for none, the
/// mistake names the option and what is wrong with the value.
pub proof fn law_value_is_a_number_or_a_mistake(flag: Seq<char>, value: Seq<char>)
    ensures
        args::option_number(flag, value) == match text::to_number(value) {
            Some(n) => Ok::<usize, args::ArgErrorView>(n),
            None => Err(
                args::ArgErrorView::NotANumber { flag, cause: text::number_fault(value) },
            ),
        },
{
}

/// An option that stands last, without the pattern that it takes, gives none.
pub proof fn law_missing_pattern_is_not_shown(before: Seq<Seq<char>>, flag: Seq<char>)
    requires
        forall|i: int|
            0 <= i < before.len() ==> {
                &&& (#[trigger] before[i]) != "-e"@
                &&& before[i] != "--regexp"@
                &&& before[i] != "-f"@
                &&& before[i] != "--file"@
                &&& !"--regexp="@.is_prefix_of(before[i])
                &&& !"--file="@.is_prefix_of(before[i])
            },
        flag == "-e"@ || flag == "--regexp"@ || flag == "-f"@ || flag == "--file"@,
    ensures
        args::pattern_in_options(before + seq![flag]) is None,
{
    reveal_strlit("-e");
    reveal_strlit("-f");
    reveal_strlit("--regexp");
    reveal_strlit("--regexp=");
    reveal_strlit("--file");
    reveal_strlit("--file=");
    lemma_no_pattern_before(before, seq![flag]);
    command_line::lemma_differ("--regexp="@, flag, if flag == "--regexp"@ {
        8
    } else {
        2
    });
    command_line::lemma_differ("--file="@, flag, if flag == "--file"@ {
        6
    } else {
        2
    });
}

} // verus!
