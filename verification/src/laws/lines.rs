//! Laws of the lines that a backend prints, and of what is shown of them.

use crate::args;
use crate::clean;
use crate::laws::texts;
use crate::match_line;
use crate::text;
use vstd::prelude::*;

verus! {

/// A line that is written for a match is read as that match, whatever colons stand
/// in the file name or in the content.
pub proof fn law_match_line_round_trip(file: Seq<char>, line_num: usize, content: Seq<char>)
    requires
        file.len() > 0,
        !file.contains('\0'),
        !content.contains('\n'),
    ensures
        match_line::match_in(
            match_line::written(file, text::decimal(line_num as nat), content),
        ) == Some((file, line_num, content)),
{
    let number = text::decimal(line_num as nat);
    texts::lemma_decimal(line_num as nat);
    match_line::lemma_written_for_one(
        match_line::written(file, number, content),
        file,
        number,
        content,
    );
}

/// A text has no more characters than bytes.
proof fn lemma_chars_within_bytes(s: Seq<char>)
    ensures
        s.len() <= text::byte_len(s),
    decreases s.len(),
{
    if s.len() > 0 {
        lemma_chars_within_bytes(s.drop_first());
    }
}

/// What is shown of a line has at most the characters that were asked for, and dots
/// on both sides.
pub proof fn law_shown_line_is_short(
    line: Seq<char>,
    context: Option<Seq<char>>,
    lower: Seq<char>,
    pattern_lower: Seq<char>,
    max_len: int,
)
    requires
        max_len >= 0,
    ensures
        clean::shortened(line, context, lower, pattern_lower, max_len) matches Some(shown)
            ==> shown.len() <= max_len + 6,
{
    reveal_strlit("...");
    lemma_chars_within_bytes(line);
    if context is Some {
        lemma_chars_within_bytes(context->0);
    }
}

/// A line that is short enough is shown whole, without the white space around it.
pub proof fn law_short_line_is_shown_whole(line: Seq<char>, max_len: int, pattern: Seq<char>)
    requires
        text::byte_len(text::trimmed(line)) <= max_len,
    ensures
        clean::cleaned(line, max_len, None, pattern) == Some(text::trimmed(line)),
{
}

/// With room for the dots, there is always something to show of a line.
pub proof fn law_room_for_dots_is_enough(
    line: Seq<char>,
    max_len: int,
    re: Option<regex::Regex>,
    pattern: Seq<char>,
)
    requires
        max_len >= 3,
    ensures
        clean::cleaned(line, max_len, re, pattern) is Some,
{
}

/// The part that is shown of a long line holds the place of the hit, and it has as
/// many characters as were asked for where the line has them. It holds all `n`
/// characters of a hit that fits behind the third of the room that is kept before it.
pub proof fn law_window_holds_the_hit(hit: int, n: int, max_len: int, len: int)
    requires
        0 <= hit < len,
        hit + n <= len,
        max_len > 0,
    ensures
        ({
            let (start, end) = clean::window(hit, max_len, len);
            &&& 0 <= start <= hit < end <= len
            &&& end - start == if max_len < len {
                max_len
            } else {
                len
            }
            &&& n <= max_len - max_len / 3 ==> hit + n <= end
        }),
{
}

/// A line that is cut around the pattern shows the place of the pattern whole, where
/// the pattern fits behind the third of the room that is kept before it and the
/// lower-case form has as many characters as the line.
pub proof fn law_cut_line_shows_the_pattern(
    line: Seq<char>,
    lower: Seq<char>,
    pattern_lower: Seq<char>,
    max_len: int,
    hit: int,
)
    requires
        lower.len() == line.len(),
        text::first_occurrence(lower, pattern_lower) == Some(hit),
        pattern_lower.len() <= max_len - max_len / 3,
    ensures
        clean::cut(line, lower, pattern_lower, max_len) matches Some(shown)
            && text::first_occurrence(shown, line.subrange(hit, hit + pattern_lower.len())) is Some,
{
    reveal_strlit("...");
    let n = pattern_lower.len() as int;
    let at = choose|at: int| text::occurs_at(lower, pattern_lower, at);
    texts::law_first_occurrence_is_first(lower, pattern_lower, at);
    let place = line.subrange(hit, hit + n);
    let shown = clean::cut_around(line, hit, max_len);
    if n == 0 {
        assert(shown.subrange(0, 0) =~= place);
        assert(text::occurs_at(shown, place, 0));
    } else {
        law_window_holds_the_hit(hit, n, max_len, line.len() as int);
        let (start, end) = clean::window(hit, max_len, line.len() as int);
        let lead: int = if start > 0 {
            3
        } else {
            0
        };
        assert(shown.subrange(lead + hit - start, lead + hit - start + n) =~= place);
        assert(text::occurs_at(shown, place, lead + hit - start));
    }
}

/// A line is read as a match exactly where it is a file name, a NUL, digits with the
/// value of the line number, a colon and the content, with a name that is not empty
/// and holds no NUL, and content on one line.
pub proof fn law_match_is_what_the_line_says(
    line: Seq<char>,
    file: Seq<char>,
    line_num: usize,
    content: Seq<char>,
)
    ensures
        match_line::match_in(line) == Some((file, line_num, content)) <==> exists|
            number: Seq<char>,
        |
            line == file + seq!['\0'] + number + seq![':'] + content && file.len() > 0
                && !file.contains('\0') && !content.contains('\n') && number.len() > 0 && (forall|
                i: int,
            |
                0 <= i < number.len() ==> '0' <= #[trigger] number[i] <= '9')
                && #[trigger] text::decimal_value(number) == line_num,
{
    if match_line::match_in(line) == Some((file, line_num, content)) {
        let (f, number, c) = choose|f: Seq<char>, number: Seq<char>, c: Seq<char>|
            match_line::is_written(line, f, number, c);
        match_line::lemma_written_for_one(line, f, number, c);
        assert(line =~= file + seq!['\0'] + number + seq![':'] + content);
        assert(text::decimal_value(number) == line_num);
    }
    if exists|number: Seq<char>|
        line == file + seq!['\0'] + number + seq![':'] + content && file.len() > 0
            && !file.contains('\0') && !content.contains('\n') && number.len() > 0 && (forall|i: int|
            0 <= i < number.len() ==> '0' <= #[trigger] number[i] <= '9')
            && #[trigger] text::decimal_value(number) == line_num {
        let number = choose|number: Seq<char>|
            line == file + seq!['\0'] + number + seq![':'] + content && file.len() > 0
                && !file.contains('\0') && !content.contains('\n') && number.len() > 0 && (forall|
                i: int,
            |
                0 <= i < number.len() ==> '0' <= #[trigger] number[i] <= '9')
                && #[trigger] text::decimal_value(number) == line_num;
        assert(line =~= match_line::written(file, number, content));
        match_line::lemma_written_for_one(line, file, number, content);
    }
}

/// Whether the surroundings of the pattern, if there are any, are too long to show.
pub open spec fn no_context_fits(context: Option<Seq<char>>, max_len: int) -> bool {
    context matches Some(part) ==> vstd::utf8::encode_utf8(part).len() > max_len
}

/// What is shown uncut: the surroundings of the pattern where they fit, or else the line
/// where it fits, or else nothing.
pub proof fn law_what_fits_is_shown_whole(
    line: Seq<char>,
    context: Option<Seq<char>>,
    max_len: int,
)
    ensures
        !no_context_fits(context, max_len) ==> clean::shown_whole(line, context, max_len)
            == context,
        no_context_fits(context, max_len) && vstd::utf8::encode_utf8(line).len() <= max_len
            ==> clean::shown_whole(line, context, max_len) == Some(line),
        no_context_fits(context, max_len) && vstd::utf8::encode_utf8(line).len() > max_len
            ==> clean::shown_whole(line, context, max_len) is None,
{
}

/// A long line whose lower-case form does not hold that of the pattern is cut at its
/// end: its first characters are shown, as many as leave room for three dots, and the
/// dots. Without room for the dots nothing is.
pub proof fn law_line_without_the_pattern_is_cut_at_its_end(
    line: Seq<char>,
    lower: Seq<char>,
    pattern_lower: Seq<char>,
    max_len: int,
)
    requires
        forall|at: int| !text::occurs_at(lower, pattern_lower, at),
    ensures
        max_len < 3 ==> clean::cut(line, lower, pattern_lower, max_len) is None,
        max_len >= 3 && line.len() <= max_len - 3 ==> clean::cut(
            line,
            lower,
            pattern_lower,
            max_len,
        ) == Some(line + seq!['.', '.', '.']),
        max_len >= 3 && line.len() > max_len - 3 ==> clean::cut(
            line,
            lower,
            pattern_lower,
            max_len,
        ) == Some(line.subrange(0, max_len - 3) + seq!['.', '.', '.']),
{
    reveal_strlit("...");
    assert("..."@ =~= seq!['.', '.', '.']);
    assert(line.take(line.len() as int) =~= line);
}

/// A long line is cut around the first place where its lower-case form holds that of
/// the pattern: as many characters as are asked for, or all, from a third of them
/// before the place on, moved as little as keeps them within the line. Dots stand on
/// each side where something is left out, and at the end where nothing is.
pub proof fn law_line_with_the_pattern_is_cut_around_it(
    line: Seq<char>,
    lower: Seq<char>,
    pattern_lower: Seq<char>,
    max_len: int,
    hit: int,
)
    requires
        max_len >= 0,
        text::occurs_at(lower, pattern_lower, hit),
        forall|before: int| before < hit ==> !text::occurs_at(lower, pattern_lower, before),
    ensures
        ({
            let len = line.len() as int;
            let dots = seq!['.', '.', '.'];
            let width = if max_len < len {
                max_len
            } else {
                len
            };
            let wanted = if hit - max_len / 3 > 0 {
                hit - max_len / 3
            } else {
                0
            };
            let start = if wanted < len - width {
                wanted
            } else {
                len - width
            };
            let part = line.subrange(start, start + width);
            let shown = if start == 0 {
                part + dots
            } else if start + width == len {
                dots + part
            } else {
                dots + part + dots
            };
            clean::cut(line, lower, pattern_lower, max_len) == Some(shown)
        }),
{
    reveal_strlit("...");
    assert("..."@ =~= seq!['.', '.', '.']);
    text::lemma_first_occurrence(lower, pattern_lower, hit);
}

/// What is shown of a line is what is shown of it without the white space around it:
/// uncut where it fits, and cut otherwise, with the pattern looked for in either case.
pub proof fn law_line_is_trimmed_and_made_to_fit(
    line: Seq<char>,
    max_len: int,
    re: Option<regex::Regex>,
    pattern: Seq<char>,
)
    ensures
        ({
            let bare = text::trimmed(line);
            let context = match re {
                Some(expression) => clean::found(expression, bare),
                None => None,
            };
            let shown = clean::cleaned(line, max_len, re, pattern);
            &&& !no_context_fits(context, max_len) ==> shown == context
            &&& no_context_fits(context, max_len) && vstd::utf8::encode_utf8(bare).len() <= max_len
                ==> shown == Some(bare)
            &&& no_context_fits(context, max_len) && vstd::utf8::encode_utf8(bare).len() > max_len
                ==> shown == clean::cut(
                bare,
                clean::lowercase(bare),
                clean::lowercase(pattern),
                max_len,
            )
        }),
{
}

/// A long line that does not hold the pattern in either case is shown, without the white
/// space around it, by its first characters and three dots.
pub proof fn law_long_line_without_the_pattern_shows_its_start(
    line: Seq<char>,
    max_len: int,
    pattern: Seq<char>,
)
    requires
        max_len >= 3,
        vstd::utf8::encode_utf8(text::trimmed(line)).len() > max_len,
        forall|at: int|
            !text::occurs_at(
                clean::lowercase(text::trimmed(line)),
                clean::lowercase(pattern),
                at,
            ),
    ensures
        clean::cleaned(line, max_len, None, pattern) matches Some(shown) && {
            let bare = text::trimmed(line);
            let n = shown.len() - 3;
            &&& n == max_len - 3 || n == bare.len() < max_len - 3
            &&& shown == bare.subrange(0, n) + seq!['.', '.', '.']
        },
{
    let bare = text::trimmed(line);
    law_line_is_trimmed_and_made_to_fit(line, max_len, None, pattern);
    law_line_without_the_pattern_is_cut_at_its_end(
        bare,
        clean::lowercase(bare),
        clean::lowercase(pattern),
        max_len,
    );
    assert(bare.subrange(0, bare.len() as int) =~= bare);
}

/// Where a search shows only the surroundings of its pattern, they are found by an
/// expression that takes the pattern literally and in either case, with up to twenty
/// characters before it and all behind it; otherwise by none.
pub proof fn law_surroundings_are_looked_for(search: args::SearchView)
    ensures
        search.context_only ==> clean::context_of(search) == clean::compiled(
            "(?i).{0,20}"@ + clean::escaped(search.pattern) + ".*"@,
        ),
        !search.context_only ==> clean::context_of(search) is None,
{
}

/// Escaping goes character by character: a backslash stands before those with a meaning
/// of their own.
pub proof fn law_escaping_goes_by_characters(a: Seq<char>, c: char)
    ensures
        clean::escaped(Seq::empty()) == Seq::<char>::empty(),
        clean::escaped(a.push(c)) == if "\\.+*?()|[]{}^$#&-~"@.contains(c) {
            clean::escaped(a) + seq!['\\', c]
        } else {
            clean::escaped(a) + seq![c]
        },
{
    reveal_strlit("\\.+*?()|[]{}^$#&-~");
    let meta = "\\.+*?()|[]{}^$#&-~"@;
    assert(meta =~= seq![
        '\\',
        '.',
        '+',
        '*',
        '?',
        '(',
        ')',
        '|',
        '[',
        ']',
        '{',
        '}',
        '^',
        '$',
        '#',
        '&',
        '-',
        '~',
    ]);
    assert(meta.contains(c) <==> clean::is_meta(c)) by {
        assert(meta[0] == '\\' && meta[1] == '.' && meta[2] == '+' && meta[3] == '*');
        assert(meta[4] == '?' && meta[5] == '(' && meta[6] == ')' && meta[7] == '|');
        assert(meta[8] == '[' && meta[9] == ']' && meta[10] == '{' && meta[11] == '}');
        assert(meta[12] == '^' && meta[13] == '$' && meta[14] == '#' && meta[15] == '&');
        assert(meta[16] == '-' && meta[17] == '~');
    }
    assert(a.push(c).drop_last() =~= a);
    assert(clean::escaped(a).push('\\').push(c) =~= clean::escaped(a) + seq!['\\', c]);
    assert(clean::escaped(a).push(c) =~= clean::escaped(a) + seq![c]);
}

} // verus!
