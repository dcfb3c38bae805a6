//! Laws of the operations on text.

use crate::text;
use vstd::prelude::*;

verus! {

/// A trimmed text is a part of the text, from its first to its last character that
/// is not white space.
pub proof fn law_trimmed_is_bare(s: Seq<char>)
    ensures
        ({
            let bare = text::trimmed(s);
            &&& bare.len() > 0 ==> !text::is_white(bare[0]) && !text::is_white(bare.last())
            &&& exists|from: int, to: int|
                0 <= from <= to <= s.len() && bare == #[trigger] s.subrange(from, to) && (forall|
                    i: int,
                |
                    0 <= i < from || to <= i < s.len() ==> text::is_white(#[trigger] s[i]))
        }),
{
    let rest = text::without_leading_white(s);
    let from = lemma_leading(s);
    let to = lemma_trailing(rest);
    assert(text::trimmed(s) =~= s.subrange(from, from + to));
    assert forall|i: int| 0 <= i < from || from + to <= i < s.len() implies text::is_white(
        #[trigger] s[i],
    ) by {
        if i >= from + to {
            assert(rest[i - from] == s[i]);
        }
    }
}

/// The number of white characters at the start.
proof fn lemma_leading(s: Seq<char>) -> (from: int)
    ensures
        0 <= from <= s.len(),
        text::without_leading_white(s) == s.skip(from),
        forall|i: int| 0 <= i < from ==> text::is_white(#[trigger] s[i]),
        from < s.len() ==> !text::is_white(s[from]),
    decreases s.len(),
{
    if s.len() > 0 && text::is_white(s[0]) {
        let rest = s.drop_first();
        let n = lemma_leading(rest);
        assert(rest.skip(n) =~= s.skip(n + 1));
        assert forall|i: int| 0 <= i < n + 1 implies text::is_white(#[trigger] s[i]) by {
            if i > 0 {
                assert(rest[i - 1] == s[i]);
            }
        }
        if n + 1 < s.len() {
            assert(rest[n] == s[n + 1]);
        }
        n + 1
    } else {
        assert(s.skip(0) =~= s);
        0
    }
}

/// The number of characters before the white ones at the end.
proof fn lemma_trailing(s: Seq<char>) -> (to: int)
    ensures
        0 <= to <= s.len(),
        text::without_trailing_white(s) == s.take(to),
        forall|i: int| to <= i < s.len() ==> text::is_white(#[trigger] s[i]),
        to > 0 ==> !text::is_white(s[to - 1]),
    decreases s.len(),
{
    if s.len() > 0 && text::is_white(s.last()) {
        let rest = s.drop_last();
        let n = lemma_trailing(rest);
        assert(rest.take(n) =~= s.take(n));
        assert forall|i: int| n <= i < s.len() implies text::is_white(#[trigger] s[i]) by {
            if i < rest.len() {
                assert(rest[i] == s[i]);
            }
        }
        n
    } else {
        assert(s.take(s.len() as int) =~= s);
        s.len() as int
    }
}

/// Splitting loses nothing: the parts, joined by the separator, are the text again,
/// and no part holds the separator.
pub proof fn law_split_then_join(s: Seq<char>, separator: char)
    ensures
        text::joined(text::split_at_each(s, separator), seq![separator]) == s,
        forall|i: int|
            0 <= i < text::split_at_each(s, separator).len()
                ==> !(#[trigger] text::split_at_each(s, separator)[i]).contains(separator),
    decreases s.len(),
{
    let parts = text::split_at_each(s, separator);
    let sep = seq![separator];
    if s.len() == 0 {
        assert(parts.drop_last() =~= Seq::empty());
        assert(text::joined(parts, sep) =~= s);
    } else {
        let before = text::split_at_each(s.drop_last(), separator);
        law_split_then_join(s.drop_last(), separator);
        text::lemma_split_nonempty(s.drop_last(), separator);
        assert(s =~= s.drop_last().push(s.last()));
        if s.last() == separator {
            assert(parts.drop_last() =~= before);
            assert(text::joined(parts, sep) =~= text::joined(before, sep) + sep);
        } else {
            assert(parts.drop_last() =~= before.drop_last());
            assert(text::joined(parts, sep) =~= text::joined(before, sep).push(s.last()));
            let last = before.last();
            assert(before[before.len() - 1] == last);
            assert forall|i: int| 0 <= i < parts.len() implies !(#[trigger] parts[i]).contains(
                separator,
            ) by {
                if i == parts.len() - 1 {
                    assert(parts[i] == last.push(s.last()));
                    if parts[i].contains(separator) {
                        let k = parts[i].index_of(separator);
                        assert(k < last.len());
                        assert(last[k] == separator);
                    }
                } else {
                    assert(parts[i] == before[i]);
                }
            }
        }
    }
}

/// A text with a separator in it is split there.
pub proof fn lemma_split_add(a: Seq<char>, b: Seq<char>, separator: char)
    ensures
        text::split_at_each(a.push(separator) + b, separator) == text::split_at_each(a, separator)
            + text::split_at_each(b, separator),
    decreases b.len(),
{
    let all = a.push(separator) + b;
    text::lemma_split_nonempty(a, separator);
    text::lemma_split_nonempty(b, separator);
    if b.len() == 0 {
        assert(all =~= a.push(separator));
        assert(all.drop_last() =~= a);
        assert(text::split_at_each(all, separator) =~= text::split_at_each(a, separator)
            + text::split_at_each(b, separator));
    } else {
        let rest = b.drop_last();
        lemma_split_add(a, rest, separator);
        text::lemma_split_nonempty(rest, separator);
        assert(all.drop_last() =~= a.push(separator) + rest);
        assert(text::split_at_each(all, separator) =~= text::split_at_each(a, separator)
            + text::split_at_each(b, separator));
    }
}

/// A text without the separator has one part.
pub proof fn lemma_split_none(a: Seq<char>, separator: char)
    requires
        !a.contains(separator),
    ensures
        text::split_at_each(a, separator) == seq![a],
    decreases a.len(),
{
    if a.len() == 0 {
        assert(a =~= Seq::empty());
    } else {
        assert(a.contains(a.last()));
        assert forall|i: int| 0 <= i < a.len() - 1 implies a.drop_last()[i] != separator by {
            assert(a.contains(a[i]));
        }
        lemma_split_none(a.drop_last(), separator);
        assert(a.drop_last().push(a.last()) =~= a);
        assert(text::split_at_each(a, separator) =~= seq![a]);
    }
}

/// The lines of a text are its first line and the lines of what follows it.
pub proof fn law_first_line(line: Seq<char>, rest: Seq<char>)
    requires
        !line.contains('\n'),
    ensures
        text::lines_of(line.push('\n') + rest) == seq![text::without_carriage_return(line)]
            + text::lines_of(rest),
{
    lemma_split_add(line, rest, '\n');
    lemma_split_none(line, '\n');
    text::lemma_split_nonempty(rest, '\n');
    let parts = text::split_at_each(rest, '\n');
    let all = seq![line] + parts;
    assert(all.drop_last() =~= seq![line] + parts.drop_last());
    assert(text::lines_of(line.push('\n') + rest) =~= seq![text::without_carriage_return(line)]
        + text::lines_of(rest));
}

/// The digits of a number.
pub proof fn lemma_decimal(n: nat)
    ensures
        text::is_decimal(text::decimal(n)),
        text::decimal_value(text::decimal(n)) == n,
    decreases n,
{
    let s = text::decimal(n);
    if n < 10 {
        assert(s.drop_last() =~= Seq::empty());
        assert(text::decimal_value(s.drop_last()) == 0);
    } else {
        lemma_decimal(n / 10);
        let front = text::decimal(n / 10);
        assert(s.drop_last() =~= front);
        assert forall|i: int| 0 <= i < s.len() implies '0' <= #[trigger] s[i] <= '9' by {
            if i < front.len() {
                assert(s[i] == front[i]);
            }
        }
    }
}

/// A number, written in decimal, is read as that number.
pub proof fn law_number_round_trip(n: usize)
    ensures
        text::to_number(text::decimal(n as nat)) == Some(n),
        text::digits_to_number(text::decimal(n as nat)) == Some(n),
{
    lemma_decimal(n as nat);
    let s = text::decimal(n as nat);
    assert('0' <= s[0] <= '9');
}

/// Each `\|` becomes `|` wherever it stands, and nothing else changes.
pub proof fn law_bars_are_made_plain(a: Seq<char>, b: Seq<char>)
    ensures
        text::with_plain_bars(a + seq!['\\', '|'] + b) == text::with_plain_bars(a).push('|')
            + text::with_plain_bars(b),
    decreases a.len(),
{
    let bar = seq!['\\', '|'];
    let all = a + bar + b;
    if a.len() == 0 {
        assert(all.skip(2) =~= b);
        assert(all[0] == '\\' && all[1] == '|');
        assert(text::with_plain_bars(a).push('|') + text::with_plain_bars(b) =~= seq!['|']
            + text::with_plain_bars(b));
    } else if a.len() >= 2 && a[0] == '\\' && a[1] == '|' {
        law_bars_are_made_plain(a.skip(2), b);
        assert(all.skip(2) =~= a.skip(2) + bar + b);
        assert(all[0] == '\\' && all[1] == '|');
        assert(text::with_plain_bars(a).push('|') + text::with_plain_bars(b) =~= seq!['|'] + (
        text::with_plain_bars(a.skip(2)).push('|') + text::with_plain_bars(b)));
    } else {
        law_bars_are_made_plain(a.skip(1), b);
        assert(all.skip(1) =~= a.skip(1) + bar + b);
        assert(all[0] == a[0]);
        assert(a.len() >= 2 ==> all[1] == a[1]);
        assert(a.len() == 1 ==> all[1] == '\\');
        assert(text::with_plain_bars(a).push('|') + text::with_plain_bars(b) =~= seq![a[0]] + (
        text::with_plain_bars(a.skip(1)).push('|') + text::with_plain_bars(b)));
    }
}

/// A pattern without `\|` is left as it is.
pub proof fn law_other_patterns_are_kept(s: Seq<char>)
    requires
        forall|at: int| !text::occurs_at(s, seq!['\\', '|'], at),
    ensures
        text::with_plain_bars(s) == s,
    decreases s.len(),
{
    let bar = seq!['\\', '|'];
    if s.len() > 0 {
        let rest = s.skip(1);
        assert forall|at: int| !text::occurs_at(rest, bar, at) by {
            if text::occurs_at(rest, bar, at) {
                assert(s.subrange(at + 1, at + 3) =~= rest.subrange(at, at + 2));
                assert(text::occurs_at(s, bar, at + 1));
            }
        }
        law_other_patterns_are_kept(rest);
        if s.len() >= 2 && s[0] == '\\' && s[1] == '|' {
            assert(s.subrange(0, 2) =~= bar);
            assert(text::occurs_at(s, bar, 0));
        }
        assert(seq![s[0]] + rest =~= s);
    }
}

/// A text that holds another has a first place for it, and no place before that.
pub proof fn law_first_occurrence_is_first(hay: Seq<char>, needle: Seq<char>, at: int)
    requires
        text::occurs_at(hay, needle, at),
    ensures
        text::first_occurrence(hay, needle) matches Some(first) && first <= at && text::occurs_at(
            hay,
            needle,
            first,
        ) && (forall|before: int| before < first ==> !text::occurs_at(hay, needle, before)),
    decreases at,
{
    if exists|before: int| before < at && text::occurs_at(hay, needle, before) {
        let before = choose|before: int| before < at && text::occurs_at(hay, needle, before);
        law_first_occurrence_is_first(hay, needle, before);
    } else {
        text::lemma_first_occurrence(hay, needle, at);
    }
}

/// Of a list of strings, each stands for its characters, in its place.
pub proof fn law_texts_are_the_strings(list: Seq<String>)
    ensures
        text::texts(list).len() == list.len(),
        forall|i: int| 0 <= i < list.len() ==> #[trigger] text::texts(list)[i] == list[i]@,
{
}

/// The length in bytes is that of the UTF-8 form.
pub proof fn law_bytes_are_those_of_utf8(s: Seq<char>)
    ensures
        text::byte_len(s) == vstd::utf8::encode_utf8(s).len(),
{
}

/// What follows a prefix is what, behind the prefix, makes the text.
pub proof fn law_prefix_is_taken_off(s: Seq<char>, prefix: Seq<char>, rest: Seq<char>)
    ensures
        text::after_prefix(s, prefix) == Some(rest) <==> s == prefix + rest,
        prefix.is_prefix_of(s) <==> text::after_prefix(s, prefix) is Some,
{
    if s == prefix + rest {
        assert(s.subrange(0, prefix.len() as int) =~= prefix);
        assert(s.skip(prefix.len() as int) =~= rest);
    }
    if prefix.is_prefix_of(s) {
        assert(s =~= prefix + s.skip(prefix.len() as int));
    }
}

/// Joining puts the separator between the parts, and nowhere else.
pub proof fn law_joined_parts(a: Seq<Seq<char>>, b: Seq<Seq<char>>, separator: Seq<char>)
    requires
        a.len() > 0,
        b.len() > 0,
    ensures
        text::joined(a + b, separator) == text::joined(a, separator) + separator + text::joined(
            b,
            separator,
        ),
    decreases b.len(),
{
    let all = a + b;
    assert(all.drop_last() =~= a + b.drop_last());
    if b.len() > 1 {
        law_joined_parts(a, b.drop_last(), separator);
        assert(text::joined(all, separator) =~= text::joined(a, separator) + separator
            + text::joined(b, separator));
    } else {
        assert(all.drop_last() =~= a);
        assert(text::joined(all, separator) =~= text::joined(a, separator) + separator
            + text::joined(b, separator));
    }
}

/// No part makes no text, and one part is joined as it is.
pub proof fn law_joined_alone(part: Seq<char>, separator: Seq<char>)
    ensures
        text::joined(Seq::empty(), separator) == Seq::<char>::empty(),
        text::joined(seq![part], separator) == part,
{
    assert(text::joined(seq![part], separator) =~= part);
}

/// A line ends with a line feed, or with a carriage return and a line feed, and is
/// shown without them; the last line needs no ending, and no text has no line.
pub proof fn law_line_endings(line: Seq<char>, rest: Seq<char>)
    requires
        !line.contains('\n'),
    ensures
        text::lines_of(line + seq!['\r', '\n'] + rest) == seq![line] + text::lines_of(rest),
        line.len() == 0 || line.last() != '\r' ==> text::lines_of(line + seq!['\n'] + rest)
            == seq![line] + text::lines_of(rest),
        line.len() > 0 ==> text::lines_of(line) == seq![line],
        text::lines_of(Seq::empty()) == Seq::<Seq<char>>::empty(),
{
    let returned = line.push('\r');
    assert forall|i: int| 0 <= i < returned.len() implies returned[i] != '\n' by {
        if i < line.len() {
            assert(line.contains(line[i]));
        }
    }
    law_first_line(returned, rest);
    law_first_line(line, rest);
    assert(returned.drop_last() =~= line);
    assert(line + seq!['\r', '\n'] + rest =~= returned.push('\n') + rest);
    assert(line + seq!['\n'] + rest =~= line.push('\n') + rest);
    lemma_split_none(line, '\n');
    assert(seq![line].drop_last() =~= Seq::empty());
    if line.len() > 0 {
        assert(text::lines_of(line) =~= seq![line]);
    }
    let none = seq![Seq::<char>::empty()];
    assert(none.drop_last() =~= Seq::empty());
    assert(text::lines_of(Seq::empty()) =~= Seq::<Seq<char>>::empty());
}

/// A text stands where it is put.
pub proof fn law_text_stands_where_it_is_put(a: Seq<char>, needle: Seq<char>, b: Seq<char>)
    ensures
        text::occurs_at(a + needle + b, needle, a.len() as int),
{
    let all = a + needle + b;
    assert(all.subrange(a.len() as int, a.len() as int + needle.len()) =~= needle);
}

/// Where a text stands, it makes the whole with what is before it and behind it.
pub proof fn law_occurrence_is_a_part(hay: Seq<char>, needle: Seq<char>, at: int)
    requires
        text::occurs_at(hay, needle, at),
    ensures
        0 <= at <= hay.len() - needle.len(),
        hay.take(at) + needle + hay.skip(at + needle.len()) == hay,
{
    assert(hay.take(at) + hay.subrange(at, at + needle.len()) + hay.skip(at + needle.len())
        =~= hay);
}

/// A text that does not stand anywhere has no first place.
pub proof fn law_absent_text_has_no_place(hay: Seq<char>, needle: Seq<char>)
    ensures
        text::first_occurrence(hay, needle) is None <==> (forall|at: int|
            !text::occurs_at(hay, needle, at)),
{
}

/// Digits have their place value.
pub proof fn law_place_value(s: Seq<char>, c: char)
    ensures
        text::decimal_value(Seq::empty()) == 0,
        '0' <= c <= '9' ==> text::decimal_value(s.push(c)) == 10 * text::decimal_value(s) + (
        c as int - '0' as int),
{
    assert(s.push(c).drop_last() =~= s);
}

/// A number is written in digits that stand for it, without zeros before it.
pub proof fn law_numbers_are_written_in_digits(n: nat)
    ensures
        ({
            let s = text::decimal(n);
            &&& s.len() > 0
            &&& forall|i: int| 0 <= i < s.len() ==> '0' <= #[trigger] s[i] <= '9'
            &&& text::decimal_value(s) == n
            &&& n > 0 ==> s[0] != '0'
        }),
    decreases n,
{
    lemma_decimal(n);
    if n >= 10 {
        law_numbers_are_written_in_digits(n / 10);
        assert(text::decimal(n)[0] == text::decimal(n / 10)[0]);
    }
}

/// Whether a text is made of digits that have the value `n`.
pub open spec fn are_digits_of(s: Seq<char>, n: nat) -> bool {
    &&& s.len() > 0
    &&& forall|i: int| 0 <= i < s.len() ==> '0' <= #[trigger] s[i] <= '9'
    &&& text::decimal_value(s) == n
}

/// A text stands for a number where it is made of digits, behind a plus sign or not,
/// that have the value of the number; nothing else stands for a number.
pub proof fn law_number_is_the_value_of_its_digits(s: Seq<char>, n: usize)
    ensures
        text::digits_to_number(s) == Some(n) <==> are_digits_of(s, n as nat),
        text::to_number(seq!['+'] + s) == Some(n) <==> are_digits_of(s, n as nat),
        !(s.len() > 0 && s[0] == '+') ==> (text::to_number(s) == Some(n) <==> are_digits_of(
            s,
            n as nat,
        )),
{
    assert((seq!['+'] + s).skip(1) =~= s);
}

/// What is wrong with a text that stands for no number: it is empty; or it begins with
/// the digits of too large a number, behind a plus sign or not; or else it holds
/// something other than a digit where one is due.
pub proof fn law_fault_of_a_number(s: Seq<char>)
    requires
        text::to_number(s) is None,
    ensures
        text::number_fault(s) == text::NumberError::Empty <==> s.len() == 0,
        text::number_fault(s) == text::NumberError::TooLarge <==> exists|sign: int, n: int|
            #![trigger s.subrange(sign, n)]
            0 <= sign < n <= s.len() && (sign == 0 || sign == 1 && s[0] == '+') && (forall|i: int|
                sign <= i < n ==> '0' <= #[trigger] s[i] <= '9') && text::decimal_value(
                s.subrange(sign, n),
            ) > usize::MAX,
{
    let digits = text::without_plus(s);
    let lead: int = if s.len() > 0 && s[0] == '+' {
        1
    } else {
        0
    };
    if text::number_fault(s) == text::NumberError::TooLarge {
        let n = choose|n: int| text::too_large_at(digits, n);
        let part = digits.take(n);
        assert(part =~= s.subrange(lead, n + lead));
        assert forall|i: int| lead <= i < n + lead implies '0' <= #[trigger] s[i] <= '9' by {
            assert(part[i - lead] == s[i]);
        }
    }
    if exists|sign: int, n: int|
        #![trigger s.subrange(sign, n)]
        0 <= sign < n <= s.len() && (sign == 0 || sign == 1 && s[0] == '+') && (forall|i: int|
            sign <= i < n ==> '0' <= #[trigger] s[i] <= '9') && text::decimal_value(
            s.subrange(sign, n),
        ) > usize::MAX {
        let (sign, n) = choose|sign: int, n: int|
            #![trigger s.subrange(sign, n)]
            0 <= sign < n <= s.len() && (sign == 0 || sign == 1 && s[0] == '+') && (forall|i: int|
                sign <= i < n ==> '0' <= #[trigger] s[i] <= '9') && text::decimal_value(
                s.subrange(sign, n),
            ) > usize::MAX;
        assert('0' <= s[sign] <= '9');
        assert(sign == lead);
        let part = digits.take(n - lead);
        assert(part =~= s.subrange(sign, n));
        assert forall|i: int| 0 <= i < part.len() implies '0' <= #[trigger] part[i] <= '9' by {
            assert(part[i] == s[i + lead]);
        }
        assert(text::too_large_at(digits, n - lead));
    }
}

/// A text is trimmed away exactly where it is white space alone.
pub proof fn law_blank_text_is_trimmed_away(s: Seq<char>)
    ensures
        text::trimmed(s).len() == 0 <==> (forall|i: int|
            0 <= i < s.len() ==> text::is_white(#[trigger] s[i])),
{
    law_trimmed_is_bare(s);
    let bare = text::trimmed(s);
    let (from, to) = choose|from: int, to: int|
        0 <= from <= to <= s.len() && bare == #[trigger] s.subrange(from, to) && (forall|i: int|
            0 <= i < from || to <= i < s.len() ==> text::is_white(#[trigger] s[i]));
    if bare.len() > 0 {
        assert(bare[0] == s[from]);
    }
}

} // verus!
