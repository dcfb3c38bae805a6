//! Laws of the condensed listing.

use crate::laws::texts;
use crate::report;
use crate::report::EntryView;
use crate::text;
use vstd::prelude::*;

verus! {

/// The files of a listing are the files of the entries, each once and in order.
pub proof fn law_files_once_and_in_order(entries: Seq<EntryView>, file: Seq<char>)
    ensures
        report::in_order(report::files_of(entries)),
        report::files_of(entries).no_duplicates(),
        report::files_of(entries).contains(file) <==> exists|i: int|
            0 <= i < entries.len() && (#[trigger] entries[i]).file == file,
{
    let files = report::files_of(entries);
    report::lemma_files_of(entries);
    assert forall|i: int, j: int| 0 <= i < files.len() && 0 <= j < files.len() && i
        != j implies files[i] != files[j] by {
        if i < j {
            report::lemma_order_strict(files[i], files[j]);
        } else {
            report::lemma_order_strict(files[j], files[i]);
        }
    }
    lemma_files_come_from_entries(entries, file);
}

/// A file in the list is the file of an entry.
proof fn lemma_files_come_from_entries(entries: Seq<EntryView>, file: Seq<char>)
    ensures
        report::files_of(entries).contains(file) ==> exists|i: int|
            0 <= i < entries.len() && (#[trigger] entries[i]).file == file,
    decreases entries.len(),
{
    if entries.len() > 0 && report::files_of(entries).contains(file) {
        let before = entries.drop_last();
        report::lemma_files_of(before);
        report::lemma_with_name(report::files_of(before), entries.last().file);
        assert(report::with_name(report::files_of(before), entries.last().file).contains(file));
        if file == entries.last().file {
            assert(entries[entries.len() - 1].file == file);
        } else {
            lemma_files_come_from_entries(before, file);
            let i = choose|i: int| 0 <= i < before.len() && (#[trigger] before[i]).file == file;
            assert(entries[i].file == file);
        }
    }
}

/// The entries of one file among entries of one file.
proof fn lemma_entries_in_part(part: Seq<EntryView>, of: Seq<char>, file: Seq<char>)
    requires
        forall|i: int| 0 <= i < part.len() ==> (#[trigger] part[i]).file == of,
    ensures
        report::entries_in(part, file) == if file == of {
            part
        } else {
            Seq::empty()
        },
    decreases part.len(),
{
    if file != of || part.len() == 0 {
        report::lemma_no_entries(part, file);
        assert(part.len() == 0 ==> part =~= Seq::empty());
    } else {
        lemma_entries_in_part(part.drop_last(), of, file);
        report::lemma_entries_in_push(part.drop_last(), part.last(), file);
        assert(part.drop_last().push(part.last()) =~= part);
    }
}

/// A listing shows of each of its files the first entries, as many as are allowed
/// and in the order in which they came, and of other files none.
pub proof fn law_each_file_shows_its_first_entries(
    entries: Seq<EntryView>,
    files: Seq<Seq<char>>,
    per_file: nat,
    file: Seq<char>,
)
    requires
        report::in_order(files),
    ensures
        report::entries_in(report::listed(entries, files, per_file), file) == if files.contains(
            file,
        ) {
            report::at_most(report::entries_in(entries, file), per_file)
        } else {
            Seq::empty()
        },
    decreases files.len(),
{
    let of_file = |e: EntryView| e.file == file;
    let all = report::listed(entries, files, per_file);
    if files.len() == 0 {
        report::lemma_no_entries(all, file);
    } else {
        let front = files.drop_last();
        let before = report::listed(entries, front, per_file);
        let last = files.last();
        let whole = report::entries_in(entries, last);
        let part = report::at_most(whole, per_file);
        law_each_file_shows_its_first_entries(entries, front, per_file, file);
        assert forall|i: int| 0 <= i < part.len() implies (#[trigger] part[i]).file == last by {
            entries.lemma_filter_pred(|e: EntryView| e.file == last, i);
            assert(part[i] == whole[i]);
        }
        lemma_entries_in_part(part, last, file);
        Seq::filter_distributes_over_add(before, part, of_file);
        assert(files[files.len() - 1] == last);
        if files.contains(file) && file != last {
            let k = files.index_of(file);
            assert(front[k] == file);
        }
        if front.contains(file) {
            let k = front.index_of(file);
            assert(files[k] == file);
            report::lemma_order_strict(files[k], files[files.len() - 1]);
        }
        assert(report::entries_in(all, file) =~= report::entries_in(before, file)
            + report::entries_in(part, file));
        assert(report::entries_in(before, file) + Seq::<EntryView>::empty() =~= report::entries_in(
            before,
            file,
        ));
        assert(Seq::<EntryView>::empty() + report::entries_in(part, file) =~= report::entries_in(
            part,
            file,
        ));
    }
}

/// Where no limit is reached, a listing shows of every file all its entries.
pub proof fn law_nothing_is_hidden_below_the_limits(
    entries: Seq<EntryView>,
    per_file: nat,
    max_results: nat,
    file: Seq<char>,
)
    requires
        entries.len() <= per_file,
        entries.len() <= max_results,
    ensures
        report::entries_in(report::selected(entries, per_file, max_results), file)
            == report::entries_in(entries, file),
{
    let files = report::files_of(entries);
    report::lemma_files_of(entries);
    lemma_listed_len(entries, files, per_file);
    law_each_file_shows_its_first_entries(entries, files, per_file, file);
    entries.lemma_filter_len(|e: EntryView| e.file == file);
    if !files.contains(file) {
        assert forall|i: int| 0 <= i < entries.len() implies (#[trigger] entries[i]).file != file by {
            assert(files.contains(entries[i].file));
        }
        report::lemma_no_entries(entries, file);
    }
}

/// An entry of another file changes nothing.
proof fn lemma_listed_other(
    entries: Seq<EntryView>,
    e: EntryView,
    files: Seq<Seq<char>>,
    per_file: nat,
)
    requires
        !files.contains(e.file),
    ensures
        report::listed(entries.push(e), files, per_file) == report::listed(
            entries,
            files,
            per_file,
        ),
    decreases files.len(),
{
    if files.len() > 0 {
        let front = files.drop_last();
        assert(files[files.len() - 1] == files.last());
        assert(!front.contains(e.file)) by {
            if front.contains(e.file) {
                let k = front.index_of(e.file);
                assert(files[k] == e.file);
            }
        }
        lemma_listed_other(entries, e, front, per_file);
        report::lemma_entries_in_push(entries, e, files.last());
    }
}

/// One entry more is at most one line more.
proof fn lemma_listed_push(
    entries: Seq<EntryView>,
    e: EntryView,
    files: Seq<Seq<char>>,
    per_file: nat,
)
    requires
        report::in_order(files),
    ensures
        report::listed(entries.push(e), files, per_file).len() <= report::listed(
            entries,
            files,
            per_file,
        ).len() + 1,
    decreases files.len(),
{
    if files.len() > 0 {
        let front = files.drop_last();
        report::lemma_entries_in_push(entries, e, files.last());
        if files.last() == e.file {
            assert(!front.contains(e.file)) by {
                if front.contains(e.file) {
                    let k = front.index_of(e.file);
                    assert(files[k] == e.file);
                    report::lemma_order_strict(files[k], files[files.len() - 1]);
                }
            }
            lemma_listed_other(entries, e, front, per_file);
        } else {
            lemma_listed_push(entries, e, front, per_file);
        }
    }
}

/// No more entries are listed than there are.
proof fn lemma_listed_len(entries: Seq<EntryView>, files: Seq<Seq<char>>, per_file: nat)
    requires
        report::in_order(files),
    ensures
        report::listed(entries, files, per_file).len() <= entries.len(),
    decreases entries.len(), files.len(),
{
    if entries.len() == 0 {
        if files.len() > 0 {
            lemma_listed_len(entries, files.drop_last(), per_file);
            report::lemma_no_entries(entries, files.last());
        }
    } else {
        lemma_listed_len(entries.drop_last(), files, per_file);
        lemma_listed_push(entries.drop_last(), entries.last(), files, per_file);
        assert(entries.drop_last().push(entries.last()) =~= entries);
    }
}

/// The limits are kept: no more lines in all, and no more lines of one file, than are
/// allowed; and no more than there are entries.
pub proof fn law_limits_are_kept(
    entries: Seq<EntryView>,
    per_file: nat,
    max_results: nat,
    file: Seq<char>,
)
    ensures
        ({
            let shown = report::selected(entries, per_file, max_results);
            &&& shown.len() <= max_results
            &&& shown.len() <= entries.len()
            &&& report::entries_in(shown, file).len() <= per_file
        }),
{
    let files = report::files_of(entries);
    let all = report::listed(entries, files, per_file);
    let shown = report::selected(entries, per_file, max_results);
    report::lemma_files_of(entries);
    lemma_listed_len(entries, files, per_file);
    law_each_file_shows_its_first_entries(entries, files, per_file, file);
    let rest = all.skip(shown.len() as int);
    assert(all =~= shown + rest);
    Seq::filter_distributes_over_add(shown, rest, |e: EntryView| e.file == file);
    assert(report::entries_in(all, file) =~= report::entries_in(shown, file)
        + report::entries_in(rest, file));
}

/// A path of at most fifty bytes is shown as it is.
pub proof fn law_short_path_is_kept(path: Seq<char>)
    requires
        text::byte_len(path) <= 50,
    ensures
        report::compacted(path) == path,
{
}

/// The parts of a path that is shown shortened.
proof fn lemma_compacted_parts(path: Seq<char>)
    requires
        text::byte_len(path) > 50,
        text::split_at_each(path, '/').len() > 3,
    ensures
        ({
            let parts = text::split_at_each(path, '/');
            let n = parts.len() as int;
            text::split_at_each(report::compacted(path), '/') == seq![
                parts[0],
                "..."@,
                parts[n - 2],
                parts[n - 1],
            ]
        }),
{
    reveal_strlit("/");
    reveal_strlit("...");
    reveal_strlit("/.../");
    texts::law_split_then_join(path, '/');
    let parts = text::split_at_each(path, '/');
    let n = parts.len() as int;
    let first = parts[0];
    let directory = parts[n - 2];
    let name = parts[n - 1];
    let front = first.push('/') + "..."@;
    let shown = report::compacted(path);
    assert(shown =~= (front.push('/') + directory).push('/') + name);
    texts::lemma_split_add(front.push('/') + directory, name, '/');
    texts::lemma_split_add(front, directory, '/');
    texts::lemma_split_add(first, "..."@, '/');
    texts::lemma_split_none(first, '/');
    texts::lemma_split_none("..."@, '/');
    texts::lemma_split_none(directory, '/');
    texts::lemma_split_none(name, '/');
    assert(text::split_at_each(shown, '/') =~= seq![first, "..."@, directory, name]);
}

/// A path that is shown shortened is shown as it is.
pub proof fn law_compacted_path_stays(path: Seq<char>)
    ensures
        report::compacted(report::compacted(path)) == report::compacted(path),
{
    if text::byte_len(path) > 50 && text::split_at_each(path, '/').len() > 3 {
        lemma_compacted_parts(path);
    }
}

/// A path that is shown shortened still ends with the name of the file, in its
/// directory.
pub proof fn law_compacted_path_keeps_the_name(path: Seq<char>)
    ensures
        ({
            let parts = text::split_at_each(path, '/');
            let shown = text::split_at_each(report::compacted(path), '/');
            &&& shown.last() == parts.last()
            &&& parts.len() > 1 ==> shown.len() > 1 && shown[shown.len() - 2] == parts[parts.len()
                - 2]
        }),
{
    if text::byte_len(path) > 50 && text::split_at_each(path, '/').len() > 3 {
        lemma_compacted_parts(path);
    }
}

/// Texts stand in the order of the first characters that differ, and a text stands
/// before all that go on from it.
pub proof fn law_order_goes_by_the_first_difference(
    common: Seq<char>,
    x: char,
    a: Seq<char>,
    y: char,
    b: Seq<char>,
)
    ensures
        x < y ==> report::comes_before(common + seq![x] + a, common + seq![y] + b),
        x < y ==> !report::comes_before(common + seq![y] + b, common + seq![x] + a),
        report::comes_before(common, common + seq![x] + a),
        !report::comes_before(common + seq![x] + a, common),
    decreases common.len(),
{
    let left = common + seq![x] + a;
    let right = common + seq![y] + b;
    if common.len() == 0 {
        assert(left[0] == x && right[0] == y);
    } else {
        let rest = common.drop_first();
        law_order_goes_by_the_first_difference(rest, x, a, y, b);
        assert(left.drop_first() =~= rest + seq![x] + a);
        assert(right.drop_first() =~= rest + seq![y] + b);
        assert(left[0] == common[0] && right[0] == common[0]);
    }
}

/// Of a long path with three slashes or more, the part before the first slash and the
/// parts around the last one are shown, with dots in place of what is between them.
pub proof fn law_long_path_keeps_its_ends(
    first: Seq<char>,
    middle: Seq<char>,
    directory: Seq<char>,
    name: Seq<char>,
)
    requires
        !first.contains('/'),
        !directory.contains('/'),
        !name.contains('/'),
        vstd::utf8::encode_utf8(
            first + seq!['/'] + middle + seq!['/'] + directory + seq!['/'] + name,
        ).len() > 50,
    ensures
        report::compacted(first + seq!['/'] + middle + seq!['/'] + directory + seq!['/'] + name)
            == first + "/.../"@ + directory + "/"@ + name,
{
    let path = first + seq!['/'] + middle + seq!['/'] + directory + seq!['/'] + name;
    let front = first.push('/') + middle;
    let most = front.push('/') + directory;
    assert(path =~= most.push('/') + name);
    texts::lemma_split_add(most, name, '/');
    texts::lemma_split_add(front, directory, '/');
    texts::lemma_split_add(first, middle, '/');
    texts::lemma_split_none(first, '/');
    texts::lemma_split_none(directory, '/');
    texts::lemma_split_none(name, '/');
    let between = text::split_at_each(middle, '/');
    text::lemma_split_nonempty(middle, '/');
    assert(text::split_at_each(path, '/') =~= seq![first] + between + seq![directory] + seq![name]);
}

/// A path of at most two slashes is shown as it is, however long.
pub proof fn law_flat_path_is_kept(a: Seq<char>, b: Seq<char>, c: Seq<char>)
    requires
        !a.contains('/'),
        !b.contains('/'),
        !c.contains('/'),
    ensures
        report::compacted(a) == a,
        report::compacted(a + seq!['/'] + b) == a + seq!['/'] + b,
        report::compacted(a + seq!['/'] + b + seq!['/'] + c) == a + seq!['/'] + b + seq!['/'] + c,
{
    texts::lemma_split_none(a, '/');
    texts::lemma_split_none(b, '/');
    texts::lemma_split_none(c, '/');
    let two = a.push('/') + b;
    assert(a + seq!['/'] + b =~= two);
    assert(a + seq!['/'] + b + seq!['/'] + c =~= two.push('/') + c);
    texts::lemma_split_add(a, b, '/');
    texts::lemma_split_add(two, c, '/');
}

/// Where the limit on all lines is not reached, of each file exactly its first entries
/// are shown, in the order in which they came: as many as are allowed, or all.
pub proof fn law_first_entries_of_each_file_are_shown(
    entries: Seq<EntryView>,
    per_file: nat,
    file: Seq<char>,
)
    ensures
        ({
            let shown = report::selected(entries, per_file, entries.len());
            let of_file = entries.filter(|e: EntryView| e.file == file);
            shown.filter(|e: EntryView| e.file == file) == if of_file.len() <= per_file {
                of_file
            } else {
                of_file.subrange(0, per_file as int)
            }
        }),
{
    let files = report::files_of(entries);
    law_files_once_and_in_order(entries, file);
    lemma_listed_len(entries, files, per_file);
    law_each_file_shows_its_first_entries(entries, files, per_file, file);
    if !files.contains(file) {
        report::lemma_no_entries(entries, file);
    }
}

/// Entries are listed for the given files only.
proof fn lemma_listed_files(
    entries: Seq<EntryView>,
    files: Seq<Seq<char>>,
    per_file: nat,
    i: int,
)
    requires
        0 <= i < report::listed(entries, files, per_file).len(),
    ensures
        files.contains(report::listed(entries, files, per_file)[i].file),
        files.len() > 0,
        i >= report::listed(entries, files.drop_last(), per_file).len() ==> report::listed(
            entries,
            files,
            per_file,
        )[i].file == files.last(),
    decreases files.len(),
{
    let front = files.drop_last();
    let before = report::listed(entries, front, per_file);
    let last = files.last();
    let whole = report::entries_in(entries, last);
    let part = report::at_most(whole, per_file);
    assert(files[files.len() - 1] == last);
    if i < before.len() {
        lemma_listed_files(entries, front, per_file, i);
        let k = front.index_of(before[i].file);
        assert(files[k] == before[i].file);
    } else {
        let k = i - before.len();
        entries.lemma_filter_pred(|e: EntryView| e.file == last, k);
        assert(part[k] == whole[k]);
    }
}

/// Listed entries stand in the order of their files.
proof fn lemma_listed_order(
    entries: Seq<EntryView>,
    files: Seq<Seq<char>>,
    per_file: nat,
    i: int,
    j: int,
)
    requires
        report::in_order(files),
        0 <= i < j < report::listed(entries, files, per_file).len(),
    ensures
        ({
            let all = report::listed(entries, files, per_file);
            all[i].file == all[j].file || report::comes_before(all[i].file, all[j].file)
        }),
    decreases files.len(),
{
    let all = report::listed(entries, files, per_file);
    lemma_listed_files(entries, files, per_file, i);
    lemma_listed_files(entries, files, per_file, j);
    let front = files.drop_last();
    let before = report::listed(entries, front, per_file);
    if j < before.len() {
        lemma_listed_order(entries, front, per_file, i, j);
    } else {
        let k = files.index_of(all[i].file);
        assert(files[files.len() - 1] == all[j].file);
        assert(files[k] == all[i].file);
        if k < files.len() - 1 {
            assert(report::comes_before(files[k], files[files.len() - 1]));
        }
    }
}

/// The entries that are shown stand file by file, in the order of the files.
pub proof fn law_entries_stand_in_the_order_of_files(
    entries: Seq<EntryView>,
    per_file: nat,
    max_results: nat,
    i: int,
    j: int,
)
    requires
        0 <= i < j < report::selected(entries, per_file, max_results).len(),
    ensures
        ({
            let shown = report::selected(entries, per_file, max_results);
            shown[i].file == shown[j].file || report::comes_before(shown[i].file, shown[j].file)
        }),
{
    report::lemma_files_of(entries);
    lemma_listed_order(entries, report::files_of(entries), per_file, i, j);
}

/// The limit on all lines cuts off the end of what would be shown without it, and no
/// more than it has to.
pub proof fn law_limit_on_all_lines_cuts_the_end(
    entries: Seq<EntryView>,
    per_file: nat,
    max_results: nat,
)
    ensures
        ({
            let all = report::selected(entries, per_file, entries.len());
            let shown = report::selected(entries, per_file, max_results);
            &&& all.len() <= max_results ==> shown == all
            &&& all.len() > max_results ==> shown == all.subrange(0, max_results as int)
        }),
{
    report::lemma_files_of(entries);
    lemma_listed_len(entries, report::files_of(entries), per_file);
}

/// The line for an entry says its file, as paths are shown, its line number in digits,
/// and its content, with colons between them.
pub proof fn law_entry_line_says_where(e: EntryView)
    ensures
        exists|digits: Seq<char>| #[trigger]
            texts::are_digits_of(digits, e.line_num as nat) && report::entry_line(e)
                == report::compacted(e.file) + seq![':'] + digits + seq![':'] + e.shown + seq![
                '\n',
            ],
{
    reveal_strlit(":");
    reveal_strlit("\n");
    texts::law_numbers_are_written_in_digits(e.line_num as nat);
    let digits = text::decimal(e.line_num as nat);
    assert(":"@ =~= seq![':']);
    assert("\n"@ =~= seq!['\n']);
    assert(texts::are_digits_of(digits, e.line_num as nat));
}

/// Entries that differ in the line number alone have different lines.
pub proof fn law_line_numbers_tell_entries_apart(e: EntryView, other: EntryView)
    requires
        e.file == other.file,
        e.shown == other.shown,
        e.line_num != other.line_num,
    ensures
        report::entry_line(e) != report::entry_line(other),
{
    law_entry_line_says_where(e);
    law_entry_line_says_where(other);
    let path = report::compacted(e.file);
    let a = choose|digits: Seq<char>| #[trigger]
        texts::are_digits_of(digits, e.line_num as nat) && report::entry_line(e) == path + seq![':']
            + digits + seq![':'] + e.shown + seq!['\n'];
    let b = choose|digits: Seq<char>| #[trigger]
        texts::are_digits_of(digits, other.line_num as nat) && report::entry_line(other) == path
            + seq![':'] + digits + seq![':'] + e.shown + seq!['\n'];
    if report::entry_line(e) == report::entry_line(other) {
        let from = path.len() as int + 1;
        let others = path.len() + e.shown.len() + 3;
        assert(report::entry_line(e).len() == others + a.len());
        assert(report::entry_line(other).len() == others + b.len());
        assert(a =~= report::entry_line(e).subrange(from, from + a.len()));
        assert(b =~= report::entry_line(other).subrange(from, from + b.len()));
        assert(text::decimal_value(a) == text::decimal_value(b));
    }
}

/// The lines for some entries are the line for each of them, one behind the other.
proof fn lemma_entry_lines_flat(entries: Seq<EntryView>)
    ensures
        report::entry_lines(entries) == entries.map_values(
            |e: EntryView| report::entry_line(e),
        ).flatten(),
    decreases entries.len(),
{
    let lines = entries.map_values(|e: EntryView| report::entry_line(e));
    lines.lemma_flatten_and_flatten_alt_are_equivalent();
    if entries.len() > 0 {
        let front = entries.drop_last();
        lemma_entry_lines_flat(front);
        let before = front.map_values(|e: EntryView| report::entry_line(e));
        before.lemma_flatten_and_flatten_alt_are_equivalent();
        assert(lines.drop_last() =~= before);
    }
}

/// A listing says how many lines and how many files there are, shows a line for each
/// entry that is shown, and ends with the number of lines that are not, if any.
pub proof fn law_listing_is_written_in_full(
    total: nat,
    entries: Seq<EntryView>,
    per_file: nat,
    max_results: nat,
)
    ensures
        ({
            let shown = report::selected(entries, per_file, max_results);
            let files = entries.map_values(|e: EntryView| e.file).to_set().len();
            let lines = shown.map_values(|e: EntryView| report::entry_line(e)).flatten();
            let head = text::decimal(total) + " matches in "@ + text::decimal(files)
                + " files:\n\n"@;
            report::listing(total, entries, per_file, max_results) == if total > shown.len() {
                head + lines + ("[+"@ + text::decimal((total - shown.len()) as nat) + " more]\n"@)
            } else {
                head + lines
            }
        }),
{
    let shown = report::selected(entries, per_file, max_results);
    lemma_entry_lines_flat(shown);
    let files = report::files_of(entries);
    let names = entries.map_values(|e: EntryView| e.file);
    assert forall|name: Seq<char>| files.to_set().contains(name) <==> names.to_set().contains(
        name,
    ) by {
        law_files_once_and_in_order(entries, name);
        if names.contains(name) {
            let i = names.index_of(name);
            assert(entries[i].file == name);
        }
        if files.contains(name) {
            let i = choose|i: int| 0 <= i < entries.len() && (#[trigger] entries[i]).file == name;
            assert(names[i] == name);
        }
    }
    assert(files.to_set() =~= names.to_set());
    law_files_once_and_in_order(entries, Seq::empty());
    files.unique_seq_to_set();
    let lines = report::entry_lines(shown);
    let head = report::heading(total, files.len());
    assert(head + lines + Seq::<char>::empty() =~= head + lines);
}

} // verus!
