//! The condensed listing: matches grouped by file, files in order, so many lines
//! of each file and so many lines in all.

use crate::text;
use vstd::prelude::*;
use vstd::string::*;

verus! {

// ---------------------------------------------------------------------------
// Paths
// ---------------------------------------------------------------------------

/// A path as it is shown: of a long one only the first part and the last two.
pub open spec fn compacted(path: Seq<char>) -> Seq<char> {
    let parts = text::split_at_each(path, '/');
    if text::byte_len(path) <= 50 || parts.len() <= 3 {
        path
    } else {
        parts[0] + "/.../"@ + parts[parts.len() - 2] + "/"@ + parts[parts.len() - 1]
    }
}

/// A path as it is shown.
pub fn compact_path(path: &str) -> (r: String)
    ensures
        r@ == compacted(path@),
{
    if text::byte_count(path) <= 50 {
        return path.to_string();
    }
    let parts = text::split(path, '/');
    let n = parts.len();
    if n <= 3 {
        return path.to_string();
    }
    let mut out = parts[0].clone();
    out.append("/.../");
    out.append(parts[n - 2].as_str());
    out.append("/");
    out.append(parts[n - 1].as_str());
    assert(out@ =~= compacted(path@));
    out
}

// ---------------------------------------------------------------------------
// The order of files
// ---------------------------------------------------------------------------

/// Whether a text stands before another, by the code points of their characters.
pub open spec fn comes_before(a: Seq<char>, b: Seq<char>) -> bool
    decreases a.len(),
{
    if a.len() == 0 || b.len() == 0 {
        a.len() < b.len()
    } else if a[0] == b[0] {
        comes_before(a.drop_first(), b.drop_first())
    } else {
        a[0] < b[0]
    }
}

/// Of two texts, one stands before the other or they are the same.
pub proof fn lemma_order_total(a: Seq<char>, b: Seq<char>)
    ensures
        comes_before(a, b) || comes_before(b, a) || a == b,
    decreases a.len(),
{
    if a.len() == 0 || b.len() == 0 {
        if a.len() == 0 && b.len() == 0 {
            assert(a =~= b);
        }
    } else if a[0] == b[0] {
        lemma_order_total(a.drop_first(), b.drop_first());
        if a.drop_first() == b.drop_first() {
            assert(a =~= seq![a[0]] + a.drop_first());
            assert(b =~= seq![b[0]] + b.drop_first());
        }
    }
}

/// No text stands before itself, nor do two stand before each other.
pub proof fn lemma_order_strict(a: Seq<char>, b: Seq<char>)
    ensures
        !comes_before(a, a),
        !(comes_before(a, b) && comes_before(b, a)),
    decreases a.len(),
{
    if a.len() > 0 {
        lemma_order_strict(a.drop_first(), b.drop_first());
    }
}

/// What stands before a text stands before all that the text stands before.
pub proof fn lemma_order_transitive(a: Seq<char>, b: Seq<char>, c: Seq<char>)
    requires
        comes_before(a, b),
        comes_before(b, c),
    ensures
        comes_before(a, c),
    decreases a.len(),
{
    if a.len() > 0 && a[0] == b[0] && b[0] == c[0] {
        lemma_order_transitive(a.drop_first(), b.drop_first(), c.drop_first());
    }
}

/// Whether texts stand in their order, none twice.
pub open spec fn in_order(names: Seq<Seq<char>>) -> bool {
    forall|i: int, j: int| 0 <= i < j < names.len() ==> comes_before(#[trigger] names[i], #[trigger] names[j])
}

/// Texts in their order with one more of them.
pub open spec fn with_name(names: Seq<Seq<char>>, name: Seq<char>) -> Seq<Seq<char>>
    decreases names.len(),
{
    if names.len() == 0 {
        seq![name]
    } else if names.last() == name {
        names
    } else if comes_before(names.last(), name) {
        names.push(name)
    } else {
        with_name(names.drop_last(), name).push(names.last())
    }
}

/// A text that is there already changes nothing.
proof fn lemma_known_name(names: Seq<Seq<char>>, at: int)
    requires
        in_order(names),
        0 <= at < names.len(),
    ensures
        with_name(names, names[at]) == names,
    decreases names.len(),
{
    if at < names.len() - 1 {
        lemma_order_strict(names[at], names.last());
        lemma_known_name(names.drop_last(), at);
        assert(names.drop_last().push(names.last()) =~= names);
    }
}

/// Where a new text goes.
proof fn lemma_new_name(names: Seq<Seq<char>>, name: Seq<char>, at: int)
    requires
        0 <= at <= names.len(),
        forall|i: int| 0 <= i < at ==> comes_before(#[trigger] names[i], name),
        forall|i: int| at <= i < names.len() ==> comes_before(name, #[trigger] names[i]),
    ensures
        with_name(names, name) == names.insert(at, name),
    decreases names.len(),
{
    if names.len() == 0 {
        assert(names.insert(at, name) =~= seq![name]);
    } else if at == names.len() {
        lemma_order_strict(names.last(), name);
        assert(names.insert(at, name) =~= names.push(name));
    } else {
        lemma_order_strict(name, names.last());
        lemma_new_name(names.drop_last(), name, at);
        assert(names.insert(at, name) =~= names.drop_last().insert(at, name).push(names.last()));
    }
}

/// How one text stands to another.
enum Place {
    Before,
    Same,
    After,
}

/// How one string stands to another.
fn place(a: &str, b: &str) -> (r: Place)
    ensures
        match r {
            Place::Before => comes_before(a@, b@),
            Place::Same => a@ == b@,
            Place::After => comes_before(b@, a@),
        },
{
    let x = text::chars_of(a);
    let y = text::chars_of(b);
    let mut i: usize = 0;
    assert(a@.skip(0) =~= a@);
    assert(b@.skip(0) =~= b@);
    while i < x.len() && i < y.len()
        invariant
            x@ == a@,
            y@ == b@,
            i <= x@.len(),
            i <= y@.len(),
            comes_before(a@, b@) == comes_before(a@.skip(i as int), b@.skip(i as int)),
            comes_before(b@, a@) == comes_before(b@.skip(i as int), a@.skip(i as int)),
            forall|k: int| 0 <= k < i ==> a@[k] == b@[k],
        decreases x.len() - i,
    {
        if x[i] < y[i] {
            return Place::Before;
        }
        if y[i] < x[i] {
            return Place::After;
        }
        assert(a@.skip(i as int).drop_first() =~= a@.skip(i + 1));
        assert(b@.skip(i as int).drop_first() =~= b@.skip(i + 1));
        i = i + 1;
    }
    if x.len() < y.len() {
        Place::Before
    } else if y.len() < x.len() {
        Place::After
    } else {
        assert(a@ =~= b@);
        Place::Same
    }
}

// ---------------------------------------------------------------------------
// Entries and their groups
// ---------------------------------------------------------------------------

/// A match that can be shown.
#[derive(Debug, Clone, PartialEq, Eq)]
pub struct Entry {
    pub file: String,
    pub line_num: usize,
    pub shown: String,
}

/// An `Entry` over texts.
pub struct EntryView {
    pub file: Seq<char>,
    pub line_num: usize,
    pub shown: Seq<char>,
}

impl View for Entry {
    type V = EntryView;

    open spec fn view(&self) -> EntryView {
        EntryView { file: self.file@, line_num: self.line_num, shown: self.shown@ }
    }
}

/// What a list of entries holds.
pub open spec fn views(entries: Seq<Entry>) -> Seq<EntryView> {
    entries.map_values(|e: Entry| e@)
}

/// The files of some entries, in order, each once.
pub open spec fn files_of(entries: Seq<EntryView>) -> Seq<Seq<char>>
    decreases entries.len(),
{
    if entries.len() == 0 {
        Seq::empty()
    } else {
        with_name(files_of(entries.drop_last()), entries.last().file)
    }
}

/// The entries of one file, in the order in which they came.
pub open spec fn entries_in(entries: Seq<EntryView>, file: Seq<char>) -> Seq<EntryView> {
    entries.filter(|e: EntryView| e.file == file)
}

/// The first so many of a list, or all where there are not as many.
pub open spec fn at_most<T>(list: Seq<T>, n: nat) -> Seq<T> {
    if n < list.len() {
        list.take(n as int)
    } else {
        list
    }
}

/// The entries of some files, file by file, at most so many of each.
pub open spec fn listed(
    entries: Seq<EntryView>,
    files: Seq<Seq<char>>,
    per_file: nat,
) -> Seq<EntryView>
    decreases files.len(),
{
    if files.len() == 0 {
        Seq::empty()
    } else {
        listed(entries, files.drop_last(), per_file) + at_most(
            entries_in(entries, files.last()),
            per_file,
        )
    }
}

/// The entries that are shown: at most so many of each file and so many in all.
pub open spec fn selected(
    entries: Seq<EntryView>,
    per_file: nat,
    max_results: nat,
) -> Seq<EntryView> {
    at_most(listed(entries, files_of(entries), per_file), max_results)
}

// ---------------------------------------------------------------------------
// The listing
// ---------------------------------------------------------------------------

/// The line for one entry.
pub open spec fn entry_line(e: EntryView) -> Seq<char> {
    compacted(e.file) + ":"@ + text::decimal(e.line_num as nat) + ":"@ + e.shown + "\n"@
}

/// The lines for some entries.
pub open spec fn entry_lines(entries: Seq<EntryView>) -> Seq<char>
    decreases entries.len(),
{
    if entries.len() == 0 {
        Seq::empty()
    } else {
        entry_lines(entries.drop_last()) + entry_line(entries.last())
    }
}

/// The first line: how many matches there are, in how many files.
pub open spec fn heading(total: nat, files: nat) -> Seq<char> {
    text::decimal(total) + " matches in "@ + text::decimal(files) + " files:\n\n"@
}

/// The last line: how many matches are not shown, if any.
pub open spec fn remainder(total: nat, shown: nat) -> Seq<char> {
    if total > shown {
        "[+"@ + text::decimal((total - shown) as nat) + " more]\n"@
    } else {
        Seq::empty()
    }
}

/// The listing of some entries out of `total` lines.
pub open spec fn listing(
    total: nat,
    entries: Seq<EntryView>,
    per_file: nat,
    max_results: nat,
) -> Seq<char> {
    let shown = selected(entries, per_file, max_results);
    heading(total, files_of(entries).len()) + entry_lines(shown) + remainder(total, shown.len())
}

// ---------------------------------------------------------------------------
// Grouping
// ---------------------------------------------------------------------------

/// One more text: what is there and that the order stays.
pub proof fn lemma_with_name(names: Seq<Seq<char>>, name: Seq<char>)
    requires
        in_order(names),
    ensures
        in_order(with_name(names, name)),
        forall|x: Seq<char>| #[trigger]
            with_name(names, name).contains(x) <==> names.contains(x) || x == name,
    decreases names.len(),
{
    let more = with_name(names, name);
    if names.len() == 0 {
        assert(more =~= seq![name]);
        assert(more[0] == name);
    } else if names.last() == name {
        assert(names[names.len() - 1] == name);
    } else if comes_before(names.last(), name) {
        assert forall|i: int, j: int| 0 <= i < j < more.len() implies comes_before(
            #[trigger] more[i],
            #[trigger] more[j],
        ) by {
            if j == names.len() && i < names.len() - 1 {
                assert(comes_before(names[i], names[names.len() - 1]));
                lemma_order_transitive(names[i], names.last(), name);
            }
        }
        assert forall|x: Seq<char>| #[trigger] more.contains(x) <==> names.contains(x) || x == name by {
            assert(more[names.len() as int] == name);
            if names.contains(x) {
                let k = names.index_of(x);
                assert(more[k] == x);
            }
            if more.contains(x) {
                let k = more.index_of(x);
                if k < names.len() {
                    assert(names[k] == x);
                }
            }
        }
    } else {
        lemma_order_total(names.last(), name);
        let front = names.drop_last();
        lemma_with_name(front, name);
        let fore = with_name(front, name);
        assert forall|i: int, j: int| 0 <= i < j < more.len() implies comes_before(
            #[trigger] more[i],
            #[trigger] more[j],
        ) by {
            if j == fore.len() {
                assert(fore.contains(fore[i]));
                if front.contains(fore[i]) {
                    let k = front.index_of(fore[i]);
                    assert(names[k] == fore[i]);
                    assert(comes_before(names[k], names[names.len() - 1]));
                }
            } else {
                assert(comes_before(fore[i], fore[j]));
            }
        }
        assert forall|x: Seq<char>| #[trigger] more.contains(x) <==> names.contains(x) || x == name by {
            if more.contains(x) {
                let k = more.index_of(x);
                if k < fore.len() {
                    assert(fore[k] == x);
                    assert(fore.contains(x));
                    if front.contains(x) {
                        let m = front.index_of(x);
                        assert(names[m] == x);
                    }
                } else {
                    assert(names[names.len() - 1] == x);
                }
            }
            if names.contains(x) {
                let k = names.index_of(x);
                if k < front.len() {
                    assert(front[k] == x);
                    assert(fore.contains(x));
                    let m = fore.index_of(x);
                    assert(more[m] == x);
                } else {
                    assert(more[fore.len() as int] == x);
                }
            }
            if x == name {
                assert(fore.contains(x));
                let m = fore.index_of(x);
                assert(more[m] == x);
            }
        }
    }
}

/// The files of some entries stand in order, and none is missing.
pub proof fn lemma_files_of(entries: Seq<EntryView>)
    ensures
        in_order(files_of(entries)),
        forall|i: int| 0 <= i < entries.len() ==> files_of(entries).contains(#[trigger] entries[i].file),
    decreases entries.len(),
{
    if entries.len() > 0 {
        let before = entries.drop_last();
        lemma_files_of(before);
        lemma_with_name(files_of(before), entries.last().file);
        assert forall|i: int| 0 <= i < entries.len() implies files_of(entries).contains(
            #[trigger] entries[i].file,
        ) by {
            if i < before.len() {
                assert(files_of(before).contains(before[i].file));
            }
            assert(with_name(files_of(before), entries.last().file).contains(entries[i].file));
        }
    }
}

/// The entries of a file, with one entry more.
pub proof fn lemma_entries_in_push(entries: Seq<EntryView>, e: EntryView, file: Seq<char>)
    ensures
        entries_in(entries.push(e), file) == if e.file == file {
            entries_in(entries, file).push(e)
        } else {
            entries_in(entries, file)
        },
{
    entries.lemma_filter_push(e, |e: EntryView| e.file == file);
}

/// A file without entries.
pub proof fn lemma_no_entries(entries: Seq<EntryView>, file: Seq<char>)
    requires
        forall|i: int| 0 <= i < entries.len() ==> (#[trigger] entries[i]).file != file,
    ensures
        entries_in(entries, file) == Seq::<EntryView>::empty(),
    decreases entries.len(),
{
    let of_file = |e: EntryView| e.file == file;
    if entries.len() == 0 {
        entries.lemma_filter_len(of_file);
        assert(entries_in(entries, file) =~= Seq::empty());
    } else {
        lemma_no_entries(entries.drop_last(), file);
        lemma_entries_in_push(entries.drop_last(), entries.last(), file);
        assert(entries.drop_last().push(entries.last()) =~= entries);
    }
}

/// The entries at some positions.
spec fn picked(entries: Seq<EntryView>, positions: Seq<usize>) -> Seq<EntryView> {
    positions.map_values(|k: usize| entries[k as int])
}

/// The file of the entries at some positions.
spec fn file_at(entries: Seq<EntryView>, positions: Seq<usize>) -> Seq<char> {
    entries[positions[0] as int].file
}

/// The files of groups of positions.
spec fn group_files(entries: Seq<EntryView>, groups: Seq<Vec<usize>>) -> Seq<Seq<char>> {
    groups.map_values(|g: Vec<usize>| file_at(entries, g@))
}

/// Whether groups of positions are the groups of the first `n` entries.
spec fn grouped(entries: Seq<EntryView>, groups: Seq<Vec<usize>>, n: int) -> bool {
    &&& group_files(entries, groups) == files_of(entries.take(n))
    &&& forall|g: int|
        0 <= g < groups.len() ==> {
            &&& (#[trigger] groups[g])@.len() > 0
            &&& forall|k: int| 0 <= k < groups[g]@.len() ==> #[trigger] groups[g]@[k] < n
            &&& picked(entries, groups[g]@) == entries_in(
                entries.take(n),
                file_at(entries, groups[g]@),
            )
        }
}

/// Where the group of a file stands, and whether it is there already.
fn find_group(entries: &Vec<Entry>, groups: &Vec<Vec<usize>>, file: &str) -> (r: (usize, bool))
    requires
        forall|g: int|
            0 <= g < groups@.len() ==> (#[trigger] groups@[g])@.len() > 0 && groups@[g]@[0]
                < entries@.len(),
        in_order(group_files(views(entries@), groups@)),
    ensures
        ({
            let files = group_files(views(entries@), groups@);
            let at = r.0 as int;
            if r.1 {
                at < files.len() && files[at] == file@
            } else {
                &&& at <= files.len()
                &&& forall|i: int| 0 <= i < at ==> comes_before(#[trigger] files[i], file@)
                &&& forall|i: int| at <= i < files.len() ==> comes_before(file@, #[trigger] files[i])
            }
        }),
{
    let ghost files = group_files(views(entries@), groups@);
    let mut low: usize = 0;
    let mut high: usize = groups.len();
    while low < high
        invariant
            low <= high <= groups@.len(),
            files == group_files(views(entries@), groups@),
            in_order(files),
            forall|g: int|
                0 <= g < groups@.len() ==> (#[trigger] groups@[g])@.len() > 0 && groups@[g]@[0]
                    < entries@.len(),
            forall|i: int| 0 <= i < low ==> comes_before(#[trigger] files[i], file@),
            forall|i: int| high <= i < files.len() ==> comes_before(file@, #[trigger] files[i]),
        decreases high - low,
    {
        let middle: usize = low + (high - low) / 2;
        let first: usize = groups[middle][0];
        assert(files[middle as int] == views(entries@)[first as int].file);
        match place(entries[first].file.as_str(), file) {
            Place::Same => {
                return (middle, true);
            },
            Place::Before => {
                assert forall|i: int| 0 <= i < middle + 1 implies comes_before(
                    #[trigger] files[i],
                    file@,
                ) by {
                    if i < middle {
                        lemma_order_transitive(files[i], files[middle as int], file@);
                    }
                }
                low = middle + 1;
            },
            Place::After => {
                assert forall|i: int| middle <= i < files.len() implies comes_before(
                    file@,
                    #[trigger] files[i],
                ) by {
                    if i > middle {
                        lemma_order_transitive(file@, files[middle as int], files[i]);
                    }
                }
                high = middle;
            },
        }
    }
    (low, false)
}

/// The positions of entries, file by file.
fn group_entries(entries: &Vec<Entry>) -> (r: Vec<Vec<usize>>)
    ensures
        grouped(views(entries@), r@, entries@.len() as int),
{
    let ghost all = views(entries@);
    let mut groups: Vec<Vec<usize>> = Vec::new();
    let mut i: usize = 0;
    assert(group_files(all, groups@) =~= files_of(all.take(0)));
    while i < entries.len()
        invariant
            i <= entries@.len(),
            all == views(entries@),
            grouped(all, groups@, i as int),
        decreases entries.len() - i,
    {
        let ghost before = all.take(i as int);
        let ghost e = all[i as int];
        let ghost old_groups = groups@;
        let ghost old_files = group_files(all, groups@);
        assert(all.take(i + 1) =~= before.push(e));
        assert(before.push(e).drop_last() =~= before);
        proof {
            lemma_files_of(before);
        }
        let (at, known) = find_group(entries, &groups, entries[i].file.as_str());
        if known {
            groups[at].push(i);
            proof {
                lemma_known_name(old_files, at as int);
                assert(group_files(all, groups@) =~= old_files);
            }
        } else {
            let mut fresh: Vec<usize> = Vec::new();
            fresh.push(i);
            groups.insert(at, fresh);
            proof {
                lemma_new_name(old_files, e.file, at as int);
                assert(group_files(all, groups@) =~= old_files.insert(at as int, e.file));
            }
        }
        assert forall|g: int| 0 <= g < groups@.len() implies ({
            &&& (#[trigger] groups@[g])@.len() > 0
            &&& forall|k: int| 0 <= k < groups@[g]@.len() ==> #[trigger] groups@[g]@[k] < i + 1
            &&& picked(all, groups@[g]@) == entries_in(all.take(i + 1), file_at(all, groups@[g]@))
        }) by {
            let file = file_at(all, groups@[g]@);
            lemma_entries_in_push(before, e, file);
            if known {
                if g == at {
                    assert(picked(all, groups@[g]@) =~= picked(all, old_groups[g]@).push(e));
                } else {
                    assert(groups@[g] == old_groups[g]);
                    assert(old_files[g] == file);
                    if g < at {
                        lemma_order_strict(old_files[g], old_files[at as int]);
                    } else {
                        lemma_order_strict(old_files[at as int], old_files[g]);
                    }
                }
            } else {
                if g == at {
                    assert(groups@[g]@ =~= seq![i]);
                    assert forall|k: int| 0 <= k < before.len() implies (
                    #[trigger] before[k]).file != file by {
                        if before[k].file == file {
                            assert(old_files.contains(file));
                            let m = old_files.index_of(file);
                            lemma_order_strict(file, old_files[m]);
                        }
                    }
                    lemma_no_entries(before, file);
                    assert(picked(all, groups@[g]@) =~= Seq::empty().push(e));
                } else {
                    let m = if g < at {
                        g
                    } else {
                        g - 1
                    };
                    assert(groups@[g] == old_groups[m]);
                    assert(old_files[m] == file);
                    lemma_order_strict(old_files[m], e.file);
                }
            }
        }
        i = i + 1;
    }
    groups
}

// ---------------------------------------------------------------------------
// Writing the listing
// ---------------------------------------------------------------------------

/// The lines for two lists of entries, one behind the other.
proof fn lemma_entry_lines_add(a: Seq<EntryView>, b: Seq<EntryView>)
    ensures
        entry_lines(a + b) == entry_lines(a) + entry_lines(b),
    decreases b.len(),
{
    if b.len() == 0 {
        assert(a + b =~= a);
        assert(entry_lines(a) + entry_lines(b) =~= entry_lines(a));
    } else {
        lemma_entry_lines_add(a, b.drop_last());
        assert((a + b).drop_last() =~= a + b.drop_last());
        assert(entry_lines(a) + (entry_lines(b.drop_last()) + entry_line(b.last())) =~= (
        entry_lines(a) + entry_lines(b.drop_last())) + entry_line(b.last()));
    }
}

/// The first so many of two lists, one behind the other.
proof fn lemma_at_most_add<T>(a: Seq<T>, b: Seq<T>, n: nat)
    ensures
        at_most(a, n).len() <= n,
        at_most(a + b, n) == at_most(a, n) + at_most(b, (n - at_most(a, n).len()) as nat),
{
    assert(at_most(a + b, n) =~= at_most(a, n) + at_most(b, (n - at_most(a, n).len()) as nat));
}

/// Appends the line for one entry.
fn push_entry(out: &mut String, e: &Entry)
    ensures
        final(out)@ == old(out)@ + entry_line(e@),
{
    out.append(compact_path(e.file.as_str()).as_str());
    out.append(":");
    text::push_number(out, e.line_num);
    out.append(":");
    out.append(e.shown.as_str());
    out.append("\n");
    assert(out@ =~= old(out)@ + entry_line(e@));
}

/// Appends the lines for the entries at some positions, at most `per_file` and at
/// most `room`, and tells how many they are.
fn push_group(
    out: &mut String,
    entries: &Vec<Entry>,
    positions: &Vec<usize>,
    per_file: usize,
    room: usize,
) -> (n: usize)
    requires
        forall|k: int| 0 <= k < positions@.len() ==> #[trigger] positions@[k] < entries@.len(),
    ensures
        ({
            let part = at_most(
                at_most(picked(views(entries@), positions@), per_file as nat),
                room as nat,
            );
            &&& final(out)@ == old(out)@ + entry_lines(part)
            &&& n == part.len()
        }),
{
    let ghost all = picked(views(entries@), positions@);
    let ghost part = at_most(at_most(all, per_file as nat), room as nat);
    let ghost start = out@;
    let mut n: usize = 0;
    assert(out@ =~= start + entry_lines(all.take(0)));
    while n < positions.len() && n < per_file && n < room
        invariant
            n <= positions@.len(),
            n <= per_file,
            n <= room,
            all == picked(views(entries@), positions@),
            forall|k: int| 0 <= k < positions@.len() ==> #[trigger] positions@[k] < entries@.len(),
            out@ == start + entry_lines(all.take(n as int)),
        decreases positions.len() - n,
    {
        let k: usize = positions[n];
        push_entry(out, &entries[k]);
        assert(all[n as int] == entries@[k as int]@);
        assert(all.take(n + 1).drop_last() =~= all.take(n as int));
        n = n + 1;
        assert(out@ =~= start + entry_lines(all.take(n as int)));
    }
    assert(part =~= all.take(n as int));
    n
}

/// The listing of some entries out of `total` lines.
pub fn render(total: usize, entries: &Vec<Entry>, per_file: usize, max_results: usize) -> (r:
    String)
    ensures
        r@ == listing(total as nat, views(entries@), per_file as nat, max_results as nat),
{
    let ghost all = views(entries@);
    let ghost files = files_of(all);
    let groups = group_entries(entries);
    assert(all.take(all.len() as int) =~= all);
    let mut out = String::new();
    text::push_number(&mut out, total);
    out.append(" matches in ");
    text::push_number(&mut out, groups.len());
    out.append(" files:\n\n");
    let ghost head = heading(total as nat, files.len());
    assert(out@ =~= head);
    let mut shown: usize = 0;
    let mut g: usize = 0;
    assert(listed(all, files.take(0), per_file as nat) =~= Seq::empty());
    assert(out@ =~= head + entry_lines(Seq::empty()));
    while g < groups.len()
        invariant
            g <= groups@.len(),
            all == views(entries@),
            files == files_of(all),
            grouped(all, groups@, all.len() as int),
            all.take(all.len() as int) == all,
            shown <= max_results,
            shown == at_most(
                listed(all, files.take(g as int), per_file as nat),
                max_results as nat,
            ).len(),
            out@ == head + entry_lines(
                at_most(listed(all, files.take(g as int), per_file as nat), max_results as nat),
            ),
        decreases groups.len() - g,
    {
        let ghost so_far = listed(all, files.take(g as int), per_file as nat);
        let ghost next = at_most(entries_in(all, files[g as int]), per_file as nat);
        assert(files[g as int] == group_files(all, groups@)[g as int]);
        assert(files.take(g + 1).drop_last() =~= files.take(g as int));
        let n = push_group(&mut out, entries, &groups[g], per_file, max_results - shown);
        proof {
            lemma_at_most_add(so_far, next, max_results as nat);
            let a = at_most(so_far, max_results as nat);
            let b = at_most(next, (max_results - shown) as nat);
            lemma_entry_lines_add(a, b);
            assert(head + (entry_lines(a) + entry_lines(b)) =~= (head + entry_lines(a))
                + entry_lines(b));
        }
        shown = shown + n;
        g = g + 1;
    }
    assert(files.take(files.len() as int) =~= files);
    let ghost body = out@;
    if total > shown {
        out.append("[+");
        text::push_number(&mut out, total - shown);
        out.append(" more]\n");
    }
    assert(out@ =~= body + remainder(total as nat, shown as nat));
    out
}

} // verus!
