//! The lines that a backend prints: `file`, a NUL, the line number, a colon, and
//! the content of the line.

use crate::text;
use vstd::prelude::*;
use vstd::string::*;

verus! {

/// A line for a match in `file`, with the line number as it is written.
pub open spec fn written(file: Seq<char>, number: Seq<char>, content: Seq<char>) -> Seq<char> {
    file.push('\0') + number.push(':') + content
}

/// What may stand in the three places of such a line.
pub open spec fn may_stand(file: Seq<char>, number: Seq<char>, content: Seq<char>) -> bool {
    &&& file.len() > 0
    &&& !file.contains('\0')
    &&& text::is_decimal(number)
    &&& !content.contains('\n')
}

/// Whether a line is written for these three.
pub open spec fn is_written(
    line: Seq<char>,
    file: Seq<char>,
    number: Seq<char>,
    content: Seq<char>,
) -> bool {
    may_stand(file, number, content) && line == written(file, number, content)
}

/// The file, the line number and the content that a line is written for. Lines of
/// another shape, and numbers that are too large, give nothing.
pub open spec fn match_in(line: Seq<char>) -> Option<(Seq<char>, usize, Seq<char>)> {
    if exists|file: Seq<char>, number: Seq<char>, content: Seq<char>|
        is_written(line, file, number, content) {
        let (file, number, content) = choose|
            file: Seq<char>,
            number: Seq<char>,
            content: Seq<char>,
        |
            is_written(line, file, number, content);
        match text::digits_to_number(number) {
            Some(n) => Some((file, n, content)),
            None => None,
        }
    } else {
        None
    }
}

/// Where the NUL and the colon stand in a line.
proof fn lemma_places(line: Seq<char>, file: Seq<char>, number: Seq<char>, content: Seq<char>)
    requires
        is_written(line, file, number, content),
    ensures
        ({
            let nul = file.len() as int;
            let colon = nul + 1 + number.len();
            &&& colon < line.len()
            &&& line[nul] == '\0'
            &&& forall|k: int| 0 <= k < nul ==> line[k] != '\0'
            &&& line[colon] == ':'
            &&& forall|k: int| nul < k < colon ==> line[k] != ':'
            &&& file == line.take(nul)
            &&& number == line.subrange(nul + 1, colon)
            &&& content == line.skip(colon + 1)
        }),
{
    let nul = file.len() as int;
    let colon = nul + 1 + number.len();
    assert forall|k: int| 0 <= k < nul implies line[k] != '\0' by {
        assert(line[k] == file[k]);
        assert(file.contains(file[k]));
    }
    assert forall|k: int| nul < k < colon implies line[k] != ':' by {
        assert(line[k] == number[k - nul - 1]);
    }
    assert(file =~= line.take(nul));
    assert(number =~= line.subrange(nul + 1, colon));
    assert(content =~= line.skip(colon + 1));
}

/// A line is written for one file, one number and one content only.
pub proof fn lemma_written_for_one(
    line: Seq<char>,
    file: Seq<char>,
    number: Seq<char>,
    content: Seq<char>,
)
    requires
        is_written(line, file, number, content),
    ensures
        match_in(line) == match text::digits_to_number(number) {
            Some(n) => Some((file, n, content)),
            None => None,
        },
{
    let (other_file, other_number, other_content) = choose|
        file: Seq<char>,
        number: Seq<char>,
        content: Seq<char>,
    |
        is_written(line, file, number, content);
    lemma_places(line, file, number, content);
    lemma_places(line, other_file, other_number, other_content);
    assert(file.len() == other_file.len());
    assert(number.len() == other_number.len());
}

/// The file, the line number and the content that a line of output is about.
pub fn parse_match_line(line: &str) -> (r: Option<(String, usize, &str)>)
    ensures
        match r {
            Some((file, line_num, content)) => match_in(line@) == Some(
                (file@, line_num, content@),
            ),
            None => match_in(line@) is None,
        },
{
    let chars = text::chars_of(line);
    let ghost all = line@;
    let end = chars.len();
    let mut nul: usize = 0;
    while nul < end && chars[nul] != '\0'
        invariant
            chars@ == all,
            nul <= end == all.len(),
            forall|k: int| 0 <= k < nul ==> all[k] != '\0',
        decreases end - nul,
    {
        nul = nul + 1;
    }
    if nul == 0 || nul == end {
        assert forall|file: Seq<char>, number: Seq<char>, content: Seq<char>| !is_written(
            all,
            file,
            number,
            content,
        ) by {
            if is_written(all, file, number, content) {
                lemma_places(all, file, number, content);
            }
        }
        return None;
    }
    let mut colon: usize = nul + 1;
    while colon < end && chars[colon] != ':'
        invariant
            chars@ == all,
            nul < colon <= end == all.len(),
            forall|k: int| nul < k < colon ==> all[k] != ':',
        decreases end - colon,
    {
        colon = colon + 1;
    }
    let ghost file = all.take(nul as int);
    let ghost number = all.subrange(nul + 1, colon as int);
    let ghost content = all.skip(colon + 1);
    assert forall|f: Seq<char>, n: Seq<char>, c: Seq<char>| is_written(all, f, n, c) implies colon
        < end && f == file && n == number && c == content by {
        lemma_places(all, f, n, c);
        assert(f.len() == nul);
        assert(f.len() + 1 + n.len() == colon);
    }
    if colon == end {
        return None;
    }
    let line_num = match text::parse_digits(&chars, nul + 1, colon) {
        Ok(n) => n,
        Err(_) => {
            return None;
        },
    };
    if text::holds_from(&chars, colon + 1, '\n') {
        return None;
    }
    assert(!file.contains('\0'));
    assert(all =~= written(file, number, content));
    proof {
        lemma_written_for_one(all, file, number, content);
    }
    assert(all.subrange(0, nul as int) =~= file);
    assert(all.subrange(colon + 1, end as int) =~= content);
    Some((text::text_of(&chars, 0, nul), line_num, line.substring_char(colon + 1, end)))
}

} // verus!
