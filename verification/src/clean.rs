//! Making a matching line short: white space off, and long lines cut around the
//! place where the pattern stands.

use crate::args;
use crate::args::GrepSearch;
use crate::text;
use vstd::prelude::*;
use vstd::string::*;

verus! {

// ---------------------------------------------------------------------------
// Lower case and regular expressions
// ---------------------------------------------------------------------------

/// What `str::to_lowercase` makes of a text.
pub uninterp spec fn lowercase(s: Seq<char>) -> Seq<char>;

/// `str::to_lowercase` depends on the text alone. What it makes of a text, which
/// the Unicode tables decide, is only named.
pub assume_specification[ str::to_lowercase ](s: &str) -> (r: String)
    ensures
        r@ == lowercase(s@),
;

/// A compiled regular expression.
#[verifier::external_type_specification]
#[verifier::external_body]
pub struct ExRegex(regex::Regex);

/// Why a regular expression cannot be compiled.
#[verifier::external_type_specification]
#[verifier::external_body]
pub struct ExRegexError(regex::Error);

/// What `regex::Regex::new` makes of a pattern: nothing where it reports an error.
pub uninterp spec fn compiled(pattern: Seq<char>) -> Option<regex::Regex>;

/// `regex::Regex::new` depends on the pattern alone: whether it compiles, and to
/// what.
pub assume_specification[ regex::Regex::new ](re: &str) -> (r: Result<regex::Regex, regex::Error>)
    ensures
        match r {
            Ok(regex) => compiled(re@) == Some(regex),
            Err(_) => compiled(re@) is None,
        },
;

/// What `regex::Regex::find` finds in a text: the part of it that matches first.
pub uninterp spec fn found(re: regex::Regex, haystack: Seq<char>) -> Option<Seq<char>>;

/// `regex::Regex::find`, with the matching part as a string. It depends on the
/// expression and on the text alone. Which part matches is only named.
#[verifier::external_body]
fn find_match<'h>(re: &regex::Regex, haystack: &'h str) -> (r: Option<&'h str>)
    ensures
        match r {
            Some(part) => found(*re, haystack@) == Some(part@),
            None => found(*re, haystack@) is None,
        },
{
    match re.find(haystack) {
        Some(part) => Some(part.as_str()),
        None => None,
    }
}

/// The characters with a meaning of their own in regular expressions.
pub open spec fn is_meta(c: char) -> bool {
    ||| c == '\\'
    ||| c == '.'
    ||| c == '+'
    ||| c == '*'
    ||| c == '?'
    ||| c == '('
    ||| c == ')'
    ||| c == '|'
    ||| c == '['
    ||| c == ']'
    ||| c == '{'
    ||| c == '}'
    ||| c == '^'
    ||| c == '$'
    ||| c == '#'
    ||| c == '&'
    ||| c == '-'
    ||| c == '~'
}

/// A text with a backslash before each character that has a meaning of its own.
pub open spec fn escaped(s: Seq<char>) -> Seq<char>
    decreases s.len(),
{
    if s.len() == 0 {
        Seq::empty()
    } else if is_meta(s.last()) {
        escaped(s.drop_last()).push('\\').push(s.last())
    } else {
        escaped(s.drop_last()).push(s.last())
    }
}

/// `regex::escape` puts a backslash before each character that has a meaning of
/// its own, and leaves all others as they are.
pub assume_specification[ regex::escape ](pattern: &str) -> (r: String)
    ensures
        r@ == escaped(pattern@),
;

/// The regular expression for a pattern, taken literally and in either case, with
/// up to twenty characters before it and all that follow.
pub open spec fn surroundings(pattern: Seq<char>) -> Seq<char> {
    "(?i).{0,20}"@ + escaped(pattern) + ".*"@
}

/// The expression that a search shows the matches of, if it shows only those.
pub open spec fn context_of(search: args::SearchView) -> Option<regex::Regex> {
    if search.context_only {
        compiled(surroundings(search.pattern))
    } else {
        None
    }
}

/// The expression that a search shows the matches of, if it shows only those and
/// the expression compiles.
pub fn context_regex(search: &GrepSearch) -> (r: Option<regex::Regex>)
    ensures
        r == context_of(search@),
{
    if !search.context_only {
        return None;
    }
    let mut pattern = "(?i).{0,20}".to_string();
    pattern.append(regex::escape(search.pattern.as_str()).as_str());
    pattern.append(".*");
    assert(pattern@ =~= surroundings(search.pattern@));
    match regex::Regex::new(pattern.as_str()) {
        Ok(re) => Some(re),
        Err(_) => None,
    }
}

// ---------------------------------------------------------------------------
// Cutting
// ---------------------------------------------------------------------------

/// What is shown uncut: the matching surroundings, where they are wanted and short
/// enough, or else the line, where that is short enough.
pub open spec fn shown_whole(
    line: Seq<char>,
    context: Option<Seq<char>>,
    max_len: int,
) -> Option<Seq<char>> {
    if context is Some && text::byte_len(context->0) <= max_len {
        context
    } else if text::byte_len(line) <= max_len {
        Some(line)
    } else {
        None
    }
}

/// The first and the last place of the `max_len` characters that are shown of a
/// line of `len` characters: a third of them before the hit, if the line is long
/// enough on both sides.
pub open spec fn window(hit: int, max_len: int, len: int) -> (int, int) {
    let start = if hit <= max_len / 3 {
        0
    } else {
        hit - max_len / 3
    };
    if start + max_len < len {
        (start, start + max_len)
    } else if max_len < len {
        (len - max_len, len)
    } else {
        (0, len)
    }
}

/// A line cut around a hit, with dots where something is left out. A line of which
/// nothing is left out, long in bytes only, has the dots at its end.
pub open spec fn cut_around(line: Seq<char>, hit: int, max_len: int) -> Seq<char> {
    let (start, end) = window(hit, max_len, line.len() as int);
    let part = line.subrange(start, end);
    if start > 0 && end < line.len() {
        "..."@ + part + "..."@
    } else if start > 0 {
        "..."@ + part
    } else {
        part + "..."@
    }
}

/// A line cut at its end, with dots that count.
pub open spec fn cut_at_end(line: Seq<char>, max_len: int) -> Seq<char> {
    let kept = if max_len - 3 < line.len() {
        max_len - 3
    } else {
        line.len() as int
    };
    line.take(kept) + "..."@
}

/// A long line cut around the place where its lower-case form holds that of the
/// pattern, or else at its end. There is no room for the dots in fewer than three
/// characters.
pub open spec fn cut(
    line: Seq<char>,
    lower: Seq<char>,
    pattern_lower: Seq<char>,
    max_len: int,
) -> Option<Seq<char>> {
    match text::first_occurrence(lower, pattern_lower) {
        Some(hit) => Some(cut_around(line, hit, max_len)),
        None => if max_len >= 3 {
            Some(cut_at_end(line, max_len))
        } else {
            None
        },
    }
}

/// A line made short, given what the expression finds in it and its lower-case
/// form.
pub open spec fn shortened(
    line: Seq<char>,
    context: Option<Seq<char>>,
    lower: Seq<char>,
    pattern_lower: Seq<char>,
    max_len: int,
) -> Option<Seq<char>> {
    match shown_whole(line, context, max_len) {
        Some(whole) => Some(whole),
        None => cut(line, lower, pattern_lower, max_len),
    }
}

/// What an expression finds in a text, if there is an expression.
pub open spec fn context_in(re: Option<regex::Regex>, line: Seq<char>) -> Option<Seq<char>> {
    match re {
        Some(re) => found(re, line),
        None => None,
    }
}

/// What is shown of a matching line. It is undefined for a long line that does not
/// hold the pattern, where there is no room for the dots.
pub open spec fn cleaned(
    line: Seq<char>,
    max_len: int,
    re: Option<regex::Regex>,
    pattern: Seq<char>,
) -> Option<Seq<char>> {
    let line = text::trimmed(line);
    shortened(line, context_in(re, line), lowercase(line), lowercase(pattern), max_len)
}

/// The expression behind a reference.
pub open spec fn expression(re: Option<&regex::Regex>) -> Option<regex::Regex> {
    match re {
        Some(re) => Some(*re),
        None => None,
    }
}

/// What an expression finds in a string, if there is an expression.
fn find_context<'h>(re: Option<&regex::Regex>, line: &'h str) -> (r: Option<&'h str>)
    ensures
        match r {
            Some(part) => context_in(expression(re), line@) == Some(part@),
            None => context_in(expression(re), line@) is None,
        },
{
    match re {
        Some(re) => find_match(re, line),
        None => None,
    }
}

/// What is shown uncut, if anything is.
pub fn show_whole<'a>(line: &'a str, context: Option<&'a str>, max_len: usize) -> (r: Option<
    &'a str,
>)
    ensures
        ({
            let context = match context {
                Some(part) => Some(part@),
                None => None,
            };
            match r {
                Some(whole) => shown_whole(line@, context, max_len as int) == Some(whole@),
                None => shown_whole(line@, context, max_len as int) is None,
            }
        }),
{
    if let Some(part) = context {
        if text::byte_count(part) <= max_len {
            return Some(part);
        }
    }
    if text::byte_count(line) <= max_len {
        return Some(line);
    }
    None
}

/// A long line cut around the place where its lower-case form holds that of the
/// pattern, or else at its end.
pub fn cut_line(line: &str, lower: &str, pattern_lower: &str, max_len: usize) -> (r: String)
    requires
        cut(line@, lower@, pattern_lower@, max_len as int) is Some,
    ensures
        cut(line@, lower@, pattern_lower@, max_len as int) == Some(r@),
{
    let chars = text::chars_of(line);
    let len = chars.len();
    if let Some(hit) = text::find(lower, pattern_lower) {
        let third: usize = max_len / 3;
        let wanted: usize = if hit <= third {
            0
        } else {
            hit - third
        };
        let start: usize;
        let end: usize;
        if max_len < len {
            if wanted < len - max_len {
                start = wanted;
                end = wanted + max_len;
            } else {
                start = len - max_len;
                end = len;
            }
        } else {
            start = 0;
            end = len;
        }
        let part = text::text_of(&chars, start, end);
        let mut out = String::new();
        if start > 0 {
            out.append("...");
        }
        out.append(part.as_str());
        if start == 0 || end < len {
            out.append("...");
        }
        assert(out@ =~= cut_around(line@, hit as int, max_len as int));
        out
    } else {
        let kept: usize = if max_len - 3 < len {
            max_len - 3
        } else {
            len
        };
        assert(chars@.subrange(0, kept as int) =~= line@.take(kept as int));
        text::concat(text::text_of(&chars, 0, kept).as_str(), "...")
    }
}

/// What is shown of a matching line.
pub fn clean_line(
    line: &str,
    max_len: usize,
    context_re: Option<&regex::Regex>,
    pattern: &str,
) -> (r: String)
    requires
        cleaned(line@, max_len as int, expression(context_re), pattern@) is Some,
    ensures
        cleaned(line@, max_len as int, expression(context_re), pattern@) == Some(r@),
{
    let line = text::trim(line);
    match show_whole(line, find_context(context_re, line), max_len) {
        Some(whole) => whole.to_string(),
        None => cut_line(
            line,
            line.to_lowercase().as_str(),
            pattern.to_lowercase().as_str(),
            max_len,
        ),
    }
}

/// What is shown of a matching line: nothing where that is undefined.
pub fn try_clean_line(
    line: &str,
    max_len: usize,
    context_re: Option<&regex::Regex>,
    pattern: &str,
) -> (r: Option<String>)
    ensures
        match r {
            Some(shown) => cleaned(line@, max_len as int, expression(context_re), pattern@) == Some(
                shown@,
            ),
            None => cleaned(line@, max_len as int, expression(context_re), pattern@) is None,
        },
{
    if max_len < 3 {
        let bare = text::trim(line);
        if show_whole(bare, find_context(context_re, bare), max_len).is_none() && text::find(
            bare.to_lowercase().as_str(),
            pattern.to_lowercase().as_str(),
        ).is_none() {
            return None;
        }
    }
    Some(clean_line(line, max_len, context_re, pattern))
}

} // verus!
