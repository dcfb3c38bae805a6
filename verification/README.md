# grep_cmd

A grep front end for readers with little room. A command line in the words of grep
becomes a ripgrep search, with plain grep as the fallback, and what the search prints
is condensed: matches are grouped by file, long lines are cut around the pattern, and
the number of lines is capped, per file and in all.

The library (`src/`) is written in Verus. It decides what is called and what is
printed, and every function of it has a contract that Verus proves:

- `args` reads the command line,
- `backend` builds the arguments for ripgrep and for grep,
- `match_line` reads the lines that a backend prints,
- `clean` makes a matching line short,
- `report` groups the matches and writes the listing,
- `run` leads from the command line to the report, one answer of a program at a time,
- `text` holds the operations on strings that the others are built on,
- `laws` states what holds of the library as a whole.

`app/` calls the programs, prints, and keeps the record of a run. It is ordinary Rust.

Not proved, but taken from the documentation of the functions: what `String::push`,
`str::to_lowercase`, `regex::Regex::new`, `regex::Regex::find` and `regex::escape` do.
Each is declared with its contract where it is used.
