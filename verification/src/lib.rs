//! Turns a grep command line into a ripgrep search (with plain grep as the
//! fallback) and condenses what the search prints: matches are grouped by file,
//! long lines are cut, and the number of lines shown is capped.

pub mod args;
pub mod backend;
pub mod clean;
pub mod laws;
pub mod match_line;
pub mod report;
pub mod run;
pub mod text;

pub use run::run_from_args;
