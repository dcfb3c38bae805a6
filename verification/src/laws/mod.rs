//! What holds of the library as a whole: each `law_` function states one law, over
//! the specification functions that the contracts of the executable functions use.

pub mod arguments;
pub mod backends;
pub mod command_line;
pub mod lines;
pub mod listings;
pub mod runs;
pub mod texts;
pub mod views;
