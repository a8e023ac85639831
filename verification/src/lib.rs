//! A verified parser and renderer for the `time.txt` plain-text
//! time-tracking format.
//!
//! The format is line oriented: `//` comment lines and blank lines are
//! skipped, a `YYYY-MM-DD` line opens a date block, and every other
//! (long enough) line is an entry `H:MM H:MM description` recorded under
//! the most recent date.

pub mod laws;
pub mod model;
pub mod parse;
pub mod render;
pub mod text;

pub use model::ClockTime;
pub use parse::find_duration;
pub use parse::parse_time;
pub use model::Date;
pub use model::DateBlock;
pub use model::Duration;
pub use model::Time;
pub use model::TimeEntry;
pub use model::TimeError;
