//! Durations as people write them: `2h 37min` read into seconds and
//! nanoseconds, and a duration written back in the same vocabulary.
//!
//! [`parse_duration`] reads a text, [`format_duration`] wraps a duration for
//! writing. What they do is stated over sequences of characters in
//! [`grammar`] and [`format`], and [`laws`] holds what is proved of the two
//! together: a text of well-formed tokens reads as the sum of its tokens, and
//! a written duration reads back as itself.
pub mod duration;
pub mod error;
pub mod format;
pub mod grammar;
pub mod laws;
pub mod offsets;
pub mod parse;
pub mod text;
pub mod units;

pub use duration::Duration;
pub use error::Error;
pub use format::{format_duration, FormattedDuration};
pub use parse::parse_duration;
