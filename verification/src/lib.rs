//! Detection of the convention in which a list of trading cards is written.
//!
//! A card list names one card per line. Three conventions are recognised:
//! a quantity followed by `x` (`4x Chandra's Spitfire`), a bare quantity
//! (`4 Chandra's Spitfire`), and the card's name alone
//! (`Chandra's Spitfire`). [`classify_line`] decides which one a single line
//! follows; [`classify_text`] decides for a whole list by plurality vote.

pub mod classify;
pub mod format;
pub mod matching;
pub mod tally;
pub mod text;

pub use classify::{classify_line, classify_text};
pub use format::{ListingFormat, NoMatch};
pub use tally::FormatTally;
