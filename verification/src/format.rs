//! The listing formats and the pattern that recognises each of them.

use vstd::prelude::*;

verus! {

/// The convention in which one line of a card list is written.
///
/// The declaration order is also the order of preference: it is the order in
/// which the patterns are tried on a line, and the order in which a tie
/// between equally common formats is resolved.
#[derive(Clone, Copy, Debug, PartialEq, Eq, Hash, Structural)]
pub enum ListingFormat {
    /// A quantity directly followed by `x` or `X`, e.g. `4x Chandra's Spitfire`.
    NumberAndX,
    /// A quantity followed by whitespace, e.g. `4 Chandra's Spitfire`.
    NumberOnly,
    /// The card's name alone, e.g. `Chandra's Spitfire`.
    Plain,
}

/// The outcome of a classification that recognised no format.
#[derive(Clone, Copy, Debug, PartialEq, Eq, Structural)]
pub struct NoMatch;

impl ListingFormat {
    /// The regular expression that recognises this format, as text.
    ///
    /// Every pattern is anchored at the start of the line, so a line is
    /// recognised by how it begins: one or more digits and an `x`; one or
    /// more digits and whitespace; or a first character that is neither a
    /// digit nor whitespace.
    pub open spec fn spec_pattern(self) -> Seq<char> {
        match self {
            ListingFormat::NumberAndX => r"^\d+[xX].*"@,
            ListingFormat::NumberOnly => r"^\d+\s+.*"@,
            ListingFormat::Plain => r"^[^\d\s]"@,
        }
    }

    /// The regular expression that recognises this format.
    pub fn pattern(self) -> (pattern: &'static str)
        ensures
            pattern@ == self.spec_pattern(),
    {
        match self {
            ListingFormat::NumberAndX => r"^\d+[xX].*",
            ListingFormat::NumberOnly => r"^\d+\s+.*",
            ListingFormat::Plain => r"^[^\d\s]",
        }
    }

    /// The position of this format in the order of preference.
    pub open spec fn spec_rank(self) -> nat {
        match self {
            ListingFormat::NumberAndX => 0,
            ListingFormat::NumberOnly => 1,
            ListingFormat::Plain => 2,
        }
    }
}

} // verus!
