//! Matching a line against a format's pattern with the `regex` crate.

use vstd::prelude::*;
use crate::format::ListingFormat;

verus! {

/// An error of the `regex` crate: why a pattern could not be compiled.
#[verifier::external_type_specification]
#[verifier::external_body]
pub struct ExRegexError(regex::Error);

/// Whether `regex::Regex::new` accepts `pattern`.
pub uninterp spec fn pattern_compiles(pattern: Seq<char>) -> bool;

/// Whether the regular expression compiled from `pattern` has a match
/// somewhere in `haystack`, as `regex::Regex::is_match` reports it.
pub uninterp spec fn pattern_found(pattern: Seq<char>, haystack: Seq<char>) -> bool;

/// Compiles `pattern` with `regex::Regex::new` and searches `haystack` with
/// `regex::Regex::is_match`.
///
/// Nothing is proved of this function. Its contract says that the call
/// fails exactly when the pattern is not accepted, and otherwise reports
/// what the search found; what a pattern means is left to the `regex`
/// crate, and appears in contracts only under the two names above.
#[verifier::external_body]
fn search(pattern: &str, haystack: &str) -> (found: Result<bool, regex::Error>)
    ensures
        found is Ok <==> pattern_compiles(pattern@),
        found matches Ok(b) ==> b == pattern_found(pattern@, haystack@),
{
    match regex::Regex::new(pattern) {
        Ok(re) => Ok(re.is_match(haystack)),
        Err(e) => Err(e),
    }
}

impl ListingFormat {
    /// Whether `line` is written in this format: the format's pattern is a
    /// valid regular expression and is found in the line.
    pub open spec fn spec_is_match(self, line: Seq<char>) -> bool {
        pattern_compiles(self.spec_pattern()) && pattern_found(self.spec_pattern(), line)
    }

    /// Tests `line` against this format's pattern.
    ///
    /// A pattern that the regular expression engine refuses matches no line.
    pub fn is_match(self, line: &str) -> (matched: bool)
        ensures
            matched == self.spec_is_match(line@),
    {
        match search(self.pattern(), line) {
            Ok(found) => found,
            Err(_) => false,
        }
    }
}

} // verus!
