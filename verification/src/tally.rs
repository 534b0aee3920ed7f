//! Counting how often each format was detected, and picking the winner.

use vstd::prelude::*;
use crate::format::ListingFormat;

verus! {

/// Whether `format` wins a vote in which each format got `votes[format]`
/// votes: it has at least one vote, no format has more, and every format
/// with as many comes later in the order of preference.
pub open spec fn spec_wins(votes: Map<ListingFormat, nat>, format: ListingFormat) -> bool {
    &&& votes[format] > 0
    &&& forall|other: ListingFormat| #[trigger] votes[other] <= votes[format]
    &&& forall|other: ListingFormat|
        #[trigger] votes[other] == votes[format] ==> format.spec_rank() <= other.spec_rank()
}

/// Whether no format got a vote.
pub open spec fn spec_no_votes(votes: Map<ListingFormat, nat>) -> bool {
    forall|format: ListingFormat| #[trigger] votes[format] == 0
}

/// The winner of a vote: the format with the most votes, none if nobody
/// voted. Among formats with equally many votes the first in the order of
/// preference wins: `NumberAndX` before `NumberOnly` before `Plain`.
pub open spec fn spec_plurality(votes: Map<ListingFormat, nat>) -> Option<ListingFormat> {
    let number_and_x = votes[ListingFormat::NumberAndX];
    let number_only = votes[ListingFormat::NumberOnly];
    let plain = votes[ListingFormat::Plain];
    if number_and_x == 0 && number_only == 0 && plain == 0 {
        None
    } else if number_and_x >= number_only && number_and_x >= plain {
        Some(ListingFormat::NumberAndX)
    } else if number_only >= plain {
        Some(ListingFormat::NumberOnly)
    } else {
        Some(ListingFormat::Plain)
    }
}

/// How many lines were detected in each format.
#[derive(Clone, Copy, Debug, PartialEq, Eq, Structural)]
pub struct FormatTally {
    pub number_and_x: usize,
    pub number_only: usize,
    pub plain: usize,
}

impl View for FormatTally {
    type V = Map<ListingFormat, nat>;

    /// The tally as a map from every format to its count.
    open spec fn view(&self) -> Map<ListingFormat, nat> {
        Map::total(
            |format: ListingFormat|
                match format {
                    ListingFormat::NumberAndX => self.number_and_x as nat,
                    ListingFormat::NumberOnly => self.number_only as nat,
                    ListingFormat::Plain => self.plain as nat,
                },
        )
    }
}

impl FormatTally {
    /// The tally in which nothing is counted yet.
    pub fn new() -> (tally: FormatTally)
        ensures
            tally@ == Map::total(|format: ListingFormat| 0nat),
    {
        let tally = FormatTally { number_and_x: 0, number_only: 0, plain: 0 };
        assert(tally@ =~= Map::total(|format: ListingFormat| 0nat));
        tally
    }

    /// The number of lines counted for `format`.
    pub fn count(&self, format: ListingFormat) -> (count: usize)
        ensures
            count == self@[format],
    {
        match format {
            ListingFormat::NumberAndX => self.number_and_x,
            ListingFormat::NumberOnly => self.number_only,
            ListingFormat::Plain => self.plain,
        }
    }

    /// Counts one more line for `format`.
    pub fn record(&mut self, format: ListingFormat)
        requires
            old(self)@[format] < usize::MAX,
        ensures
            final(self)@ == old(self)@.insert(format, old(self)@[format] + 1),
    {
        match format {
            ListingFormat::NumberAndX => {
                self.number_and_x = self.number_and_x + 1;
            },
            ListingFormat::NumberOnly => {
                self.number_only = self.number_only + 1;
            },
            ListingFormat::Plain => {
                self.plain = self.plain + 1;
            },
        }
        assert(self@ =~= old(self)@.insert(format, old(self)@[format] + 1));
    }

    /// The format counted most often, if any line was counted.
    ///
    /// Among formats counted equally often the one that comes first in the
    /// order of preference wins: `NumberAndX` before `NumberOnly` before
    /// `Plain`.
    pub fn most_common(&self) -> (winner: Option<ListingFormat>)
        ensures
            winner == spec_plurality(self@),
            winner is None <==> spec_no_votes(self@),
            winner matches Some(format) ==> spec_wins(self@, format),
    {
        proof {
            lemma_plurality_wins(self@);
        }
        let x = self.number_and_x;
        let n = self.number_only;
        let p = self.plain;
        if x == 0 && n == 0 && p == 0 {
            None
        } else if x >= n && x >= p {
            Some(ListingFormat::NumberAndX)
        } else if n >= p {
            Some(ListingFormat::NumberOnly)
        } else {
            Some(ListingFormat::Plain)
        }
    }
}

/// The plurality names exactly the format that wins the vote, and names
/// none exactly when nobody voted.
pub proof fn lemma_plurality_wins(votes: Map<ListingFormat, nat>)
    ensures
        spec_plurality(votes) is None <==> spec_no_votes(votes),
        forall|format: ListingFormat|
            spec_plurality(votes) == Some(format) <==> #[trigger] spec_wins(votes, format),
{
    let x = votes[ListingFormat::NumberAndX];
    let n = votes[ListingFormat::NumberOnly];
    let p = votes[ListingFormat::Plain];
    assert forall|format: ListingFormat|
        spec_plurality(votes) == Some(format) <==> #[trigger] spec_wins(votes, format) by {
        if spec_wins(votes, format) {
            assert(x <= votes[format] && n <= votes[format] && p <= votes[format]);
            assert(x == votes[format] ==> format.spec_rank()
                <= ListingFormat::NumberAndX.spec_rank());
            assert(n == votes[format] ==> format.spec_rank()
                <= ListingFormat::NumberOnly.spec_rank());
        }
    }
}

/// At most one format wins a vote: ties are always resolved.
pub proof fn lemma_winner_is_unique(
    votes: Map<ListingFormat, nat>,
    a: ListingFormat,
    b: ListingFormat,
)
    requires
        spec_wins(votes, a),
        spec_wins(votes, b),
    ensures
        a == b,
{
    lemma_plurality_wins(votes);
}

} // verus!
