//! Classification of a single line, and of a whole text by plurality vote.

use vstd::prelude::*;
use crate::format::{ListingFormat, NoMatch};
use crate::tally::{lemma_plurality_wins, spec_no_votes, spec_plurality, spec_wins, FormatTally};
use crate::text::{
    contains_newline, lemma_normalize_tabs_idempotent, lemma_split_lines_concat,
    lemma_split_lines_single, normalize_tabs, spec_contents, spec_normalize_tabs,
    spec_split_lines, split_lines,
};

verus! {

/// The format of a line, given which of the three patterns it matches: the
/// first that matches, in the order `NumberAndX`, `NumberOnly`, `Plain`.
pub open spec fn spec_select_format(number_and_x: bool, number_only: bool, plain: bool) -> Result<
    ListingFormat,
    NoMatch,
> {
    if number_and_x {
        Ok(ListingFormat::NumberAndX)
    } else if number_only {
        Ok(ListingFormat::NumberOnly)
    } else if plain {
        Ok(ListingFormat::Plain)
    } else {
        Err(NoMatch)
    }
}

/// Picks the format of a line from the outcome of the three pattern tests.
pub fn select_format(number_and_x: bool, number_only: bool, plain: bool) -> (format: Result<
    ListingFormat,
    NoMatch,
>)
    ensures
        format == spec_select_format(number_and_x, number_only, plain),
{
    if number_and_x {
        Ok(ListingFormat::NumberAndX)
    } else if number_only {
        Ok(ListingFormat::NumberOnly)
    } else if plain {
        Ok(ListingFormat::Plain)
    } else {
        Err(NoMatch)
    }
}

/// Whether `line`, its tabs counted as spaces, matches the pattern of
/// `format`.
pub open spec fn spec_fits(line: Seq<char>, format: ListingFormat) -> bool {
    format.spec_is_match(spec_normalize_tabs(line))
}

/// The format of one line: tabs count as spaces, and the first pattern that
/// matches decides.
pub open spec fn spec_classify_line(line: Seq<char>) -> Result<ListingFormat, NoMatch> {
    spec_select_format(
        spec_fits(line, ListingFormat::NumberAndX),
        spec_fits(line, ListingFormat::NumberOnly),
        spec_fits(line, ListingFormat::Plain),
    )
}

/// Detects the format in which one line is written.
///
/// A line that matches the pattern of `NumberAndX` is in that format. One
/// that does not, but matches the pattern of `NumberOnly`, is in that
/// format. One that matches neither of them, but the pattern of `Plain`, is
/// in that format. A line that matches none of the three patterns is in no
/// format, and `NoMatch` is returned.
pub fn classify_line(line: &str) -> (format: Result<ListingFormat, NoMatch>)
    ensures
        format == spec_classify_line(line@),
        spec_fits(line@, ListingFormat::NumberAndX) ==> format == Ok::<ListingFormat, NoMatch>(
            ListingFormat::NumberAndX,
        ),
        spec_fits(line@, ListingFormat::NumberOnly) && !spec_fits(line@, ListingFormat::NumberAndX)
            ==> format == Ok::<ListingFormat, NoMatch>(ListingFormat::NumberOnly),
        spec_fits(line@, ListingFormat::Plain) && !spec_fits(line@, ListingFormat::NumberAndX)
            && !spec_fits(line@, ListingFormat::NumberOnly) ==> format == Ok::<
            ListingFormat,
            NoMatch,
        >(ListingFormat::Plain),
        format is Err <==> forall|candidate: ListingFormat| !#[trigger] spec_fits(line@, candidate),
        format matches Ok(detected) ==> spec_fits(line@, detected),
{
    let normalized = normalize_tabs(line);
    let number_and_x = ListingFormat::NumberAndX.is_match(normalized.as_str());
    let number_only = !number_and_x && ListingFormat::NumberOnly.is_match(normalized.as_str());
    let plain = !number_and_x && !number_only && ListingFormat::Plain.is_match(
        normalized.as_str(),
    );
    select_format(number_and_x, number_only, plain)
}

/// Whether no line of `lines` is written in any format.
pub open spec fn spec_all_unclassified(lines: Seq<Seq<char>>) -> bool {
    forall|i: int| 0 <= i < lines.len() ==> (#[trigger] spec_classify_line(lines[i])) is Err
}

/// The number of `lines` that are classified as `format`. A line that is
/// not classified counts for no format.
pub open spec fn spec_votes(lines: Seq<Seq<char>>, format: ListingFormat) -> nat {
    lines.filter(
        |line: Seq<char>| spec_classify_line(line) == Ok::<ListingFormat, NoMatch>(format),
    ).len()
}

/// The votes of `lines`, format by format.
pub open spec fn spec_tally(lines: Seq<Seq<char>>) -> Map<ListingFormat, nat> {
    Map::total(|format: ListingFormat| spec_votes(lines, format))
}

/// Classifies every line on its own and counts the formats that were
/// detected.
pub fn tally_lines(lines: &Vec<String>) -> (tally: FormatTally)
    ensures
        tally@ == spec_tally(spec_contents(lines@)),
{
    let mut tally = FormatTally::new();
    let ghost all = spec_contents(lines@);
    proof {
        assert forall|format: ListingFormat| #[trigger] spec_votes(all.take(0), format) == 0 by {
            lemma_votes_bounded(all.take(0), format);
        }
        assert(tally@ =~= spec_tally(all.take(0)));
    }
    for i in 0..lines.len()
        invariant
            all == spec_contents(lines@),
            tally@ == spec_tally(all.take(i as int)),
    {
        let ghost seen = all.take(i as int);
        let detected = classify_line(lines[i].as_str());
        proof {
            assert(all.take(i + 1) == seen.push(all[i as int]));
            assert forall|format: ListingFormat|
                spec_votes(seen.push(all[i as int]), format) == #[trigger] spec_votes(seen, format)
                    + (if detected == Ok::<ListingFormat, NoMatch>(format) {
                    1nat
                } else {
                    0nat
                }) && spec_votes(seen, format) <= i by {
                lemma_votes_push(seen, all[i as int], format);
                lemma_votes_bounded(seen, format);
            }
        }
        match detected {
            Ok(format) => {
                assert(tally@[format] == spec_votes(seen, format));
                tally.record(format);
            },
            Err(_) => {},
        }
        assert(tally@ =~= spec_tally(all.take(i + 1)));
    }
    assert(all.take(lines.len() as int) == all);
    tally
}

/// The outcome of the vote of `lines`: each line votes for its own format,
/// lines without one abstain, and the format with the most votes wins.
/// Among formats with equally many votes the first in the order of
/// preference wins. Without a single vote there is no winner.
pub open spec fn spec_vote(lines: Seq<Seq<char>>) -> Result<ListingFormat, NoMatch> {
    match spec_plurality(spec_tally(lines)) {
        Some(winner) => Ok(winner),
        None => Err(NoMatch),
    }
}

/// The format of a whole text: that of its only line where it has no line
/// break, and the outcome of the vote of its lines where it has one.
pub open spec fn spec_classify_text(text: Seq<char>) -> Result<ListingFormat, NoMatch> {
    if !text.contains('\n') {
        spec_classify_line(text)
    } else {
        spec_vote(spec_split_lines(text))
    }
}

/// Detects the format in which a card list is written.
///
/// Returns `NoMatch` when no line of the text is written in any format.
pub fn classify_text(text: &str) -> (format: Result<ListingFormat, NoMatch>)
    ensures
        format == spec_classify_text(text@),
        format == spec_vote(spec_split_lines(text@)),
        format is Err <==> spec_all_unclassified(spec_split_lines(text@)),
        format matches Ok(winner) ==> spec_wins(spec_tally(spec_split_lines(text@)), winner),
{
    proof {
        lemma_classify_text_is_vote(text@);
        lemma_vote_outcome(spec_split_lines(text@));
    }
    if contains_newline(text) {
        let lines = split_lines(text);
        let tally = tally_lines(&lines);
        match tally.most_common() {
            Some(winner) => Ok(winner),
            None => Err(NoMatch),
        }
    } else {
        classify_line(text)
    }
}

/// Classifying a line a second time gives the same answer: the answer
/// depends on nothing but the characters of the line.
pub proof fn lemma_classify_line_repeatable(line: Seq<char>, again: Seq<char>)
    requires
        line =~= again,
    ensures
        spec_classify_line(line) == spec_classify_line(again),
{
}

/// A line whose tabs were already replaced by spaces is classified as the
/// line itself.
pub proof fn lemma_classify_line_ignores_tabs(line: Seq<char>)
    ensures
        spec_classify_line(spec_normalize_tabs(line)) == spec_classify_line(line),
{
    lemma_normalize_tabs_idempotent(line);
}

/// The votes of two lists of lines add up.
pub proof fn lemma_votes_add(first: Seq<Seq<char>>, second: Seq<Seq<char>>, format: ListingFormat)
    ensures
        spec_votes(first + second, format) == spec_votes(first, format) + spec_votes(
            second,
            format,
        ),
{
    let pred = |line: Seq<char>| spec_classify_line(line) == Ok::<ListingFormat, NoMatch>(format);
    Seq::filter_distributes_over_add(first, second, pred);
}

/// One more line gives one more vote to its own format, and to no other.
pub proof fn lemma_votes_push(lines: Seq<Seq<char>>, line: Seq<char>, format: ListingFormat)
    ensures
        spec_votes(lines.push(line), format) == spec_votes(lines, format) + (if spec_classify_line(
            line,
        ) == Ok::<ListingFormat, NoMatch>(format) {
            1nat
        } else {
            0nat
        }),
{
    let pred = |line: Seq<char>| spec_classify_line(line) == Ok::<ListingFormat, NoMatch>(format);
    lines.lemma_filter_len_push(pred, line);
}

/// No format has more votes than there are lines.
pub proof fn lemma_votes_bounded(lines: Seq<Seq<char>>, format: ListingFormat)
    ensures
        spec_votes(lines, format) <= lines.len(),
{
    let pred = |line: Seq<char>| spec_classify_line(line) == Ok::<ListingFormat, NoMatch>(format);
    lines.lemma_filter_len(pred);
}

/// Lines that are written in no format give no vote to any format.
pub proof fn lemma_unclassified_no_votes(lines: Seq<Seq<char>>, format: ListingFormat)
    requires
        spec_all_unclassified(lines),
    ensures
        spec_votes(lines, format) == 0,
    decreases lines.len(),
{
    if lines.len() > 0 {
        let before = lines.drop_last();
        assert forall|i: int| 0 <= i < before.len() implies (#[trigger] spec_classify_line(
            before[i],
        )) is Err by {
            assert(before[i] == lines[i]);
        }
        lemma_unclassified_no_votes(before, format);
        assert(spec_classify_line(lines[lines.len() - 1]) is Err);
        lemma_votes_push(before, lines.last(), format);
        assert(before.push(lines.last()) =~= lines);
    } else {
        lemma_votes_bounded(lines, format);
    }
}

/// A format without a vote is the format of no line.
pub proof fn lemma_no_votes_no_line(lines: Seq<Seq<char>>, format: ListingFormat, i: int)
    requires
        spec_votes(lines, format) == 0,
        0 <= i < lines.len(),
    ensures
        spec_classify_line(lines[i]) != Ok::<ListingFormat, NoMatch>(format),
{
    let pred = |line: Seq<char>| spec_classify_line(line) == Ok::<ListingFormat, NoMatch>(format);
    if pred(lines[i]) {
        lines.lemma_filter_contains(pred, i);
        assert(lines.filter(pred).contains(lines[i]));
        assert(lines.filter(pred).len() > 0);
    }
}

/// The vote is won by the format with the most votes, the earlier one in
/// the order of preference on a tie, and it fails exactly when no line is
/// written in any format.
pub proof fn lemma_vote_outcome(lines: Seq<Seq<char>>)
    ensures
        spec_vote(lines) is Err <==> spec_all_unclassified(lines),
        forall|format: ListingFormat|
            spec_vote(lines) == Ok::<ListingFormat, NoMatch>(format) <==> #[trigger] spec_wins(
                spec_tally(lines),
                format,
            ),
{
    lemma_plurality_wins(spec_tally(lines));
    if spec_all_unclassified(lines) {
        assert forall|format: ListingFormat| #[trigger] spec_tally(lines)[format] == 0 by {
            lemma_unclassified_no_votes(lines, format);
        }
    }
    if spec_no_votes(spec_tally(lines)) {
        assert forall|i: int| 0 <= i < lines.len() implies (#[trigger] spec_classify_line(
            lines[i],
        )) is Err by {
            assert(spec_tally(lines)[ListingFormat::NumberAndX] == 0);
            assert(spec_tally(lines)[ListingFormat::NumberOnly] == 0);
            assert(spec_tally(lines)[ListingFormat::Plain] == 0);
            lemma_no_votes_no_line(lines, ListingFormat::NumberAndX, i);
            lemma_no_votes_no_line(lines, ListingFormat::NumberOnly, i);
            lemma_no_votes_no_line(lines, ListingFormat::Plain, i);
        }
    }
}

/// A text is always classified by the vote of its lines: for a text of one
/// line the vote and the line's own classification agree.
pub proof fn lemma_classify_text_is_vote(text: Seq<char>)
    ensures
        spec_classify_text(text) == spec_vote(spec_split_lines(text)),
{
    if !text.contains('\n') {
        lemma_split_lines_single(text);
        let none = Seq::<Seq<char>>::empty();
        assert(none.push(text) =~= seq![text]);
        assert forall|format: ListingFormat|
            #[trigger] spec_tally(seq![text])[format] == (if spec_classify_line(text) == Ok::<
                ListingFormat,
                NoMatch,
            >(format) {
                1nat
            } else {
                0nat
            }) by {
            lemma_votes_push(none, text, format);
            lemma_votes_bounded(none, format);
        }
        assert(spec_tally(seq![text])[ListingFormat::NumberAndX] <= 1);
        assert(spec_tally(seq![text])[ListingFormat::NumberOnly] <= 1);
        assert(spec_tally(seq![text])[ListingFormat::Plain] <= 1);
    }
}

/// The vote does not depend on the order in which the lines come.
pub proof fn lemma_vote_ignores_order(first: Seq<Seq<char>>, second: Seq<Seq<char>>)
    ensures
        spec_tally(first + second) == spec_tally(second + first),
        spec_vote(first + second) == spec_vote(second + first),
{
    assert forall|format: ListingFormat| #[trigger]
        spec_votes(first + second, format) == spec_votes(second + first, format) by {
        lemma_votes_add(first, second, format);
        lemma_votes_add(second, first, format);
    }
    assert(spec_tally(first + second) =~= spec_tally(second + first));
}

/// Lines that are written in no format do not take part in the vote:
/// leaving them out changes nothing.
pub proof fn lemma_unclassified_lines_abstain(
    first: Seq<Seq<char>>,
    skipped: Seq<Seq<char>>,
    second: Seq<Seq<char>>,
)
    requires
        spec_all_unclassified(skipped),
    ensures
        spec_tally(first + skipped + second) == spec_tally(first + second),
        spec_vote(first + skipped + second) == spec_vote(first + second),
{
    assert forall|format: ListingFormat| #[trigger]
        spec_votes(first + skipped + second, format) == spec_votes(first + second, format) by {
        lemma_votes_add(first + skipped, second, format);
        lemma_votes_add(first, skipped, format);
        lemma_votes_add(first, second, format);
        lemma_unclassified_no_votes(skipped, format);
    }
    assert(spec_tally(first + skipped + second) =~= spec_tally(first + second));
}

/// A passage of a text in which no line is written in any format can be
/// cut out without changing how the text is classified.
pub proof fn lemma_unclassified_passage_ignored(
    first: Seq<char>,
    passage: Seq<char>,
    second: Seq<char>,
)
    requires
        spec_all_unclassified(spec_split_lines(passage)),
    ensures
        spec_classify_text(first.push('\n') + passage.push('\n') + second) == spec_classify_text(
            first.push('\n') + second,
        ),
{
    let long = first.push('\n') + passage.push('\n') + second;
    let short = first.push('\n') + second;
    lemma_classify_text_is_vote(long);
    lemma_classify_text_is_vote(short);
    assert(long =~= (first.push('\n') + passage).push('\n') + second);
    lemma_split_lines_concat(first.push('\n') + passage, second);
    lemma_split_lines_concat(first, passage);
    lemma_split_lines_concat(first, second);
    lemma_unclassified_lines_abstain(
        spec_split_lines(first),
        spec_split_lines(passage),
        spec_split_lines(second),
    );
}

} // verus!
