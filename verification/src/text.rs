//! Plain text handling: tab normalisation and splitting into lines.

use vstd::prelude::*;

verus! {

/// `String::push` appends one character at the end of the string.
pub assume_specification[ String::push ](s: &mut String, c: char)
    ensures
        final(s)@ == old(s)@.push(c),
;

/// A tab becomes a space; every other character stays as it is.
pub open spec fn spec_untab(c: char) -> char {
    if c == '\t' {
        ' '
    } else {
        c
    }
}

/// The line with every tab replaced by a single space.
pub open spec fn spec_normalize_tabs(line: Seq<char>) -> Seq<char> {
    Seq::new(line.len(), |i: int| spec_untab(line[i]))
}

/// Replaces every tab of `line` by a single space.
pub fn normalize_tabs(line: &str) -> (normalized: String)
    ensures
        normalized@ == spec_normalize_tabs(line@),
{
    let mut normalized = String::new();
    for c in it: line.chars()
        invariant
            it.seq() == line@,
            normalized@ == spec_normalize_tabs(line@.take(it.index())),
    {
        assert(line@.take(it.index() + 1) == line@.take(it.index()).push(c));
        if c == '\t' {
            normalized.push(' ');
        } else {
            normalized.push(c);
        }
        assert(normalized@ =~= spec_normalize_tabs(line@.take(it.index() + 1)));
    }
    assert(line@.take(line@.len() as int) == line@);
    normalized
}

/// Whether `text` holds a line break.
pub fn contains_newline(text: &str) -> (found: bool)
    ensures
        found == text@.contains('\n'),
{
    let mut found = false;
    for c in it: text.chars()
        invariant
            it.seq() == text@,
            found == text@.take(it.index()).contains('\n'),
    {
        assert(text@.take(it.index() + 1) == text@.take(it.index()).push(c));
        if c == '\n' {
            found = true;
        }
        assert(text@.take(it.index() + 1).last() == c);
        assert(found == text@.take(it.index() + 1).contains('\n')) by {
            let before = text@.take(it.index());
            let after = before.push(c);
            if before.contains('\n') {
                let k = choose|k: int| 0 <= k < before.len() && before[k] == '\n';
                assert(after[k] == '\n');
            }
            if c == '\n' {
                assert(after[after.len() - 1] == '\n');
            }
        }
    }
    assert(text@.take(text@.len() as int) == text@);
    found
}

/// The lines of `text`: the pieces between its line breaks, in order.
///
/// A text without a line break is one line, the empty text included; a line
/// break at the very end is followed by one more, empty line.
pub open spec fn spec_split_lines(text: Seq<char>) -> Seq<Seq<char>>
    decreases text.len(),
{
    if text.len() == 0 {
        seq![Seq::empty()]
    } else {
        let before = spec_split_lines(text.drop_last());
        if text.last() == '\n' {
            before.push(Seq::empty())
        } else {
            before.drop_last().push(before.last().push(text.last()))
        }
    }
}

/// The contents of a list of strings.
pub open spec fn spec_contents(lines: Seq<String>) -> Seq<Seq<char>> {
    Seq::new(lines.len(), |i: int| lines[i]@)
}

/// Splits `text` at its line breaks.
///
/// The lines are the one way to cut the text into pieces without a line
/// break that give the text back when joined by line breaks.
pub fn split_lines(text: &str) -> (lines: Vec<String>)
    ensures
        spec_contents(lines@) == spec_split_lines(text@),
        lines@.len() >= 1,
        forall|i: int| 0 <= i < lines@.len() ==> !(#[trigger] lines@[i])@.contains('\n'),
        spec_join_lines(spec_contents(lines@)) == text@,
{
    proof {
        lemma_split_lines_shape(text@);
        lemma_join_of_split(text@);
    }
    let mut lines: Vec<String> = Vec::new();
    let mut current = String::new();
    for c in it: text.chars()
        invariant
            it.seq() == text@,
            spec_contents(lines@).push(current@) == spec_split_lines(text@.take(it.index())),
    {
        let ghost seen = text@.take(it.index());
        let ghost done = spec_contents(lines@);
        let ghost open = current@;
        assert(text@.take(it.index() + 1) == seen.push(c));
        assert(seen.push(c).drop_last() == seen);
        assert(done.push(open).drop_last() == done);
        if c == '\n' {
            lines.push(current);
            current = String::new();
            assert(spec_contents(lines@) == done.push(open));
        } else {
            current.push(c);
            assert(spec_contents(lines@) == done);
        }
    }
    assert(text@.take(text@.len() as int) == text@);
    let ghost done = spec_contents(lines@);
    lines.push(current);
    assert(spec_contents(lines@) == done.push(current@));
    assert forall|i: int| 0 <= i < lines@.len() implies !(#[trigger] lines@[i])@.contains(
        '\n',
    ) by {
        assert(lines@[i]@ == spec_split_lines(text@)[i]);
    }
    lines
}

/// The lines put together again, with one line break between neighbours.
pub open spec fn spec_join_lines(lines: Seq<Seq<char>>) -> Seq<char>
    decreases lines.len(),
{
    if lines.len() == 0 {
        Seq::empty()
    } else if lines.len() == 1 {
        lines[0]
    } else {
        spec_join_lines(lines.drop_last()).push('\n') + lines.last()
    }
}

/// Replacing tabs a second time changes nothing.
pub proof fn lemma_normalize_tabs_idempotent(line: Seq<char>)
    ensures
        spec_normalize_tabs(spec_normalize_tabs(line)) == spec_normalize_tabs(line),
        spec_normalize_tabs(line).len() == line.len(),
        !spec_normalize_tabs(line).contains('\t'),
{
    assert(spec_normalize_tabs(spec_normalize_tabs(line)) =~= spec_normalize_tabs(line));
}

/// Every text has at least one line, and no line holds a line break.
pub proof fn lemma_split_lines_shape(text: Seq<char>)
    ensures
        spec_split_lines(text).len() >= 1,
        forall|i: int|
            0 <= i < spec_split_lines(text).len() ==> !(#[trigger] spec_split_lines(
                text,
            )[i]).contains('\n'),
    decreases text.len(),
{
    if text.len() > 0 {
        lemma_split_lines_shape(text.drop_last());
        let before = spec_split_lines(text.drop_last());
        let lines = spec_split_lines(text);
        assert forall|i: int| 0 <= i < lines.len() implies !(#[trigger] lines[i]).contains(
            '\n',
        ) by {
            if i < before.len() - 1 {
                assert(lines[i] == before[i]);
            } else if i == before.len() - 1 && text.last() != '\n' {
                let grown = before.last().push(text.last());
                assert(lines[i] == grown);
                if grown.contains('\n') {
                    let k = choose|k: int| 0 <= k < grown.len() && grown[k] == '\n';
                    assert(before.last()[k] == '\n');
                }
            } else if i == before.len() - 1 {
                assert(lines[i] == before[i]);
            }
        }
    }
}

/// A text without a line break is its own single line.
pub proof fn lemma_split_lines_single(text: Seq<char>)
    requires
        !text.contains('\n'),
    ensures
        spec_split_lines(text) == seq![text],
    decreases text.len(),
{
    if text.len() == 0 {
        assert(text =~= Seq::empty());
    } else {
        let shorter = text.drop_last();
        if shorter.contains('\n') {
            let k = choose|k: int| 0 <= k < shorter.len() && shorter[k] == '\n';
            assert(text[k] == '\n');
        }
        assert(text[text.len() - 1] != '\n');
        lemma_split_lines_single(shorter);
        assert(shorter.push(text.last()) =~= text);
        assert(spec_split_lines(text) =~= seq![text]);
    }
}

/// A text with a line break has more than one line.
pub proof fn lemma_split_lines_several(text: Seq<char>)
    requires
        text.contains('\n'),
    ensures
        spec_split_lines(text).len() >= 2,
    decreases text.len(),
{
    let shorter = text.drop_last();
    lemma_split_lines_shape(shorter);
    if text.last() != '\n' {
        let k = choose|k: int| 0 <= k < text.len() && text[k] == '\n';
        assert(shorter[k] == '\n');
        lemma_split_lines_several(shorter);
    }
}

/// Splitting cuts at every line break: the lines of two texts joined by a
/// line break are the lines of the first followed by those of the second.
pub proof fn lemma_split_lines_concat(first: Seq<char>, second: Seq<char>)
    ensures
        spec_split_lines(first.push('\n') + second) == spec_split_lines(first)
            + spec_split_lines(second),
    decreases second.len(),
{
    let whole = first.push('\n') + second;
    if second.len() == 0 {
        assert(whole =~= first.push('\n'));
        assert(whole.drop_last() =~= first);
        assert(spec_split_lines(whole) =~= spec_split_lines(first) + spec_split_lines(second));
    } else {
        let shorter = second.drop_last();
        lemma_split_lines_concat(first, shorter);
        lemma_split_lines_shape(shorter);
        assert(whole.drop_last() =~= first.push('\n') + shorter);
        assert(whole.last() == second.last());
        assert(spec_split_lines(whole) =~= spec_split_lines(first) + spec_split_lines(second));
    }
}

/// Joining the lines of a text gives the text back.
pub proof fn lemma_join_of_split(text: Seq<char>)
    ensures
        spec_join_lines(spec_split_lines(text)) == text,
    decreases text.len(),
{
    if text.len() == 0 {
        assert(spec_join_lines(seq![Seq::<char>::empty()]) =~= text);
    } else {
        let shorter = text.drop_last();
        let before = spec_split_lines(shorter);
        lemma_join_of_split(shorter);
        lemma_split_lines_shape(shorter);
        if text.last() == '\n' {
            let lines = before.push(Seq::empty());
            assert(lines.drop_last() =~= before);
            assert(spec_join_lines(lines) =~= text);
        } else {
            let lines = before.drop_last().push(before.last().push(text.last()));
            if before.len() == 1 {
                assert(spec_join_lines(lines) =~= text);
            } else {
                assert(lines.drop_last() =~= before.drop_last());
                assert(spec_join_lines(before) == spec_join_lines(before.drop_last()).push('\n')
                    + before.last());
                assert(spec_join_lines(lines) == spec_join_lines(before.drop_last()).push('\n')
                    + before.last().push(text.last()));
                assert(shorter.push(text.last()) =~= text);
                assert(spec_join_lines(lines) =~= text);
            }
        }
    }
}

/// Splitting is the only way to cut a text into lines: whatever pieces
/// without a line break are joined, splitting the result gives them back.
pub proof fn lemma_split_of_join(lines: Seq<Seq<char>>)
    requires
        lines.len() >= 1,
        forall|i: int| 0 <= i < lines.len() ==> !(#[trigger] lines[i]).contains('\n'),
    ensures
        spec_split_lines(spec_join_lines(lines)) == lines,
    decreases lines.len(),
{
    if lines.len() == 1 {
        lemma_split_lines_single(lines[0]);
        assert(seq![lines[0]] =~= lines);
    } else {
        let before = lines.drop_last();
        lemma_split_of_join(before);
        lemma_split_lines_concat(spec_join_lines(before), lines.last());
        lemma_split_lines_single(lines.last());
        assert(before + seq![lines.last()] =~= lines);
    }
}

} // verus!
