use card_listing::classify::{classify_line, select_format};
use card_listing::format::{ListingFormat, NoMatch};
use card_listing::text::normalize_tabs;

#[test]
fn quantity_and_x_is_number_and_x() {
    assert_eq!(classify_line("4x Chandra's Spitfire"), Ok(ListingFormat::NumberAndX));
    assert_eq!(classify_line("4X Chandra's Spitfire"), Ok(ListingFormat::NumberAndX));
    assert_eq!(classify_line("12x Forest"), Ok(ListingFormat::NumberAndX));
    assert_eq!(classify_line("4xChandra's Spitfire"), Ok(ListingFormat::NumberAndX));
}

#[test]
fn quantity_and_x_needs_nothing_after_the_x() {
    assert_eq!(classify_line("4x"), Ok(ListingFormat::NumberAndX));
    assert_eq!(classify_line("100X"), Ok(ListingFormat::NumberAndX));
}

#[test]
fn quantity_and_space_is_number_only() {
    assert_eq!(classify_line("4 Chandra's Spitfire"), Ok(ListingFormat::NumberOnly));
    assert_eq!(classify_line("10   Forest"), Ok(ListingFormat::NumberOnly));
    assert_eq!(classify_line("4 "), Ok(ListingFormat::NumberOnly));
    assert_eq!(classify_line("4 x Forest"), Ok(ListingFormat::NumberOnly));
}

#[test]
fn name_alone_is_plain() {
    assert_eq!(classify_line("Chandra's Spitfire"), Ok(ListingFormat::Plain));
    assert_eq!(classify_line("x4 Forest"), Ok(ListingFormat::Plain));
    assert_eq!(classify_line("-4 Forest"), Ok(ListingFormat::Plain));
    assert_eq!(classify_line("F"), Ok(ListingFormat::Plain));
}

#[test]
fn empty_line_has_no_format() {
    assert_eq!(classify_line(""), Err(NoMatch));
}

#[test]
fn leading_whitespace_has_no_format() {
    assert_eq!(classify_line(" Chandra's Spitfire"), Err(NoMatch));
    assert_eq!(classify_line("  4x Forest"), Err(NoMatch));
    assert_eq!(classify_line(" "), Err(NoMatch));
    assert_eq!(classify_line("\tForest"), Err(NoMatch));
    assert_eq!(classify_line("\u{a0}Forest"), Err(NoMatch));
}

#[test]
fn quantity_without_separator_has_no_format() {
    assert_eq!(classify_line("4"), Err(NoMatch));
    assert_eq!(classify_line("44"), Err(NoMatch));
    assert_eq!(classify_line("4Forest"), Err(NoMatch));
    assert_eq!(classify_line("4|Forest"), Err(NoMatch));
}

#[test]
fn tab_counts_as_space() {
    assert_eq!(classify_line("4\tChandra's Spitfire"), Ok(ListingFormat::NumberOnly));
    assert_eq!(classify_line("4\t\tForest"), Ok(ListingFormat::NumberOnly));
    assert_eq!(classify_line("4x\tForest"), Ok(ListingFormat::NumberAndX));
    assert_eq!(classify_line("Chandra's\tSpitfire"), Ok(ListingFormat::Plain));
}

#[test]
fn digits_of_other_scripts_are_digits() {
    assert_eq!(classify_line("\u{664}x Forest"), Ok(ListingFormat::NumberAndX));
    assert_eq!(classify_line("\u{664} Forest"), Ok(ListingFormat::NumberOnly));
    assert_eq!(classify_line("\u{664}Forest"), Err(NoMatch));
}

#[test]
fn line_break_inside_a_line_does_not_hide_its_start() {
    assert_eq!(classify_line("4x\nForest"), Ok(ListingFormat::NumberAndX));
    assert_eq!(classify_line("4\nForest"), Ok(ListingFormat::NumberOnly));
    assert_eq!(classify_line("\nForest"), Err(NoMatch));
}

#[test]
fn classifying_twice_gives_the_same_answer() {
    let lines = ["4x Forest", "4 Forest", "Forest", "", " Forest", "4"];
    for line in lines {
        assert_eq!(classify_line(line), classify_line(line));
    }
}

#[test]
fn classifying_a_normalized_line_gives_the_same_answer() {
    let lines = ["4\tForest", "\tForest", "4x\tForest", "Black\tLotus", "4\t"];
    for line in lines {
        let normalized = normalize_tabs(line);
        assert_eq!(classify_line(normalized.as_str()), classify_line(line));
    }
}

#[test]
fn first_matching_pattern_decides() {
    assert_eq!(select_format(true, true, true), Ok(ListingFormat::NumberAndX));
    assert_eq!(select_format(true, true, false), Ok(ListingFormat::NumberAndX));
    assert_eq!(select_format(true, false, true), Ok(ListingFormat::NumberAndX));
    assert_eq!(select_format(true, false, false), Ok(ListingFormat::NumberAndX));
    assert_eq!(select_format(false, true, true), Ok(ListingFormat::NumberOnly));
    assert_eq!(select_format(false, true, false), Ok(ListingFormat::NumberOnly));
    assert_eq!(select_format(false, false, true), Ok(ListingFormat::Plain));
    assert_eq!(select_format(false, false, false), Err(NoMatch));
}
