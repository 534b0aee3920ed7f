use card_listing::format::ListingFormat;

#[test]
fn patterns_are_as_documented() {
    assert_eq!(ListingFormat::NumberAndX.pattern(), r"^\d+[xX].*");
    assert_eq!(ListingFormat::NumberOnly.pattern(), r"^\d+\s+.*");
    assert_eq!(ListingFormat::Plain.pattern(), r"^[^\d\s]");
}

#[test]
fn patterns_are_valid_regular_expressions() {
    assert!(regex::Regex::new(ListingFormat::NumberAndX.pattern()).is_ok());
    assert!(regex::Regex::new(ListingFormat::NumberOnly.pattern()).is_ok());
    assert!(regex::Regex::new(ListingFormat::Plain.pattern()).is_ok());
}

#[test]
fn is_match_tests_one_pattern() {
    assert!(ListingFormat::NumberAndX.is_match("4x Forest"));
    assert!(!ListingFormat::NumberAndX.is_match("4 Forest"));
    assert!(!ListingFormat::NumberAndX.is_match("Forest 4x"));
    assert!(ListingFormat::NumberOnly.is_match("4 Forest"));
    assert!(!ListingFormat::NumberOnly.is_match("4x Forest"));
    assert!(!ListingFormat::NumberOnly.is_match("Forest 4 "));
    assert!(ListingFormat::Plain.is_match("Forest"));
    assert!(!ListingFormat::Plain.is_match("4 Forest"));
    assert!(!ListingFormat::Plain.is_match(" Forest"));
    assert!(!ListingFormat::Plain.is_match(""));
}

#[test]
fn is_match_agrees_with_the_regex_engine() {
    let formats = [ListingFormat::NumberAndX, ListingFormat::NumberOnly, ListingFormat::Plain];
    let lines = ["4x Forest", "4 Forest", "Forest", "", " ", "4", "4\tForest", "x", "44X", "4 x"];
    for format in formats {
        let engine = regex::Regex::new(format.pattern()).unwrap();
        for line in lines {
            assert_eq!(format.is_match(line), engine.is_match(line));
        }
    }
}

#[test]
fn is_match_does_not_replace_tabs() {
    assert!(ListingFormat::NumberOnly.is_match("4\tForest"));
    assert!(!ListingFormat::Plain.is_match("\tForest"));
}

#[test]
fn at_most_one_pattern_matches_an_ordinary_line() {
    let lines = ["4x Forest", "4 Forest", "Forest", "", " Forest", "4", "4Forest"];
    for line in lines {
        let matching = [
            ListingFormat::NumberAndX.is_match(line),
            ListingFormat::NumberOnly.is_match(line),
            ListingFormat::Plain.is_match(line),
        ];
        assert!(matching.iter().filter(|m| **m).count() <= 1);
    }
}
