use card_listing::text::{contains_newline, normalize_tabs, split_lines};

#[test]
fn tabs_become_spaces() {
    assert_eq!(normalize_tabs("4\tChandra's Spitfire"), "4 Chandra's Spitfire");
    assert_eq!(normalize_tabs("\ta\t\tb\t"), " a  b ");
    assert_eq!(normalize_tabs("no tab here"), "no tab here");
    assert_eq!(normalize_tabs(""), "");
    assert_eq!(normalize_tabs("caf\u{e9}\t\u{664}\n"), "caf\u{e9} \u{664}\n");
}

#[test]
fn tab_replacement_agrees_with_std() {
    let texts = ["", "\t", "a\tb", "\t\t\t", "4\tForest\t", "x y z", "\u{1f0cf}\t\u{1f0cf}"];
    for text in texts {
        assert_eq!(normalize_tabs(text), text.replace("\t", " "));
    }
}

#[test]
fn tab_replacement_is_idempotent() {
    let texts = ["", "\t", "a\tb", "4\tForest\t", "x y z"];
    for text in texts {
        let once = normalize_tabs(text);
        assert_eq!(normalize_tabs(once.as_str()), once);
    }
}

#[test]
fn finds_line_breaks() {
    assert!(contains_newline("a\nb"));
    assert!(contains_newline("\n"));
    assert!(contains_newline("ab\n"));
    assert!(contains_newline("\nab"));
    assert!(!contains_newline(""));
    assert!(!contains_newline("ab"));
    assert!(!contains_newline("a\tb\rc"));
}

#[test]
fn splits_at_line_breaks() {
    assert_eq!(split_lines("a\nb"), vec!["a", "b"]);
    assert_eq!(split_lines("4x Card A\n4x Card B\nCard C"), vec!["4x Card A", "4x Card B", "Card C"]);
}

#[test]
fn text_without_line_break_is_one_line() {
    assert_eq!(split_lines("abc"), vec!["abc"]);
    assert_eq!(split_lines(""), vec![""]);
}

#[test]
fn line_break_at_either_end_gives_an_empty_line() {
    assert_eq!(split_lines("a\n"), vec!["a", ""]);
    assert_eq!(split_lines("\na"), vec!["", "a"]);
    assert_eq!(split_lines("\n"), vec!["", ""]);
    assert_eq!(split_lines("\n\n"), vec!["", "", ""]);
    assert_eq!(split_lines("a\n\nb"), vec!["a", "", "b"]);
}

#[test]
fn carriage_return_stays_in_the_line() {
    assert_eq!(split_lines("a\r\nb"), vec!["a\r", "b"]);
}

#[test]
fn splitting_agrees_with_std() {
    let texts = ["", "\n", "a", "a\nb", "a\n", "\n\n\n", "4 A\n\n  \n4 B\nCard", "\u{e9}\n\u{664}x"];
    for text in texts {
        let expected: Vec<String> = text.split('\n').map(String::from).collect();
        assert_eq!(split_lines(text), expected);
    }
}

#[test]
fn joining_the_lines_gives_the_text_back() {
    let texts = ["", "\n", "a", "a\nb", "a\n", "\n\n\n", "4 A\n\n  \n4 B\nCard"];
    for text in texts {
        assert_eq!(split_lines(text).join("\n"), text);
    }
}
