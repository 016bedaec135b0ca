use commit_writer::text::{is_white, join_with_newline, replace_every, same_text, split_at_char, starts_with, trim};

#[test]
fn joins_lines_with_newlines() {
    assert_eq!(join_with_newline(&vec![]), "");
    assert_eq!(join_with_newline(&vec!["a".to_string()]), "a");
    assert_eq!(join_with_newline(&vec!["a".to_string(), "".to_string(), "b".to_string()]), "a\n\nb");
}

#[test]
fn trims_white_space() {
    assert_eq!(trim("  a b \t\r\n"), "a b");
    assert_eq!(trim(" \n "), "");
    assert_eq!(trim("\u{3000}x\u{a0}"), "x");
}

#[test]
fn splits_on_a_character() {
    assert_eq!(split_at_char("a\nb", '\n'), vec!["a".to_string(), "b".to_string()]);
    assert_eq!(split_at_char("", '\n'), vec!["".to_string()]);
    assert_eq!(split_at_char("\n", '\n'), vec!["".to_string(), "".to_string()]);
}

#[test]
fn compares_and_replaces_text() {
    assert!(starts_with("data: x", "data:"));
    assert!(!starts_with("dat", "data:"));
    assert!(same_text("é", "é"));
    assert!(!same_text("a", "ab"));
    assert_eq!(replace_every("aaa", "aa", "b"), "ba");
    assert_eq!(replace_every("xé%{diff}é", "%{diff}", "D"), "xéDé");
}


#[test]
fn white_space_is_the_unicode_set() {
    for c in ['\t', '\n', '\u{b}', '\u{c}', '\r', ' ', '\u{85}', '\u{a0}', '\u{1680}', '\u{2000}', '\u{200a}', '\u{2028}', '\u{2029}', '\u{202f}', '\u{205f}', '\u{3000}'] {
        assert!(is_white(c));
    }
    for c in ['a', '{', '\u{200b}', '\u{feff}', '\u{8}', '\u{e}'] {
        assert!(!is_white(c));
    }
}
