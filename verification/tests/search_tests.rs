use jtools::search::check_and_colorize_match;
use jtools::search::file_match_line;
use jtools::search::find_step;
use jtools::search::find_sub;
use jtools::search::u64_dec;
use jtools::search::usize_dec;
use jtools::search::FindAction;
use jtools::textutil::join_lines;

#[test]
fn find_sub_returns_the_first_occurrence() {
    assert_eq!(find_sub("abcabc", "cab"), Some(2));
    assert_eq!(find_sub("abcabc", "abc"), Some(0));
    assert_eq!(find_sub("abcabc", "x"), None);
    assert_eq!(find_sub("abc", ""), Some(0));
    assert_eq!(find_sub("", "a"), None);
}

#[test]
fn match_is_highlighted_when_colors_are_forced() {
    colored::control::set_override(true);
    let r = check_and_colorize_match("src/main.rs", "main", true);
    colored::control::unset_override();
    assert_eq!(r.as_deref(), Some("src/\u{1b}[91mmain\u{1b}[0m.rs"));
}

#[test]
fn match_is_plain_when_colors_are_off() {
    colored::control::set_override(false);
    let r = check_and_colorize_match("src/main.rs", "main", true);
    colored::control::unset_override();
    assert_eq!(r.as_deref(), Some("src/main.rs"));
}

#[test]
fn case_insensitive_search_folds_both_sides() {
    colored::control::set_override(false);
    let r = check_and_colorize_match("src/ReadMe.md", "readme", false);
    let miss = check_and_colorize_match("src/ReadMe.md", "readme", true);
    colored::control::unset_override();
    assert_eq!(r.as_deref(), Some("src/ReadMe.md"));
    assert_eq!(miss, None);
}

#[test]
fn no_match_reports_nothing() {
    assert_eq!(check_and_colorize_match("src/lib.rs", "python", true), None);
}

#[test]
fn decimal_rendering() {
    assert_eq!(u64_dec(0), "0");
    assert_eq!(u64_dec(7), "7");
    assert_eq!(u64_dec(1024), "1024");
    assert_eq!(u64_dec(u64::MAX), "18446744073709551615");
    assert_eq!(usize_dec(42), "42");
}

#[test]
fn file_match_lines_carry_name_and_index() {
    assert_eq!(file_match_line("notes.txt", 3, "hello"), "notes.txt:3: hello");
}

#[test]
fn find_steps() {
    assert_eq!(find_step(true, true, false), FindAction::FollowLink);
    assert_eq!(find_step(false, true, false), FindAction::SearchDirectory);
    assert_eq!(find_step(false, false, true), FindAction::SearchFile);
    assert_eq!(find_step(false, false, false), FindAction::Unsupported);
}

#[test]
fn joined_lines_have_no_trailing_newline() {
    let lines: Vec<String> = vec!["a".to_string(), "b".to_string(), "c".to_string()];
    assert_eq!(join_lines(&lines), "a\nb\nc");
    let one: Vec<String> = vec!["only".to_string()];
    assert_eq!(join_lines(&one), "only");
    let none: Vec<String> = Vec::new();
    assert_eq!(join_lines(&none), "");
}

#[test]
fn find_in_lines_reports_matching_lines_with_indices() {
    colored::control::set_override(false);
    let lines: Vec<String> = vec![
        "alpha beta".to_string(),
        "gamma".to_string(),
        "beta again".to_string(),
    ];
    let r = jtools::search::find_in_lines("f.txt", &lines, "beta", true);
    colored::control::unset_override();
    assert_eq!(r, vec!["f.txt:0: alpha beta", "f.txt:2: beta again"]);
}

#[test]
fn span_outside_the_original_reports_nothing() {
    // Lowercasing can change a text's length: the dotted capital I becomes
    // two characters, so the match span found in the lowercased text can
    // fall outside the original.
    let r = check_and_colorize_match("\u{130}abc", "abc", false);
    assert_eq!(r, None);
}
