use jtools::textutil::eq_ignore_ascii_case;
use jtools::textutil::pad_left;
use jtools::textutil::pad_right;
use jtools::textutil::str_eq;

#[test]
fn str_eq_is_exact() {
    assert!(str_eq("hotshot", "hotshot"));
    assert!(!str_eq("hotshot", "HotShot"));
    assert!(!str_eq("abc", "abcd"));
    assert!(str_eq("", ""));
}

#[test]
fn ascii_case_is_ignored_where_asked() {
    assert!(eq_ignore_ascii_case("HotShot", "hotshot"));
    assert!(eq_ignore_ascii_case("ABC-def", "abc-DEF"));
    assert!(!eq_ignore_ascii_case("abc", "abd"));
    assert!(!eq_ignore_ascii_case("abc", "ab"));
}

#[test]
fn padding_aligns_without_trimming() {
    assert_eq!(pad_left("7", 3), "  7");
    assert_eq!(pad_right("ab", 4), "ab  ");
    assert_eq!(pad_left("long", 2), "long");
    assert_eq!(pad_right("long", 2), "long");
}
