use cutils::text::{bytes_contain, str_contains};

#[test]
fn pattern_in_the_middle_is_found() {
    assert!(str_contains("bar foo baz", "foo"));
}

#[test]
fn pattern_at_either_end_is_found() {
    assert!(str_contains("foo_report.txt", "foo"));
    assert!(str_contains("foo_report.txt", ".txt"));
}

#[test]
fn whole_text_is_its_own_substring() {
    assert!(str_contains("hello", "hello"));
}

#[test]
fn absent_pattern_is_not_found() {
    assert!(!str_contains("hello.txt", "foo"));
    assert!(!str_contains("baz", "foo"));
}

#[test]
fn pattern_longer_than_text_is_not_found() {
    assert!(!str_contains("fo", "foo"));
    assert!(!str_contains("", "a"));
}

#[test]
fn empty_pattern_is_found_everywhere() {
    assert!(str_contains("anything", ""));
    assert!(str_contains("", ""));
}

#[test]
fn matching_is_case_sensitive() {
    assert!(!str_contains("Foo", "foo"));
    assert!(!str_contains("foo", "FOO"));
    assert!(str_contains("a Foo b", "Foo"));
}

#[test]
fn a_broken_off_match_does_not_hide_a_later_one() {
    assert!(str_contains("fofoo", "foo"));
    assert!(str_contains("aaab", "aab"));
    assert!(!str_contains("ababab", "abba"));
}

#[test]
fn text_beyond_ascii_is_matched_exactly() {
    assert!(str_contains("caf\u{e9} au lait", "f\u{e9}"));
    assert!(str_contains("\u{65e5}\u{672c}\u{8a9e}", "\u{672c}"));
    assert!(!str_contains("cafe", "\u{e9}"));
    assert!(!str_contains("\u{e9}", "\u{e8}"));
}

#[test]
fn bytes_are_compared_as_they_are() {
    assert!(bytes_contain(&[1, 2, 3, 4], &[2, 3]));
    assert!(bytes_contain(&[0, 0, 255], &[0, 255]));
    assert!(!bytes_contain(&[1, 2, 3, 4], &[3, 2]));
    assert!(bytes_contain(&[], &[]));
    assert!(!bytes_contain(&[], &[0]));
}
