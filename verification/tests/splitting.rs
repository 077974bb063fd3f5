use strsplit::{StrSplit, until_char};

#[test]
fn until_char_test() {
    assert_eq!(until_char("hello world", 'o'), "hell");
}

#[test]
fn it_works() {
    let mut splitter = StrSplit::new("a b c d e", " ");
    let results: Vec<&str> = splitter.collect_all();
    assert_eq!(results, vec!["a", "b", "c", "d", "e"]);
}

#[test]
fn tail() {
    let haystack = "a b c d ";
    let mut splitter = StrSplit::new(haystack, " ");
    let letters: Vec<&str> = splitter.collect_all();
    assert_eq!(letters, vec!["a", "b", "c", "d", ""]);
}

#[test]
fn absent_delimiter_single_element() {
    let mut splitter = StrSplit::new("abc", "x");
    assert_eq!(splitter.collect_all(), vec!["abc"]);
}

#[test]
fn empty_text_single_empty_element() {
    let mut splitter = StrSplit::new("", " ");
    assert_eq!(splitter.collect_all(), vec![""]);
}

#[test]
fn exhausted_pulls_keep_yielding_none() {
    let mut splitter = StrSplit::new("a b", " ");
    assert_eq!(splitter.next(), Some("a"));
    assert_eq!(splitter.next(), Some("b"));
    assert_eq!(splitter.next(), None);
    assert_eq!(splitter.next(), None);
    assert_eq!(splitter.next(), None);
}

#[test]
fn join_round_trip() {
    let text = "a,b,,c";
    let mut splitter = StrSplit::new(text, ",");
    let parts = splitter.collect_all();
    assert_eq!(parts, vec!["a", "b", "", "c"]);
    assert_eq!(parts.join(","), text);
}

#[test]
fn multi_character_literal_delimiter() {
    let mut splitter = StrSplit::new("ab--cd--ef", "--");
    assert_eq!(splitter.collect_all(), vec!["ab", "cd", "ef"]);
}

#[test]
fn empty_literal_delimiter_never_matches() {
    let mut splitter = StrSplit::new("abc", "");
    assert_eq!(splitter.collect_all(), vec!["abc"]);
}

#[test]
fn overlapping_trailing_delimiter() {
    // The text ends with the delimiter, but the first match consumes part
    // of the trailing occurrence, so the final element is not empty.
    let mut splitter = StrSplit::new("aaa", "aa");
    assert_eq!(splitter.collect_all(), vec!["", "a"]);
}

#[test]
fn trailing_char_delimiter_gives_empty_last() {
    let mut splitter = StrSplit::new("xy.", '.');
    assert_eq!(splitter.collect_all(), vec!["xy", ""]);
}

#[test]
fn char_delimiter_multibyte() {
    let mut splitter = StrSplit::new("a\u{03b2}c", '\u{03b2}');
    assert_eq!(splitter.collect_all(), vec!["a", "c"]);
}

#[test]
fn char_delimiter_splits_around_multibyte_text() {
    let mut splitter = StrSplit::new("\u{00e9}t\u{00e9} l\u{00e0}", ' ');
    assert_eq!(splitter.collect_all(), vec!["\u{00e9}t\u{00e9}", "l\u{00e0}"]);
}

#[test]
fn until_char_leading_char_gives_empty() {
    assert_eq!(until_char("hello", 'h'), "");
}

#[test]
fn until_char_absent_gives_whole_text() {
    assert_eq!(until_char("hello", 'z'), "hello");
}
