use rogger::wrap::wrap_line;

#[test]
fn ascii_wrap_at_width() {
    let wrapped = wrap_line("abcdefgh", 3);
    assert_eq!(wrapped, vec!["abc", "def", "gh"]);
}

#[test]
fn round_trip_restores_the_line() {
    let line = "the quick brown fox jumps over the lazy dog";
    for width in 1..10 {
        let wrapped = wrap_line(line, width);
        let joined: String = wrapped.concat();
        assert_eq!(joined, line);
    }
}

#[test]
fn wide_clusters_count_two_columns() {
    // each CJK character is two columns wide: "ab" fills width 2, then the
    // wide character takes a sub-line of its own, then "cd"
    let wrapped = wrap_line("ab\u{4f60}cd", 2);
    assert_eq!(wrapped, vec!["ab", "\u{4f60}", "cd"]);
}

#[test]
fn oversized_cluster_stands_alone() {
    // a two-column character at width 1 overflows deliberately, never split
    let wrapped = wrap_line("a\u{4f60}b", 1);
    assert_eq!(wrapped, vec!["a", "\u{4f60}", "b"]);
}

#[test]
fn empty_line_wraps_to_nothing() {
    let wrapped = wrap_line("", 10);
    assert!(wrapped.is_empty());
}

#[test]
fn line_shorter_than_width_is_one_sub_line() {
    let wrapped = wrap_line("short", 80);
    assert_eq!(wrapped, vec!["short"]);
}

#[test]
fn combining_mark_stays_with_its_base() {
    // "e" followed by a combining acute accent is one grapheme cluster
    let line = "ae\u{301}o";
    let wrapped = wrap_line(line, 1);
    let joined: String = wrapped.concat();
    assert_eq!(joined, line);
    assert_eq!(wrapped[1], "e\u{301}");
}
