use rogger::highlight::{create_log_formatter, LogFormatter, StyleKind};

#[test]
fn fixed_rule_set_compiles() {
    assert!(create_log_formatter().is_some());
}

#[test]
fn error_log_line_scenario() {
    let f = create_log_formatter().unwrap();
    let segs = f.format_line("2024-01-01 10:00:00 ERROR disk full");
    let texts: Vec<&str> = segs.iter().map(|s| s.text.as_str()).collect();
    assert_eq!(texts, vec!["2024-01-01 10:00:00", " ", "ERROR", " disk full"]);
    assert_eq!(segs[0].style, StyleKind::Green);
    assert_eq!(segs[1].style, StyleKind::Plain);
    assert_eq!(segs[2].style, StyleKind::Red);
    assert_eq!(segs[3].style, StyleKind::Plain);
}

#[test]
fn unmatched_line_is_one_plain_segment() {
    let f = create_log_formatter().unwrap();
    let segs = f.format_line("hello world");
    assert_eq!(segs.len(), 1);
    assert_eq!(segs[0].text, "hello world");
    assert_eq!(segs[0].style, StyleKind::Plain);
}

#[test]
fn empty_line_formats_to_nothing() {
    let f = create_log_formatter().unwrap();
    let segs = f.format_line("");
    assert!(segs.is_empty());
}

#[test]
fn warning_info_and_ipv4_rules() {
    let f = create_log_formatter().unwrap();
    let segs = f.format_line("WARN from 10.0.0.1 INFO");
    let pieces: Vec<(&str, StyleKind)> = segs.iter().map(|s| (s.text.as_str(), s.style)).collect();
    assert_eq!(
        pieces,
        vec![
            ("WARN", StyleKind::Yellow),
            (" from ", StyleKind::Plain),
            ("10.0.0.1", StyleKind::Magenta),
            (" ", StyleKind::Plain),
            ("INFO", StyleKind::Blue),
        ]
    );
}

#[test]
fn overlapping_matches_are_both_emitted_in_start_order() {
    // "{FATAL}" matches the brace rule, and "FATAL" inside it matches the
    // error rule: both come out, in start order, without overlap resolution
    let f = create_log_formatter().unwrap();
    let segs = f.format_line("ERROR {FATAL}");
    let pieces: Vec<(&str, StyleKind)> = segs.iter().map(|s| (s.text.as_str(), s.style)).collect();
    assert_eq!(
        pieces,
        vec![
            ("ERROR", StyleKind::Red),
            (" ", StyleKind::Plain),
            ("{FATAL}", StyleKind::Cyan),
            ("FATAL", StyleKind::Red),
            ("}", StyleKind::Plain),
        ]
    );
}

#[test]
fn bad_pattern_is_reported_and_changes_nothing() {
    let mut f = LogFormatter::new();
    assert!(f.add_rule("(", StyleKind::Red).is_err());
    assert!(f.add_rule("ok", StyleKind::Green).is_ok());
    let segs = f.format_line("ok");
    assert_eq!(segs.len(), 1);
    assert_eq!(segs[0].style, StyleKind::Green);
}

#[test]
fn no_rules_means_one_plain_segment() {
    let f = LogFormatter::new();
    let segs = f.format_line("anything at all");
    assert_eq!(segs.len(), 1);
    assert_eq!(segs[0].text, "anything at all");
    assert_eq!(segs[0].style, StyleKind::Plain);
}

#[test]
fn multibyte_text_around_a_match() {
    let f = create_log_formatter().unwrap();
    let segs = f.format_line("\u{4f60}\u{597d} ERROR \u{4f60}");
    let texts: Vec<&str> = segs.iter().map(|s| s.text.as_str()).collect();
    assert_eq!(texts, vec!["\u{4f60}\u{597d} ", "ERROR", " \u{4f60}"]);
    assert_eq!(segs[1].style, StyleKind::Red);
}
