use rogger::history::HistoryBuffer;

#[test]
fn fifo_eviction_scenario() {
    let mut buf = HistoryBuffer::new(3);
    buf.push("a".to_string());
    buf.push("b".to_string());
    buf.push("c".to_string());
    buf.push("d".to_string());
    assert_eq!(buf.len(), 3);
    assert_eq!(buf.line_at(0), "b");
    assert_eq!(buf.line_at(1), "c");
    assert_eq!(buf.line_at(2), "d");
}

#[test]
fn bound_holds_after_every_push() {
    let mut buf = HistoryBuffer::new(5);
    for i in 0..100 {
        buf.push(format!("line {}", i));
        assert!(buf.len() <= 5);
    }
    assert_eq!(buf.line_at(0), "line 95");
    assert_eq!(buf.line_at(4), "line 99");
}

#[test]
fn under_bound_keeps_everything_in_order() {
    let mut buf = HistoryBuffer::new(10);
    buf.push("first".to_string());
    buf.push("second".to_string());
    assert_eq!(buf.len(), 2);
    assert_eq!(buf.line_at(0), "first");
    assert_eq!(buf.line_at(1), "second");
}

#[test]
fn zero_bound_keeps_nothing() {
    let mut buf = HistoryBuffer::new(0);
    buf.push("a".to_string());
    assert_eq!(buf.len(), 0);
}

#[test]
fn clear_empties_the_buffer() {
    let mut buf = HistoryBuffer::new(4);
    buf.push("a".to_string());
    buf.push("b".to_string());
    buf.clear();
    assert_eq!(buf.len(), 0);
    buf.push("c".to_string());
    assert_eq!(buf.len(), 1);
    assert_eq!(buf.line_at(0), "c");
}
