use rogger::viewport::{ScrollDirection, ViewportState};

#[test]
fn auto_follow_scenario() {
    // pane height 5, 12 wrapped lines, auto-follow
    let mut v = ViewportState::new();
    v.recompute(12, 5);
    assert_eq!(v.scroll_position, 7);
    assert!(!v.has_user_scrolled);
}

#[test]
fn auto_follow_when_everything_fits() {
    let mut v = ViewportState::new();
    v.recompute(3, 10);
    assert_eq!(v.scroll_position, 0);
}

#[test]
fn manual_position_is_clamped_on_recompute() {
    let mut v = ViewportState::new();
    v.has_user_scrolled = true;
    v.scroll_position = 100;
    v.recompute(12, 5);
    assert_eq!(v.scroll_position, 7);
    assert!(v.has_user_scrolled);
}

#[test]
fn manual_position_within_range_is_kept() {
    let mut v = ViewportState::new();
    v.has_user_scrolled = true;
    v.scroll_position = 3;
    v.recompute(12, 5);
    assert_eq!(v.scroll_position, 3);
}

#[test]
fn scroll_up_and_down_one_line() {
    let mut v = ViewportState::new();
    v.scroll_position = 4;
    v.scroll(ScrollDirection::Down, 20, 5);
    assert_eq!(v.scroll_position, 5);
    assert!(v.has_user_scrolled);
    v.scroll(ScrollDirection::Up, 20, 5);
    assert_eq!(v.scroll_position, 4);
}

#[test]
fn scroll_is_clamped_at_both_ends() {
    let mut v = ViewportState::new();
    v.scroll(ScrollDirection::Up, 20, 5);
    assert_eq!(v.scroll_position, 0);
    v.scroll(ScrollDirection::Bottom, 20, 5);
    assert_eq!(v.scroll_position, 15);
    v.scroll(ScrollDirection::Down, 20, 5);
    assert_eq!(v.scroll_position, 15);
    v.scroll(ScrollDirection::PageDown, 20, 5);
    assert_eq!(v.scroll_position, 15);
}

#[test]
fn page_movement() {
    let mut v = ViewportState::new();
    v.scroll(ScrollDirection::PageDown, 30, 8);
    assert_eq!(v.scroll_position, 8);
    v.scroll(ScrollDirection::PageDown, 30, 8);
    assert_eq!(v.scroll_position, 16);
    v.scroll(ScrollDirection::PageUp, 30, 8);
    assert_eq!(v.scroll_position, 8);
    v.scroll(ScrollDirection::Top, 30, 8);
    assert_eq!(v.scroll_position, 0);
}

#[test]
fn unmoved_scroll_does_not_mark_manual() {
    let mut v = ViewportState::new();
    // already at the top: scrolling up moves nothing
    v.scroll(ScrollDirection::Up, 20, 5);
    assert!(!v.has_user_scrolled);
    // a no-op page up as well
    v.scroll(ScrollDirection::PageUp, 20, 5);
    assert!(!v.has_user_scrolled);
    // the whole content fits: nothing can move
    v.scroll(ScrollDirection::Bottom, 3, 5);
    assert!(!v.has_user_scrolled);
}
