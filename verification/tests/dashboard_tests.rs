use rogger::dashboard::{
    border_style, clear_history, compose_pane, decimal_string, move_selection, on_key, pane_title,
    snap_to_tail, wrapped_total, AppState, KeyEvent, LogWindow, MoveDirection, UiAction,
};
use rogger::highlight::{create_log_formatter, LogFormatter, StyleKind};
use rogger::history::HistoryBuffer;
use rogger::session::ConnectionStatus;
use rogger::viewport::{ScrollDirection, ViewportState};

#[test]
fn quit_key_exits() {
    let mut app = AppState::new(2);
    assert_eq!(on_key(&mut app, KeyEvent::Quit), UiAction::Exit);
    assert_eq!(app, AppState::new(2));
}

#[test]
fn toggle_maximize_flips_and_snaps() {
    let mut app = AppState::new(2);
    assert_eq!(on_key(&mut app, KeyEvent::ToggleMaximize), UiAction::SnapToTail);
    assert!(app.is_maximized);
    assert_eq!(on_key(&mut app, KeyEvent::ToggleMaximize), UiAction::SnapToTail);
    assert!(!app.is_maximized);
}

#[test]
fn directional_keys_scroll_when_maximized() {
    let mut app = AppState::new(3);
    app.is_maximized = true;
    assert_eq!(on_key(&mut app, KeyEvent::Up), UiAction::Scroll(ScrollDirection::Up));
    assert_eq!(on_key(&mut app, KeyEvent::Down), UiAction::Scroll(ScrollDirection::Down));
    assert_eq!(on_key(&mut app, KeyEvent::PageUp), UiAction::Scroll(ScrollDirection::PageUp));
    assert_eq!(on_key(&mut app, KeyEvent::PageDown), UiAction::Scroll(ScrollDirection::PageDown));
    assert_eq!(on_key(&mut app, KeyEvent::Home), UiAction::Scroll(ScrollDirection::Top));
    assert_eq!(on_key(&mut app, KeyEvent::End), UiAction::Scroll(ScrollDirection::Bottom));
    // left and right do nothing in a maximized pane
    assert_eq!(on_key(&mut app, KeyEvent::Left), UiAction::DoNothing);
    assert_eq!(on_key(&mut app, KeyEvent::Right), UiAction::DoNothing);
    assert_eq!(app.selected_window, 0);
}

#[test]
fn directional_keys_move_selection_in_the_grid() {
    // four panes form a 2 x 2 grid
    let mut app = AppState::new(4);
    assert_eq!(on_key(&mut app, KeyEvent::Right), UiAction::DoNothing);
    assert_eq!(app.selected_window, 1);
    on_key(&mut app, KeyEvent::Down);
    assert_eq!(app.selected_window, 3);
    on_key(&mut app, KeyEvent::Left);
    assert_eq!(app.selected_window, 2);
    on_key(&mut app, KeyEvent::Up);
    assert_eq!(app.selected_window, 0);
}

#[test]
fn selection_clamps_at_grid_edges() {
    let mut app = AppState::new(4);
    move_selection(&mut app, MoveDirection::Up);
    assert_eq!(app.selected_window, 0);
    move_selection(&mut app, MoveDirection::Left);
    assert_eq!(app.selected_window, 0);
    app.selected_window = 3;
    move_selection(&mut app, MoveDirection::Down);
    assert_eq!(app.selected_window, 3);
    move_selection(&mut app, MoveDirection::Right);
    assert_eq!(app.selected_window, 3);
}

#[test]
fn selection_never_lands_past_the_last_pane() {
    // three panes in a 2 x 2 grid: the fourth cell is missing
    let mut app = AppState::new(3);
    app.selected_window = 1;
    move_selection(&mut app, MoveDirection::Down);
    assert_eq!(app.selected_window, 1);
    app.selected_window = 2;
    move_selection(&mut app, MoveDirection::Right);
    assert_eq!(app.selected_window, 2);
    move_selection(&mut app, MoveDirection::Up);
    assert_eq!(app.selected_window, 0);
}

#[test]
fn clear_history_resets_buffer_and_scroll() {
    let mut content = HistoryBuffer::new(10);
    let mut viewport = ViewportState::new();
    content.push("a".to_string());
    viewport.scroll_position = 5;
    viewport.has_user_scrolled = true;
    clear_history(&mut content, &mut viewport);
    assert_eq!(content.len(), 0);
    assert_eq!(viewport.scroll_position, 0);
    assert!(!viewport.has_user_scrolled);
}

#[test]
fn snap_to_tail_leaves_manual_mode() {
    let mut viewport = ViewportState::new();
    viewport.has_user_scrolled = true;
    viewport.scroll_position = 2;
    snap_to_tail(&mut viewport, 12);
    assert!(!viewport.has_user_scrolled);
    assert_eq!(viewport.scroll_position, 11);
    snap_to_tail(&mut viewport, 0);
    assert_eq!(viewport.scroll_position, 0);
}

#[test]
fn titles_carry_the_scroll_indicator() {
    assert_eq!(decimal_string(0), "0");
    assert_eq!(decimal_string(7), "7");
    assert_eq!(decimal_string(10), "10");
    assert_eq!(decimal_string(90217), "90217");
    assert_eq!(pane_title("db", 42), "db (Scroll: 42)");
}

#[test]
fn border_marks_the_focused_pane() {
    assert_eq!(border_style(true), StyleKind::Yellow);
    assert_eq!(border_style(false), StyleKind::White);
}

#[test]
fn new_window_starts_connecting_and_empty() {
    let w = LogWindow::new("db".to_string(), 10000);
    assert_eq!(w.name, "db");
    assert_eq!(w.content.len(), 0);
    assert_eq!(w.connection_status, ConnectionStatus::Connecting);
    assert_eq!(w.viewport.scroll_position, 0);
}

#[test]
fn wrapped_total_counts_wrapped_lines() {
    let mut content = HistoryBuffer::new(100);
    content.push("abcdefgh".to_string());
    content.push("xy".to_string());
    // "abcdefgh" wraps into 3 lines at width 3, "xy" into 1
    assert_eq!(wrapped_total(&content, 3), 4);
    assert_eq!(wrapped_total(&content, 80), 2);
}

#[test]
fn compose_follows_the_tail() {
    // 12 one-column lines in a pane of inner height 5: the last 5 show,
    // starting at wrapped line 7
    let mut content = HistoryBuffer::new(100);
    for i in 0..12 {
        content.push(format!("{}", i));
    }
    let mut viewport = ViewportState::new();
    let formatter = LogFormatter::new();
    let status = ConnectionStatus::Connected;
    let lines = compose_pane(&content, &mut viewport, &formatter, &status, 10, 7);
    assert_eq!(viewport.scroll_position, 7);
    let texts: Vec<&str> = lines.iter().map(|l| l[0].text.as_str()).collect();
    assert_eq!(texts, vec!["7", "8", "9", "10", "11"]);
}

#[test]
fn compose_wraps_long_lines() {
    let mut content = HistoryBuffer::new(100);
    content.push("abcdefgh".to_string());
    let mut viewport = ViewportState::new();
    let formatter = LogFormatter::new();
    let status = ConnectionStatus::Connected;
    // inner width 3, inner height 5
    let lines = compose_pane(&content, &mut viewport, &formatter, &status, 5, 7);
    let texts: Vec<&str> = lines.iter().map(|l| l[0].text.as_str()).collect();
    assert_eq!(texts, vec!["abc", "def", "gh"]);
}

#[test]
fn compose_appends_the_error_when_there_is_room() {
    let mut content = HistoryBuffer::new(100);
    content.push("one line".to_string());
    let mut viewport = ViewportState::new();
    let formatter = LogFormatter::new();
    let status = ConnectionStatus::Error("Connect Err: refused".to_string());
    let lines = compose_pane(&content, &mut viewport, &formatter, &status, 20, 7);
    assert_eq!(lines.len(), 2);
    assert_eq!(lines[1][0].text, "Connect Err: refused");
    assert_eq!(lines[1][0].style, StyleKind::Red);
}

#[test]
fn compose_forces_the_error_into_the_last_visible_line() {
    let mut content = HistoryBuffer::new(100);
    for i in 0..9 {
        content.push(format!("{}", i));
    }
    let mut viewport = ViewportState::new();
    let formatter = LogFormatter::new();
    let status = ConnectionStatus::Error("boom".to_string());
    // inner height 3: the pane is full, the error replaces the last line
    let lines = compose_pane(&content, &mut viewport, &formatter, &status, 10, 5);
    assert_eq!(lines.len(), 3);
    assert_eq!(lines[0][0].text, "6");
    assert_eq!(lines[1][0].text, "7");
    assert_eq!(lines[2][0].text, "boom");
    assert_eq!(lines[2][0].style, StyleKind::Red);
}

#[test]
fn compose_highlights_visible_lines() {
    let mut content = HistoryBuffer::new(100);
    content.push("ERROR disk full".to_string());
    let mut viewport = ViewportState::new();
    let formatter = create_log_formatter().unwrap();
    let status = ConnectionStatus::Connected;
    let lines = compose_pane(&content, &mut viewport, &formatter, &status, 40, 7);
    assert_eq!(lines.len(), 1);
    assert_eq!(lines[0][0].text, "ERROR");
    assert_eq!(lines[0][0].style, StyleKind::Red);
    assert_eq!(lines[0][1].text, " disk full");
    assert_eq!(lines[0][1].style, StyleKind::Plain);
}
