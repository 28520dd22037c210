use rogger::config::{expand_tilde, ConfigError, LogConfig};
use rogger::history::HistoryBuffer;
use rogger::session::{
    begin_session, session_step, tail_command, update_connection_status, update_content,
    AuthMethod, ConnectionStatus, SessionEvent,
};
use rogger::viewport::ViewportState;

fn config(password: Option<&str>, ssh_key: Option<&str>) -> LogConfig {
    LogConfig {
        name: "app".to_string(),
        host: "example.net".to_string(),
        port: 22,
        log_path: "/var/log/app.log".to_string(),
        username: Some("deploy".to_string()),
        password: password.map(|s| s.to_string()),
        ssh_key: ssh_key.map(|s| s.to_string()),
        max_history: None,
    }
}

#[test]
fn no_auth_method_fails_before_connecting() {
    let log = config(None, None);
    let mut status = ConnectionStatus::Connecting;
    let method = begin_session(&log, &mut status);
    assert!(method.is_none());
    assert_eq!(
        status,
        ConnectionStatus::Error("No authentication method provided".to_string())
    );
}

#[test]
fn password_is_preferred_over_key_file() {
    let log = config(Some("SECRET-REDACTED"), Some("/home/deploy/.ssh/id_ed25519"));
    let mut status = ConnectionStatus::Connecting;
    let method = begin_session(&log, &mut status);
    assert_eq!(status, ConnectionStatus::Connecting);
    match method {
        Some(AuthMethod::Password { username, password }) => {
            assert_eq!(username, "deploy");
            assert_eq!(password, "SECRET-REDACTED");
        }
        other => panic!("expected password auth, got {:?}", other),
    }
}

#[test]
fn key_file_is_used_without_a_password() {
    let log = config(None, Some("/home/deploy/.ssh/id_ed25519"));
    let mut status = ConnectionStatus::Connecting;
    let method = begin_session(&log, &mut status);
    assert_eq!(status, ConnectionStatus::Connecting);
    match method {
        Some(AuthMethod::KeyFile { username, key_path }) => {
            assert_eq!(username, "deploy");
            assert_eq!(key_path, "/home/deploy/.ssh/id_ed25519");
        }
        other => panic!("expected key-file auth, got {:?}", other),
    }
}

#[test]
fn received_lines_are_trimmed_and_followed() {
    let mut status = ConnectionStatus::Connecting;
    let mut content = HistoryBuffer::new(10);
    let mut viewport = ViewportState::new();
    assert!(session_step(&mut status, &mut content, &mut viewport, SessionEvent::Opened));
    assert_eq!(status, ConnectionStatus::Connected);
    assert!(session_step(
        &mut status,
        &mut content,
        &mut viewport,
        SessionEvent::Line("first\n".to_string())
    ));
    assert!(session_step(
        &mut status,
        &mut content,
        &mut viewport,
        SessionEvent::Line("second\r\n".to_string())
    ));
    assert_eq!(content.len(), 2);
    assert_eq!(content.line_at(0), "first");
    assert_eq!(content.line_at(1), "second");
    // auto-follow points at the newest line
    assert_eq!(viewport.scroll_position, 1);
}

#[test]
fn manual_scroll_is_not_overridden_by_ingestion() {
    let mut status = ConnectionStatus::Connected;
    let mut content = HistoryBuffer::new(10);
    let mut viewport = ViewportState::new();
    viewport.has_user_scrolled = true;
    viewport.scroll_position = 0;
    session_step(&mut status, &mut content, &mut viewport, SessionEvent::Line("x".to_string()));
    session_step(&mut status, &mut content, &mut viewport, SessionEvent::Line("y".to_string()));
    assert_eq!(viewport.scroll_position, 0);
}

#[test]
fn eof_stops_without_error() {
    let mut status = ConnectionStatus::Connected;
    let mut content = HistoryBuffer::new(10);
    let mut viewport = ViewportState::new();
    assert!(!session_step(&mut status, &mut content, &mut viewport, SessionEvent::Eof));
    assert_eq!(status, ConnectionStatus::Connected);
}

#[test]
fn read_failure_is_terminal() {
    let mut status = ConnectionStatus::Connected;
    let mut content = HistoryBuffer::new(10);
    let mut viewport = ViewportState::new();
    assert!(!session_step(
        &mut status,
        &mut content,
        &mut viewport,
        SessionEvent::ReadFailed("Read Err (example.net): timed out".to_string())
    ));
    assert_eq!(
        status,
        ConnectionStatus::Error("Read Err (example.net): timed out".to_string())
    );
    // no later event leaves the error state
    assert!(!session_step(
        &mut status,
        &mut content,
        &mut viewport,
        SessionEvent::Line("late\n".to_string())
    ));
    assert_eq!(content.len(), 0);
    assert_eq!(
        status,
        ConnectionStatus::Error("Read Err (example.net): timed out".to_string())
    );
}

#[test]
fn handshake_auth_and_exec_failures_set_the_status() {
    for (event, message) in [
        (
            SessionEvent::HandshakeFailed("Handshake Err: bad banner".to_string()),
            "Handshake Err: bad banner",
        ),
        (
            SessionEvent::AuthFailed("Auth Err: denied".to_string()),
            "Auth Err: denied",
        ),
        (
            SessionEvent::ExecFailed("Exec Err: channel closed".to_string()),
            "Exec Err: channel closed",
        ),
    ] {
        let mut status = ConnectionStatus::Connecting;
        let mut content = HistoryBuffer::new(10);
        let mut viewport = ViewportState::new();
        assert!(!session_step(&mut status, &mut content, &mut viewport, event));
        assert_eq!(status, ConnectionStatus::Error(message.to_string()));
    }
}

#[test]
fn connect_failure_sets_the_status() {
    let mut status = ConnectionStatus::Connecting;
    let mut content = HistoryBuffer::new(10);
    let mut viewport = ViewportState::new();
    assert!(!session_step(
        &mut status,
        &mut content,
        &mut viewport,
        SessionEvent::ConnectFailed("Connect Err: refused".to_string())
    ));
    assert_eq!(status, ConnectionStatus::Error("Connect Err: refused".to_string()));
}

#[test]
fn update_content_follows_tail_and_evicts() {
    let mut content = HistoryBuffer::new(2);
    let mut viewport = ViewportState::new();
    update_content(&mut content, &mut viewport, "a".to_string());
    update_content(&mut content, &mut viewport, "b".to_string());
    update_content(&mut content, &mut viewport, "c".to_string());
    assert_eq!(content.len(), 2);
    assert_eq!(content.line_at(0), "b");
    assert_eq!(content.line_at(1), "c");
    assert_eq!(viewport.scroll_position, 1);
}

#[test]
fn update_connection_status_overwrites() {
    let mut cell = ConnectionStatus::Connecting;
    update_connection_status(&mut cell, ConnectionStatus::Connected);
    assert_eq!(cell, ConnectionStatus::Connected);
}

#[test]
fn tail_command_names_the_log() {
    assert_eq!(tail_command("/var/log/app.log"), "tail /var/log/app.log -n 100 -f");
}

#[test]
fn tilde_expansion() {
    assert_eq!(expand_tilde("~/conf.toml", Some("/home/me")), Ok("/home/me/conf.toml".to_string()));
    assert_eq!(expand_tilde("/etc/conf.toml", None), Ok("/etc/conf.toml".to_string()));
    assert_eq!(expand_tilde("~/conf.toml", None), Err(ConfigError::HomeNotSet));
    assert_eq!(expand_tilde("~", None), Ok("~".to_string()));
}
