//! Per-source ingestion state machine: credential validation, the
//! connection-status lifecycle, and what each ingestion event does to the
//! source's history and viewport. The network work itself happens outside;
//! every decision is made here.

use crate::config::LogConfig;
use crate::history::{spec_push, HistoryBuffer};
use crate::viewport::ViewportState;
use vstd::prelude::*;
use vstd::string::StrSliceExecFns;
use vstd::string::StringExecFns;

verus! {

/// The lifecycle of one source's connection. `Error` is terminal: once a
/// session reports it, no later event changes it.
#[derive(Clone, PartialEq, Eq, Debug)]
pub enum ConnectionStatus {
    Connecting,
    Connected,
    Error(String),
}

/// The credential the session will authenticate with, chosen before any
/// connection is opened.
#[derive(Clone, PartialEq, Eq, Debug)]
pub enum AuthMethod {
    Password { username: String, password: String },
    KeyFile { username: String, key_path: String },
}

/// One thing that happened to the ingestion loop of a source.
pub enum SessionEvent {
    ConnectFailed(String),
    HandshakeFailed(String),
    AuthFailed(String),
    ExecFailed(String),
    Opened,
    Line(String),
    Eof,
    ReadFailed(String),
}

/// Overwrite the shared status cell.
pub fn update_connection_status(connection_status: &mut ConnectionStatus, status: ConnectionStatus)
    ensures
        *final(connection_status) == status,
{
    *connection_status = status;
}

/// Append one received line to the history and, while the pane has not been
/// scrolled by hand, follow the new tail.
pub fn update_content(content: &mut HistoryBuffer, viewport: &mut ViewportState, line: String)
    requires
        old(content).wf(),
    ensures
        final(content)@ == spec_push(old(content)@, line@, old(content).max_hist()),
        final(content).max_hist() == old(content).max_hist(),
        final(content).wf(),
        final(viewport).has_user_scrolled == old(viewport).has_user_scrolled,
        old(viewport).has_user_scrolled ==> *final(viewport) == *old(viewport),
        !old(viewport).has_user_scrolled ==> final(viewport).scroll_position == tail_position(
            final(content)@.len(),
        ),
{
    content.push(line);
    if !viewport.has_user_scrolled {
        viewport.scroll_position = content.len().saturating_sub(1);
    }
}

/// The index of the last line, or 0 of an empty buffer: where a pane that
/// follows the tail points.
pub open spec fn tail_position(len: nat) -> int {
    if len > 0 {
        len - 1
    } else {
        0
    }
}

/// The username the configuration gives, or empty.
pub open spec fn spec_username(log: &LogConfig) -> Seq<char> {
    match log.username {
        Some(u) => u@,
        None => Seq::<char>::empty(),
    }
}

fn username_of(log: &LogConfig) -> (r: String)
    ensures
        r@ == spec_username(log),
{
    match &log.username {
        Some(u) => u.clone(),
        None => String::new(),
    }
}

/// The status a source shows when it has no usable credential.
pub open spec fn status_is_no_auth(s: ConnectionStatus) -> bool {
    &&& s matches ConnectionStatus::Error(m)
    &&& m@ == "No authentication method provided"@
}

/// The chosen method is password authentication with these exact values.
pub open spec fn auth_is_password(r: Option<AuthMethod>, user: Seq<char>, pass: Seq<char>) -> bool {
    &&& r matches Some(a)
    &&& a matches AuthMethod::Password { username, password }
    &&& username@ == user
    &&& password@ == pass
}

/// The chosen method is key-file authentication with these exact values.
pub open spec fn auth_is_key_file(r: Option<AuthMethod>, user: Seq<char>, key: Seq<char>) -> bool {
    &&& r matches Some(a)
    &&& a matches AuthMethod::KeyFile { username, key_path }
    &&& username@ == user
    &&& key_path@ == key
}

/// Validate the credentials and start the session: the check happens before
/// any connection is attempted. With neither password nor key path the
/// session immediately becomes `Error("No authentication method provided")`
/// and `None` says that no connection may be opened; otherwise the status is
/// `Connecting` and the chosen method is returned — a password is preferred
/// over a key file.
pub fn begin_session(log: &LogConfig, status: &mut ConnectionStatus) -> (r: Option<AuthMethod>)
    ensures
        log.password is None && log.ssh_key is None ==> r is None && status_is_no_auth(
            *final(status),
        ),
        log.password matches Some(p) ==> *final(status) == ConnectionStatus::Connecting
            && auth_is_password(r, spec_username(log), p@),
        log.password is None ==> (log.ssh_key matches Some(k) ==> *final(status)
            == ConnectionStatus::Connecting && auth_is_key_file(r, spec_username(log), k@)),
{
    match &log.password {
        Some(p) => {
            *status = ConnectionStatus::Connecting;
            Some(AuthMethod::Password { username: username_of(log), password: p.clone() })
        },
        None => match &log.ssh_key {
            Some(k) => {
                *status = ConnectionStatus::Connecting;
                Some(AuthMethod::KeyFile { username: username_of(log), key_path: k.clone() })
            },
            None => {
                *status = ConnectionStatus::Error(
                    String::from_str("No authentication method provided"),
                );
                None
            },
        },
    }
}

/// A received line with its trailing line ending removed: a final `\n`, and a
/// final `\r` before it, are dropped.
pub open spec fn spec_trim_newline(s: Seq<char>) -> Seq<char> {
    let t = if s.len() > 0 && s.last() == '\n' {
        s.drop_last()
    } else {
        s
    };
    if t.len() > 0 && t.last() == '\r' {
        t.drop_last()
    } else {
        t
    }
}

/// Relies on String::pop: removes and returns the last character.
#[verifier::external_body]
fn string_pop(s: &mut String) -> (r: Option<char>)
    ensures
        old(s)@.len() == 0 ==> r is None && final(s)@ == old(s)@,
        old(s)@.len() > 0 ==> r == Some(old(s)@.last()) && final(s)@ == old(s)@.drop_last(),
{
    s.pop()
}

fn trim_line_ending(line: &mut String)
    ensures
        final(line)@ == spec_trim_newline(old(line)@),
{
    let n = line.as_str().unicode_len();
    if n > 0 && line.as_str().get_char(n - 1) == '\n' {
        string_pop(line);
    }
    let n2 = line.as_str().unicode_len();
    if n2 > 0 && line.as_str().get_char(n2 - 1) == '\r' {
        string_pop(line);
    }
}

/// What one ingestion event does: the relation between the source's state
/// before and after `session_step`, and whether the loop goes on.
pub open spec fn step_spec(
    pre_status: ConnectionStatus,
    pre_content: Seq<Seq<char>>,
    max: nat,
    pre_view: ViewportState,
    event: SessionEvent,
    post_status: ConnectionStatus,
    post_content: Seq<Seq<char>>,
    post_view: ViewportState,
    cont: bool,
) -> bool {
    if pre_status matches ConnectionStatus::Error(_) {
        post_status == pre_status && post_content == pre_content && post_view == pre_view && !cont
    } else {
        match event {
            SessionEvent::ConnectFailed(m) => post_status == ConnectionStatus::Error(m)
                && post_content == pre_content && post_view == pre_view && !cont,
            SessionEvent::HandshakeFailed(m) => post_status == ConnectionStatus::Error(m)
                && post_content == pre_content && post_view == pre_view && !cont,
            SessionEvent::AuthFailed(m) => post_status == ConnectionStatus::Error(m)
                && post_content == pre_content && post_view == pre_view && !cont,
            SessionEvent::ExecFailed(m) => post_status == ConnectionStatus::Error(m)
                && post_content == pre_content && post_view == pre_view && !cont,
            SessionEvent::ReadFailed(m) => post_status == ConnectionStatus::Error(m)
                && post_content == pre_content && post_view == pre_view && !cont,
            SessionEvent::Opened => post_status == ConnectionStatus::Connected && post_content
                == pre_content && post_view.has_user_scrolled == pre_view.has_user_scrolled
                && post_view.scroll_position == tail_position(pre_content.len()) && cont,
            SessionEvent::Line(l) => post_status == pre_status && post_content == spec_push(
                pre_content,
                spec_trim_newline(l@),
                max,
            ) && post_view.has_user_scrolled == pre_view.has_user_scrolled
                && (pre_view.has_user_scrolled ==> post_view == pre_view) && (
            !pre_view.has_user_scrolled ==> post_view.scroll_position == tail_position(
                post_content.len(),
            )) && cont,
            SessionEvent::Eof => post_status == pre_status && post_content == pre_content
                && post_view == pre_view && !cont,
        }
    }
}

/// Drive the session one event forward. `Error` is terminal: after it nothing
/// changes and the loop must stop. A failure event makes the status
/// `Error(message)` and stops the loop; `Opened` marks the session
/// `Connected` and snaps the viewport to the tail of what is already
/// buffered; a received line is trimmed of its line ending and appended,
/// following the tail unless the user has scrolled; a clean end of stream
/// stops the loop without error. The returned flag says whether the loop goes
/// on.
pub fn session_step(
    status: &mut ConnectionStatus,
    content: &mut HistoryBuffer,
    viewport: &mut ViewportState,
    event: SessionEvent,
) -> (cont: bool)
    requires
        old(content).wf(),
    ensures
        final(content).max_hist() == old(content).max_hist(),
        final(content).wf(),
        step_spec(
            *old(status),
            old(content)@,
            old(content).max_hist(),
            *old(viewport),
            event,
            *final(status),
            final(content)@,
            *final(viewport),
            cont,
        ),
{
    let terminal = match &*status {
        ConnectionStatus::Error(_) => true,
        _ => false,
    };
    if terminal {
        return false;
    }
    match event {
        SessionEvent::ConnectFailed(m) => {
            *status = ConnectionStatus::Error(m);
            false
        },
        SessionEvent::HandshakeFailed(m) => {
            *status = ConnectionStatus::Error(m);
            false
        },
        SessionEvent::AuthFailed(m) => {
            *status = ConnectionStatus::Error(m);
            false
        },
        SessionEvent::ExecFailed(m) => {
            *status = ConnectionStatus::Error(m);
            false
        },
        SessionEvent::ReadFailed(m) => {
            *status = ConnectionStatus::Error(m);
            false
        },
        SessionEvent::Opened => {
            *status = ConnectionStatus::Connected;
            viewport.scroll_position = content.len().saturating_sub(1);
            true
        },
        SessionEvent::Line(l) => {
            let mut line = l;
            trim_line_ending(&mut line);
            update_content(content, viewport, line);
            true
        },
        SessionEvent::Eof => {
            false
        },
    }
}

/// The remote command that prints the last lines of the log and then streams
/// what is appended.
pub fn tail_command(log_path: &str) -> (r: String)
    ensures
        r@ == "tail "@ + log_path@ + " -n 100 -f"@,
{
    let mut s = String::from_str("tail ");
    s.append(log_path);
    s.append(" -n 100 -f");
    s
}

} // verus!
