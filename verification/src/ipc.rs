//! The messages that the daemon and its clients exchange.

use vstd::prelude::*;

use crate::text::{clone_opt, opt_text, strings};
use crate::types::{HostStatus, SessionInfo};

verus! {

/// A directory in which a session was last seen.
#[derive(Debug)]
pub struct RecentDirEntry {
    pub host: String,
    pub directory: String,
    /// Unix time in milliseconds.
    pub last_seen_unix_ms: u64,
}

impl Clone for RecentDirEntry {
    fn clone(&self) -> (r: RecentDirEntry)
        ensures
            r == *self,
    {
        RecentDirEntry {
            host: self.host.clone(),
            directory: self.directory.clone(),
            last_seen_unix_ms: self.last_seen_unix_ms,
        }
    }
}

/// How a client gets into a session.
#[derive(Debug)]
pub enum AttachSpec {
    /// Through the local tmux server.
    LocalTmux { session: String, window: Option<String>, pane: Option<String> },
    /// By running a program, in a tmux window of that name where there is one.
    Exec { program: String, args: Vec<String>, tmux_window_name: Option<String> },
}

/// An attachment as values.
#[verifier::ext_equal]
pub enum AttachView {
    LocalTmux { session: Seq<char>, window: Option<Seq<char>>, pane: Option<Seq<char>> },
    Exec { program: Seq<char>, args: Seq<Seq<char>>, tmux_window_name: Option<Seq<char>> },
}

impl View for AttachSpec {
    type V = AttachView;

    open spec fn view(&self) -> AttachView {
        match *self {
            AttachSpec::LocalTmux { session, window, pane } => AttachView::LocalTmux {
                session: session@,
                window: opt_text(window),
                pane: opt_text(pane),
            },
            AttachSpec::Exec { program, args, tmux_window_name } => AttachView::Exec {
                program: program@,
                args: strings(args@),
                tmux_window_name: opt_text(tmux_window_name),
            },
        }
    }
}

/// What the daemon tells a client.
#[derive(Debug)]
pub enum DaemonMessage {
    StateSnapshot { sessions: Vec<SessionInfo>, hosts: Vec<HostStatus> },
    SessionUpdated { session: SessionInfo },
    Bell { session_id: String, host: String, reason: String },
    Error { message: String },
    DaemonStatus {
        running: bool,
        pid: u32,
        uptime_secs: u64,
        socket: String,
        hosts: Vec<HostStatus>,
        sessions: Vec<SessionInfo>,
    },
    RecentDirs { entries: Vec<RecentDirEntry>, is_complete: bool },
    AttachReady { attach: AttachSpec },
}

/// A message of the daemon as values.
#[verifier::ext_equal]
pub enum DaemonView {
    StateSnapshot { sessions: Seq<SessionInfo>, hosts: Seq<HostStatus> },
    SessionUpdated { session: SessionInfo },
    Bell { session_id: Seq<char>, host: Seq<char>, reason: Seq<char> },
    Error { message: Seq<char> },
    DaemonStatus {
        running: bool,
        pid: u32,
        uptime_secs: u64,
        socket: Seq<char>,
        hosts: Seq<HostStatus>,
        sessions: Seq<SessionInfo>,
    },
    RecentDirs { entries: Seq<RecentDirEntry>, is_complete: bool },
    AttachReady { attach: AttachView },
}

impl View for DaemonMessage {
    type V = DaemonView;

    open spec fn view(&self) -> DaemonView {
        match *self {
            DaemonMessage::StateSnapshot { sessions, hosts } => DaemonView::StateSnapshot {
                sessions: sessions@,
                hosts: hosts@,
            },
            DaemonMessage::SessionUpdated { session } => DaemonView::SessionUpdated { session },
            DaemonMessage::Bell { session_id, host, reason } => DaemonView::Bell {
                session_id: session_id@,
                host: host@,
                reason: reason@,
            },
            DaemonMessage::Error { message } => DaemonView::Error { message: message@ },
            DaemonMessage::DaemonStatus { running, pid, uptime_secs, socket, hosts, sessions } =>
            DaemonView::DaemonStatus {
                running,
                pid,
                uptime_secs,
                socket: socket@,
                hosts: hosts@,
                sessions: sessions@,
            },
            DaemonMessage::RecentDirs { entries, is_complete } => DaemonView::RecentDirs {
                entries: entries@,
                is_complete,
            },
            DaemonMessage::AttachReady { attach } => DaemonView::AttachReady { attach: attach@ },
        }
    }
}

/// What a client asks of the daemon.
#[derive(Debug)]
pub enum ClientMessage {
    Subscribe,
    Approve { session_id: String },
    DropIn { session_id: String },
    RefreshAll,
    Shutdown,
    GetStatus,
    InjectEvent { session_id: String, state: String },
    GetRecentDirs { limit: u32 },
    CreateSession { host: String, directory: String, name_hint: Option<String> },
}

/// A message of a client as values.
#[verifier::ext_equal]
pub enum ClientView {
    Subscribe,
    Approve { session_id: Seq<char> },
    DropIn { session_id: Seq<char> },
    RefreshAll,
    Shutdown,
    GetStatus,
    InjectEvent { session_id: Seq<char>, state: Seq<char> },
    GetRecentDirs { limit: u32 },
    CreateSession { host: Seq<char>, directory: Seq<char>, name_hint: Option<Seq<char>> },
}

impl View for ClientMessage {
    type V = ClientView;

    open spec fn view(&self) -> ClientView {
        match *self {
            ClientMessage::Subscribe => ClientView::Subscribe,
            ClientMessage::Approve { session_id } => ClientView::Approve {
                session_id: session_id@,
            },
            ClientMessage::DropIn { session_id } => ClientView::DropIn { session_id: session_id@ },
            ClientMessage::RefreshAll => ClientView::RefreshAll,
            ClientMessage::Shutdown => ClientView::Shutdown,
            ClientMessage::GetStatus => ClientView::GetStatus,
            ClientMessage::InjectEvent { session_id, state } => ClientView::InjectEvent {
                session_id: session_id@,
                state: state@,
            },
            ClientMessage::GetRecentDirs { limit } => ClientView::GetRecentDirs { limit },
            ClientMessage::CreateSession { host, directory, name_hint } =>
            ClientView::CreateSession {
                host: host@,
                directory: directory@,
                name_hint: opt_text(name_hint),
            },
        }
    }
}

/// Copies a list of sessions.
pub fn clone_sessions(v: &Vec<SessionInfo>) -> (r: Vec<SessionInfo>)
    ensures
        r@ == v@,
{
    let mut out: Vec<SessionInfo> = Vec::new();
    for i in 0..v.len()
        invariant
            out@ == v@.take(i as int),
    {
        out.push(v[i].clone());
        assert(out@ =~= v@.take(i + 1));
    }
    assert(v@.take(v@.len() as int) =~= v@);
    out
}

/// Copies a list of hosts.
pub fn clone_hosts(v: &Vec<HostStatus>) -> (r: Vec<HostStatus>)
    ensures
        r@ == v@,
{
    let mut out: Vec<HostStatus> = Vec::new();
    for i in 0..v.len()
        invariant
            out@ == v@.take(i as int),
    {
        out.push(v[i].clone());
        assert(out@ =~= v@.take(i + 1));
    }
    assert(v@.take(v@.len() as int) =~= v@);
    out
}

/// Copies the first `n` entries of a list of directories.
pub fn clone_entries(v: &Vec<RecentDirEntry>, n: usize) -> (r: Vec<RecentDirEntry>)
    ensures
        r@ == v@.take(
            if n < v@.len() {
                n as int
            } else {
                v@.len() as int
            },
        ),
{
    let end: usize = if n < v.len() {
        n
    } else {
        v.len()
    };
    let mut out: Vec<RecentDirEntry> = Vec::new();
    for i in 0..end
        invariant
            end <= v@.len(),
            out@ == v@.take(i as int),
    {
        out.push(v[i].clone());
        assert(out@ =~= v@.take(i + 1));
    }
    out
}

/// Copies a list of texts.
pub fn clone_strings(v: &Vec<String>) -> (r: Vec<String>)
    ensures
        r@ == v@,
        strings(r@) == strings(v@),
{
    let mut out: Vec<String> = Vec::new();
    for i in 0..v.len()
        invariant
            out@ == v@.take(i as int),
    {
        out.push(v[i].clone());
        assert(out@ =~= v@.take(i + 1));
    }
    assert(v@.take(v@.len() as int) =~= v@);
    out
}

impl Clone for AttachSpec {
    fn clone(&self) -> (r: AttachSpec)
        ensures
            r@ == self@,
    {
        match self {
            AttachSpec::LocalTmux { session, window, pane } => AttachSpec::LocalTmux {
                session: session.clone(),
                window: clone_opt(window),
                pane: clone_opt(pane),
            },
            AttachSpec::Exec { program, args, tmux_window_name } => AttachSpec::Exec {
                program: program.clone(),
                args: clone_strings(args),
                tmux_window_name: clone_opt(tmux_window_name),
            },
        }
    }
}

impl Clone for DaemonMessage {
    fn clone(&self) -> (r: DaemonMessage)
        ensures
            r@ == self@,
    {
        match self {
            DaemonMessage::StateSnapshot { sessions, hosts } => DaemonMessage::StateSnapshot {
                sessions: clone_sessions(sessions),
                hosts: clone_hosts(hosts),
            },
            DaemonMessage::SessionUpdated { session } => DaemonMessage::SessionUpdated {
                session: session.clone(),
            },
            DaemonMessage::Bell { session_id, host, reason } => DaemonMessage::Bell {
                session_id: session_id.clone(),
                host: host.clone(),
                reason: reason.clone(),
            },
            DaemonMessage::Error { message } => DaemonMessage::Error { message: message.clone() },
            DaemonMessage::DaemonStatus { running, pid, uptime_secs, socket, hosts, sessions } =>
            DaemonMessage::DaemonStatus {
                running: *running,
                pid: *pid,
                uptime_secs: *uptime_secs,
                socket: socket.clone(),
                hosts: clone_hosts(hosts),
                sessions: clone_sessions(sessions),
            },
            DaemonMessage::RecentDirs { entries, is_complete } => {
                let copy = clone_entries(entries, entries.len());
                assert(entries@.take(entries@.len() as int) =~= entries@);
                DaemonMessage::RecentDirs { entries: copy, is_complete: *is_complete }
            },
            DaemonMessage::AttachReady { attach } => DaemonMessage::AttachReady {
                attach: attach.clone(),
            },
        }
    }
}

impl Clone for ClientMessage {
    fn clone(&self) -> (r: ClientMessage)
        ensures
            r@ == self@,
    {
        match self {
            ClientMessage::Subscribe => ClientMessage::Subscribe,
            ClientMessage::Approve { session_id } => ClientMessage::Approve {
                session_id: session_id.clone(),
            },
            ClientMessage::DropIn { session_id } => ClientMessage::DropIn {
                session_id: session_id.clone(),
            },
            ClientMessage::RefreshAll => ClientMessage::RefreshAll,
            ClientMessage::Shutdown => ClientMessage::Shutdown,
            ClientMessage::GetStatus => ClientMessage::GetStatus,
            ClientMessage::InjectEvent { session_id, state } => ClientMessage::InjectEvent {
                session_id: session_id.clone(),
                state: state.clone(),
            },
            ClientMessage::GetRecentDirs { limit } => ClientMessage::GetRecentDirs {
                limit: *limit,
            },
            ClientMessage::CreateSession { host, directory, name_hint } =>
            ClientMessage::CreateSession {
                host: host.clone(),
                directory: directory.clone(),
                name_hint: clone_opt(name_hint),
            },
        }
    }
}

} // verus!
