//! The scan of a host: which question is asked next, and what the answers add
//! up to.
//!
//! A process with a port is a server, whose port is forwarded. A process without
//! one shows sessions: its working directory leads to a project, the project to
//! the session that was updated last, and that one to the sessions below it.

use vstd::prelude::*;
use vstd::string::*;

use crate::discovery::panes::{
    active_views, discover_port_from_lsof, lsof_port_in, pane_views, panes_of, parse_panes,
    ActiveSession, ActiveView, PaneView, ScanResult, TmuxPane,
};
use crate::discovery::parts::{first_state, state_in_parts, state_of_parts, stored_statuses};
use crate::discovery::remote::{
    cwd_question, cwd_question_text, db_sessions, db_views, extract_port_from_cmdline,
    latest_question, latest_question_text, law_stored_sessions_in_turn, lsof_question,
    lsof_question_text, normalize_tty, opencode_processes, panes_question, panes_question_text,
    parse_processes, parse_remote_db_sessions, parts_question, parts_question_text, ports_without,
    proc_views, project_question, project_question_text, reconcile_port_forwards, server_port_in,
    tree_question, tree_question_text, tty_of, tty_question, tty_question_text, DbView, ProcView,
    RemoteDbSession, RemoteProcess,
};
use crate::text::{
    chars_of, clone_opt, law_lines_read_from_the_left, law_trim, lines, opt_text, starts_with,
    str_eq, string_of, text_starts_with, trim, trim_white,
};
use crate::types::SessionState;

verus! {

// ---------------------------------------------------------------------------
// State
// ---------------------------------------------------------------------------

/// Where a scan stands.
pub enum ScanPhase {
    /// The panes of tmux are asked for.
    Panes,
    /// The processes are asked for.
    Processes,
    /// The ports of a process are asked for.
    Port { i: usize },
    /// A port of a process is being forwarded.
    Forward { i: usize, remote: u16 },
    /// The working directory of a process without a port is asked for.
    Cwd { j: usize },
    /// The project of the working directory is asked for.
    Project { j: usize, cwd: String },
    /// The session of the project that was updated last is asked for.
    Latest { j: usize, project: String },
    /// The sessions below that one are asked for.
    Tree { j: usize, project: String, root: RemoteDbSession },
    /// The terminal of the process is asked for.
    Tty { j: usize, project: String, root_id: String, tree: Vec<RemoteDbSession> },
    /// The stored parts of a session are asked for.
    Parts {
        j: usize,
        project: String,
        root_id: String,
        tree: Vec<RemoteDbSession>,
        pane: Option<TmuxPane>,
        k: usize,
    },
    /// The scan is over.
    Done,
    /// The processes could not be asked for.
    Failed,
}

/// Where a scan stands as values.
#[verifier::ext_equal]
pub enum PhaseView {
    Panes,
    Processes,
    Port { i: int },
    Forward { i: int, remote: u16 },
    Cwd { j: int },
    Project { j: int, cwd: Seq<char> },
    Latest { j: int, project: Seq<char> },
    Tree { j: int, project: Seq<char>, root: DbView },
    Tty { j: int, project: Seq<char>, root_id: Seq<char>, tree: Seq<DbView> },
    Parts {
        j: int,
        project: Seq<char>,
        root_id: Seq<char>,
        tree: Seq<DbView>,
        pane: Option<PaneView>,
        k: int,
    },
    Done,
    Failed,
}

impl View for ScanPhase {
    type V = PhaseView;

    open spec fn view(&self) -> PhaseView {
        match *self {
            ScanPhase::Panes => PhaseView::Panes,
            ScanPhase::Processes => PhaseView::Processes,
            ScanPhase::Port { i } => PhaseView::Port { i: i as int },
            ScanPhase::Forward { i, remote } => PhaseView::Forward { i: i as int, remote },
            ScanPhase::Cwd { j } => PhaseView::Cwd { j: j as int },
            ScanPhase::Project { j, cwd } => PhaseView::Project { j: j as int, cwd: cwd@ },
            ScanPhase::Latest { j, project } => PhaseView::Latest { j: j as int, project: project@ },
            ScanPhase::Tree { j, project, root } => PhaseView::Tree {
                j: j as int,
                project: project@,
                root: root@,
            },
            ScanPhase::Tty { j, project, root_id, tree } => PhaseView::Tty {
                j: j as int,
                project: project@,
                root_id: root_id@,
                tree: db_views(tree@),
            },
            ScanPhase::Parts { j, project, root_id, tree, pane, k } => PhaseView::Parts {
                j: j as int,
                project: project@,
                root_id: root_id@,
                tree: db_views(tree@),
                pane: opt_pane(pane),
                k: k as int,
            },
            ScanPhase::Done => PhaseView::Done,
            ScanPhase::Failed => PhaseView::Failed,
        }
    }
}

/// The view of a pane, if there is one.
pub open spec fn opt_pane(p: Option<TmuxPane>) -> Option<PaneView> {
    match p {
        Some(t) => Some(t@),
        None => None,
    }
}

/// A scan of a host.
pub struct RemoteScan {
    /// The only tmux session to look at, where there is one.
    pub filter: Option<String>,
    pub phase: ScanPhase,
    pub panes: Vec<TmuxPane>,
    pub processes: Vec<RemoteProcess>,
    /// The processes without a port.
    pub tui_pids: Vec<u32>,
    /// The ports that processes use.
    pub ports: Vec<u16>,
    /// The port here and the port there of the server found last.
    pub server: Option<(u16, u16)>,
    pub sessions: Vec<ActiveSession>,
}

/// A scan as values.
#[verifier::ext_equal]
pub struct ScanView {
    pub filter: Option<Seq<char>>,
    pub phase: PhaseView,
    pub panes: Seq<PaneView>,
    pub processes: Seq<ProcView>,
    pub tui_pids: Seq<u32>,
    pub ports: Seq<u16>,
    pub server: Option<(u16, u16)>,
    pub sessions: Seq<ActiveView>,
}

impl View for RemoteScan {
    type V = ScanView;

    open spec fn view(&self) -> ScanView {
        ScanView {
            filter: opt_text(self.filter),
            phase: self.phase@,
            panes: pane_views(self.panes@),
            processes: proc_views(self.processes@),
            tui_pids: self.tui_pids@,
            ports: self.ports@,
            server: self.server,
            sessions: active_views(self.sessions@),
        }
    }
}

/// What a scan asks for.
pub enum ScanAction {
    /// A command to be run on the host.
    Run(String),
    /// A port to be forwarded.
    Forward(u16),
    Done,
    Failed,
}

/// What a scan asks for as values.
#[verifier::ext_equal]
pub enum ActionView {
    Run(Seq<char>),
    Forward(u16),
    Done,
    Failed,
}

impl View for ScanAction {
    type V = ActionView;

    open spec fn view(&self) -> ActionView {
        match *self {
            ScanAction::Run(c) => ActionView::Run(c@),
            ScanAction::Forward(p) => ActionView::Forward(p),
            ScanAction::Done => ActionView::Done,
            ScanAction::Failed => ActionView::Failed,
        }
    }
}

/// What a scan is told.
pub enum ScanEvent {
    /// The output of a command; none where it failed.
    Output(Option<String>),
    /// The port here to which a port was forwarded; none where that failed.
    Forwarded(Option<u16>),
}

/// What a scan is told as values.
#[verifier::ext_equal]
pub enum EventView {
    Output(Option<Seq<char>>),
    Forwarded(Option<u16>),
}

impl View for ScanEvent {
    type V = EventView;

    open spec fn view(&self) -> EventView {
        match *self {
            ScanEvent::Output(o) => EventView::Output(opt_text(o)),
            ScanEvent::Forwarded(p) => EventView::Forwarded(p),
        }
    }
}

// ---------------------------------------------------------------------------
// Steps
// ---------------------------------------------------------------------------

/// A scan before its first question.
pub open spec fn scan_start(filter: Option<Seq<char>>) -> ScanView {
    ScanView {
        filter,
        phase: PhaseView::Panes,
        panes: Seq::empty(),
        processes: Seq::empty(),
        tui_pids: Seq::empty(),
        ports: Seq::empty(),
        server: None,
        sessions: Seq::empty(),
    }
}

/// What a scan asks for next.
pub open spec fn scan_action(v: ScanView) -> ActionView {
    match v.phase {
        PhaseView::Panes => ActionView::Run(panes_question_text()),
        PhaseView::Processes => ActionView::Run("ps aux"@),
        PhaseView::Port { i } => ActionView::Run(lsof_question_text(v.processes[i].pid)),
        PhaseView::Forward { i, remote } => ActionView::Forward(remote),
        PhaseView::Cwd { j } => ActionView::Run(cwd_question_text(v.tui_pids[j])),
        PhaseView::Project { j, cwd } => ActionView::Run(project_question_text(cwd)),
        PhaseView::Latest { j, project } => ActionView::Run(latest_question_text(project)),
        PhaseView::Tree { j, project, root } => ActionView::Run(tree_question_text(root.id)),
        PhaseView::Tty { j, .. } => ActionView::Run(tty_question_text(v.tui_pids[j])),
        PhaseView::Parts { tree, k, .. } => ActionView::Run(parts_question_text(tree[k].id)),
        PhaseView::Done => ActionView::Done,
        PhaseView::Failed => ActionView::Failed,
    }
}

/// Whether a scan stands at an existing process, session and pane.
pub open spec fn scan_in_range(v: ScanView) -> bool {
    match v.phase {
        PhaseView::Port { i } => 0 <= i < v.processes.len(),
        PhaseView::Forward { i, .. } => 0 <= i < v.processes.len(),
        PhaseView::Cwd { j } => 0 <= j < v.tui_pids.len(),
        PhaseView::Project { j, .. } => 0 <= j < v.tui_pids.len(),
        PhaseView::Latest { j, .. } => 0 <= j < v.tui_pids.len(),
        PhaseView::Tree { j, .. } => 0 <= j < v.tui_pids.len(),
        PhaseView::Tty { j, .. } => 0 <= j < v.tui_pids.len(),
        PhaseView::Parts { j, tree, k, .. } => 0 <= j < v.tui_pids.len() && 0 <= k < tree.len(),
        _ => true,
    }
}

/// The output of a command, empty where it failed.
pub open spec fn or_empty(o: Option<Seq<char>>) -> Seq<char> {
    match o {
        Some(t) => t,
        None => Seq::empty(),
    }
}

/// At the working directory of the process `j` without a port, or at the end.
pub open spec fn at_pid(v: ScanView, j: int) -> ScanView {
    ScanView {
        phase: if j < v.tui_pids.len() {
            PhaseView::Cwd { j }
        } else {
            PhaseView::Done
        },
        ..v
    }
}

/// At the ports of the process `i`, or at the processes without a port.
pub open spec fn at_process(v: ScanView, i: int) -> ScanView {
    if i < v.processes.len() {
        ScanView { phase: PhaseView::Port { i }, ..v }
    } else {
        at_pid(v, 0)
    }
}

/// Whether a session was found already.
pub open spec fn found(v: Seq<ActiveView>, id: Seq<char>) -> bool {
    exists|k: int| 0 <= k < v.len() && (#[trigger] v[k]).id == id
}

/// At the first session of a tree, from `k` on, that was not found already, or
/// at the next process.
pub open spec fn at_session(
    v: ScanView,
    j: int,
    project: Seq<char>,
    root_id: Seq<char>,
    tree: Seq<DbView>,
    pane: Option<PaneView>,
    k: int,
) -> ScanView
    decreases tree.len() - k,
{
    if k >= tree.len() {
        at_pid(v, j + 1)
    } else if found(v.sessions, tree[k].id) {
        at_session(v, j, project, root_id, tree, pane, k + 1)
    } else {
        ScanView { phase: PhaseView::Parts { j, project, root_id, tree, pane, k }, ..v }
    }
}

/// The port of a process: what lsof tells, else what its command line gives.
pub open spec fn port_of_process(lsof: Seq<char>, p: ProcView) -> Option<u16> {
    match lsof_port_in(lines(lsof), 0) {
        Some(port) => Some(port),
        None => server_port_in(p.cmdline),
    }
}

/// The last pane at a terminal.
pub open spec fn pane_at(panes: Seq<PaneView>, tty: Seq<char>) -> Option<PaneView>
    decreases panes.len(),
{
    if panes.len() == 0 {
        None
    } else if panes.last().tty == tty {
        Some(panes.last())
    } else {
        pane_at(panes.drop_last(), tty)
    }
}

/// Whether a process at a pane is looked at: any process, or only those in one
/// tmux session.
pub open spec fn admitted(filter: Option<Seq<char>>, pane: Option<PaneView>) -> bool {
    match filter {
        Some(name) => pane matches Some(p) && p.session == name,
        None => true,
    }
}

/// A session that was found, at its place in tmux where it is the one that the
/// process shows.
pub open spec fn active_of(
    s: DbView,
    project: Seq<char>,
    root_id: Seq<char>,
    pane: Option<PaneView>,
    inferred: Option<SessionState>,
    pid: u32,
) -> ActiveView {
    let here = if s.id == root_id {
        pane
    } else {
        None
    };
    ActiveView {
        id: s.id,
        parent_id: s.parent_id,
        title: s.title,
        directory: s.directory,
        project_id: project,
        inferred,
        updated_ms: s.updated_ms,
        pid,
        tmux_session: match here {
            Some(p) => Some(p.session),
            None => None,
        },
        tmux_window: match here {
            Some(p) => Some(p.window),
            None => None,
        },
        tmux_window_index: match here {
            Some(p) => Some(p.window_index),
            None => None,
        },
        tmux_pane_index: match here {
            Some(p) => Some(p.index),
            None => None,
        },
        tmux_pane_tty: match here {
            Some(p) => Some(p.tty),
            None => None,
        },
    }
}

/// What the state of the session at which a scan stands does to the scan: the
/// session is found, and the scan goes on to the next one.
pub open spec fn session_found(v: ScanView, state: Option<SessionState>) -> ScanView {
    match v.phase {
        PhaseView::Parts { j, project, root_id, tree, pane, k } => {
            let session = active_of(tree[k], project, root_id, pane, state, v.tui_pids[j]);
            at_session(
                ScanView { sessions: v.sessions.push(session), ..v },
                j,
                project,
                root_id,
                tree,
                pane,
                k + 1,
            )
        },
        _ => v,
    }
}

/// What an answer to a question does to a scan.
pub open spec fn scan_answered(v: ScanView, out: Option<Seq<char>>) -> ScanView {
    match v.phase {
        PhaseView::Panes => ScanView {
            panes: panes_of(lines(or_empty(out)), '\t'),
            phase: PhaseView::Processes,
            ..v
        },
        PhaseView::Processes => match out {
            Some(text) => at_process(
                ScanView { processes: opencode_processes(lines(text)), ..v },
                0,
            ),
            None => ScanView { phase: PhaseView::Failed, ..v },
        },
        PhaseView::Port { i } => match port_of_process(or_empty(out), v.processes[i]) {
            Some(remote) => ScanView {
                ports: v.ports.push(remote),
                phase: PhaseView::Forward { i, remote },
                ..v
            },
            None => at_process(
                ScanView { tui_pids: v.tui_pids.push(v.processes[i].pid), ..v },
                i + 1,
            ),
        },
        PhaseView::Cwd { j } => {
            let cwd = trim(or_empty(out));
            if starts_with(cwd, "/"@) {
                ScanView { phase: PhaseView::Project { j, cwd }, ..v }
            } else {
                at_pid(v, j + 1)
            }
        },
        PhaseView::Project { j, cwd } => {
            let project = trim(or_empty(out));
            if project.len() == 0 {
                at_pid(v, j + 1)
            } else {
                ScanView { phase: PhaseView::Latest { j, project }, ..v }
            }
        },
        PhaseView::Latest { j, project } => {
            let sessions = match out {
                Some(text) => db_sessions(lines(text)),
                None => Seq::empty(),
            };
            if sessions.len() == 0 {
                at_pid(v, j + 1)
            } else {
                ScanView { phase: PhaseView::Tree { j, project, root: sessions[0] }, ..v }
            }
        },
        PhaseView::Tree { j, project, root } => {
            let sessions = match out {
                Some(text) => db_sessions(lines(text)),
                None => Seq::empty(),
            };
            let tree = if sessions.len() == 0 {
                seq![root]
            } else {
                sessions
            };
            ScanView { phase: PhaseView::Tty { j, project, root_id: root.id, tree }, ..v }
        },
        PhaseView::Tty { j, project, root_id, tree } => {
            let tty = match out {
                Some(text) => tty_of(text),
                None => None,
            };
            let pane = match tty {
                Some(t) => pane_at(v.panes, t),
                None => None,
            };
            if admitted(v.filter, pane) {
                at_session(v, j, project, root_id, tree, pane, 0)
            } else {
                at_pid(v, j + 1)
            }
        },
        PhaseView::Parts { .. } => session_found(
            v,
            match out {
                Some(text) => state_in_parts(text),
                None => None,
            },
        ),
        _ => v,
    }
}

/// What an event does to a scan; one that was not asked for does nothing.
pub open spec fn scan_step(v: ScanView, e: EventView) -> ScanView {
    match e {
        EventView::Output(out) => scan_answered(v, out),
        EventView::Forwarded(local) => match v.phase {
            PhaseView::Forward { i, remote } => at_process(
                ScanView {
                    server: match local {
                        Some(port) => Some((port, remote)),
                        None => v.server,
                    },
                    ..v
                },
                i + 1,
            ),
            _ => v,
        },
    }
}

/// Whether an event is what a scan asked for.
pub open spec fn answers(a: ActionView, e: EventView) -> bool {
    match a {
        ActionView::Run(_) => e is Output,
        ActionView::Forward(_) => e is Forwarded,
        _ => false,
    }
}

// ---------------------------------------------------------------------------
// Running a scan
// ---------------------------------------------------------------------------

/// The last pane at a terminal.
fn find_pane(panes: &Vec<TmuxPane>, tty: &str) -> (r: Option<TmuxPane>)
    ensures
        opt_pane(r) == pane_at(pane_views(panes@), tty@),
{
    let ghost pv = pane_views(panes@);
    let mut n: usize = panes.len();
    assert(pv.take(n as int) =~= pv);
    while n > 0
        invariant
            n <= panes@.len(),
            pv == pane_views(panes@),
            pane_at(pv, tty@) == pane_at(pv.take(n as int), tty@),
        decreases n,
    {
        assert(pv.take(n as int).last() == panes@[n - 1]@);
        assert(pv.take(n as int).drop_last() =~= pv.take(n - 1));
        if str_eq(panes[n - 1].pane_tty.as_str(), tty) {
            return Some(panes[n - 1].clone());
        }
        n = n - 1;
    }
    None
}

/// Whether a process at a pane is looked at.
fn is_admitted(filter: &Option<String>, pane: &Option<TmuxPane>) -> (r: bool)
    ensures
        r == admitted(opt_text(*filter), opt_pane(*pane)),
{
    match (filter, pane) {
        (Some(name), Some(p)) => str_eq(p.session_name.as_str(), name.as_str()),
        (Some(_), None) => false,
        (None, _) => true,
    }
}

/// Whether a session was found already.
fn was_found(sessions: &Vec<ActiveSession>, id: &str) -> (r: bool)
    ensures
        r == found(active_views(sessions@), id@),
{
    let ghost av = active_views(sessions@);
    for k in 0..sessions.len()
        invariant
            av == active_views(sessions@),
            forall|n: int| 0 <= n < k ==> (#[trigger] av[n]).id != id@,
    {
        assert(av[k as int] == sessions@[k as int]@);
        if str_eq(sessions[k].session_id.as_str(), id) {
            return true;
        }
    }
    false
}

/// The trimmed output of a command, empty where it failed.
fn trimmed_output(out: &Option<String>) -> (r: String)
    ensures
        r@ == trim(or_empty(opt_text(*out))),
{
    match out {
        Some(text) => {
            let chars = chars_of(text.as_str());
            string_of(&trim_white(&chars))
        },
        None => {
            let empty: Vec<char> = Vec::new();
            assert(empty@ =~= Seq::<char>::empty());
            string_of(&trim_white(&empty))
        },
    }
}

/// The output of a command, empty where it failed.
fn output_or_empty(out: &Option<String>) -> (r: String)
    ensures
        r@ == or_empty(opt_text(*out)),
{
    match out {
        Some(text) => text.clone(),
        None => {
            let empty = String::new();
            assert(empty@ =~= Seq::<char>::empty());
            empty
        },
    }
}

/// The stored sessions of an answer; none where there was no answer.
fn answered_sessions(out: &Option<String>) -> (r: Vec<RemoteDbSession>)
    ensures
        db_views(r@) == match opt_text(*out) {
            Some(text) => db_sessions(lines(text)),
            None => Seq::empty(),
        },
{
    match out {
        Some(text) => parse_remote_db_sessions(text.as_str()),
        None => {
            let none: Vec<RemoteDbSession> = Vec::new();
            assert(db_views(none@) =~= Seq::<DbView>::empty());
            none
        },
    }
}

/// A session that was found.
fn make_active(
    s: &RemoteDbSession,
    project: &str,
    root_id: &str,
    pane: &Option<TmuxPane>,
    inferred: Option<SessionState>,
    pid: u32,
) -> (r: ActiveSession)
    ensures
        r@ == active_of(s@, project@, root_id@, opt_pane(*pane), inferred, pid),
{
    let is_root = str_eq(s.id.as_str(), root_id);
    let place: Option<(String, String, u32, u32, String)> = match pane {
        Some(p) => if is_root {
            Some(
                (
                    p.session_name.clone(),
                    p.window_name.clone(),
                    p.window_index,
                    p.pane_index,
                    p.pane_tty.clone(),
                ),
            )
        } else {
            None
        },
        None => None,
    };
    let (tmux_session, tmux_window, tmux_window_index, tmux_pane_index, tmux_pane_tty) =
        match place {
        Some((session, window, window_index, index, tty)) => (
            Some(session),
            Some(window),
            Some(window_index),
            Some(index),
            Some(tty),
        ),
        None => (None, None, None, None, None),
    };
    ActiveSession {
        session_id: s.id.clone(),
        parent_id: clone_opt(&s.parent_id),
        title: s.title.clone(),
        directory: s.directory.clone(),
        project_id: project.to_string(),
        inferred_state: inferred,
        time_updated_ms: s.time_updated_ms,
        tui_pid: pid,
        tmux_session,
        tmux_window,
        tmux_window_index,
        tmux_pane_index,
        tmux_pane_tty,
    }
}

impl RemoteScan {
    /// A scan before its first question, of all that runs on the host or only of
    /// what runs in one tmux session.
    pub fn new(filter: Option<String>) -> (r: RemoteScan)
        ensures
            r@ == scan_start(opt_text(filter)),
            scan_in_range(r@),
    {
        let r = RemoteScan {
            filter,
            phase: ScanPhase::Panes,
            panes: Vec::new(),
            processes: Vec::new(),
            tui_pids: Vec::new(),
            ports: Vec::new(),
            server: None,
            sessions: Vec::new(),
        };
        assert(r@ =~= scan_start(opt_text(filter)));
        r
    }

    /// What the scan asks for next.
    pub fn action(&self) -> (r: ScanAction)
        requires
            scan_in_range(self@),
        ensures
            r@ == scan_action(self@),
    {
        match &self.phase {
            ScanPhase::Panes => ScanAction::Run(panes_question().to_string()),
            ScanPhase::Processes => ScanAction::Run("ps aux".to_string()),
            ScanPhase::Port { i } => {
                assert(self@.processes[*i as int] == self.processes@[*i as int]@);
                ScanAction::Run(lsof_question(self.processes[*i].pid))
            },
            ScanPhase::Forward { i: _, remote } => ScanAction::Forward(*remote),
            ScanPhase::Cwd { j } => ScanAction::Run(cwd_question(self.tui_pids[*j])),
            ScanPhase::Project { j: _, cwd } => ScanAction::Run(project_question(cwd.as_str())),
            ScanPhase::Latest { j: _, project } => ScanAction::Run(
                latest_question(project.as_str()),
            ),
            ScanPhase::Tree { j: _, project: _, root } => ScanAction::Run(
                tree_question(root.id.as_str()),
            ),
            ScanPhase::Tty { j, project: _, root_id: _, tree: _ } => ScanAction::Run(
                tty_question(self.tui_pids[*j]),
            ),
            ScanPhase::Parts { j: _, project: _, root_id: _, tree, pane: _, k } => {
                assert(db_views(tree@)[*k as int] == tree@[*k as int]@);
                ScanAction::Run(parts_question(tree[*k].id.as_str()))
            },
            ScanPhase::Done => ScanAction::Done,
            ScanPhase::Failed => ScanAction::Failed,
        }
    }

    /// Goes to a process without a port, or to the end.
    fn go_to_pid(&mut self, j: usize)
        ensures
            final(self)@ == at_pid(old(self)@, j as int),
            scan_in_range(final(self)@),
    {
        self.phase = if j < self.tui_pids.len() {
            ScanPhase::Cwd { j }
        } else {
            ScanPhase::Done
        };
        assert(self@ =~= at_pid(old(self)@, j as int));
    }

    /// Goes to a process, or to those without a port.
    fn go_to_process(&mut self, i: usize)
        ensures
            final(self)@ == at_process(old(self)@, i as int),
            scan_in_range(final(self)@),
    {
        if i < self.processes.len() {
            self.phase = ScanPhase::Port { i };
            assert(self@ =~= at_process(old(self)@, i as int));
        } else {
            self.go_to_pid(0);
        }
    }

    /// Goes to the next session of a tree that was not found already.
    fn go_to_session(
        &mut self,
        j: usize,
        project: String,
        root_id: String,
        tree: Vec<RemoteDbSession>,
        pane: Option<TmuxPane>,
        from: usize,
    )
        requires
            j < old(self).tui_pids@.len(),
            from <= tree@.len(),
        ensures
            final(self)@ == at_session(
                old(self)@,
                j as int,
                project@,
                root_id@,
                db_views(tree@),
                opt_pane(pane),
                from as int,
            ),
            scan_in_range(final(self)@),
    {
        let ghost v = self@;
        let ghost tv = db_views(tree@);
        let total: usize = self.tui_pids.len();
        let mut k: usize = from;
        while k < tree.len() && was_found(&self.sessions, tree[k].id.as_str())
            invariant
                k <= tree@.len(),
                v == self@,
                tv == db_views(tree@),
                at_session(v, j as int, project@, root_id@, tv, opt_pane(pane), from as int)
                    == at_session(v, j as int, project@, root_id@, tv, opt_pane(pane), k as int),
            decreases tree@.len() - k,
        {
            assert(tv[k as int] == tree@[k as int]@);
            k = k + 1;
        }
        if k < tree.len() {
            assert(tv[k as int] == tree@[k as int]@);
            self.phase = ScanPhase::Parts { j, project, root_id, tree, pane, k };
            assert(self@ =~= at_session(
                v,
                j as int,
                project@,
                root_id@,
                tv,
                opt_pane(pane),
                k as int,
            ));
        } else {
            self.go_to_pid(j + 1);
        }
    }

    /// Takes in the state of the session at which the scan stands.
    pub fn take_state(&mut self, state: Option<SessionState>)
        requires
            scan_in_range(old(self)@),
        ensures
            final(self)@ == session_found(old(self)@, state),
            scan_in_range(final(self)@),
    {
        let ghost v = self@;
        let mut phase = ScanPhase::Done;
        std::mem::swap(&mut phase, &mut self.phase);
        match phase {
            ScanPhase::Parts { j, project, root_id, tree, pane, k } => {
                let total: usize = tree.len();
                assert(db_views(tree@)[k as int] == tree@[k as int]@);
                let session = make_active(
                    &tree[k],
                    project.as_str(),
                    root_id.as_str(),
                    &pane,
                    state,
                    self.tui_pids[j],
                );
                let ghost before = self.sessions@;
                self.sessions.push(session);
                assert(active_views(self.sessions@) =~= active_views(before).push(
                    session@,
                ));
                let ghost grown = ScanView { sessions: v.sessions.push(session@), ..v };
                assert(self@ =~= ScanView { phase: PhaseView::Done, ..grown });
                self.go_to_session(j, project, root_id, tree, pane, k + 1);
                proof {
                    lemma_at_session_phase(
                        ScanView { phase: PhaseView::Done, ..grown },
                        grown,
                        j as int,
                        project@,
                        root_id@,
                        db_views(tree@),
                        opt_pane(pane),
                        k + 1,
                    );
                }
            },
            other => {
                self.phase = other;
                assert(self@ =~= v);
            },
        }
    }

    /// Takes in the answer to a question.
    fn take_answer(&mut self, out: Option<String>)
        requires
            scan_in_range(old(self)@),
        ensures
            final(self)@ == scan_answered(old(self)@, opt_text(out)),
            scan_in_range(final(self)@),
    {
        if let ScanPhase::Parts { .. } = &self.phase {
            let state = match &out {
                Some(text) => state_of_parts(text.as_str()),
                None => None,
            };
            self.take_state(state);
            return;
        }
        let ghost v = self@;
        let mut phase = ScanPhase::Done;
        std::mem::swap(&mut phase, &mut self.phase);
        assert(self@ =~= ScanView { phase: PhaseView::Done, ..v });
        match phase {
            ScanPhase::Panes => {
                let text = output_or_empty(&out);
                self.panes = parse_panes(text.as_str(), '\t');
                self.phase = ScanPhase::Processes;
                assert(self@ =~= scan_answered(v, opt_text(out)));
            },
            ScanPhase::Processes => {
                match &out {
                    Some(text) => {
                        self.processes = parse_processes(text.as_str());
                        assert(self@ =~= ScanView {
                            phase: PhaseView::Done,
                            processes: opencode_processes(lines(text@)),
                            ..v
                        });
                        self.go_to_process(0);
                        assert(self@ =~= scan_answered(v, opt_text(out)));
                    },
                    None => {
                        self.phase = ScanPhase::Failed;
                        assert(self@ =~= scan_answered(v, opt_text(out)));
                    },
                }
            },
            ScanPhase::Port { i } => {
                assert(v.processes[i as int] == self.processes@[i as int]@);
                let text = output_or_empty(&out);
                let port = match discover_port_from_lsof(text.as_str()) {
                    Some(port) => Some(port),
                    None => extract_port_from_cmdline(self.processes[i].cmdline.as_str()),
                };
                match port {
                    Some(remote) => {
                        self.ports.push(remote);
                        self.phase = ScanPhase::Forward { i, remote };
                        assert(self@ =~= scan_answered(v, opt_text(out)));
                    },
                    None => {
                        let total: usize = self.processes.len();
                        self.tui_pids.push(self.processes[i].pid);
                        assert(self@ =~= ScanView {
                            phase: PhaseView::Done,
                            tui_pids: v.tui_pids.push(v.processes[i as int].pid),
                            ..v
                        });
                        self.go_to_process(i + 1);
                        assert(self@ =~= scan_answered(v, opt_text(out)));
                    },
                }
            },
            ScanPhase::Cwd { j } => {
                let total: usize = self.tui_pids.len();
                let cwd = trimmed_output(&out);
                if text_starts_with(cwd.as_str(), "/") {
                    self.phase = ScanPhase::Project { j, cwd };
                } else {
                    self.go_to_pid(j + 1);
                }
                assert(self@ =~= scan_answered(v, opt_text(out)));
            },
            ScanPhase::Project { j, cwd: _ } => {
                let total: usize = self.tui_pids.len();
                let project = trimmed_output(&out);
                if chars_of(project.as_str()).len() == 0 {
                    self.go_to_pid(j + 1);
                } else {
                    self.phase = ScanPhase::Latest { j, project };
                }
                assert(self@ =~= scan_answered(v, opt_text(out)));
            },
            ScanPhase::Latest { j, project } => {
                let total: usize = self.tui_pids.len();
                let sessions = answered_sessions(&out);
                if sessions.len() == 0 {
                    self.go_to_pid(j + 1);
                } else {
                    assert(db_views(sessions@)[0] == sessions@[0]@);
                    self.phase = ScanPhase::Tree { j, project, root: sessions[0].clone() };
                }
                assert(self@ =~= scan_answered(v, opt_text(out)));
            },
            ScanPhase::Tree { j, project, root } => {
                let sessions = answered_sessions(&out);
                let root_id = root.id.clone();
                let tree = if sessions.len() == 0 {
                    let mut only: Vec<RemoteDbSession> = Vec::new();
                    only.push(root);
                    assert(db_views(only@) =~= seq![root@]);
                    only
                } else {
                    sessions
                };
                self.phase = ScanPhase::Tty { j, project, root_id, tree };
                assert(self@ =~= scan_answered(v, opt_text(out)));
            },
            ScanPhase::Tty { j, project, root_id, tree } => {
                let tty: Option<String> = match &out {
                    Some(text) => normalize_tty(text.as_str()),
                    None => None,
                };
                let pane = match &tty {
                    Some(t) => find_pane(&self.panes, t.as_str()),
                    None => None,
                };
                if !is_admitted(&self.filter, &pane) {
                    let total: usize = self.tui_pids.len();
                    self.go_to_pid(j + 1);
                    assert(self@ =~= scan_answered(v, opt_text(out)));
                    return;
                }
                self.go_to_session(j, project, root_id, tree, pane, 0);
                proof {
                    lemma_at_session_phase(
                        ScanView { phase: PhaseView::Done, ..v },
                        v,
                        j as int,
                        project@,
                        root_id@,
                        db_views(tree@),
                        opt_pane(pane),
                        0,
                    );
                }
            },
            other => {
                self.phase = other;
                assert(self@ =~= v);
            },
        }
    }

    /// Takes in what was asked for.
    pub fn step(&mut self, event: ScanEvent)
        requires
            scan_in_range(old(self)@),
        ensures
            final(self)@ == scan_step(old(self)@, event@),
            scan_in_range(final(self)@),
    {
        match event {
            ScanEvent::Output(out) => self.take_answer(out),
            ScanEvent::Forwarded(local) => {
                match self.phase {
                    ScanPhase::Forward { i, remote } => {
                        let total: usize = self.processes.len();
                        match local {
                            Some(port) => {
                                self.server = Some((port, remote));
                            },
                            None => {},
                        }
                        self.go_to_process(i + 1);
                        assert(self@ =~= scan_step(old(self)@, event@));
                    },
                    _ => {},
                }
            },
        }
    }

    /// What the host shows, once the scan is over; nothing where it failed.
    pub fn into_result(self) -> (r: ScanResult)
        ensures
            if self@.phase is Failed {
                r.server_port is None && r.server_remote_port is None
                    && r.active_sessions@.len() == 0
            } else {
                &&& active_views(r.active_sessions@) == self@.sessions
                &&& match self@.server {
                    Some((local, remote)) => r.server_port == Some(local) && r.server_remote_port
                        == Some(remote),
                    None => r.server_port is None && r.server_remote_port is None,
                }
            },
    {
        match self.phase {
            ScanPhase::Failed => {
                return ScanResult {
                    server_port: None,
                    server_remote_port: None,
                    active_sessions: Vec::new(),
                };
            },
            _ => {},
        }
        match self.server {
            Some((local, remote)) => ScanResult {
                server_port: Some(local),
                server_remote_port: Some(remote),
                active_sessions: self.sessions,
            },
            None => ScanResult {
                server_port: None,
                server_remote_port: None,
                active_sessions: self.sessions,
            },
        }
    }

    /// The ports whose forwarding is to be ended, once the scan is over; none
    /// where it failed.
    pub fn stale_ports(&self, previous: &Vec<u16>) -> (r: Vec<u16>)
        ensures
            r@ == (if self@.phase is Failed {
                Seq::empty()
            } else {
                ports_without(previous@, self@.ports)
            }),
    {
        match self.phase {
            ScanPhase::Failed => Vec::new(),
            _ => reconcile_port_forwards(&self.ports, previous),
        }
    }
}

/// Where a scan goes among the sessions of a tree does not depend on where it
/// stood.
proof fn lemma_at_session_phase(
    a: ScanView,
    b: ScanView,
    j: int,
    project: Seq<char>,
    root_id: Seq<char>,
    tree: Seq<DbView>,
    pane: Option<PaneView>,
    k: int,
)
    requires
        a == (ScanView { phase: a.phase, ..b }),
    ensures
        at_session(a, j, project, root_id, tree, pane, k) == at_session(
            b,
            j,
            project,
            root_id,
            tree,
            pane,
            k,
        ),
    decreases tree.len() - k,
{
    if k < tree.len() && found(a.sessions, tree[k].id) {
        lemma_at_session_phase(a, b, j, project, root_id, tree, pane, k + 1);
    }
}

// ---------------------------------------------------------------------------
// Laws
// ---------------------------------------------------------------------------

/// Whether sessions have different IDs.
pub open spec fn distinct_ids(s: Seq<ActiveView>) -> bool {
    forall|a: int, b: int| 0 <= a < b < s.len() ==> (#[trigger] s[a]).id != (#[trigger] s[b]).id
}

/// Whether no session was found twice, nor is about to be.
pub open spec fn finds_once(v: ScanView) -> bool {
    &&& distinct_ids(v.sessions)
    &&& v.phase matches PhaseView::Parts { tree, k, .. } ==> !found(v.sessions, tree[k].id)
}

proof fn lemma_at_session_finds_once(
    v: ScanView,
    j: int,
    project: Seq<char>,
    root_id: Seq<char>,
    tree: Seq<DbView>,
    pane: Option<PaneView>,
    k: int,
)
    requires
        distinct_ids(v.sessions),
    ensures
        finds_once(at_session(v, j, project, root_id, tree, pane, k)),
        at_session(v, j, project, root_id, tree, pane, k).sessions == v.sessions,
    decreases tree.len() - k,
{
    if k < tree.len() && found(v.sessions, tree[k].id) {
        lemma_at_session_finds_once(v, j, project, root_id, tree, pane, k + 1);
    }
}

/// No session is found twice, whatever the host answers.
pub proof fn law_scan_finds_once(v: ScanView, e: EventView)
    requires
        finds_once(v),
    ensures
        finds_once(scan_step(v, e)),
{
    match e {
        EventView::Output(out) => match v.phase {
            PhaseView::Tty { j, project, root_id, tree } => {
                let tty = match out {
                    Some(text) => tty_of(text),
                    None => None,
                };
                let pane = match tty {
                    Some(t) => pane_at(v.panes, t),
                    None => None,
                };
                lemma_at_session_finds_once(v, j, project, root_id, tree, pane, 0);
            },
            PhaseView::Parts { j, project, root_id, tree, pane, k } => {
                let state = match out {
                    Some(text) => state_in_parts(text),
                    None => None,
                };
                let session = active_of(tree[k], project, root_id, pane, state, v.tui_pids[j]);
                let grown = ScanView { sessions: v.sessions.push(session), ..v };
                assert forall|a: int, b: int| 0 <= a < b < grown.sessions.len() implies (
                #[trigger] grown.sessions[a]).id != (#[trigger] grown.sessions[b]).id by {
                    assert(grown.sessions[a] == v.sessions[a]);
                    if b < v.sessions.len() {
                        assert(grown.sessions[b] == v.sessions[b]);
                    }
                }
                lemma_at_session_finds_once(grown, j, project, root_id, tree, pane, k + 1);
            },
            _ => {},
        },
        EventView::Forwarded(local) => {},
    }
}

/// How far a scan is from its end: the part that it is in, what is left of that
/// part, and how far it is with a process and with its sessions.
pub open spec fn scan_distance(v: ScanView) -> (int, int, int, int) {
    match v.phase {
        PhaseView::Panes => (4, 0, 0, 0),
        PhaseView::Processes => (3, 0, 0, 0),
        PhaseView::Port { i } => (2, v.processes.len() - i, 1, 0),
        PhaseView::Forward { i, .. } => (2, v.processes.len() - i, 0, 0),
        PhaseView::Cwd { j } => (1, v.tui_pids.len() - j, 5, 0),
        PhaseView::Project { j, .. } => (1, v.tui_pids.len() - j, 4, 0),
        PhaseView::Latest { j, .. } => (1, v.tui_pids.len() - j, 3, 0),
        PhaseView::Tree { j, .. } => (1, v.tui_pids.len() - j, 2, 0),
        PhaseView::Tty { j, .. } => (1, v.tui_pids.len() - j, 1, 0),
        PhaseView::Parts { j, tree, k, .. } => (1, v.tui_pids.len() - j, 0, tree.len() - k),
        PhaseView::Done => (0, 0, 0, 0),
        PhaseView::Failed => (0, 0, 0, 0),
    }
}

/// Whether a distance is smaller than another, the first difference deciding.
pub open spec fn nearer(a: (int, int, int, int), b: (int, int, int, int)) -> bool {
    a.0 < b.0 || (a.0 == b.0 && (a.1 < b.1 || (a.1 == b.1 && (a.2 < b.2 || (a.2 == b.2 && a.3
        < b.3)))))
}

proof fn lemma_at_session_distance(
    v: ScanView,
    j: int,
    project: Seq<char>,
    root_id: Seq<char>,
    tree: Seq<DbView>,
    pane: Option<PaneView>,
    k: int,
)
    requires
        0 <= j < v.tui_pids.len(),
        0 <= k,
    ensures
        ({
            let w = at_session(v, j, project, root_id, tree, pane, k);
            let d = scan_distance(w);
            &&& d.0 < 1 || (d.0 == 1 && (d.1 < v.tui_pids.len() - j || (d.1 == v.tui_pids.len() - j
                && d.2 == 0 && 0 < d.3 <= tree.len() - k)))
            &&& d.1 >= 0 && d.2 >= 0 && d.3 >= 0
        }),
    decreases tree.len() - k,
{
    if k < tree.len() && found(v.sessions, tree[k].id) {
        lemma_at_session_distance(v, j, project, root_id, tree, pane, k + 1);
    }
}

/// Every answer to what a scan asked for brings it nearer to its end, and the
/// distance is never negative, so a scan comes to an end.
pub proof fn law_scan_comes_to_an_end(v: ScanView, e: EventView)
    requires
        scan_in_range(v),
        answers(scan_action(v), e),
    ensures
        nearer(scan_distance(scan_step(v, e)), scan_distance(v)),
        ({
            let d = scan_distance(scan_step(v, e));
            d.0 >= 0 && d.1 >= 0 && d.2 >= 0 && d.3 >= 0
        }),
{
    match e {
        EventView::Output(out) => match v.phase {
            PhaseView::Tty { j, project, root_id, tree } => {
                let tty = match out {
                    Some(text) => tty_of(text),
                    None => None,
                };
                let pane = match tty {
                    Some(t) => pane_at(v.panes, t),
                    None => None,
                };
                lemma_at_session_distance(v, j, project, root_id, tree, pane, 0);
            },
            PhaseView::Parts { j, project, root_id, tree, pane, k } => {
                let state = match out {
                    Some(text) => state_in_parts(text),
                    None => None,
                };
                let session = active_of(tree[k], project, root_id, pane, state, v.tui_pids[j]);
                let grown = ScanView { sessions: v.sessions.push(session), ..v };
                lemma_at_session_distance(grown, j, project, root_id, tree, pane, k + 1);
            },
            _ => {},
        },
        EventView::Forwarded(local) => {},
    }
}

/// A session is placed in tmux only where it is the one that its process shows.
pub proof fn law_only_the_shown_session_has_a_pane(
    s: DbView,
    project: Seq<char>,
    root_id: Seq<char>,
    pane: Option<PaneView>,
    inferred: Option<SessionState>,
    pid: u32,
)
    ensures
        ({
            let a = active_of(s, project, root_id, pane, inferred, pid);
            &&& a.tmux_session is Some <==> s.id == root_id && pane is Some
            &&& a.tmux_session is Some <==> a.tmux_window is Some
            &&& a.tmux_session is Some <==> a.tmux_pane_index is Some
            &&& a.tmux_session is Some <==> a.tmux_window_index is Some
            &&& a.tmux_session is Some <==> a.tmux_pane_tty is Some
        }),
{
}

/// Whether a scan that is kept to a tmux session keeps to it: the process at
/// which it stands runs there, and so do the sessions that it placed.
pub open spec fn keeps_to_filter(v: ScanView) -> bool {
    &&& v.phase matches PhaseView::Parts { pane, .. } ==> admitted(v.filter, pane)
    &&& v.filter matches Some(name) ==> forall|k: int|
        0 <= k < v.sessions.len() && (#[trigger] v.sessions[k]).tmux_session is Some
            ==> v.sessions[k].tmux_session == Some(name)
}

proof fn lemma_at_session_keeps_to_filter(
    v: ScanView,
    j: int,
    project: Seq<char>,
    root_id: Seq<char>,
    tree: Seq<DbView>,
    pane: Option<PaneView>,
    k: int,
)
    requires
        keeps_to_filter(ScanView { phase: PhaseView::Done, ..v }),
        admitted(v.filter, pane),
    ensures
        keeps_to_filter(at_session(v, j, project, root_id, tree, pane, k)),
    decreases tree.len() - k,
{
    if k < tree.len() && found(v.sessions, tree[k].id) {
        lemma_at_session_keeps_to_filter(v, j, project, root_id, tree, pane, k + 1);
    }
}

/// A scan that is kept to a tmux session keeps to it, whatever the host answers.
pub proof fn law_scan_keeps_to_filter(v: ScanView, e: EventView)
    requires
        keeps_to_filter(v),
    ensures
        keeps_to_filter(scan_step(v, e)),
        scan_step(v, e).filter == v.filter,
{
    match e {
        EventView::Output(out) => match v.phase {
            PhaseView::Tty { j, project, root_id, tree } => {
                let tty = match out {
                    Some(text) => tty_of(text),
                    None => None,
                };
                let pane = match tty {
                    Some(t) => pane_at(v.panes, t),
                    None => None,
                };
                if admitted(v.filter, pane) {
                    lemma_at_session_keeps_to_filter(v, j, project, root_id, tree, pane, 0);
                    lemma_at_session_rest(v, j, project, root_id, tree, pane, 0);
                }
            },
            PhaseView::Parts { j, project, root_id, tree, pane, k } => {
                let state = match out {
                    Some(text) => state_in_parts(text),
                    None => None,
                };
                let session = active_of(tree[k], project, root_id, pane, state, v.tui_pids[j]);
                let grown = ScanView { sessions: v.sessions.push(session), ..v };
                if let Some(name) = v.filter {
                    assert forall|n: int|
                        0 <= n < grown.sessions.len() && (#[trigger] grown.sessions[n]).tmux_session
                            is Some implies grown.sessions[n].tmux_session == Some(name) by {
                        if n < v.sessions.len() {
                            assert(grown.sessions[n] == v.sessions[n]);
                        }
                    }
                }
                lemma_at_session_keeps_to_filter(grown, j, project, root_id, tree, pane, k + 1);
                lemma_at_session_rest(grown, j, project, root_id, tree, pane, k + 1);
            },
            _ => {},
        },
        EventView::Forwarded(local) => {},
    }
}

proof fn lemma_at_session_rest(
    v: ScanView,
    j: int,
    project: Seq<char>,
    root_id: Seq<char>,
    tree: Seq<DbView>,
    pane: Option<PaneView>,
    k: int,
)
    ensures
        at_session(v, j, project, root_id, tree, pane, k).filter == v.filter,
    decreases tree.len() - k,
{
    if k < tree.len() && found(v.sessions, tree[k].id) {
        lemma_at_session_rest(v, j, project, root_id, tree, pane, k + 1);
    }
}

/// A scan after events, in their order.
pub open spec fn scan_run(v: ScanView, events: Seq<EventView>) -> ScanView
    decreases events.len(),
{
    if events.len() == 0 {
        v
    } else {
        scan_step(scan_run(v, events.drop_last()), events.last())
    }
}

/// Whether a row for a stored session was among the answers to a question for
/// stored sessions.
pub open spec fn was_answered(filter: Option<Seq<char>>, events: Seq<EventView>, s: DbView) -> bool {
    exists|i: int|
        0 <= i < events.len() && answered_by(filter, #[trigger] events.take(i), events[i], s)
}

/// Whether an event answers a question for stored sessions with a row for one.
pub open spec fn answered_by(
    filter: Option<Seq<char>>,
    before: Seq<EventView>,
    e: EventView,
    s: DbView,
) -> bool {
    let phase = scan_run(scan_start(filter), before).phase;
    &&& phase is Latest || phase is Tree
    &&& match e {
        EventView::Output(Some(text)) => db_sessions(lines(text)).contains(s),
        _ => false,
    }
}

/// Whether a session that was found has what is stored of one.
pub open spec fn is_stored_as(a: ActiveView, s: DbView) -> bool {
    &&& a.id == s.id
    &&& a.parent_id == s.parent_id
    &&& a.title == s.title
    &&& a.directory == s.directory
    &&& a.updated_ms == s.updated_ms
}

/// Whether all that a scan holds of stored sessions was among the answers.
spec fn holds_answers(filter: Option<Seq<char>>, events: Seq<EventView>, v: ScanView) -> bool {
    &&& forall|n: int|
        0 <= n < v.sessions.len() ==> exists|s: DbView| #[trigger]
            was_answered(filter, events, s) && is_stored_as(#[trigger] v.sessions[n], s)
    &&& match v.phase {
        PhaseView::Tree { root, .. } => was_answered(filter, events, root),
        PhaseView::Tty { tree, .. } => all_answered(filter, events, tree),
        PhaseView::Parts { tree, .. } => all_answered(filter, events, tree),
        _ => true,
    }
}

spec fn all_answered(filter: Option<Seq<char>>, events: Seq<EventView>, tree: Seq<DbView>) -> bool {
    forall|n: int| 0 <= n < tree.len() ==> was_answered(filter, events, #[trigger] tree[n])
}

proof fn lemma_answers_are_kept(
    filter: Option<Seq<char>>,
    events: Seq<EventView>,
    e: EventView,
    s: DbView,
)
    requires
        was_answered(filter, events, s),
    ensures
        was_answered(filter, events.push(e), s),
{
    let i = choose|i: int|
        0 <= i < events.len() && answered_by(filter, #[trigger] events.take(i), events[i], s);
    assert(events.push(e).take(i) =~= events.take(i));
    assert(events.push(e)[i] == events[i]);
}

proof fn lemma_at_session_holds(
    v: ScanView,
    j: int,
    project: Seq<char>,
    root_id: Seq<char>,
    tree: Seq<DbView>,
    pane: Option<PaneView>,
    k: int,
)
    ensures
        ({
            let r = at_session(v, j, project, root_id, tree, pane, k);
            &&& r.sessions == v.sessions
            &&& match r.phase {
                PhaseView::Parts { tree: t, .. } => t == tree,
                PhaseView::Cwd { .. } => true,
                PhaseView::Done => true,
                _ => false,
            }
        }),
    decreases tree.len() - k,
{
    if k < tree.len() && found(v.sessions, tree[k].id) {
        lemma_at_session_holds(v, j, project, root_id, tree, pane, k + 1);
    }
}

proof fn lemma_holds_answers(filter: Option<Seq<char>>, events: Seq<EventView>)
    ensures
        holds_answers(filter, events, scan_run(scan_start(filter), events)),
    decreases events.len(),
{
    if events.len() > 0 {
        let head = events.drop_last();
        let e = events.last();
        let v = scan_run(scan_start(filter), head);
        let w = scan_run(scan_start(filter), events);
        lemma_holds_answers(filter, head);
        assert(head.push(e) =~= events);
        assert(events.take(head.len() as int) =~= head);
        assert forall|s: DbView| was_answered(filter, head, s) implies #[trigger] was_answered(
            filter,
            events,
            s,
        ) by {
            lemma_answers_are_kept(filter, head, e, s);
        }
        assert forall|n: int| 0 <= n < v.sessions.len() implies exists|s: DbView| #[trigger]
            was_answered(filter, events, s) && is_stored_as(#[trigger] v.sessions[n], s) by {
            let s = choose|s: DbView| #[trigger]
                was_answered(filter, head, s) && is_stored_as(v.sessions[n], s);
            assert(was_answered(filter, events, s));
        }
        if let EventView::Output(out) = e {
            let rows = match out {
                Some(text) => db_sessions(lines(text)),
                None => Seq::empty(),
            };
            if v.phase is Latest || v.phase is Tree {
                assert forall|n: int| 0 <= n < rows.len() implies was_answered(
                    filter,
                    events,
                    #[trigger] rows[n],
                ) by {
                    assert(answered_by(filter, events.take(head.len() as int), e, rows[n]));
                    assert(events[head.len() as int] == e);
                }
            }
            match v.phase {
                PhaseView::Tree { j, project, root } => {
                    let tree = if rows.len() == 0 {
                        seq![root]
                    } else {
                        rows
                    };
                    assert(all_answered(filter, events, tree));
                },
                PhaseView::Tty { j, project, root_id, tree } => {
                    let tty = match out {
                        Some(text) => tty_of(text),
                        None => None,
                    };
                    let pane = match tty {
                        Some(t) => pane_at(v.panes, t),
                        None => None,
                    };
                    lemma_at_session_holds(v, j, project, root_id, tree, pane, 0);
                },
                PhaseView::Parts { j, project, root_id, tree, pane, k } => {
                    let state = match out {
                        Some(text) => state_in_parts(text),
                        None => None,
                    };
                    lemma_run_in_range(filter, head);
                    let session = active_of(tree[k], project, root_id, pane, state, v.tui_pids[j]);
                    let grown = ScanView { sessions: v.sessions.push(session), ..v };
                    lemma_at_session_holds(grown, j, project, root_id, tree, pane, k + 1);
                    assert(was_answered(filter, events, tree[k]));
                    assert forall|n: int| 0 <= n < w.sessions.len() implies exists|s: DbView|
                        #[trigger]
                        was_answered(filter, events, s) && is_stored_as(#[trigger] w.sessions[n], s) by {
                        if n < v.sessions.len() {
                            assert(w.sessions[n] == v.sessions[n]);
                        } else {
                            assert(w.sessions[n] == session);
                            assert(is_stored_as(w.sessions[n], tree[k]));
                        }
                    }
                },
                _ => {},
            }
        }
    }
}

proof fn lemma_at_session_in_range(
    v: ScanView,
    j: int,
    project: Seq<char>,
    root_id: Seq<char>,
    tree: Seq<DbView>,
    pane: Option<PaneView>,
    k: int,
)
    requires
        0 <= j < v.tui_pids.len(),
        0 <= k,
    ensures
        scan_in_range(at_session(v, j, project, root_id, tree, pane, k)),
    decreases tree.len() - k,
{
    if k < tree.len() && found(v.sessions, tree[k].id) {
        lemma_at_session_in_range(v, j, project, root_id, tree, pane, k + 1);
    }
}

proof fn lemma_run_in_range(filter: Option<Seq<char>>, events: Seq<EventView>)
    ensures
        scan_in_range(scan_run(scan_start(filter), events)),
    decreases events.len(),
{
    if events.len() > 0 {
        let v = scan_run(scan_start(filter), events.drop_last());
        lemma_run_in_range(filter, events.drop_last());
        if let EventView::Output(out) = events.last() {
            match v.phase {
                PhaseView::Tty { j, project, root_id, tree } => {
                    let tty = match out {
                        Some(text) => tty_of(text),
                        None => None,
                    };
                    let pane = match tty {
                        Some(t) => pane_at(v.panes, t),
                        None => None,
                    };
                    lemma_at_session_in_range(v, j, project, root_id, tree, pane, 0);
                },
                PhaseView::Parts { j, project, root_id, tree, pane, k } => {
                    let state = match out {
                        Some(text) => state_in_parts(text),
                        None => None,
                    };
                    let session = active_of(tree[k], project, root_id, pane, state, v.tui_pids[j]);
                    let grown = ScanView { sessions: v.sessions.push(session), ..v };
                    lemma_at_session_in_range(grown, j, project, root_id, tree, pane, k + 1);
                },
                _ => {},
            }
        }
    }
}

/// Whatever a host answers, each session that a scan holds has the ID, the parent,
/// the title, the directory and the time of the last update of one row that a
/// question for stored sessions was answered with.
pub proof fn law_sessions_are_stored_rows(
    filter: Option<Seq<char>>,
    events: Seq<EventView>,
    n: int,
)
    requires
        0 <= n < scan_run(scan_start(filter), events).sessions.len(),
    ensures
        exists|s: DbView| #[trigger]
            was_answered(filter, events, s) && ({
                let a = scan_run(scan_start(filter), events).sessions[n];
                &&& a.id == s.id
                &&& a.parent_id == s.parent_id
                &&& a.title == s.title
                &&& a.directory == s.directory
                &&& a.updated_ms == s.updated_ms
            }),
{
    lemma_holds_answers(filter, events);
    let v = scan_run(scan_start(filter), events);
    let s = choose|s: DbView| #[trigger]
        was_answered(filter, events, s) && is_stored_as(v.sessions[n], s);
    assert(was_answered(filter, events, s));
}

/// The session that is made of a stored one has its ID, its parent, its title, its
/// directory and its time of update, each in its own field, and the project, the
/// state and the process that were found out.
pub proof fn law_found_session_has_what_is_stored(
    s: DbView,
    project: Seq<char>,
    root_id: Seq<char>,
    pane: Option<PaneView>,
    inferred: Option<SessionState>,
    pid: u32,
)
    ensures
        ({
            let a = active_of(s, project, root_id, pane, inferred, pid);
            &&& a.id == s.id
            &&& a.parent_id == s.parent_id
            &&& a.title == s.title
            &&& a.directory == s.directory
            &&& a.updated_ms == s.updated_ms
            &&& a.project_id == project
            &&& a.inferred == inferred
            &&& a.pid == pid
            &&& s.id == root_id && pane is Some ==> a.tmux_session == Some(pane->0.session)
                && a.tmux_window == Some(pane->0.window) && a.tmux_window_index == Some(
                pane->0.window_index,
            ) && a.tmux_pane_index == Some(pane->0.index) && a.tmux_pane_tty == Some(pane->0.tty)
        }),
{
}

/// A state ends the look at one session: that session is added behind those that
/// were found before, which stay as they are.
pub proof fn law_state_adds_one_session(v: ScanView, state: Option<SessionState>)
    requires
        v.phase is Parts,
        scan_in_range(v),
    ensures
        ({
            let after = session_found(v, state).sessions;
            let asked = v.phase->Parts_tree[v.phase->Parts_k];
            &&& after.len() == v.sessions.len() + 1
            &&& after.take(v.sessions.len() as int) == v.sessions
            &&& after.last().inferred == state
            &&& after.last().id == asked.id
            &&& after.last().title == asked.title
            &&& after.last().directory == asked.directory
            &&& after.last().project_id == v.phase->Parts_project
            &&& after.last().pid == v.tui_pids[v.phase->Parts_j]
        }),
{
    if let PhaseView::Parts { j, project, root_id, tree, pane, k } = v.phase {
        let session = active_of(tree[k], project, root_id, pane, state, v.tui_pids[j]);
        let grown = ScanView { sessions: v.sessions.push(session), ..v };
        lemma_at_session_holds(grown, j, project, root_id, tree, pane, k + 1);
        assert(grown.sessions.take(v.sessions.len() as int) =~= v.sessions);
    }
}

/// Whether the sessions of a tree before the one that is looked at were found.
pub open spec fn found_so_far(v: ScanView) -> bool {
    v.phase matches PhaseView::Parts { tree, k, .. } ==> forall|n: int|
        0 <= n < k ==> found(v.sessions, (#[trigger] tree[n]).id)
}

proof fn lemma_at_session_leaves_none_out(
    v: ScanView,
    j: int,
    project: Seq<char>,
    root_id: Seq<char>,
    tree: Seq<DbView>,
    pane: Option<PaneView>,
    k: int,
)
    requires
        0 <= k,
        forall|n: int|
            0 <= n < k && n < tree.len() ==> found(v.sessions, (#[trigger] tree[n]).id),
    ensures
        ({
            let r = at_session(v, j, project, root_id, tree, pane, k);
            &&& found_so_far(r)
            &&& !(r.phase is Parts) ==> forall|n: int|
                0 <= n < tree.len() ==> found(r.sessions, (#[trigger] tree[n]).id)
        }),
    decreases tree.len() - k,
{
    if k < tree.len() && found(v.sessions, tree[k].id) {
        lemma_at_session_leaves_none_out(v, j, project, root_id, tree, pane, k + 1);
    }
}

/// Of a tree of sessions none is left out: when the look at the last one ends, all
/// of them were found.
pub proof fn law_whole_tree_is_found(v: ScanView, state: Option<SessionState>)
    requires
        v.phase is Parts,
        scan_in_range(v),
        found_so_far(v),
    ensures
        ({
            let r = session_found(v, state);
            &&& found_so_far(r)
            &&& !(r.phase is Parts) ==> forall|n: int|
                0 <= n < v.phase->Parts_tree.len() ==> found(
                    r.sessions,
                    (#[trigger] v.phase->Parts_tree[n]).id,
                )
        }),
{
    if let PhaseView::Parts { j, project, root_id, tree, pane, k } = v.phase {
        let session = active_of(tree[k], project, root_id, pane, state, v.tui_pids[j]);
        let grown = ScanView { sessions: v.sessions.push(session), ..v };
        assert forall|n: int| 0 <= n < k + 1 && n < tree.len() implies found(
            grown.sessions,
            (#[trigger] tree[n]).id,
        ) by {
            if n < k {
                let m = choose|m: int|
                    0 <= m < v.sessions.len() && (#[trigger] v.sessions[m]).id == tree[n].id;
                assert(grown.sessions[m] == v.sessions[m]);
            } else {
                assert(grown.sessions[v.sessions.len() as int].id == tree[n].id);
            }
        }
        lemma_at_session_leaves_none_out(grown, j, project, root_id, tree, pane, k + 1);
    }
}

/// The pane at a terminal has that terminal and is the last such pane; there is
/// none only where no pane has it.
pub proof fn law_pane_is_at_the_terminal(panes: Seq<PaneView>, tty: Seq<char>)
    ensures
        match pane_at(panes, tty) {
            Some(p) => p.tty == tty && exists|n: int|
                0 <= n < panes.len() && #[trigger] panes[n] == p && forall|m: int|
                    n < m < panes.len() ==> (#[trigger] panes[m]).tty != tty,
            None => forall|n: int| 0 <= n < panes.len() ==> (#[trigger] panes[n]).tty != tty,
        },
    decreases panes.len(),
{
    if panes.len() > 0 {
        let head = panes.drop_last();
        let end = panes.len() - 1;
        assert(panes[end] == panes.last());
        if panes.last().tty != tty {
            law_pane_is_at_the_terminal(head, tty);
            match pane_at(head, tty) {
                Some(p) => {
                    let n = choose|n: int|
                        0 <= n < head.len() && #[trigger] head[n] == p && forall|m: int|
                            n < m < head.len() ==> (#[trigger] head[m]).tty != tty;
                    assert(panes[n] == p);
                    assert forall|m: int| n < m < panes.len() implies (#[trigger] panes[m]).tty
                        != tty by {
                        if m < end {
                            assert(panes[m] == head[m]);
                        }
                    }
                },
                None => {
                    assert forall|n: int| 0 <= n < panes.len() implies (#[trigger] panes[n]).tty
                        != tty by {
                        if n < end {
                            assert(panes[n] == head[n]);
                        }
                    }
                },
            }
        }
    }
}

/// Without a filter every process is looked at; with one, those alone whose pane
/// is known and stands in the tmux session of that name.
pub proof fn law_filter_admits_its_session(name: Seq<char>, pane: Option<PaneView>)
    ensures
        admitted(None, pane),
        admitted(Some(name), pane) <==> pane is Some && pane->0.session == name,
{
}

/// A process with a port is a server, whose port is forwarded and kept; a process
/// without one is looked at for sessions. Each process is asked about once, in
/// the order in which they were found.
pub proof fn law_process_is_server_or_shows_sessions(v: ScanView, out: Option<Seq<char>>)
    requires
        v.phase is Port,
        scan_in_range(v),
    ensures
        ({
            let i = v.phase->Port_i;
            let after = scan_step(v, EventView::Output(out));
            let told = match out {
                Some(text) => lsof_port_in(lines(text), 0),
                None => lsof_port_in(lines(Seq::empty()), 0),
            };
            let port = if told is Some {
                told
            } else {
                server_port_in(v.processes[i].cmdline)
            };
            &&& after.processes == v.processes
            &&& after.sessions == v.sessions
            &&& port matches Some(remote) ==> after.ports == v.ports.push(remote) && after.tui_pids
                == v.tui_pids && after.phase == PhaseView::Forward { i, remote }
            &&& port is None ==> after.ports == v.ports && after.tui_pids == v.tui_pids.push(
                v.processes[i].pid,
            )
            &&& port is None && i + 1 < v.processes.len() ==> after.phase == PhaseView::Port {
                i: i + 1,
            }
            &&& port is None && i + 1 >= v.processes.len() ==> after.phase == PhaseView::Cwd {
                j: 0,
            }
        }),
{
}

/// A port that was forwarded becomes the server of the host, under the port here
/// and the port there; where forwarding failed, the server stays what it was.
pub proof fn law_last_forward_is_the_server(v: ScanView, local: Option<u16>)
    requires
        v.phase is Forward,
    ensures
        ({
            let after = scan_step(v, EventView::Forwarded(local));
            &&& local matches Some(port) ==> after.server == Some((port, v.phase->Forward_remote))
            &&& local is None ==> after.server == v.server
            &&& after.ports == v.ports
            &&& after.sessions == v.sessions
            &&& after.tui_pids == v.tui_pids
        }),
{
}

/// A scan fails if and only if the host does not tell its processes; whatever else
/// goes unanswered, it goes on.
pub proof fn law_only_missing_processes_fail(v: ScanView, e: EventView)
    requires
        !(v.phase is Failed),
    ensures
        scan_step(v, e).phase is Failed <==> v.phase is Processes && e == EventView::Output(None),
{
    if let EventView::Output(out) = e {
        match v.phase {
            PhaseView::Tty { j, project, root_id, tree } => {
                let tty = match out {
                    Some(text) => tty_of(text),
                    None => None,
                };
                let pane = match tty {
                    Some(t) => pane_at(v.panes, t),
                    None => None,
                };
                lemma_at_session_holds(v, j, project, root_id, tree, pane, 0);
            },
            PhaseView::Parts { j, project, root_id, tree, pane, k } => {
                let state = match out {
                    Some(text) => state_in_parts(text),
                    None => None,
                };
                let session = active_of(tree[k], project, root_id, pane, state, v.tui_pids[j]);
                let grown = ScanView { sessions: v.sessions.push(session), ..v };
                lemma_at_session_holds(grown, j, project, root_id, tree, pane, k + 1);
            },
            _ => {},
        }
    }
}

/// A working directory leads on where it is an absolute path, a project where it
/// has a name, and the first of the stored sessions where there is one; otherwise
/// the scan goes on to the next process.
pub proof fn law_scan_follows_directory_project_session(v: ScanView, text: Seq<char>)
    requires
        scan_in_range(v),
    ensures
        ({
            let after = scan_step(v, EventView::Output(Some(text)));
            let rows = db_sessions(lines(text));
            &&& v.phase matches PhaseView::Cwd { j } ==> if trim(text).len() > 0 && trim(text)[0]
                == '/' {
                after.phase == PhaseView::Project { j, cwd: trim(text) }
            } else {
                after.phase == at_pid(v, j + 1).phase
            }
            &&& v.phase matches PhaseView::Project { j, cwd } ==> if trim(text).len() > 0 {
                after.phase == PhaseView::Latest { j, project: trim(text) }
            } else {
                after.phase == at_pid(v, j + 1).phase
            }
            &&& v.phase matches PhaseView::Latest { j, project } ==> if rows.len() > 0 {
                after.phase == PhaseView::Tree { j, project, root: rows[0] }
            } else {
                after.phase == at_pid(v, j + 1).phase
            }
            &&& v.phase matches PhaseView::Tree { j, project, root } ==> after.phase
                == PhaseView::Tty {
                j,
                project,
                root_id: root.id,
                tree: if rows.len() > 0 {
                    rows
                } else {
                    seq![root]
                },
            }
        }),
{
    reveal_strlit("/");
    let cwd = trim(text);
    if cwd.len() > 0 {
        assert(cwd.take(1) =~= seq![cwd[0]]);
        assert("/"@ =~= seq!['/']);
        if cwd[0] == '/' {
            assert(starts_with(cwd, "/"@));
        } else {
            assert(cwd.take(1)[0] != "/"@[0]);
        }
    }
}

/// A scan begins with the panes of tmux, which tabs divide into fields, and goes on
/// with the processes of the host, the first of which is asked about next.
pub proof fn law_scan_begins(v: ScanView, text: Seq<char>)
    ensures
        scan_start(v.filter).phase is Panes,
        v.phase is Panes ==> scan_step(v, EventView::Output(Some(text))).panes == panes_of(
            lines(text),
            '\t',
        ) && scan_step(v, EventView::Output(Some(text))).phase is Processes,
        v.phase is Processes ==> scan_step(v, EventView::Output(Some(text))).processes
            == opencode_processes(lines(text)),
        v.phase is Processes && opencode_processes(lines(text)).len() > 0 ==> scan_step(
            v,
            EventView::Output(Some(text)),
        ).phase == (PhaseView::Port { i: 0 }),
        v.phase is Processes && opencode_processes(lines(text)).len() == 0 && v.tui_pids.len() == 0
            ==> scan_step(v, EventView::Output(Some(text))).phase is Done,
{
}

/// But for the processes, a question that is not answered counts as one that is
/// answered with nothing.
pub proof fn law_no_answer_is_an_empty_one(v: ScanView)
    requires
        !(v.phase is Processes),
    ensures
        scan_step(v, EventView::Output(None)) == scan_step(
            v,
            EventView::Output(Some(Seq::empty())),
        ),
{
    let none = Seq::<char>::empty();
    law_lines_read_from_the_left(none, none);
    law_stored_sessions_in_turn(none, Seq::empty());
    assert(db_sessions(lines(none)) =~= Seq::<DbView>::empty());
    assert(none + none + none =~= none);
    law_trim(none, none, none, ' ');
    assert(first_state(stored_statuses(lines(none)), 0) is None);
}

/// The first session of a tree, from a place on, that was not found yet is looked
/// at next, with the pane and the project of its process; where there is none, the
/// scan goes on to the next process.
pub proof fn law_first_session_not_found_is_next(
    v: ScanView,
    j: int,
    project: Seq<char>,
    root_id: Seq<char>,
    tree: Seq<DbView>,
    pane: Option<PaneView>,
    k: int,
)
    requires
        0 <= k <= tree.len(),
    ensures
        ({
            let r = at_session(v, j, project, root_id, tree, pane, k);
            &&& r.sessions == v.sessions
            &&& match r.phase {
                PhaseView::Parts { j: rj, project: rp, root_id: rr, tree: rt, pane: rn, k: rk } => rj
                    == j && rp == project && rr == root_id && rt == tree && rn == pane && k <= rk
                    < tree.len() && !found(v.sessions, tree[rk].id) && forall|n: int|
                    k <= n < rk ==> found(v.sessions, (#[trigger] tree[n]).id),
                PhaseView::Cwd { j: rj } => rj == j + 1 && rj < v.tui_pids.len() && forall|n: int|
                    k <= n < tree.len() ==> found(v.sessions, (#[trigger] tree[n]).id),
                PhaseView::Done => j + 1 >= v.tui_pids.len() && forall|n: int|
                    k <= n < tree.len() ==> found(v.sessions, (#[trigger] tree[n]).id),
                _ => false,
            }
        }),
    decreases tree.len() - k,
{
    if k < tree.len() && found(v.sessions, tree[k].id) {
        law_first_session_not_found_is_next(v, j, project, root_id, tree, pane, k + 1);
    }
}

/// The terminal of a process leads to its pane, and the sessions of the process
/// are looked at if the filter admits that pane; else they are passed over.
pub proof fn law_terminal_leads_to_the_pane(
    v: ScanView,
    text: Seq<char>,
    tty: Seq<char>,
)
    requires
        v.phase is Tty,
        tty_of(text) == Some(tty),
    ensures
        ({
            let after = scan_step(v, EventView::Output(Some(text)));
            let pane = pane_at(v.panes, tty);
            &&& after.sessions == v.sessions
            &&& after.phase matches PhaseView::Parts { pane: p, tree, project, root_id, j, .. } ==> {
                &&& p == pane
                &&& tree == v.phase->Tty_tree
                &&& project == v.phase->Tty_project
                &&& root_id == v.phase->Tty_root_id
                &&& j == v.phase->Tty_j
                &&& v.filter matches Some(name) ==> pane is Some && pane->0.session == name
            }
            &&& v.filter is Some && (pane is None || pane->0.session != v.filter->0) ==> !(after.phase
                is Parts)
        }),
{
    if let PhaseView::Tty { j, project, root_id, tree } = v.phase {
        law_first_session_not_found_is_next(
            v,
            j,
            project,
            root_id,
            tree,
            pane_at(v.panes, tty),
            0,
        );
    }
}

/// Each question of a scan is about the process, the directory, the project or the
/// session at which it stands.
pub proof fn law_what_a_scan_asks(v: ScanView)
    ensures
        v.phase is Processes ==> scan_action(v) == ActionView::Run("ps aux"@),
        v.phase matches PhaseView::Port { i } ==> scan_action(v) == ActionView::Run(
            lsof_question_text(v.processes[i].pid),
        ),
        v.phase matches PhaseView::Forward { i, remote } ==> scan_action(v) == ActionView::Forward(
            remote,
        ),
        v.phase matches PhaseView::Cwd { j } ==> scan_action(v) == ActionView::Run(
            cwd_question_text(v.tui_pids[j]),
        ),
        v.phase matches PhaseView::Project { j, cwd } ==> scan_action(v) == ActionView::Run(
            project_question_text(cwd),
        ),
        v.phase matches PhaseView::Latest { j, project } ==> scan_action(v) == ActionView::Run(
            latest_question_text(project),
        ),
        v.phase matches PhaseView::Tree { j, project, root } ==> scan_action(v) == ActionView::Run(
            tree_question_text(root.id),
        ),
        v.phase matches PhaseView::Tty { j, project, root_id, tree } ==> scan_action(v)
            == ActionView::Run(tty_question_text(v.tui_pids[j])),
        v.phase matches PhaseView::Parts { j, project, root_id, tree, pane, k } ==> scan_action(v)
            == ActionView::Run(parts_question_text(tree[k].id)),
        v.phase is Done ==> scan_action(v) is Done,
        v.phase is Failed ==> scan_action(v) is Failed,
{
}

} // verus!
