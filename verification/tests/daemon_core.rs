use ocwatch::config::{Config, HostConfig};
use ocwatch::daemon::attach::{plan_drop_in, DropIn};
use ocwatch::daemon::bell::{bell_terminal, BellNotifier, BellPlan};
use ocwatch::daemon::clients::{
    approve_reply, attach_reply, refresh_reply, ClientPlan, RefreshEnd,
};
use ocwatch::daemon::create::{CreateAction, CreateEvent, CreatePlan, CreateStage};
use ocwatch::daemon::cycle::{DaemonFacts, RefreshStep, ScanWorkerEvent};
use ocwatch::daemon::recent_dirs::RecentDirStore;
use ocwatch::daemon::resolve::{
    cycle_targets, failed_scan, resolve_active_session, resolve_host_scan, status_request,
    ScanTarget,
};
use ocwatch::daemon::state::{CoreAction, DaemonCore, ResolvedHostScan, ResolvedSession};
use ocwatch::discovery::panes::{ActiveSession, ScanResult};
use ocwatch::ipc::{AttachSpec, ClientMessage, DaemonMessage, RecentDirEntry};
use ocwatch::keyed::KeyMap;
use ocwatch::opencode::client::{Method, OcSessionStatus};
use ocwatch::types::{SessionInfo, SessionState};

const SECOND: u64 = 1_000_000_000;

fn host(name: &str, target: Option<&str>) -> HostConfig {
    HostConfig {
        name: name.to_string(),
        ssh_target: target.map(|t| t.to_string()),
        ssh_identity: None,
        ssh_port: None,
        tmux_session_filter: None,
    }
}

fn config() -> Config {
    Config {
        poll_interval_secs: 5,
        hosts: vec![host("here", None), host("mega", Some("m"))],
    }
}

fn fresh() -> DaemonCore {
    DaemonCore::new(config(), RecentDirStore::load(vec![]))
}

fn info(host: &str, id: &str, state: SessionState) -> SessionInfo {
    SessionInfo {
        id: id.to_string(),
        host: host.to_string(),
        state,
        parent_id: None,
        title: format!("title {}", id),
        working_dir: format!("/srv/{}", id),
        activity_age_secs: 0,
        oc_port: 4096,
        tmux_session: None,
        tmux_window: None,
        tmux_pane: None,
    }
}

fn found(host: &str, sessions: &[(&str, SessionState)]) -> ResolvedHostScan {
    ResolvedHostScan {
        host: host.to_string(),
        connected: true,
        error: None,
        completed_unix_ms: 77,
        sessions: sessions
            .iter()
            .map(|(id, state)| ResolvedSession {
                info: info(host, id, *state),
                oc_base_url: "http://localhost:4096".to_string(),
                last_seen_unix_ms: 5,
            })
            .collect(),
    }
}

fn facts() -> DaemonFacts {
    DaemonFacts { pid: 9, uptime_secs: 3, socket: "/s".to_string() }
}

fn kinds(actions: &[CoreAction]) -> Vec<String> {
    actions
        .iter()
        .map(|action| match action {
            CoreAction::Broadcast(DaemonMessage::SessionUpdated { session }) => {
                format!("updated {}", session.key())
            }
            CoreAction::Broadcast(DaemonMessage::Bell { session_id, host, reason }) => {
                format!("bell {} {} {}", host, session_id, reason)
            }
            CoreAction::Broadcast(DaemonMessage::StateSnapshot { sessions, hosts }) => {
                format!("snapshot {} {}", sessions.len(), hosts.len())
            }
            CoreAction::Broadcast(_) => "broadcast".to_string(),
            CoreAction::Ring { session, reason } => format!("ring {} {}", session.key(), reason),
            CoreAction::SaveRecentDirs => "save".to_string(),
            CoreAction::StartCycle => "cycle".to_string(),
            CoreAction::Answer { ticket, message } => match message {
                DaemonMessage::Error { message } => format!("answer {} {}", ticket, message),
                DaemonMessage::StateSnapshot { .. } => format!("answer {} snapshot", ticket),
                _ => format!("answer {}", ticket),
            },
        })
        .collect()
}

fn active(id: &str, inferred: Option<SessionState>) -> ActiveSession {
    ActiveSession {
        session_id: id.to_string(),
        parent_id: Some("root".to_string()),
        title: "T".to_string(),
        directory: "/d".to_string(),
        project_id: "p".to_string(),
        inferred_state: inferred,
        time_updated_ms: 10_000,
        tui_pid: 1,
        tmux_session: Some("s".to_string()),
        tmux_window: Some("w".to_string()),
        tmux_window_index: Some(2),
        tmux_pane_index: Some(3),
        tmux_pane_tty: None,
    }
}

#[test]
fn scan_of_a_host_is_taken_in() {
    let mut core = fresh();
    let first = core.apply_scan_result(
        found("mega", &[("a", SessionState::Busy), ("b", SessionState::Idle)]),
        SECOND,
    );
    assert_eq!(kinds(&first), ["updated mega:a", "updated mega:b", "save"]);
    core.apply_scan_result(found("local", &[("c", SessionState::Busy)]), SECOND);
    let second = core.apply_scan_result(found("mega", &[("a", SessionState::Error)]), 2 * SECOND);
    assert_eq!(
        kinds(&second),
        ["ring mega:a error", "bell mega a error", "updated mega:a", "save"]
    );
    assert!(core.sessions.contains_key("mega:a"));
    assert!(!core.sessions.contains_key("mega:b"));
    assert!(!core.session_runtime.contains_key("mega:b"));
    assert!(core.sessions.contains_key("local:c"));
    let status = core.hosts.get("mega").unwrap();
    assert!(status.connected);
    assert_eq!(status.session_count, 1);
    assert_eq!(status.last_poll_unix_ms, Some(77));
    let dirs = core.recent_dirs.entries(10);
    assert_eq!(dirs.len(), 3);
    core.remove_host_sessions("mega");
    assert!(!core.sessions.contains_key("mega:a"));
    assert!(core.sessions.contains_key("local:c"));
}

#[test]
fn a_session_found_twice_counts_once() {
    let mut core = fresh();
    core.apply_scan_result(
        found("mega", &[("a", SessionState::Busy), ("a", SessionState::Idle)]),
        SECOND,
    );
    assert_eq!(core.hosts.get("mega").unwrap().session_count, 1);
    assert_eq!(core.sessions.get("mega:a").unwrap().state, SessionState::Idle);
}

#[test]
fn unchanged_sessions_are_not_told() {
    let mut core = fresh();
    core.apply_scan_result(found("mega", &[("a", SessionState::Idle)]), SECOND);
    let again = core.apply_scan_result(found("mega", &[("a", SessionState::Idle)]), SECOND);
    assert_eq!(kinds(&again), ["save"]);
}

#[test]
fn bells_cool_down() {
    let mut bells = BellNotifier::new();
    let idle = SessionState::Idle;
    let busy = SessionState::Busy;
    assert!(bells.should_bell("a", busy, idle, 100 * SECOND));
    assert!(!bells.should_bell("a", busy, SessionState::Error, 130 * SECOND - 1));
    assert!(bells.should_bell("b", busy, idle, 101 * SECOND));
    assert!(bells.should_bell("a", busy, SessionState::Error, 130 * SECOND));
    assert!(!bells.should_bell("c", idle, idle, SECOND));
    assert!(!bells.should_bell("c", idle, busy, SECOND));
}

#[test]
fn how_a_bell_is_rung() {
    let bells = BellNotifier::new();
    let mut session = info("local", "a", SessionState::Idle);
    session.title = "0123456789012345678901234567890123".to_string();
    let text = "ocwatch: 012345678901234567890123456789 needs attention (idle)";
    match bells.fire_bell(&session, "idle") {
        BellPlan::Everybody { note } => {
            assert_eq!(note.program, "tmux");
            assert_eq!(note.args, ["display-message", "-d", "5000", text]);
        }
        _ => panic!("no pane is known"),
    }
    session.tmux_session = Some("s".to_string());
    session.tmux_window = Some("w".to_string());
    session.tmux_pane = Some("1".to_string());
    match bells.fire_bell(&session, "idle") {
        BellPlan::Pane { ask, note } => {
            assert_eq!(ask.args, ["display-message", "-t", "s:w.1", "-p", "#{pane_tty}"]);
            assert_eq!(note.args, ["display-message", "-t", "s:w", "-d", "5000", text]);
        }
        _ => panic!("the pane is known"),
    }
    assert_eq!(bell_terminal(" /dev/pts/1\n"), Some("/dev/pts/1".to_string()));
    assert_eq!(bell_terminal("pts/1"), None);
    assert_eq!(bell_terminal(""), None);
}

#[test]
fn watched_hosts_have_a_place() {
    let mut core = fresh();
    core.apply_scan_result(found("mega", &[]), SECOND);
    assert!(core.request_scan_cycle());
    let local = core.hosts.get("local").unwrap();
    assert!(!local.connected);
    assert_eq!(local.last_poll_unix_ms, None);
    assert_eq!(core.hosts.get("mega").unwrap().last_poll_unix_ms, Some(77));
    assert!(core.hosts.get("here").is_none());
    assert!(!core.request_scan_cycle());
    assert!(core.rescan_requested);
    assert_eq!(core.active_scan_generation, 1);
}

#[test]
fn wishes_for_a_fresh_state_are_answered() {
    let mut core = fresh();
    assert_eq!(core.schedule_refresh(1), RefreshStep::Start);
    core.refresh_started(1);
    assert_eq!(core.schedule_refresh(2), RefreshStep::Waiting);
    let over = core.worker_event(Some(ScanWorkerEvent::CycleComplete), SECOND);
    assert_eq!(kinds(&over), ["answer 1 snapshot", "cycle"]);
    let over = core.worker_event(Some(ScanWorkerEvent::CycleComplete), SECOND);
    assert_eq!(kinds(&over), ["answer 2 snapshot"]);
    assert!(!core.scan_in_progress);
    assert_eq!(core.completed_scan_generation, 2);
}

#[test]
fn a_cycle_that_does_not_start() {
    let mut core = fresh();
    assert_eq!(core.schedule_refresh(1), RefreshStep::Start);
    match core.refresh_not_started() {
        DaemonMessage::Error { message } => assert_eq!(message, "Failed to start refresh scan"),
        _ => panic!("this is an error"),
    }
    assert!(!core.scan_in_progress);
    assert!(core.pending_refresh_responders.is_empty());
}

#[test]
fn a_worker_that_stops() {
    let mut core = fresh();
    assert!(core.worker_event(None, SECOND).is_empty());
    core.schedule_refresh(4);
    core.refresh_started(4);
    let actions = core.worker_event(None, SECOND);
    assert_eq!(
        kinds(&actions),
        ["answer 4 Refresh aborted because the scan worker stopped", "cycle"]
    );
    assert!(core.scan_in_progress);
    assert!(!core.rescan_requested);
}

#[test]
fn a_scanned_host_is_told() {
    let mut core = fresh();
    let actions = core.worker_event(
        Some(ScanWorkerEvent::HostScanned(found("mega", &[("a", SessionState::Busy)]))),
        SECOND,
    );
    assert_eq!(kinds(&actions), ["updated mega:a", "save", "snapshot 1 1"]);
}

#[test]
fn status_and_subscription() {
    let mut core = fresh();
    core.apply_scan_result(found("mega", &[("a", SessionState::Busy)]), SECOND);
    match core.handle_client(ClientMessage::GetStatus, &facts(), 0, 0).0 {
        ClientPlan::Reply(DaemonMessage::DaemonStatus {
            running,
            pid,
            uptime_secs,
            socket,
            hosts,
            sessions,
        }) => {
            assert!(running);
            assert_eq!((pid, uptime_secs, socket.as_str()), (9, 3, "/s"));
            assert_eq!((hosts.len(), sessions.len()), (1, 1));
        }
        _ => panic!("this is the status"),
    }
    match core.handle_client(ClientMessage::Subscribe, &facts(), 0, 0).0 {
        ClientPlan::Subscribe(DaemonMessage::StateSnapshot { sessions, .. }) => {
            assert_eq!(sessions[0].id, "a");
        }
        _ => panic!("this is a snapshot"),
    }
    match core.handle_client(ClientMessage::Shutdown, &facts(), 0, 0).0 {
        ClientPlan::Shutdown(DaemonMessage::Error { message }) => {
            assert_eq!(message, "Shutting down");
        }
        _ => panic!("the daemon ends"),
    }
}

#[test]
fn events_from_outside() {
    let mut core = fresh();
    core.apply_scan_result(found("mega", &[("ses_1", SessionState::Busy)]), SECOND);
    let inject = |id: &str, state: &str| ClientMessage::InjectEvent {
        session_id: id.to_string(),
        state: state.to_string(),
    };
    let (plan, actions) = core.handle_client(inject("ses_1", "idle"), &facts(), 0, SECOND);
    match plan {
        ClientPlan::Reply(DaemonMessage::Error { message }) => {
            assert_eq!(message, "inject-event acknowledged");
        }
        _ => panic!("this is an acknowledgement"),
    }
    assert_eq!(
        kinds(&actions),
        ["ring mega:ses_1 idle", "bell mega ses_1 idle", "updated mega:ses_1"]
    );
    assert_eq!(core.sessions.get("mega:ses_1").unwrap().state, SessionState::Idle);
    assert_eq!(
        core.session_runtime.get("mega:ses_1").unwrap().last_state,
        SessionState::Busy
    );
    for id in ["nobody", "1", "mega:ses_1", ""] {
        let (_, actions) = core.handle_client(inject(id, "busy"), &facts(), 0, SECOND);
        assert!(actions.is_empty());
    }
    assert_eq!(core.sessions.get("mega:ses_1").unwrap().state, SessionState::Idle);
    assert_eq!(core.find_session("ses_1").unwrap(), "mega:ses_1");
    assert!(core.find_session("_1").is_none());
    assert!(core.inject_event("mega:none", SessionState::Idle, SECOND).is_empty());
}

#[test]
fn approvals() {
    let mut core = fresh();
    core.apply_scan_result(found("mega", &[("ses_1", SessionState::WaitingForPermission)]), SECOND);
    let ask = |id: &str| ClientMessage::Approve { session_id: id.to_string() };
    match core.handle_client(ask("ses_1"), &facts(), 0, 0).0 {
        ClientPlan::Approve { session_id, request } => {
            assert_eq!(session_id, "ses_1");
            assert_eq!(request.method, Method::Patch);
            assert_eq!(request.url, "http://localhost:4096/session/ses_1");
            assert_eq!(
                request.body.as_deref(),
                Some("{\"permission\":[{\"action\":\"allow\"}]}")
            );
        }
        _ => panic!("a request is to be sent"),
    }
    for id in ["x", "1", "mega:ses_1", ""] {
        match core.handle_client(ask(id), &facts(), 0, 0).0 {
            ClientPlan::Reply(DaemonMessage::Error { message }) => {
                assert_eq!(message, format!("Approve failed: Session not found: {}", id));
            }
            _ => panic!("nothing is to be approved"),
        }
    }
    match approve_reply("ses_1", &Ok(String::new())) {
        DaemonMessage::Error { message } => assert_eq!(message, "Approved: ses_1"),
        _ => panic!("this is a note"),
    }
    match approve_reply("ses_1", &Err("e".to_string())) {
        DaemonMessage::Error { message } => assert_eq!(message, "Approve failed: e"),
        _ => panic!("this is a note"),
    }
}

#[test]
fn ends_of_waiting() {
    let text = |end: RefreshEnd| match refresh_reply(end) {
        DaemonMessage::Error { message } => message,
        _ => "other".to_string(),
    };
    assert_eq!(
        text(RefreshEnd::Dropped),
        "Refresh failed before a fresh snapshot was available"
    );
    assert_eq!(
        text(RefreshEnd::TimedOut),
        "Refresh timed out waiting for a fresh snapshot"
    );
    let snapshot = DaemonMessage::StateSnapshot { sessions: vec![], hosts: vec![] };
    assert_eq!(text(RefreshEnd::Answered(snapshot)), "other");
    match fresh().handle_client(ClientMessage::RefreshAll, &facts(), 6, 0).0 {
        ClientPlan::Refresh(step) => assert_eq!(step, RefreshStep::Start),
        _ => panic!("a cycle is to be started"),
    }
}

#[test]
fn recent_directories_for_a_client() {
    let mut core = fresh();
    core.apply_scan_result(found("mega", &[("a", SessionState::Busy)]), SECOND);
    let ask = || ClientMessage::GetRecentDirs { limit: 1 };
    match core.handle_client(ask(), &facts(), 0, 0).0 {
        ClientPlan::RecentDirs { initial, missing } => {
            assert!(missing);
            match initial {
                DaemonMessage::RecentDirs { entries, is_complete } => {
                    assert!(!is_complete);
                    assert_eq!(entries.len(), 1);
                }
                _ => panic!("these are directories"),
            }
        }
        _ => panic!("these are directories"),
    }
    let mut walk = core.start_hydration();
    assert_eq!(walk.hosts, ["local", "mega"]);
    assert_eq!(core.next_to_hydrate(&mut walk).as_deref(), Some("local"));
    let entry = RecentDirEntry {
        host: "local".to_string(),
        directory: "/h".to_string(),
        last_seen_unix_ms: 6,
    };
    core.take_hydrated(&mut walk, Some(vec![entry]));
    assert_eq!(core.next_to_hydrate(&mut walk), None);
    assert!(walk.updated);
    assert!(!core.has_missing_recent_dir_hosts());
    match core.recent_dirs_response(5, true) {
        DaemonMessage::RecentDirs { entries, .. } => {
            let dirs: Vec<&str> = entries.iter().map(|e| e.directory.as_str()).collect();
            assert_eq!(dirs, ["/h", "/srv/a"]);
        }
        _ => panic!("these are directories"),
    }
}

#[test]
fn hosts_that_cannot_be_reached_are_passed() {
    let mut core = fresh();
    let mut walk = core.start_hydration();
    assert_eq!(core.next_to_hydrate(&mut walk).as_deref(), Some("local"));
    core.take_hydrated(&mut walk, Some(vec![]));
    assert_eq!(core.next_to_hydrate(&mut walk).as_deref(), Some("mega"));
    core.take_hydrated(&mut walk, None);
    assert_eq!(core.next_to_hydrate(&mut walk), None);
    assert!(!walk.updated);
}

#[test]
fn ways_into_a_session() {
    let mut session = info("local", "a", SessionState::Idle);
    assert_eq!(plan_drop_in(&session).unwrap_err(), "No tmux info — cannot drop in");
    session.tmux_session = Some("s".to_string());
    session.tmux_window = Some("w".to_string());
    match plan_drop_in(&session) {
        Ok(DropIn::Here(AttachSpec::LocalTmux { session, window, pane })) => {
            assert_eq!(session, "s");
            assert_eq!(window.as_deref(), Some("w"));
            assert_eq!(pane, None);
        }
        other => panic!("{:?}", other),
    }
    session.host = "mega".to_string();
    match plan_drop_in(&session) {
        Ok(DropIn::RemoteTmux { target, .. }) => assert_eq!(target, "s"),
        other => panic!("{:?}", other),
    }
    session.tmux_pane = Some("1".to_string());
    match plan_drop_in(&session) {
        Ok(DropIn::RemoteTmux { target, .. }) => assert_eq!(target, "s:w.1"),
        other => panic!("{:?}", other),
    }
    session.tmux_session = None;
    match plan_drop_in(&session) {
        Ok(DropIn::RemoteShell { host }) => assert_eq!(host, "mega"),
        other => panic!("{:?}", other),
    }
    let mut core = fresh();
    core.apply_scan_result(found("mega", &[("ses_1", SessionState::Idle)]), SECOND);
    assert_eq!(
        core.drop_in_attach_spec("1").unwrap_err(),
        "Session not found: 1"
    );
    assert!(matches!(core.drop_in_attach_spec("ses_1"), Ok(DropIn::RemoteShell { .. })));
    let ask = ClientMessage::DropIn { session_id: "x".to_string() };
    match core.handle_client(ask, &facts(), 0, 0).0 {
        ClientPlan::DropIn(Err(e)) => assert_eq!(e, "Session not found: x"),
        _ => panic!("there is no such session"),
    }
}

#[test]
fn attaching_over_ssh() {
    let mut core = fresh();
    assert_eq!(
        core.attach_spec_for_remote_shell("mega").unwrap_err(),
        "Not connected to mega"
    );
    assert_eq!(
        core.host_to_connect("gone").unwrap_err(),
        "Host 'gone' not found in config"
    );
    let mega = core.host_to_connect("mega").unwrap().clone();
    core.ssh_manager.finish_connect(&mega);
    match core.attach_spec_for_remote_tmux("mega", "it's:w.1").unwrap() {
        AttachSpec::Exec { program, args, tmux_window_name } => {
            assert_eq!(program, "ssh");
            assert_eq!(args[4], "-t");
            assert_eq!(args.last().unwrap(), "tmux attach -t 'it'\\''s:w.1'");
            assert_eq!(tmux_window_name.as_deref(), Some("mega:it's"));
        }
        other => panic!("{:?}", other),
    }
    match core.attach_spec_for_remote_shell("mega").unwrap() {
        AttachSpec::Exec { args, tmux_window_name, .. } => {
            assert_eq!(args.last().unwrap(), "m");
            assert_eq!(tmux_window_name.as_deref(), Some("mega"));
        }
        other => panic!("{:?}", other),
    }
    match attach_reply(core.attach_spec_for_new_session("local", "n")) {
        DaemonMessage::AttachReady { attach: AttachSpec::LocalTmux { session, window, pane } } => {
            assert_eq!((session.as_str(), window, pane), ("n", None, None));
        }
        _ => panic!("the session is here"),
    }
    match attach_reply(Err("e".to_string())) {
        DaemonMessage::Error { message } => assert_eq!(message, "e"),
        _ => panic!("this is an error"),
    }
}

#[test]
fn a_session_is_made_here() {
    let mut plan = CreatePlan::start("local", "/srv/my app/", None);
    assert_eq!(plan.base, "my-app");
    let mut names = vec![];
    for taken in [true, true, false] {
        match plan.action() {
            CreateAction::RunHere(command) => {
                assert_eq!(command.program, "tmux");
                assert_eq!(command.args[..2], ["has-session", "-t"]);
                names.push(command.args[2].clone());
            }
            other => panic!("{:?}", other),
        }
        plan.step(CreateEvent::Ran(taken));
    }
    assert_eq!(names, ["my-app", "my-app-2", "my-app-3"]);
    match plan.action() {
        CreateAction::RunHere(command) => assert_eq!(
            command.args,
            ["new-session", "-d", "-s", "my-app-3", "-c", "/srv/my app/", "opencode"]
        ),
        other => panic!("{:?}", other),
    }
    plan.step(CreateEvent::Ran(true));
    assert!(matches!(plan.stage, CreateStage::Created));
    assert!(matches!(plan.action(), CreateAction::Stop));
    let mut core = fresh();
    let attach = core.create_session(&plan.host, &plan.directory, &plan.name, 8);
    assert!(matches!(attach, Ok(AttachSpec::LocalTmux { .. })));
    assert_eq!(core.recent_dirs.entries(1)[0].last_seen_unix_ms, 8);
}

#[test]
fn a_session_is_made_on_a_host() {
    let mut plan = CreatePlan::start("mega", "/it's", Some("a b".to_string()));
    match plan.action() {
        CreateAction::RunThere(command) => assert_eq!(
            command,
            "tmux has-session -t 'a-b' >/dev/null 2>&1 && printf yes || true"
        ),
        other => panic!("{:?}", other),
    }
    plan.step(CreateEvent::Answered(Ok(" yes\n".to_string())));
    plan.step(CreateEvent::Answered(Ok(String::new())));
    match plan.action() {
        CreateAction::RunThere(command) => assert_eq!(
            command,
            "tmux new-session -d -s 'a-b-2' -c '/it'\\''s' opencode"
        ),
        other => panic!("{:?}", other),
    }
    plan.step(CreateEvent::Answered(Ok(String::new())));
    assert!(matches!(plan.stage, CreateStage::Created));
}

#[test]
fn names_for_sessions() {
    assert_eq!(CreatePlan::start("local", "/", Some("  ".to_string())).base, "opencode");
    assert_eq!(CreatePlan::start("local", "/a", Some("!!".to_string())).base, "opencode");
    assert_eq!(CreatePlan::start("local", "/a/b//", None).base, "b");
}

#[test]
fn making_a_session_fails_in_words() {
    let failed = |events: Vec<CreateEvent>| {
        let mut plan = CreatePlan::start("mega", "/d", Some("n".to_string()));
        for event in events {
            plan.step(event);
        }
        match plan.stage {
            CreateStage::Failed(text) => text,
            other => panic!("{:?}", other),
        }
    };
    assert_eq!(
        failed(vec![CreateEvent::NotRun]),
        "Failed to check local tmux session 'n'"
    );
    assert_eq!(failed(vec![CreateEvent::Unreachable("u".to_string())]), "u");
    assert_eq!(failed(vec![CreateEvent::Answered(Err("x".to_string()))]), "x");
    assert_eq!(
        failed(vec![CreateEvent::Ran(false), CreateEvent::NotRun]),
        "Failed to start tmux session 'n': /d"
    );
    assert_eq!(
        failed(vec![CreateEvent::Ran(false), CreateEvent::Ran(false)]),
        "tmux new-session failed for 'n': /d"
    );
    assert_eq!(
        failed(vec![CreateEvent::Ran(false), CreateEvent::Unreachable("u".to_string())]),
        "u"
    );
    assert_eq!(
        failed(vec![CreateEvent::Ran(false), CreateEvent::Answered(Err("x".to_string()))]),
        "Failed to create remote session 'n' on mega"
    );
}

#[test]
fn hosts_of_a_cycle() {
    let targets = cycle_targets(&config());
    assert_eq!(targets.len(), 2);
    assert!(matches!(targets[0], ScanTarget::Local));
    match &targets[1] {
        ScanTarget::Remote(name) => assert_eq!(name, "mega"),
        ScanTarget::Local => panic!("the second host is another one"),
    }
}

#[test]
fn sessions_are_resolved() {
    let mut statuses = KeyMap::new();
    statuses.insert("a".to_string(), OcSessionStatus { status: Some("busy".to_string()) });
    statuses.insert("b".to_string(), OcSessionStatus { status: Some("odd".to_string()) });
    statuses.insert("c".to_string(), OcSessionStatus { status: None });
    let state = |id: &str, inferred: Option<SessionState>, known: bool| {
        let map = if known { Some(&statuses) } else { None };
        resolve_active_session("mega", &active(id, inferred), Some(5000), map, 12_999).info.state
    };
    assert_eq!(state("a", Some(SessionState::Error), true), SessionState::Busy);
    assert_eq!(state("b", Some(SessionState::Error), true), SessionState::Error);
    assert_eq!(state("c", None, true), SessionState::Unknown);
    assert_eq!(state("d", Some(SessionState::Idle), true), SessionState::Idle);
    assert_eq!(state("a", None, false), SessionState::Unknown);
    let resolved = resolve_active_session("mega", &active("a", None), Some(5000), None, 12_999);
    assert_eq!(resolved.info.host, "mega");
    assert_eq!(resolved.info.activity_age_secs, 2);
    assert_eq!(resolved.info.oc_port, 5000);
    assert_eq!(resolved.info.tmux_pane.as_deref(), Some("3"));
    assert_eq!(resolved.info.parent_id.as_deref(), Some("root"));
    assert_eq!(resolved.oc_base_url, "http://localhost:5000");
    assert_eq!(resolved.last_seen_unix_ms, 10_000);
    let early = resolve_active_session("mega", &active("a", None), None, None, 1);
    assert_eq!(early.info.activity_age_secs, 0);
    assert_eq!(early.info.oc_port, 0);
    assert_eq!(early.oc_base_url, "http://localhost:0");
}

#[test]
fn scans_are_resolved() {
    let scan = ScanResult {
        server_port: Some(5000),
        server_remote_port: Some(4096),
        active_sessions: vec![active("a", None), active("b", None)],
    };
    assert_eq!(status_request(&scan).unwrap().url, "http://localhost:5000/session/status");
    let resolved = resolve_host_scan("mega", &scan, true, None, None, 7);
    assert_eq!(resolved.host, "mega");
    assert!(resolved.connected);
    assert_eq!(resolved.completed_unix_ms, 7);
    let ids: Vec<&str> = resolved.sessions.iter().map(|s| s.info.id.as_str()).collect();
    assert_eq!(ids, ["a", "b"]);
    let none = ScanResult {
        server_port: None,
        server_remote_port: None,
        active_sessions: vec![],
    };
    assert!(status_request(&none).is_none());
    let failed = failed_scan("mega", Some("no way".to_string()), 7);
    assert!(!failed.connected);
    assert_eq!(failed.error.as_deref(), Some("no way"));
    let unknown = failed_scan("gone", None, 7);
    assert_eq!(unknown.error.as_deref(), Some("Host 'gone' not found in config"));
    assert!(unknown.sessions.is_empty());
}

#[test]
fn failed_scans_keep_the_last_poll() {
    let mut core = fresh();
    core.apply_scan_result(failed_scan("mega", Some("no route".to_string()), 50), SECOND);
    let status = core.hosts.get("mega").unwrap();
    assert!(!status.connected);
    assert_eq!(status.last_poll_unix_ms, None);
    assert_eq!(status.error.as_deref(), Some("no route"));
    core.apply_scan_result(found("mega", &[]), SECOND);
    assert_eq!(core.hosts.get("mega").unwrap().last_poll_unix_ms, Some(77));
    core.apply_scan_result(failed_scan("mega", None, 99), SECOND);
    let status = core.hosts.get("mega").unwrap();
    assert!(!status.connected);
    assert_eq!(status.last_poll_unix_ms, Some(77));
}

#[test]
fn wishes_wait_for_their_own_cycle() {
    let mut core = fresh();
    let answered = |actions: &[CoreAction]| -> Vec<u64> {
        let mut tickets = Vec::new();
        for action in actions {
            if let CoreAction::Answer { ticket, .. } = action {
                tickets.push(*ticket);
            }
        }
        tickets
    };
    assert!(core.request_scan_cycle());
    core.pending_refresh_responders.push((1, 4));
    assert_eq!(core.schedule_refresh(5), RefreshStep::Waiting);
    assert_eq!(core.schedule_refresh(6), RefreshStep::Waiting);
    assert_eq!(answered(&core.cycle_complete()), [4]);
    assert_eq!(core.pending_refresh_responders, [(2, 5), (2, 6)]);
    assert_eq!(answered(&core.cycle_complete()), [5, 6]);
    assert!(core.cycle_complete().is_empty());
}

#[test]
fn directories_arrive_in_any_order() {
    let entry = |host: &str, directory: &str, ms: u64| RecentDirEntry {
        host: host.to_string(),
        directory: directory.to_string(),
        last_seen_unix_ms: ms,
    };
    let seen = |order: &[usize]| {
        let all = [entry("a", "/x", 3), entry("a", "/y", 3), entry("b", "/x", 9)];
        let mut store = RecentDirStore::load(vec![entry("a", "/x", 1), entry("c", "/z", 5)]);
        store.upsert_many(order.iter().map(|i| all[*i].clone()).collect());
        store
            .entries(100)
            .iter()
            .map(|e| format!("{}{}", e.host, e.directory))
            .collect::<Vec<String>>()
    };
    for order in [[0, 1, 2], [0, 2, 1], [1, 0, 2], [1, 2, 0], [2, 0, 1], [2, 1, 0]] {
        assert_eq!(seen(&order), ["b/x", "c/z", "a/x", "a/y"]);
    }
}

#[test]
fn saved_directories_load_as_they_were() {
    let mut store = RecentDirStore::default();
    for i in 0..130u64 {
        store.upsert(RecentDirEntry {
            host: format!("h{}", i % 3),
            directory: format!("/d{}", i % 110),
            last_seen_unix_ms: i % 7,
        });
    }
    let text = |store: &RecentDirStore| -> Vec<String> {
        store
            .entries(usize::MAX)
            .iter()
            .map(|e| format!("{}{} {}", e.host, e.directory, e.last_seen_unix_ms))
            .collect()
    };
    let held = text(&store);
    assert_eq!(held.len(), 100);
    let all = store.entries(usize::MAX);
    for pair in all.windows(2) {
        let (a, b) = (&pair[0], &pair[1]);
        assert!(
            (b.last_seen_unix_ms, &a.host, &a.directory)
                < (a.last_seen_unix_ms, &b.host, &b.directory)
        );
    }
    assert_eq!(text(&RecentDirStore::load(all)), held);
}
