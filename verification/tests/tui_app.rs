use ocwatch::ipc::{AttachSpec, ClientMessage, DaemonMessage, RecentDirEntry};
use ocwatch::tui::app::{
    handle_daemon_disconnect, handle_daemon_message, handle_key, infer_name_from_directory, App,
    Key,
};
use ocwatch::tui::detail::{
    build_detail_lines, build_detail_plain_lines, desired_height, row_prefix, wrapped_line_count,
};
use ocwatch::tui::screen::{
    centered_rect, detail_height, modal_parts, panel_parts, render_recent_dirs_modal,
    screen_areas, screen_parts, status_areas, status_parts, truncate_path, Part, Rect,
};
use ocwatch::tui::session_list::{
    build_session_items, ordered_session_indices, parent_session_index, render,
    session_has_children, session_row_prefix, state_icon_color, unique_cwd_group_labels, ListPanel,
};
use ocwatch::tui::status_bar::{count_by_state, render as render_status, StatusBar};
use ocwatch::tui::view::{color_of_state, truncate, Color, Span};
use ocwatch::types::{HostStatus, SessionInfo, SessionState};

fn info(host: &str, id: &str, parent: Option<&str>, dir: &str, age: u64) -> SessionInfo {
    SessionInfo {
        id: id.to_string(),
        host: host.to_string(),
        state: SessionState::Busy,
        parent_id: parent.map(|p| p.to_string()),
        title: format!("title {}", id),
        working_dir: dir.to_string(),
        activity_age_secs: age,
        oc_port: 4096,
        tmux_session: None,
        tmux_window: None,
        tmux_pane: None,
    }
}

fn known_host(name: &str, polled: bool) -> HostStatus {
    HostStatus {
        name: name.to_string(),
        connected: true,
        session_count: 0,
        last_poll_unix_ms: if polled { Some(1) } else { None },
        error: None,
    }
}

fn snapshot(sessions: Vec<SessionInfo>) -> DaemonMessage {
    DaemonMessage::StateSnapshot { sessions, hosts: vec![known_host("local", true)] }
}

fn family() -> Vec<SessionInfo> {
    vec![
        info("local", "old", None, "/srv/app", 50),
        info("local", "kid", Some("new"), "/srv/app", 5),
        info("local", "new", None, "/srv/app", 10),
        info("mega", "far", None, "/srv/lib", 1),
    ]
}

fn app_with(sessions: Vec<SessionInfo>) -> App {
    let mut app = App::new();
    app.daemon_connected = true;
    handle_daemon_message(&mut app, snapshot(sessions), 0);
    app
}

fn dir(host: &str, directory: &str) -> RecentDirEntry {
    RecentDirEntry {
        host: host.to_string(),
        directory: directory.to_string(),
        last_seen_unix_ms: 1,
    }
}

fn line(spans: &[Span]) -> String {
    spans.iter().map(|span| span.text.as_str()).collect()
}

fn selected(app: &App) -> &str {
    app.selected_session().unwrap().id.as_str()
}

#[test]
fn parents_and_children() {
    let sessions = family();
    assert_eq!(parent_session_index(&sessions, 1), Some(2));
    assert_eq!(parent_session_index(&sessions, 0), None);
    assert_eq!(parent_session_index(&sessions, 9), None);
    assert!(session_has_children(&sessions, 2));
    assert!(!session_has_children(&sessions, 0));
    assert!(!session_has_children(&sessions, 9));
    let apart = vec![info("a", "x", None, "/", 0), info("b", "y", Some("x"), "/", 0)];
    assert_eq!(parent_session_index(&apart, 1), None);
    assert!(!session_has_children(&apart, 0));
}

#[test]
fn order_of_the_list() {
    let mut app = app_with(family());
    assert_eq!(ordered_session_indices(&app.sessions, &app.expanded_session_keys), [2, 0, 3]);
    app.expanded_session_keys.insert("local:new".to_string());
    assert_eq!(ordered_session_indices(&app.sessions, &app.expanded_session_keys), [2, 1, 0, 3]);
}

#[test]
fn equal_ages_are_ordered_by_title() {
    let mut sessions = vec![
        info("local", "1", None, "/", 5),
        info("local", "2", None, "/", 5),
        info("local", "3", None, "/", 5),
    ];
    sessions[0].title = "b".to_string();
    sessions[1].title = "a".to_string();
    sessions[2].title = "a".to_string();
    let app = app_with(sessions);
    assert_eq!(ordered_session_indices(&app.sessions, &app.expanded_session_keys), [1, 2, 0]);
}

#[test]
fn labels_of_directories() {
    let labels = |paths: &[&str]| {
        let paths: Vec<String> = paths.iter().map(|p| p.to_string()).collect();
        unique_cwd_group_labels(&paths)
    };
    assert_eq!(labels(&["/srv/app", "/srv/lib"]), ["app", "lib"]);
    assert_eq!(labels(&["/a/app", "/b/app", "/a/app"]), ["a/app", "b/app", "a/app"]);
    assert_eq!(labels(&["/"]), ["/"]);
    assert_eq!(labels(&["/a", "/a/"]), ["/a", "/a/"]);
}

#[test]
fn lines_of_the_list() {
    let mut app = app_with(family());
    app.expanded_session_keys.insert("local:new".to_string());
    app.attention_session_keys.insert("mega:far".to_string());
    let lines = build_session_items(&app, 60);
    let texts: Vec<String> = lines.iter().map(|l| line(&l.spans)).collect();
    assert_eq!(
        texts,
        [
            "▼ local (3)",
            "  ▾ app",
            "  ▾ ◐   title new",
            "    ↳ ◐   title kid",
            "    ◐   title old",
            "▼ mega (1)",
            "  ▾ lib",
            "    ◐ ⚠ title far",
        ]
    );
    let rows: Vec<Option<usize>> = lines.iter().map(|l| l.session).collect();
    assert_eq!(rows, [None, None, Some(2), Some(1), Some(0), None, None, Some(3)]);
    assert_eq!(lines[0].spans[0].style.fg, Some(Color::Cyan));
    assert!(lines[0].spans[0].style.bold);
    match render(&app, 60) {
        ListPanel::Lines { highlighted, .. } => assert_eq!(highlighted, Some(4)),
        _ => panic!("there are sessions"),
    }
    let narrow = build_session_items(&app, 20);
    assert_eq!(line(&narrow[2].spans), "  ▾ ◐   title…");
}

#[test]
fn lists_without_sessions() {
    let mut app = App::new();
    match render(&app, 60) {
        ListPanel::Note { text, color } => {
            assert_eq!(text, "⚠ Daemon disconnected");
            assert_eq!(color, Color::Red);
        }
        _ => panic!("there is no daemon"),
    }
    app.daemon_connected = true;
    let note = |app: &App| match render(app, 60) {
        ListPanel::Note { text, .. } => text,
        _ => panic!("there are no sessions"),
    };
    let scanning = "Scanning hosts…\n\nSessions will appear as each host responds.";
    assert_eq!(note(&app), scanning);
    app.hosts = vec![known_host("local", true), known_host("mega", false)];
    assert_eq!(note(&app), scanning);
    app.hosts[1].error = Some("no route".to_string());
    assert_eq!(note(&app), scanning);
    app.hosts = vec![known_host("local", true)];
    assert_eq!(note(&app), "No sessions found\n\nStart OpenCode:\n  opencode --port 0");
}

#[test]
fn prefixes_of_rows() {
    assert_eq!(session_row_prefix(0, false, false), "  ");
    assert_eq!(session_row_prefix(0, true, false), "▸ ");
    assert_eq!(session_row_prefix(0, true, true), "▾ ");
    assert_eq!(session_row_prefix(2, false, false), "    ↳ ");
}

#[test]
fn colours_of_states() {
    assert_eq!(state_icon_color(&SessionState::Busy), ("◐", Color::Yellow));
    assert_eq!(state_icon_color(&SessionState::Idle), ("●", Color::Green));
    assert_eq!(color_of_state(&SessionState::WaitingForPermission), Color::Red);
    assert_eq!(color_of_state(&SessionState::WaitingForInput), Color::Yellow);
    assert_eq!(color_of_state(&SessionState::Error), Color::Red);
    assert_eq!(color_of_state(&SessionState::Compacting), Color::Blue);
    assert_eq!(color_of_state(&SessionState::Completed), Color::Green);
    assert_eq!(color_of_state(&SessionState::Disconnected), Color::Gray);
    assert_eq!(color_of_state(&SessionState::Unknown), Color::Gray);
}

#[test]
fn moving_through_the_list() {
    let mut app = app_with(family());
    assert_eq!(selected(&app), "old");
    handle_key(&mut app, Key::Char('j'), false, 0);
    assert_eq!(selected(&app), "far");
    handle_key(&mut app, Key::Down, false, 0);
    assert_eq!(selected(&app), "far");
    handle_key(&mut app, Key::Char('k'), false, 0);
    handle_key(&mut app, Key::Up, false, 0);
    assert_eq!(selected(&app), "new");
    handle_key(&mut app, Key::Right, false, 0);
    handle_key(&mut app, Key::Char('j'), false, 0);
    assert_eq!(selected(&app), "kid");
    handle_key(&mut app, Key::Left, false, 0);
    assert_eq!(selected(&app), "new");
    assert!(!app.expanded_session_keys.contains("local:new"));
}

#[test]
fn snapshots_keep_the_selection() {
    let mut app = app_with(family());
    app.selected_index = 3;
    let mut fewer = family();
    fewer.remove(0);
    handle_daemon_message(&mut app, snapshot(fewer), 0);
    assert_eq!(selected(&app), "far");
    handle_daemon_message(&mut app, snapshot(vec![]), 0);
    assert_eq!(app.selected_index, 0);
    assert!(app.selected_session().is_none());
}

#[test]
fn marks_of_sessions() {
    let mut app = app_with(family());
    let bell = |id: &str| DaemonMessage::Bell {
        session_id: id.to_string(),
        host: "local".to_string(),
        reason: "idle".to_string(),
    };
    handle_daemon_message(&mut app, bell("new"), 0);
    assert_eq!(app.current_status_msg(9_999), Some("⚠ new needs attention (idle)"));
    assert_eq!(app.current_status_msg(10_000), None);
    assert!(app.session_has_attention(&app.sessions[2]));
    handle_daemon_message(&mut app, bell("old"), 0);
    assert!(!app.session_has_attention(&app.sessions[0]));
    let session = info("local", "new", None, "/srv/app", 10);
    handle_daemon_message(&mut app, DaemonMessage::SessionUpdated { session }, 0);
    assert!(!app.session_has_attention(&app.sessions[2]));
    assert_eq!(app.sessions.len(), 4);
    let session = info("local", "another", None, "/srv/app", 10);
    handle_daemon_message(&mut app, DaemonMessage::SessionUpdated { session }, 0);
    assert_eq!(app.sessions.len(), 5);
}

#[test]
fn approving_with_a_key() {
    let mut app = App::new();
    assert!(handle_key(&mut app, Key::Char('a'), false, 0).is_none());
    assert_eq!(app.current_status_msg(0), Some("No session selected"));
    let mut app = app_with(family());
    assert!(handle_key(&mut app, Key::Char('a'), false, 0).is_none());
    assert_eq!(
        app.current_status_msg(0),
        Some("Nothing to approve (session not waiting for permission)")
    );
    app.sessions[0].state = SessionState::WaitingForPermission;
    match handle_key(&mut app, Key::Char('a'), false, 0) {
        Some(ClientMessage::Approve { session_id }) => assert_eq!(session_id, "old"),
        _ => panic!("the session is to be approved"),
    }
    assert_eq!(app.current_status_msg(2_999), Some("Approving..."));
}

#[test]
fn other_keys() {
    let mut app = app_with(family());
    assert!(matches!(
        handle_key(&mut app, Key::Char('r'), false, 0),
        Some(ClientMessage::RefreshAll)
    ));
    assert_eq!(app.current_status_msg(0), Some("Refreshing..."));
    match handle_key(&mut app, Key::Enter, false, 0) {
        Some(ClientMessage::DropIn { session_id }) => assert_eq!(session_id, "old"),
        _ => panic!("the session is to be entered"),
    }
    handle_key(&mut app, Key::Char('?'), false, 0);
    assert_eq!(
        app.current_status_msg(0),
        Some("j/k: navigate  ←/→: collapse/expand  n: new  a: approve  enter: drop-in  r: refresh  q: quit")
    );
    handle_key(&mut app, Key::Char('c'), false, 0);
    assert!(!app.should_quit);
    handle_key(&mut app, Key::Char('c'), true, 0);
    assert!(app.should_quit);
    let mut app = App::new();
    handle_key(&mut app, Key::Char('q'), false, 0);
    assert!(app.should_quit);
}

#[test]
fn choosing_a_recent_directory() {
    let mut app = app_with(family());
    match handle_key(&mut app, Key::Char('n'), false, 0) {
        Some(ClientMessage::GetRecentDirs { limit }) => assert_eq!(limit, 10),
        _ => panic!("the directories are asked for"),
    }
    assert_eq!(app.current_status_msg(0), Some("Loading recent directories..."));
    let message = DaemonMessage::RecentDirs {
        entries: vec![dir("local", "/srv/app"), dir("mega", "/srv/lib/")],
        is_complete: true,
    };
    handle_daemon_message(&mut app, message, 0);
    assert_eq!(app.current_status_msg(0), Some("Recent directories loaded"));
    handle_key(&mut app, Key::Down, false, 0);
    handle_key(&mut app, Key::Char('j'), false, 0);
    assert_eq!(app.recent_dirs_modal.as_ref().unwrap().selected_index, 1);
    match handle_key(&mut app, Key::Enter, false, 0) {
        Some(ClientMessage::CreateSession { host, directory, name_hint }) => {
            assert_eq!(host, "mega");
            assert_eq!(directory, "/srv/lib/");
            assert_eq!(name_hint.as_deref(), Some("lib"));
        }
        _ => panic!("a session is to be made"),
    }
    assert_eq!(app.current_status_msg(0), Some("Creating session in /srv/lib/"));
    assert!(app.recent_dirs_modal.is_none());
    handle_key(&mut app, Key::Char('n'), false, 0);
    assert_eq!(app.recent_dirs_modal.as_ref().unwrap().entries.len(), 2);
    handle_key(&mut app, Key::Esc, false, 0);
    assert!(app.recent_dirs_modal.is_none());
    assert_eq!(infer_name_from_directory("/"), "opencode");
    assert_eq!(infer_name_from_directory("/a/.."), "opencode");
}

#[test]
fn messages_of_the_daemon() {
    let mut app = app_with(family());
    let message = DaemonMessage::Error { message: "no".to_string() };
    handle_daemon_message(&mut app, message, 0);
    assert_eq!(app.current_status_msg(4_999), Some("Error: no"));
    app.expire_status(4_999);
    assert!(app.status_msg.is_some());
    app.expire_status(5_000);
    assert!(app.status_msg.is_none());
    handle_daemon_disconnect(&mut app, 0);
    assert!(!app.daemon_connected);
    assert_eq!(app.current_status_msg(299_999), Some("Daemon disconnected"));
    let attach = AttachSpec::LocalTmux { session: "s".to_string(), window: None, pane: None };
    handle_daemon_message(&mut app, DaemonMessage::AttachReady { attach }, 0);
    assert!(app.should_quit);
    assert!(app.pending_attach.is_some());
}

#[test]
fn details_of_a_session() {
    let mut session = info("local", "a", Some("root"), "/srv/app", 65);
    session.title = "0123456789012345678901234567890123456789".to_string();
    session.tmux_session = Some("main".to_string());
    let lines = build_detail_plain_lines(&session);
    assert_eq!(
        lines,
        [
            "Title:   0123456789012345678901234567890123…",
            "State:   ◐ Busy",
            "Host:    local",
            "Dir:     /srv/app",
            "Updated: 1m 5s",
            "Parent:  root",
            "",
            "─── tmux ────────────────────────",
            "Session: main",
            "Window:  —",
            "Pane:    —",
        ]
    );
    let styled = build_detail_lines(&session);
    let shown: Vec<String> = styled.iter().map(|l| line(l)).collect();
    assert_eq!(shown, lines);
    assert_eq!(styled[1][1].style.fg, Some(Color::Yellow));
    assert_eq!(row_prefix("Host"), "Host:    ");
    assert_eq!(row_prefix("Long label"), "Long label: ");
    let bare = build_detail_plain_lines(&info("local", "a", None, "/", 0));
    assert_eq!(bare.len(), 5);
}

#[test]
fn heights_of_details() {
    assert_eq!(wrapped_line_count("", 10), 1);
    assert_eq!(wrapped_line_count("0123456789", 10), 1);
    assert_eq!(wrapped_line_count("0123456789a", 10), 2);
    assert_eq!(wrapped_line_count("abc", 0), 3);
    let mut app = App::new();
    assert_eq!(desired_height(&app, 80), 3);
    app = app_with(family());
    assert_eq!(desired_height(&app, 80), 7);
    assert_eq!(desired_height(&app, 17), 9);
    let area = Rect { x: 0, y: 0, width: 80, height: 9 };
    assert_eq!(detail_height(&app, area), 5);
    let low = Rect { x: 0, y: 0, width: 80, height: 3 };
    assert_eq!(detail_height(&app, low), 1);
}

#[test]
fn where_the_panels_stand() {
    let app = app_with(family());
    let small = Rect { x: 0, y: 0, width: 39, height: 40 };
    assert!(screen_areas(&app, small).is_none());
    let low = Rect { x: 0, y: 0, width: 40, height: 9 };
    assert!(screen_areas(&app, low).is_none());
    let area = Rect { x: 0, y: 0, width: 80, height: 24 };
    let areas = screen_areas(&app, area).unwrap();
    assert_eq!(areas.list, Rect { x: 0, y: 0, width: 80, height: 16 });
    assert_eq!(areas.detail, Rect { x: 0, y: 16, width: 80, height: 7 });
    assert_eq!(areas.status, Rect { x: 0, y: 23, width: 80, height: 1 });
    assert_eq!(screen_parts(), [Part::Min(1), Part::Length(1)]);
    assert_eq!(panel_parts(&app, area), [Part::Min(1), Part::Length(7)]);
    assert_eq!(modal_parts(), [Part::Length(2), Part::Min(1), Part::Length(1)]);
}

#[test]
fn panels_share_every_screen() {
    let app = app_with(family());
    for (x, y) in [(0, 0), (3, 7), (100, 1000)] {
        for height in (10..150).chain([500, 4001, 32_767, 32_768, 60_000]) {
            for width in [40, 41, 80, 133, 1000] {
                let area = Rect { x, y, width, height };
                let areas = screen_areas(&app, area).unwrap();
                let panels = Rect { height: height - 1, ..area };
                let detail = detail_height(&app, panels);
                let list = height - 1 - detail;
                assert_eq!(areas.list, Rect { height: list, ..area });
                assert_eq!(areas.detail, Rect { y: y + list, height: detail, ..area });
                assert_eq!(areas.status, Rect { y: y + height - 1, height: 1, ..area });
            }
        }
    }
    let whole = Rect { x: 0, y: 0, width: 65_535, height: 65_535 };
    let areas = screen_areas(&app, whole).unwrap();
    assert_eq!(areas.status, Rect { y: 65_534, height: 1, ..whole });
}

#[test]
fn parts_share_every_status_bar() {
    for n in [0u16, 1, 2, 5, 17, 30, 44, 59] {
        let left = "x".repeat(n as usize);
        for m in [0u16, 1, 7, 59] {
            let right = "y".repeat(m as usize);
            for width in (n + m + 3)..(n + m + 70) {
                let area = Rect { x: 9, y: 4, width, height: 2 };
                let (a, b, c) = status_areas(&left, &right, area);
                assert_eq!(a, Rect { width: n + 2, ..area });
                assert_eq!(b, Rect { x: 9 + n + 2, width: width - n - 2 - m, ..area });
                assert_eq!(c, Rect { x: 9 + width - m, width: m, ..area });
            }
        }
    }
}

#[test]
fn parts_of_the_status_bar() {
    assert_eq!(status_parts("ab", "←"), [Part::Length(4), Part::Min(1), Part::Length(3)]);
    let area = Rect { x: 0, y: 5, width: 20, height: 1 };
    let (left, center, right) = status_areas("ab", "xyz", area);
    assert_eq!(left, Rect { x: 0, y: 5, width: 4, height: 1 });
    assert_eq!(center, Rect { x: 4, y: 5, width: 13, height: 1 });
    assert_eq!(right, Rect { x: 17, y: 5, width: 3, height: 1 });
}

#[test]
fn recent_directories_on_the_screen() {
    let mut app = app_with(family());
    let area = Rect { x: 0, y: 0, width: 100, height: 30 };
    assert!(render_recent_dirs_modal(&app, area).is_none());
    handle_key(&mut app, Key::Char('n'), false, 0);
    app.update_recent_dirs(vec![dir("local", "/srv/app")], false);
    let panel = render_recent_dirs_modal(&app, area).unwrap();
    assert_eq!(panel.popup, Rect { x: 5, y: 7, width: 90, height: 16 });
    assert_eq!(panel.heading, Rect { x: 6, y: 8, width: 88, height: 2 });
    assert_eq!(panel.body, Rect { x: 6, y: 10, width: 88, height: 11 });
    assert_eq!(panel.footer, Rect { x: 6, y: 21, width: 88, height: 1 });
    assert_eq!(panel.subtitle, "Loading recent directories...");
    assert_eq!(line(&panel.lines[0]), "[local] /srv/app");
    assert_eq!(panel.highlighted, 0);
    app.update_recent_dirs(vec![], true);
    let panel = render_recent_dirs_modal(&app, area).unwrap();
    assert_eq!(panel.subtitle, "Select a recent directory and press Enter");
    assert!(panel.lines.is_empty());
    let small = Rect { x: 3, y: 2, width: 10, height: 4 };
    assert_eq!(centered_rect(40, 8, small), small);
}

#[test]
fn texts_are_cut() {
    assert_eq!(truncate("abcdef", 4), "abc…");
    assert_eq!(truncate("abcd", 4), "abcd");
    assert_eq!(truncate("abcd", 0), "");
    assert_eq!(truncate_path("/srv/app", 5), "…/app");
    assert_eq!(truncate_path("/srv/app", 8), "/srv/app");
    assert_eq!(truncate_path("/srv/app", 0), "/srv/app");
}

#[test]
fn counts_and_status_bar() {
    let mut sessions = family();
    sessions[0].state = SessionState::Idle;
    sessions[1].state = SessionState::WaitingForInput;
    sessions[2].state = SessionState::WaitingForPermission;
    assert_eq!(count_by_state(&sessions), (1, 1, 2, 0));
    let mut app = app_with(sessions);
    app.set_status("hello".to_string(), 100, 50);
    match render_status(&app, 149) {
        StatusBar::Parts { left, center, right } => {
            assert_eq!(left, "B:1 I:1 W:2 E:0");
            assert_eq!(center, "hello");
            assert_eq!(
                right,
                "[←/→] tree  [?] help  [n] new  [a] approve  [⏎] drop-in  [q] quit"
            );
        }
        _ => panic!("there is a daemon"),
    }
    match render_status(&app, 150) {
        StatusBar::Parts { center, .. } => assert_eq!(center, ""),
        _ => panic!("there is a daemon"),
    }
    app.daemon_connected = false;
    match render_status(&app, 0) {
        StatusBar::Disconnected { text } => assert_eq!(
            text,
            "⚠ Daemon disconnected — start with: ocwatch daemon start"
        ),
        _ => panic!("there is no daemon"),
    }
}

#[test]
fn parts_share_a_narrow_status_bar() {
    for n in [0u16, 1, 2, 5, 15, 70] {
        let left = "x".repeat(n as usize);
        for m in [0u16, 1, 3, 9, 71] {
            let right = "y".repeat(m as usize);
            for width in 0..(n + m + 3) {
                for x in [0u16, 7] {
                    let area = Rect { x, y: 4, width, height: 1 };
                    let (a, b, c) = status_areas(&left, &right, area);
                    assert_eq!(a.x, x);
                    assert_eq!(b.x, a.x + a.width);
                    assert_eq!(c.x, b.x + b.width);
                    assert_eq!(c.x + c.width, x + width);
                    assert_eq!(b.width, width.min(1));
                    assert!(a.width <= n + 2 && c.width <= m);
                    assert!([a, b, c].iter().all(|r| r.y == 4 && r.height == 1));
                }
            }
        }
    }
}

#[test]
fn areas_end_at_the_last_coordinate() {
    let app = app_with(family());
    for room in 0..40u16 {
        let y = u16::MAX - room;
        let area = Rect { x: 2, y, width: 80, height: 41 };
        let areas = screen_areas(&app, area).unwrap();
        let bar = if room >= 2 { 1 } else { 0 };
        let panels = Rect { height: room - bar, ..area };
        let detail = detail_height(&app, panels).min(panels.height.saturating_sub(1));
        let list = panels.height - detail;
        assert_eq!(areas.list, Rect { height: list, ..area });
        assert_eq!(areas.detail, Rect { y: y + list, height: detail, ..area });
        assert_eq!(areas.status, Rect { y: y + panels.height, height: bar, ..area });
        let bar = Rect { x: y, y: 0, width: 60, height: 1 };
        let (a, b, c) = status_areas("ab", "xyz", bar);
        assert_eq!((a.x, b.x, c.x), (y, y + a.width, y + a.width + b.width));
        assert_eq!(c.x + c.width, u16::MAX);
        if room >= 8 {
            assert_eq!((a.width, b.width, c.width), (4, room - 7, 3));
        } else {
            assert!(a.width <= 4 && c.width <= 3 && b.width == room.min(1));
        }
    }
}

#[test]
fn recent_directories_on_a_low_screen() {
    let mut app = app_with(family());
    handle_key(&mut app, Key::Char('n'), false, 0);
    for height in 0..12u16 {
        let area = Rect { x: 0, y: 3, width: 60, height };
        let panel = render_recent_dirs_modal(&app, area).unwrap();
        let rows = panel.popup.height.saturating_sub(2);
        assert_eq!(panel.body.y, panel.heading.y + panel.heading.height);
        assert_eq!(panel.footer.y, panel.body.y + panel.body.height);
        assert_eq!(panel.footer.y + panel.footer.height, panel.heading.y + rows);
        if rows >= 4 {
            assert_eq!((panel.heading.height, panel.footer.height), (2, 1));
        } else {
            assert_eq!(panel.body.height, rows.min(1));
            assert!(panel.heading.height <= 2 && panel.footer.height <= 1);
        }
    }
}

#[test]
fn parts_share_a_status_bar_with_long_texts() {
    let long = "x".repeat(70_000);
    for (left, right) in [(long.as_str(), long.as_str()), (long.as_str(), "y"), ("y", long.as_str())]
    {
        for width in [0u16, 1, 2, 80, 32_767, 32_768, 65_535] {
            let area = Rect { x: 0, y: 0, width, height: 1 };
            let (a, b, c) = status_areas(left, right, area);
            assert_eq!((a.x, b.x, c.x), (0, a.width, a.width + b.width));
            assert_eq!(c.x + c.width, width);
            assert_eq!(b.width, width.min(1));
            assert!(left.len() > 9 || a.width <= 3);
            assert!(right.len() > 9 || c.width <= 1);
        }
    }
}
