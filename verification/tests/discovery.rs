use ocwatch::discovery::local::{
    discover_port_for_pid, discover_port_from_cmdline, find_opencode_child_pid,
    is_opencode_command, is_opencode_pid, parse_ps_rows, scan_local_tmux, PaneProbe,
};
use ocwatch::discovery::panes::{
    discover_port_from_lsof, parse_panes, parse_tmux_output, ScanResult,
};
use ocwatch::discovery::parts::{
    decode_sqlite_hex_payload, infer_session_state_from_part, inferred_state, part_statuses,
    state_of_parts,
};
use ocwatch::discovery::remote::{
    extract_port_from_cmdline, normalize_tty, parse_processes, parse_remote_db_sessions,
    project_question, recent_directories, recent_question, reconcile_port_forwards, scan_remote,
};
use ocwatch::discovery::scan::{RemoteScan, ScanAction, ScanEvent};
use ocwatch::types::SessionState;

const PS: &str = "USER PID %CPU %MEM VSZ RSS TTY STAT START TIME COMMAND\n\
    me 10 0.0 0.1 1 1 ? S 10:00 0:00 /home/me/.opencode/bin/opencode serve --port 4096\n\
    me 11 0.0 0.1 1 1 pts/3 S 10:00 0:00 OpenCode\n\
    me 12 0.0 0.1 1 1 pts/4 S 10:00 0:00 grep opencode\n\
    me 13 0.0 0.1 1 1 pts/5 S 10:00 0:00 vim notes\n\
    me x 0.0 0.1 1 1 pts/6 S 10:00 0:00 opencode\n\
    me 14 opencode\n";

fn said(scan: &mut RemoteScan, expected: &str, answer: Option<&str>) {
    match scan.action() {
        ScanAction::Run(command) => {
            assert!(command.contains(expected), "{}", command);
            scan.step(ScanEvent::Output(answer.map(|text| text.to_string())));
        }
        _ => panic!("{} is not asked for", expected),
    }
}

fn hex(text: &str) -> String {
    text.bytes().map(|b| format!("{:02X}", b)).collect()
}

#[test]
fn processes_of_opencode() {
    let found = parse_processes(PS);
    let seen: Vec<(u32, &str)> = found.iter().map(|p| (p.pid, p.cmdline.as_str())).collect();
    assert_eq!(
        seen,
        [
            (10, "/home/me/.opencode/bin/opencode serve --port 4096"),
            (11, "OpenCode"),
        ]
    );
}

#[test]
fn ports_on_command_lines() {
    assert_eq!(discover_port_from_cmdline("opencode --port 80"), Some(80));
    assert_eq!(discover_port_from_cmdline("opencode --port=4096 --port 1"), Some(4096));
    assert_eq!(discover_port_from_cmdline("opencode --port"), None);
    assert_eq!(discover_port_from_cmdline("opencode --port x --port 5"), None);
    assert_eq!(discover_port_from_cmdline("opencode --port 70000"), None);
    assert_eq!(discover_port_from_cmdline("opencode"), None);
    assert_eq!(extract_port_from_cmdline("opencode --port 4096"), Some(4096));
    assert_eq!(extract_port_from_cmdline("opencode --port 1024"), None);
    assert_eq!(extract_port_from_cmdline("opencode --port=1025"), Some(1025));
}

#[test]
fn ports_by_lsof() {
    let text = "COMMAND PID USER FD TYPE DEVICE SIZE/OFF NODE NAME\n\
        oc 1 me 3u IPv4 0 0t0 TCP 127.0.0.1:5000->127.0.0.1:6000 (ESTABLISHED)\n\
        oc 1 me 4u IPv4 0 0t0 TCP 127.0.0.1:4096 (LISTEN)\n";
    assert_eq!(discover_port_from_lsof(text), Some(4096));
    assert_eq!(discover_port_from_lsof("oc 1 TCP *:http (LISTEN)"), None);
    assert_eq!(discover_port_from_lsof(""), None);
    assert_eq!(discover_port_for_pid(Some(text), Some("--port 1")), Some(4096));
    assert_eq!(discover_port_for_pid(Some(""), Some("--port 1")), Some(1));
    assert_eq!(discover_port_for_pid(None, None), None);
}

#[test]
fn commands_of_opencode() {
    assert!(is_opencode_command("OpenCode"));
    assert!(is_opencode_command("OC"));
    assert!(!is_opencode_command("ocx"));
    assert!(!is_opencode_command("zsh"));
}

#[test]
fn child_of_a_shell() {
    let ps = "  PID  PPID ARGS\n  1 0 init\n 20 1 zsh\n 21 20 node wrapper\n 22 21 /x/.opencode/bin/oc run\n 23 20 opencode\n";
    assert_eq!(find_opencode_child_pid(ps, 20), Some(22));
    assert_eq!(find_opencode_child_pid(ps, 21), Some(22));
    assert_eq!(find_opencode_child_pid(ps, 22), None);
    let rows = parse_ps_rows(ps);
    assert!(is_opencode_pid(&rows, 23));
    assert!(!is_opencode_pid(&rows, 21));
}

#[test]
fn panes_of_tmux() {
    let panes = parse_tmux_output("100 main win 1 0 opencode /dev/ttys001\nbad line\n");
    assert_eq!(panes.len(), 1);
    assert_eq!(panes[0].pane_pid, 100);
    assert_eq!(panes[0].session_name, "main");
    assert_eq!(panes[0].window_name, "win");
    assert_eq!(panes[0].window_index, 1);
    assert_eq!(panes[0].pane_index, 0);
    assert_eq!(panes[0].pane_current_command, "opencode");
    assert_eq!(panes[0].pane_tty, "/dev/ttys001");
    let panes = parse_panes("7\tmy work\tw 1\t2\t3\tzsh\t/dev/pts/4 \n\n", '\t');
    assert_eq!(panes[0].session_name, "my work");
    assert_eq!(panes[0].pane_tty, "/dev/pts/4");
}

#[test]
fn instances_in_local_panes() {
    let panes = parse_tmux_output(
        "100 main w 1 0 opencode /dev/a\n200 main w 1 1 zsh /dev/b\n300 main w 1 2 oc /dev/c\n\
         400 main w 1 3 oc /dev/d\n",
    );
    let probes = vec![
        PaneProbe { child: Some(101), port: Some(4096) },
        PaneProbe { child: Some(201), port: Some(4097) },
        PaneProbe { child: None, port: Some(4098) },
        PaneProbe { child: None, port: None },
    ];
    let found = scan_local_tmux(&panes, &probes);
    let seen: Vec<(u32, u16)> = found.iter().map(|i| (i.pid, i.port)).collect();
    assert_eq!(seen, [(101, 4096), (300, 4098)]);
    assert_eq!(found[0].remote_port, None);
    assert_eq!(found[0].tmux_session.as_deref(), Some("main"));
    assert_eq!(found[0].tmux_pane_tty.as_deref(), Some("/dev/a"));
    assert_eq!(found[1].tmux_pane_index, Some(2));
}

#[test]
fn stored_sessions() {
    let found = parse_remote_db_sessions("a||A|/srv|5\nb|a|B|/srv|x|y\nshort|line\n");
    assert_eq!(found.len(), 2);
    assert_eq!(found[0].parent_id, None);
    assert_eq!(found[0].time_updated_ms, 5);
    assert_eq!(found[1].parent_id.as_deref(), Some("a"));
    assert_eq!(found[1].time_updated_ms, 0);
}

#[test]
fn terminals() {
    assert_eq!(normalize_tty("pts/3\n"), Some("/dev/pts/3".to_string()));
    assert_eq!(normalize_tty("/dev/pts/3"), Some("/dev/pts/3".to_string()));
    assert_eq!(normalize_tty("?"), None);
    assert_eq!(normalize_tty(" \n"), None);
}

#[test]
fn directories_of_a_host() {
    let found = recent_directories("mega", Some(" /srv/a |7 \n|9\nnone\n/b|z\n"));
    assert_eq!(found.len(), 2);
    assert_eq!(found[0].host, "mega");
    assert_eq!(found[0].directory, "/srv/a");
    assert_eq!(found[0].last_seen_unix_ms, 7);
    assert_eq!(found[1].last_seen_unix_ms, 0);
    assert!(recent_directories("mega", None).is_empty());
    assert!(recent_question(10).ends_with("DESC LIMIT 10\""));
}

#[test]
fn questions_quote_what_they_are_about() {
    assert_eq!(
        project_question("/it's"),
        "git -C '/it'\\''s' rev-list --max-parents=0 HEAD 2>/dev/null | sort | head -1"
    );
}

#[test]
fn forwards_of_ports_no_longer_used() {
    assert_eq!(reconcile_port_forwards(&vec![2, 4], &vec![1, 2, 3]), [1, 3]);
    assert!(reconcile_port_forwards(&vec![1], &vec![1]).is_empty());
}

#[test]
fn scan_of_a_host() {
    let mut scan = RemoteScan::new(None);
    said(&mut scan, "tmux list-panes", Some("50\tmain\twin\t1\t2\topencode\t/dev/pts/3\n"));
    said(&mut scan, "ps aux", Some(PS));
    said(&mut scan, "lsof -a -p 10 ", None);
    match scan.action() {
        ScanAction::Forward(port) => assert_eq!(port, 4096),
        _ => panic!("the port is to be forwarded"),
    }
    scan.step(ScanEvent::Forwarded(Some(50000)));
    said(&mut scan, "lsof -a -p 11 ", Some(""));
    said(&mut scan, "readlink /proc/11/cwd", Some("/srv/app\n"));
    said(&mut scan, "git -C '/srv/app'", Some("abc\n"));
    said(&mut scan, "project_id = 'abc'", Some("root||Root|/srv/app|9\n"));
    said(
        &mut scan,
        "WHERE id = 'root'",
        Some("root||Root|/srv/app|9\nkid|root|Kid|/srv/app|8\nroot||Again|/|1\n"),
    );
    said(&mut scan, "ps -p 11 -o tty=", Some("pts/3"));
    let parts = format!(
        "{}\n{}\n",
        hex(r#"{"type":"text"}"#),
        hex(r#"{"type":"tool","state":{"status":"running"}}"#)
    );
    said(&mut scan, "hex(data)", Some(&parts));
    said(&mut scan, "hex(data)", None);
    assert!(matches!(scan.action(), ScanAction::Done));
    assert_eq!(scan.stale_ports(&vec![4096, 5000]), [5000]);
    let result = scan.into_result();
    assert_eq!(result.server_port, Some(50000));
    assert_eq!(result.server_remote_port, Some(4096));
    let ids: Vec<&str> = result.active_sessions.iter().map(|s| s.session_id.as_str()).collect();
    assert_eq!(ids, ["root", "kid"]);
    let root = &result.active_sessions[0];
    assert_eq!(root.tui_pid, 11);
    assert_eq!(root.project_id, "abc");
    assert_eq!(root.inferred_state, Some(SessionState::Busy));
    assert_eq!(root.tmux_session.as_deref(), Some("main"));
    assert_eq!(root.tmux_window_index, Some(1));
    assert_eq!(root.tmux_pane_index, Some(2));
    let kid = &result.active_sessions[1];
    assert_eq!(kid.parent_id.as_deref(), Some("root"));
    assert_eq!(kid.tmux_session, None);
    let instances = scan_remote(&result);
    assert_eq!(instances.len(), 2);
    assert_eq!(instances[0].port, 50000);
    assert_eq!(instances[0].remote_port, Some(4096));
}

#[test]
fn states_can_be_given_to_a_scan() {
    let mut scan = RemoteScan::new(None);
    scan.take_state(Some(SessionState::Error));
    assert!(matches!(scan.action(), ScanAction::Run(_)));
    said(&mut scan, "tmux list-panes", Some(""));
    said(&mut scan, "ps aux", Some("me 11 0.0 0.1 1 1 pts/3 S 10:00 0:00 opencode a\n"));
    said(&mut scan, "lsof -a -p 11 ", Some(""));
    said(&mut scan, "readlink /proc/11/cwd", Some("/srv\n"));
    said(&mut scan, "git -C '/srv'", Some("abc\n"));
    said(&mut scan, "project_id = 'abc'", Some("root||Root|/srv|9\n"));
    said(&mut scan, "WHERE id = 'root'", None);
    said(&mut scan, "ps -p 11 -o tty=", None);
    scan.take_state(Some(SessionState::Error));
    assert!(matches!(scan.action(), ScanAction::Done));
    let result = scan.into_result();
    assert_eq!(result.active_sessions[0].inferred_state, Some(SessionState::Error));
}

#[test]
fn scan_of_one_tmux_session() {
    let panes = "50\tmain\twin\t1\t2\topencode\t/dev/pts/3\n\
        51\tother\twin\t0\t0\topencode\t/dev/pts/4\n";
    let ps = "me 11 0.0 0.1 1 1 pts/3 S 10:00 0:00 opencode a\n\
        me 12 0.0 0.1 1 1 pts/4 S 10:00 0:00 opencode b\n\
        me 13 0.0 0.1 1 1 pts/5 S 10:00 0:00 opencode c\n";
    let mut scan = RemoteScan::new(Some("other".to_string()));
    said(&mut scan, "tmux list-panes", Some(panes));
    said(&mut scan, "ps aux", Some(ps));
    for pid in ["11", "12", "13"] {
        said(&mut scan, &format!("lsof -a -p {} ", pid), Some(""));
    }
    for (pid, tty) in [("11", "pts/3"), ("12", "pts/4"), ("13", "pts/5")] {
        said(&mut scan, &format!("/proc/{}/cwd", pid), Some("/srv"));
        said(&mut scan, "git -C '/srv'", Some("abc"));
        let row = format!("ses{}||T|/srv|1\n", pid);
        said(&mut scan, "project_id = 'abc'", Some(&row));
        said(&mut scan, &format!("WHERE id = 'ses{}'", pid), Some(&row));
        said(&mut scan, &format!("ps -p {} -o tty=", pid), Some(tty));
        if pid == "12" {
            said(&mut scan, "hex(data)", None);
        }
    }
    assert!(matches!(scan.action(), ScanAction::Done));
    let result = scan.into_result();
    assert_eq!(result.active_sessions.len(), 1);
    assert_eq!(result.active_sessions[0].session_id, "ses12");
    assert_eq!(result.active_sessions[0].tmux_session.as_deref(), Some("other"));
}

#[test]
fn scan_without_processes() {
    let mut scan = RemoteScan::new(None);
    said(&mut scan, "tmux list-panes", None);
    said(&mut scan, "ps aux", None);
    assert!(matches!(scan.action(), ScanAction::Failed));
    assert!(scan.stale_ports(&vec![4096]).is_empty());
    let result = scan.into_result();
    assert_eq!(result.server_port, None);
    assert!(result.active_sessions.is_empty());
}

#[test]
fn scan_passes_over_what_leads_nowhere() {
    let ps = "me 11 0.0 0.1 1 1 pts/3 S 10:00 0:00 opencode a\n\
        me 12 0.0 0.1 1 1 pts/4 S 10:00 0:00 opencode b\n\
        me 13 0.0 0.1 1 1 pts/5 S 10:00 0:00 opencode c\n";
    let mut scan = RemoteScan::new(None);
    said(&mut scan, "tmux list-panes", Some(""));
    said(&mut scan, "ps aux", Some(ps));
    for pid in ["11", "12", "13"] {
        said(&mut scan, &format!("lsof -a -p {} ", pid), Some(""));
    }
    said(&mut scan, "/proc/11/cwd", Some("not a path"));
    said(&mut scan, "/proc/12/cwd", Some("/x"));
    said(&mut scan, "git -C '/x'", Some(" \n"));
    said(&mut scan, "/proc/13/cwd", Some("/y"));
    said(&mut scan, "git -C '/y'", Some("p"));
    said(&mut scan, "project_id = 'p'", Some(""));
    assert!(matches!(scan.action(), ScanAction::Done));
}

#[test]
fn instances_without_a_server() {
    let result = ScanResult {
        server_port: None,
        server_remote_port: None,
        active_sessions: vec![],
    };
    assert!(scan_remote(&result).is_empty());
}

#[test]
fn stored_parts() {
    assert_eq!(decode_sqlite_hex_payload(" 7B7d\n"), Some(b"{}".to_vec()));
    assert_eq!(decode_sqlite_hex_payload(""), Some(vec![]));
    assert_eq!(decode_sqlite_hex_payload("7B7"), None);
    assert_eq!(decode_sqlite_hex_payload("7G"), None);
    assert_eq!(decode_sqlite_hex_payload("G7AA"), None);
    assert_eq!(decode_sqlite_hex_payload("00ff10"), Some(vec![0, 255, 16]));
    let running = Some("running".to_string());
    assert_eq!(infer_session_state_from_part(&running), Some(SessionState::Busy));
    assert_eq!(infer_session_state_from_part(&Some("pending".to_string())), None);
    assert_eq!(infer_session_state_from_part(&None), None);
    let parts = vec![None, Some("odd".to_string()), Some("error".to_string()), running];
    assert_eq!(inferred_state(&parts), Some(SessionState::Error));
    assert_eq!(inferred_state(&vec![None]), None);
}

#[test]
fn states_out_of_stored_parts() {
    let part = |status: &str| hex(&format!("{{\"state\":{{\"status\":\"{}\"}}}}", status));
    assert_eq!(state_of_parts(&part("running")), Some(SessionState::Busy));
    assert_eq!(state_of_parts(&part("Error")), Some(SessionState::Error));
    assert_eq!(state_of_parts(&part("odd")), None);
    assert_eq!(state_of_parts(""), None);
    let first = format!("not hex\n{}\n \n{}\n{}", hex("no json"), part("idle"), part("error"));
    assert_eq!(state_of_parts(&first), Some(SessionState::Idle));
    assert_eq!(part_statuses(&first), [None, None, Some("idle".into()), Some("error".into())]);
    let others = [
        r#"{"status":"idle"}"#,
        r#"{"state":"idle"}"#,
        r#"{"state":{"status":3}}"#,
        r#"{"state":[{"status":"idle"}]}"#,
        r#"["state","status"]"#,
    ];
    for json in others {
        assert_eq!(part_statuses(&hex(json)), [None]);
    }
}
