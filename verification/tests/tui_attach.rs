use ocwatch::ipc::AttachSpec;
use ocwatch::daemon::lifecycle::WaitStep;
use ocwatch::tui::interaction::{
    execute_attach, execute_exec_attach, execute_exec_attach_with_tmux_wrapper,
    execute_tmux_attach, pane_target, tmux_target, window_target, wrap_remote_command, AttachPlan,
    AttachStage, ExePath,
};
use ocwatch::tui::singleton::{
    acquire_startup_lock, current_tmux_target, is_same_tui_process, not_ended_text,
    prepare_tui_launch, terminate_wait, Ending, LaunchStep, LockStep, LockTry, TmuxTarget,
    TuiInstanceRecord,
};

fn run(plan: &AttachPlan, results: &[bool]) -> (Vec<String>, Option<String>) {
    let mut commands = vec![];
    let mut stage = plan.start();
    let mut results = results.iter();
    while let Some(command) = plan.command(stage) {
        commands.push(format!("{} {}", command.program, command.args.join(" ")));
        stage = plan.next(stage, *results.next().unwrap());
    }
    (commands, plan.report(stage))
}

fn record(pid: u32, session: Option<&str>) -> TuiInstanceRecord {
    let target = session.map(|name| TmuxTarget {
        socket_path: "/tmp/tmux".to_string(),
        session: name.to_string(),
        window: "@1".to_string(),
        pane: "%2".to_string(),
    });
    TuiInstanceRecord::current(pid, 5, "/usr/bin/ocwatch".to_string(), target)
}

#[test]
fn places_in_tmux() {
    assert_eq!(tmux_target("s", Some("w"), Some("1")), "s:w.1");
    assert_eq!(tmux_target("s", Some("w"), None), "s:w");
    assert_eq!(tmux_target("s", None, Some("1")), "s");
    assert_eq!(window_target("s", "w"), "s:w");
    assert_eq!(window_target("s", "@4"), "@4");
    assert_eq!(pane_target("s", Some("w"), "1"), "s:w.1");
    assert_eq!(pane_target("s", None, "1"), "s:.1");
    assert_eq!(pane_target("s", Some("w"), "%7"), "%7");
}

#[test]
fn attaching_inside_tmux() {
    let plan = execute_tmux_attach(true, Some("/sock"), "s", Some("w"), Some("1"));
    let (commands, report) = run(&plan, &[true]);
    assert_eq!(commands, ["tmux -S /sock switch-client -t s:w.1"]);
    assert_eq!(report, None);
    let (_, report) = run(&plan, &[false]);
    assert_eq!(report.as_deref(), Some("tmux switch-client failed for s:w.1"));
}

#[test]
fn attaching_outside_tmux() {
    let plan = execute_tmux_attach(false, None, "s", Some("w"), Some("1"));
    let (commands, report) = run(&plan, &[true, true, true]);
    assert_eq!(
        commands,
        [
            "tmux select-window -t s:w",
            "tmux select-pane -t s:w.1",
            "tmux attach-session -t s",
        ]
    );
    assert_eq!(report, None);
    let (_, report) = run(&plan, &[false]);
    assert_eq!(report.as_deref(), Some("tmux select-window failed for s:w"));
    let (_, report) = run(&plan, &[true, false]);
    assert_eq!(report.as_deref(), Some("tmux select-pane failed for s:w.1"));
    let (_, report) = run(&plan, &[true, true, false]);
    assert_eq!(report.as_deref(), Some("tmux attach-session failed for s:w.1"));
    let bare = execute_tmux_attach(false, None, "s", None, None);
    assert_eq!(run(&bare, &[true]).0, ["tmux attach-session -t s"]);
}

#[test]
fn running_a_program_in_a_window() {
    let args = vec!["-t".to_string(), "a b".to_string()];
    let exe = ExePath::Known("/bin/ocwatch".to_string());
    let plan = execute_exec_attach(true, "ssh", &args, Some("mega:s"), &exe, 7).unwrap();
    let (commands, report) = run(&plan, &[false]);
    assert_eq!(commands, ["tmux new-window -n mega:s ssh -t 'a b'"]);
    assert_eq!(report.as_deref(), Some("tmux new-window failed for mega:s"));
    let direct = execute_exec_attach(true, "ssh", &args, None, &exe, 7).unwrap();
    let (commands, report) = run(&direct, &[false]);
    assert_eq!(commands, ["ssh -t a b"]);
    assert_eq!(report.as_deref(), Some("ssh failed"));
    let unresolved = ExePath::Unresolved("e".to_string());
    assert_eq!(
        execute_exec_attach(false, "ssh", &args, Some("w"), &unresolved, 7).unwrap_err(),
        "Failed to resolve current executable: e"
    );
    assert_eq!(
        execute_exec_attach(false, "ssh", &args, Some("w"), &ExePath::NotUnicode, 7).unwrap_err(),
        "Current executable path is not valid UTF-8"
    );
}

#[test]
fn wrapping_a_program_in_tmux() {
    let args = vec!["m".to_string()];
    let plan = execute_exec_attach_with_tmux_wrapper("ssh", &args, "mega:s", "/my bin/ocwatch", 7);
    let (commands, report) = run(&plan, &[true, true, true, true, true]);
    assert_eq!(report, None);
    assert_eq!(
        commands[0],
        "tmux new-session -d -s ocwatch-return-7 -n ocwatch '/my bin/ocwatch'"
    );
    assert_eq!(commands[1], "tmux set-option -t ocwatch-return-7 prefix None");
    assert_eq!(commands[2], "tmux set-option -t ocwatch-return-7 prefix2 None");
    assert_eq!(
        commands[3],
        format!(
            "tmux new-window -t ocwatch-return-7 -n mega-s sh -lc {}",
            wrap_remote_command("ssh m")
        )
    );
    assert_eq!(commands[4], "tmux attach-session -t ocwatch-return-7:mega-s");
    let (commands, report) = run(&plan, &[true, true, false, true]);
    assert_eq!(commands[3], "tmux kill-session -t ocwatch-return-7");
    assert_eq!(
        report.as_deref(),
        Some("tmux set-option prefix2 failed for ocwatch-return-7")
    );
    let (commands, report) = run(&plan, &[false, false]);
    assert_eq!(commands[1], "ssh m");
    assert_eq!(report.as_deref(), Some("ssh failed"));
    let stage = plan.next(plan.start(), false);
    assert_eq!(
        plan.note(stage),
        Some("local tmux unavailable; running remote attach directly")
    );
    assert_eq!(plan.next(AttachStage::Done, false), AttachStage::Done);
    assert_eq!(
        wrap_remote_command("x"),
        "x; status=$?; if [ $status -ne 0 ]; then printf '\\nremote drop-in exited with status %s\\n' \"$status\"; sleep 5; fi; exit $status"
    );
}

#[test]
fn attaching_as_the_daemon_says() {
    let exe = ExePath::Known("/bin/ocwatch".to_string());
    let here = AttachSpec::LocalTmux { session: "s".to_string(), window: None, pane: None };
    let plan = execute_attach(&here, true, &exe, 7).unwrap();
    assert_eq!(run(&plan, &[true]).0, ["tmux switch-client -t s"]);
    let there = AttachSpec::Exec {
        program: "ssh".to_string(),
        args: vec!["m".to_string()],
        tmux_window_name: None,
    };
    let plan = execute_attach(&there, false, &exe, 7).unwrap();
    assert_eq!(run(&plan, &[true]).0, ["ssh m"]);
}

#[test]
fn place_of_an_interface() {
    let target = current_tmux_target(Some("/tmp/tmux,1,2"), Some("s\t@1\t%2\n")).unwrap();
    assert_eq!(target.socket_path, "/tmp/tmux");
    assert_eq!(target.session, "s");
    assert_eq!(target.window, "@1");
    assert_eq!(target.pane, "%2");
    assert!(current_tmux_target(None, Some("s\t@1\t%2")).is_none());
    assert!(current_tmux_target(Some("/tmp/tmux"), None).is_none());
    assert!(current_tmux_target(Some("/tmp/tmux"), Some("s\t@1")).is_none());
    assert!(record(7, Some("s")).is_attachable());
    assert!(!record(7, None).is_attachable());
    assert!(record(7, None).is_owned_by(7));
    assert!(!record(7, None).is_owned_by(8));
}

#[test]
fn another_interface() {
    let one = record(7, None);
    assert!(is_same_tui_process(&one, true, Some("/usr/bin/ocwatch --x\n")));
    assert!(is_same_tui_process(&one, true, Some("ocwatch")));
    assert!(is_same_tui_process(&one, true, Some("/opt/ocwatch")));
    assert!(!is_same_tui_process(&one, true, Some("/opt/myocwatch")));
    assert!(!is_same_tui_process(&one, true, None));
    assert!(!is_same_tui_process(&one, false, Some("ocwatch")));
}

#[test]
fn starting_an_interface() {
    let start = |step: LaunchStep| match step {
        LaunchStep::Start { remove_record } => Some(remove_record),
        _ => None,
    };
    assert_eq!(start(prepare_tui_launch(None, 7, false, false)), Some(false));
    let one = record(7, Some("s"));
    assert_eq!(start(prepare_tui_launch(Some(&one), 7, true, false)), Some(true));
    assert_eq!(start(prepare_tui_launch(Some(&one), 8, false, false)), Some(true));
    match prepare_tui_launch(Some(&one), 8, true, true) {
        LaunchStep::Attach { plan, pid } => {
            assert_eq!(pid, 7);
            assert_eq!(run(&plan, &[true]).0, ["tmux -S /tmp/tmux switch-client -t s:@1.%2"]);
        }
        _ => panic!("the other one is gone to"),
    }
    assert!(matches!(
        prepare_tui_launch(Some(&record(7, None)), 8, true, true),
        LaunchStep::Terminate { pid: 7 }
    ));
}

#[test]
fn waiting_for_locks_and_ends() {
    assert_eq!(acquire_startup_lock(LockTry::Locked, 9_999), LockStep::Locked);
    assert_eq!(acquire_startup_lock(LockTry::Failed, 0), LockStep::Failed);
    assert_eq!(acquire_startup_lock(LockTry::Busy, 4_999), LockStep::Again(50));
    assert_eq!(acquire_startup_lock(LockTry::Busy, 5_000), LockStep::TimedOut);
    assert_eq!(terminate_wait(Ending::Asked, true, 1_999), WaitStep::Again(50));
    assert_eq!(terminate_wait(Ending::Asked, false, 1_999), WaitStep::Over);
    assert_eq!(terminate_wait(Ending::Asked, false, 2_000), WaitStep::TooLate);
    assert_eq!(terminate_wait(Ending::Killed, true, 999), WaitStep::Again(25));
    assert_eq!(terminate_wait(Ending::Killed, true, 1_000), WaitStep::TooLate);
    assert_eq!(not_ended_text(7), "Failed to stop existing ocwatch TUI process 7");
}
