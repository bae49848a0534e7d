use ocwatch::cli::{parse_cli, CliCommand};

fn parse(args: &[&str]) -> CliCommand {
    let args: Vec<String> = args.iter().map(|arg| arg.to_string()).collect();
    parse_cli(&args)
}

#[test]
fn every_command_is_understood() {
    assert!(matches!(parse(&[]), CliCommand::Tui));
    assert!(matches!(parse(&["daemon", "start"]), CliCommand::DaemonStart));
    assert!(matches!(parse(&["daemon", "stop"]), CliCommand::DaemonStop));
    assert!(matches!(parse(&["daemon", "status"]), CliCommand::DaemonStatus));
    assert!(matches!(parse(&["daemon", "run"]), CliCommand::DaemonRun));
    assert!(matches!(parse(&["debug", "scan-local"]), CliCommand::ScanLocal));
    assert!(matches!(parse(&["debug", "ipc-roundtrip"]), CliCommand::IpcRoundtrip));
    match parse(&["approve", "ses_1"]) {
        CliCommand::Approve { session_id } => assert_eq!(session_id, "ses_1"),
        other => panic!("{:?}", other),
    }
    match parse(&["debug", "scan-remote", "mega"]) {
        CliCommand::ScanRemote { host } => assert_eq!(host, "mega"),
        other => panic!("{:?}", other),
    }
    match parse(&["debug", "ssh-check", "mega"]) {
        CliCommand::SshCheck { host } => assert_eq!(host, "mega"),
        other => panic!("{:?}", other),
    }
    match parse(&["debug", "oc-client", "http://localhost:4096"]) {
        CliCommand::OcClient { url } => assert_eq!(url, "http://localhost:4096"),
        other => panic!("{:?}", other),
    }
    match parse(&["debug", "inject-event", "ses_1", "idle"]) {
        CliCommand::InjectEvent { session_id, state } => {
            assert_eq!(session_id, "ses_1");
            assert_eq!(state, "idle");
        }
        other => panic!("{:?}", other),
    }
}

#[test]
fn other_commands_are_unknown() {
    for args in [
        &["daemon"][..],
        &["daemon", "restart"],
        &["daemon", "start", "now"],
        &["approve"],
        &["approve", "a", "b"],
        &["debug"],
        &["debug", "scan-remote"],
        &["debug", "inject-event", "a"],
        &["help"],
        &["x", "y"],
    ] {
        assert!(matches!(parse(args), CliCommand::Unknown));
    }
}
