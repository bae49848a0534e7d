use ocwatch::config::{
    configured_remote_hosts, find_host, Config, ConfigError, ConfigSource, HostConfig,
};
use ocwatch::path::{file_name_of, join_path};
use ocwatch::shell::{escape_quotes, sanitize_name, shell_escape, shell_join};
use ocwatch::ssh::manager::{
    check_command, control_path, debug_ssh_check, exec_outcome, socket_wait, ssh_check_start,
    CheckRun, CheckStart, ConnectStep, ExecRun, SocketWait, SshError, SshManager,
};
use ocwatch::ssh::ports::Forward;

fn host(name: &str, target: Option<&str>) -> HostConfig {
    HostConfig {
        name: name.to_string(),
        ssh_target: target.map(|t| t.to_string()),
        ssh_identity: None,
        ssh_port: None,
        tmux_session_filter: None,
    }
}

#[test]
fn texts_as_words_of_a_shell() {
    assert_eq!(shell_escape(""), "''");
    assert_eq!(shell_escape("/usr/bin/a-b_c.d:e@f"), "/usr/bin/a-b_c.d:e@f");
    assert_eq!(shell_escape("a b"), "'a b'");
    assert_eq!(shell_escape("it's"), "'it'\\''s'");
    assert_eq!(shell_escape("ä"), "'ä'");
    assert_eq!(escape_quotes("it's"), "it'\\''s");
    let args = vec!["-t".to_string(), "".to_string(), "a b".to_string()];
    assert_eq!(shell_join("ssh", &args), "ssh -t '' 'a b'");
}

#[test]
fn names_without_what_does_not_belong() {
    assert_eq!(sanitize_name("my app!", "remote"), "my-app");
    assert_eq!(sanitize_name("host:main", "remote"), "host-main");
    assert_eq!(sanitize_name("a.b_c-D9", "remote"), "a.b_c-D9");
    assert_eq!(sanitize_name("///", "remote"), "remote");
    assert_eq!(sanitize_name("", "opencode"), "opencode");
}

#[test]
fn paths_are_joined_and_named() {
    assert_eq!(join_path(b"/srv", b"app"), b"/srv/app");
    assert_eq!(join_path(b"/srv/", b"app"), b"/srv/app");
    assert_eq!(join_path(b"", b"app"), b"app");
    assert_eq!(join_path(b"/srv", b"/app"), b"/app");
    assert_eq!(join_path(b"/\xfe", b""), b"/\xfe/");
    assert_eq!(file_name_of("/srv/app/"), Some("app".to_string()));
    assert_eq!(file_name_of("/"), None);
    assert_eq!(file_name_of("/srv/.."), None);
}

#[test]
fn configuration_from_its_source() {
    let default = Config::load(ConfigSource::Missing).unwrap();
    assert_eq!(default.poll_interval_secs, 5);
    assert!(default.hosts.is_empty());
    let unreadable = Config::load(ConfigSource::Unreadable).unwrap_err();
    assert_eq!(unreadable, ConfigError::Unreadable);
    assert_eq!(unreadable.message(), "Failed to read config file");
    let unparsable = Config::load(ConfigSource::Unparsable).unwrap_err();
    assert_eq!(unparsable, ConfigError::Unparsable);
    assert_eq!(unparsable.message(), "Failed to parse config file");
    let never = Config { poll_interval_secs: 0, hosts: vec![] };
    let refused = Config::load(ConfigSource::Parsed(never)).unwrap_err();
    assert_eq!(refused, ConfigError::PollInterval);
    assert_eq!(refused.message(), "poll_interval_secs must be >= 1");
    let often = Config { poll_interval_secs: 1, hosts: vec![host("a", None)] };
    assert_eq!(Config::load(ConfigSource::Parsed(often)).unwrap().hosts.len(), 1);
}

#[test]
fn configuration_path() {
    assert_eq!(Config::config_path_in(Some(b"/c")), b"/c/ocwatch/config.toml");
    assert_eq!(Config::config_path_in(Some(b"/\xff")), b"/\xff/ocwatch/config.toml");
    assert_eq!(Config::config_path_in(None), b"~/.config/ocwatch/config.toml");
    let path = Config::config_path();
    assert!(path.ends_with(b"/ocwatch/config.toml"));
    assert!(path.len() > b"/ocwatch/config.toml".len());
}

#[test]
fn hosts_by_name_and_by_target() {
    let config = Config {
        poll_interval_secs: 5,
        hosts: vec![host("a", None), host("b", Some("b1")), host("b", Some("b2"))],
    };
    assert_eq!(find_host(&config, "b").unwrap().ssh_target.as_deref(), Some("b1"));
    assert!(find_host(&config, "c").is_none());
    assert_eq!(configured_remote_hosts(&config), ["b", "b"]);
}

#[test]
fn socket_of_a_host() {
    assert_eq!(control_path("megaserver"), "/tmp/ocw-megaserver");
    assert_eq!(control_path("abcdefghijklmnopqrstuvwxyz"), "/tmp/ocw-abcdefghijklmnopqrst");
    assert_eq!(control_path("äbcdefghijklmnopqrstu"), "/tmp/ocw-äbcdefghijklmnopqrst");
}

#[test]
fn waiting_for_a_socket() {
    assert_eq!(socket_wait(true, 99_999), SocketWait::Ready);
    assert_eq!(socket_wait(false, 10_000), SocketWait::Again(200));
    assert_eq!(socket_wait(false, 10_001), SocketWait::TooLate);
}

#[test]
fn setting_up_a_connection() {
    let mut manager = SshManager::new();
    let mut mega = host("mega", Some("user@mega"));
    mega.ssh_port = Some(2222);
    mega.ssh_identity = Some("/k".to_string());
    match manager.connect(&mega, false) {
        ConnectStep::Start { command, control_path, not_started, too_late } => {
            assert_eq!(command.program, "ssh");
            assert_eq!(
                command.args.join(" "),
                "-o ControlMaster=auto -o ControlPath=/tmp/ocw-mega -o ControlPersist=yes \
                 -o ServerAliveInterval=30 -o ServerAliveCountMax=3 -o ConnectTimeout=10 \
                 -o StrictHostKeyChecking=accept-new -N -p 2222 -i /k user@mega"
            );
            assert_eq!(control_path, "/tmp/ocw-mega");
            assert_eq!(not_started, "Failed to spawn SSH to user@mega");
            assert_eq!(
                too_late,
                "SSH ControlMaster to user@mega did not connect within 10s"
            );
        }
        _ => panic!("a command is to be started"),
    }
    assert!(manager.connected_hosts().is_empty());
    manager.finish_connect(&mega);
    assert_eq!(manager.connected_hosts(), ["mega"]);
    match manager.connect(&host("bare", None), false) {
        ConnectStep::Refused(text) => assert_eq!(text, "Host bare has no ssh_target"),
        _ => panic!("there is no target"),
    }
    assert!(matches!(manager.connect(&host("old", Some("old")), true), ConnectStep::Connected));
    assert_eq!(manager.connected_hosts().len(), 2);
}

#[test]
fn commands_over_a_connection() {
    let mut manager = SshManager::new();
    let mega = host("mega", Some("user@mega"));
    assert_eq!(
        manager.build_command_args("mega", false, None),
        Err(SshError::NotConnected)
    );
    assert_eq!(SshError::NotConnected.message("mega"), "Not connected to mega");
    assert_eq!(SshError::NoTarget.message("mega"), "No ssh_target for mega");
    assert!(manager.is_connected("mega").is_none());
    manager.finish_connect(&mega);
    let (program, args) = manager.build_command_args("mega", true, Some("ls -l")).unwrap();
    assert_eq!(program, "ssh");
    assert_eq!(
        args,
        ["-o", "ControlPath=/tmp/ocw-mega", "-o", "ControlMaster=no", "-t", "user@mega", "ls -l"]
    );
    let (_, args) = manager.build_command_args("mega", false, None).unwrap();
    assert_eq!(
        args,
        ["-o", "ControlPath=/tmp/ocw-mega", "-o", "ControlMaster=no", "user@mega"]
    );
    let (path, check) = manager.is_connected("mega").unwrap();
    assert_eq!(path, "/tmp/ocw-mega");
    assert_eq!(
        check.unwrap().args,
        ["-o", "ControlPath=/tmp/ocw-mega", "-O", "check", "user@mega"]
    );
    manager.finish_connect(&host("bare", None));
    assert_eq!(
        manager.build_command_args("bare", false, None),
        Err(SshError::NoTarget)
    );
    assert!(check_command(&host("bare", None), "/tmp/x").is_none());
}

#[test]
fn ports_are_forwarded_once() {
    let mut manager = SshManager::new();
    assert_eq!(manager.forward_port("mega", 4096), Err(SshError::NotConnected));
    manager.finish_connect(&host("mega", Some("m")));
    assert_eq!(manager.forward_port("mega", 4096), Ok(None));
    let command = manager.forward_command("mega", 50000, 4096).unwrap();
    assert_eq!(
        command.args,
        [
            "-o",
            "ControlPath=/tmp/ocw-mega",
            "-o",
            "ControlMaster=no",
            "-L",
            "50000:localhost:4096",
            "-N",
            "m"
        ]
    );
    manager.record_forward("mega", 4096, Forward { local: 50000, pid: Some(7) });
    manager.record_forward("mega", 4097, Forward { local: 50001, pid: None });
    assert_eq!(manager.forward_port("mega", 4096), Ok(Some(50000)));
    let mut ports = manager.forwarded_remote_ports("mega");
    ports.sort();
    assert_eq!(ports, [4096, 4097]);
    manager.finish_connect(&host("other", Some("o")));
    manager.record_forward("other", 4096, Forward { local: 50003, pid: None });
    assert_eq!(manager.unforward_port("mega", 1), None);
    assert!(manager.disconnect("other").is_some());
    manager.connect(&host("mega", Some("m")), true);
    assert_eq!(manager.forward_port("mega", 4096), Ok(Some(50000)));
    assert_eq!(manager.unforward_port("mega", 4096), Some(7));
    assert_eq!(manager.unforward_port("mega", 4096), None);
    assert_eq!(manager.forwarded_remote_ports("mega"), [4097]);
    manager.record_forward("mega", 4098, Forward { local: 50002, pid: Some(8) });
    let ended = manager.disconnect("mega").unwrap();
    assert_eq!(ended.pids, [8]);
    assert_eq!(ended.control_path, "/tmp/ocw-mega");
    assert_eq!(
        ended.exit_command.unwrap().args,
        ["-o", "ControlPath=/tmp/ocw-mega", "-O", "exit", "m"]
    );
    assert!(manager.disconnect("mega").is_none());
}

#[test]
fn results_of_remote_commands() {
    let fine = ExecRun::Exited {
        success: true,
        stdout: "ok\n".to_string(),
        stderr: "warning".to_string(),
    };
    assert_eq!(exec_outcome("mega", fine), Ok("ok\n".to_string()));
    let bad = ExecRun::Exited {
        success: false,
        stdout: "x".to_string(),
        stderr: "no".to_string(),
    };
    assert_eq!(exec_outcome("mega", bad), Err("SSH command failed on mega: no".to_string()));
    assert_eq!(
        exec_outcome("mega", ExecRun::TimedOut),
        Err("SSH exec timed out".to_string())
    );
    assert_eq!(
        exec_outcome("mega", ExecRun::NotRun),
        Err("SSH exec failed on mega".to_string())
    );
}

#[test]
fn reports_on_connections() {
    let config = Config {
        poll_interval_secs: 5,
        hosts: vec![host("here", None), host("mega", Some("m"))],
    };
    match ssh_check_start("gone", &config) {
        CheckStart::Unknown(text) => assert_eq!(text, "Host 'gone' not found in config"),
        _ => panic!("there is no such host"),
    }
    match ssh_check_start("here", &config) {
        CheckStart::Local(text) => assert_eq!(
            text,
            "{\"connected\": true, \"reason\": \"local host (no SSH needed)\"}"
        ),
        _ => panic!("the host is this one"),
    }
    match ssh_check_start("mega", &config) {
        CheckStart::Connect(text) => assert_eq!(text, "Connecting to mega (m)..."),
        _ => panic!("the host is another one"),
    }
    assert_eq!(
        debug_ssh_check("mega", CheckRun::Connected(" ok\n".to_string())),
        "{\"connected\": true, \"exec_test\": \"ok\", \"control_path\": \"/tmp/ocw-mega\"}"
    );
    assert_eq!(
        debug_ssh_check("mega", CheckRun::ExecFailed("e".to_string())),
        "{\"connected\": false, \"error\": \"exec failed: e\"}"
    );
    assert_eq!(
        debug_ssh_check("mega", CheckRun::NotConnected("e".to_string())),
        "{\"connected\": false, \"error\": \"e\"}"
    );
}
