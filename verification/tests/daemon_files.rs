use ocwatch::config::Config;
use ocwatch::daemon::lifecycle::{
    daemon_status, data_dir, data_dir_in, data_file_in, launch_wait, log_path, pid_path, read_pid,
    recent_dirs_path, record_path, run_config, socket_path, start_daemon, started_text,
    startup_lock_path, stop_daemon, stop_wait, KnownDaemon, StartStep, StopStep, WaitStep,
};
use ocwatch::daemon::recent_dirs::RecentDirStore;
use ocwatch::ipc::RecentDirEntry;

fn entry(host: &str, directory: &str, seen: u64) -> RecentDirEntry {
    RecentDirEntry {
        host: host.to_string(),
        directory: directory.to_string(),
        last_seen_unix_ms: seen,
    }
}

fn seen(store: &RecentDirStore) -> Vec<(String, String, u64)> {
    store
        .entries(1000)
        .iter()
        .map(|e| (e.host.clone(), e.directory.clone(), e.last_seen_unix_ms))
        .collect()
}

fn bytes_of(path: &std::path::Path) -> &[u8] {
    path.as_os_str().as_encoded_bytes()
}

#[test]
fn files_of_the_daemon() {
    assert_eq!(data_dir_in(Some(b"/d")), b"/d/ocwatch");
    assert_eq!(data_dir_in(Some(b"/\xff")), b"/\xff/ocwatch");
    assert_eq!(data_dir_in(None), b"/tmp/ocwatch");
    assert_eq!(data_file_in(Some(b"/d"), "daemon.log"), b"/d/ocwatch/daemon.log");
    let dir = data_dir();
    assert!(dir.ends_with(b"/ocwatch"));
    assert_eq!(dir, data_dir_in(dirs::data_local_dir().as_deref().map(bytes_of)));
    let file = |name: &str| [dir.as_slice(), b"/", name.as_bytes()].concat();
    assert_eq!(socket_path(), file("ocwatch.sock"));
    assert_eq!(pid_path(), file("ocwatch.pid"));
    assert_eq!(log_path(), file("daemon.log"));
    assert_eq!(recent_dirs_path(), file("recent_dirs.json"));
    assert_eq!(record_path(), file("tui.json"));
    assert_eq!(startup_lock_path(), file("tui.lock"));
}

#[test]
fn process_number_in_a_file() {
    assert_eq!(read_pid(" 42\n"), Some(42));
    assert_eq!(read_pid("x"), None);
    assert_eq!(read_pid("4294967296"), None);
}

#[test]
fn starting_the_daemon() {
    match start_daemon(KnownDaemon::Process { pid: 7, alive: true }) {
        StartStep::Refuse(text) => assert_eq!(text, "Daemon already running (PID: 7)"),
        _ => panic!("it is running"),
    }
    match start_daemon(KnownDaemon::Process { pid: 7, alive: false }) {
        StartStep::Launch { remove_stale } => assert!(remove_stale),
        _ => panic!("it is not running"),
    }
    match start_daemon(KnownDaemon::Unknown) {
        StartStep::Launch { remove_stale } => assert!(!remove_stale),
        _ => panic!("it is not running"),
    }
    assert_eq!(launch_wait(true, true, 9999), WaitStep::Over);
    assert_eq!(launch_wait(true, false, 5000), WaitStep::Again(100));
    assert_eq!(launch_wait(false, true, 5001), WaitStep::TooLate);
    assert_eq!(started_text(7), "Daemon started (PID: 7)");
}

#[test]
fn stopping_the_daemon() {
    match stop_daemon(KnownDaemon::Unknown) {
        StopStep::Refuse(text) => assert_eq!(text, "No daemon running (no PID file found)"),
        _ => panic!("there is none"),
    }
    match stop_daemon(KnownDaemon::Process { pid: 7, alive: false }) {
        StopStep::RemoveStale(text) => assert_eq!(
            text,
            "Daemon PID 7 is not running. Cleaning up stale files."
        ),
        _ => panic!("it is gone"),
    }
    assert!(matches!(
        stop_daemon(KnownDaemon::Process { pid: 7, alive: true }),
        StopStep::Terminate(7)
    ));
    assert_eq!(stop_wait(false, 0), WaitStep::Over);
    assert_eq!(stop_wait(true, 5000), WaitStep::Again(100));
    assert_eq!(stop_wait(true, 5001), WaitStep::TooLate);
}

#[test]
fn status_without_a_daemon() {
    assert_eq!(
        daemon_status("socket not found"),
        "{\"running\": false, \"reason\": \"socket not found\"}"
    );
}

#[test]
fn configuration_of_the_daemon() {
    assert_eq!(run_config(None).poll_interval_secs, 5);
    let often = Config { poll_interval_secs: 2, hosts: vec![] };
    assert_eq!(run_config(Some(often)).poll_interval_secs, 2);
}

#[test]
fn latest_directories_stand_first() {
    let mut store = RecentDirStore::load(vec![entry("b", "/1", 5), entry("a", "/2", 5)]);
    store.upsert(entry("c", "/3", 9));
    store.upsert_many(vec![entry("a", "/1", 5), entry("b", "/1", 7)]);
    let row = |h: &str, d: &str, t: u64| (h.to_string(), d.to_string(), t);
    assert_eq!(
        seen(&store),
        [row("c", "/3", 9), row("b", "/1", 7), row("a", "/1", 5), row("a", "/2", 5)]
    );
    assert_eq!(store.entries(2).len(), 2);
    assert!(store.has_host_entries("a"));
    assert!(!store.has_host_entries("d"));
}

#[test]
fn a_hundred_directories_are_kept() {
    let many = (0..150).map(|n| entry("a", &format!("/{}", n), n)).collect();
    let mut store = RecentDirStore::load(many);
    assert_eq!(seen(&store).len(), 100);
    assert_eq!(seen(&store)[99].2, 50);
    store.upsert(entry("a", "/old", 1));
    assert_eq!(seen(&store).len(), 100);
    assert_eq!(seen(&store)[99].2, 50);
}
