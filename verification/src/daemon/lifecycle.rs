//! Starting and stopping the daemon, and where its files are.

use vstd::prelude::*;
use vstd::string::*;
use vstd::utf8::*;

use crate::config::Config;
use crate::path::{join_path, joined, law_joined_with_one_slash};
use crate::text::{
    chars_of, concat3, decimal, is_digit, is_white, law_decimal_denotes, law_parse_undoes_decimal,
    law_trim, number_of, number_text, parse_number, trim, trim_white,
};

verus! {

// ---------------------------------------------------------------------------
// Files
// ---------------------------------------------------------------------------

/// The directory for the data of programs, by `dirs::data_local_dir`, as the
/// bytes of its path. It depends on the environment, so nothing is said of it.
#[verifier::external_body]
fn user_data_dir() -> (r: Option<Vec<u8>>) {
    dirs::data_local_dir().map(|dir| dir.into_os_string().into_encoded_bytes())
}

/// The directory for the daemon's files, as bytes.
pub open spec fn data_dir_of(dir: Option<Seq<u8>>) -> Seq<u8> {
    joined(
        match dir {
            Some(d) => d,
            None => encode_utf8("/tmp"@),
        },
        encode_utf8("ocwatch"@),
    )
}

/// A file of the daemon.
pub open spec fn data_file(dir: Option<Seq<u8>>, name: Seq<char>) -> Seq<u8> {
    joined(data_dir_of(dir), encode_utf8(name))
}

/// The directory for the daemon's files in a directory for data.
pub fn data_dir_in(dir: Option<&[u8]>) -> (r: Vec<u8>)
    ensures
        r@ == data_dir_of(
            match dir {
                Some(d) => Some(d@),
                None => None,
            },
        ),
{
    let base = match dir {
        Some(d) => d,
        None => "/tmp".as_bytes(),
    };
    join_path(base, "ocwatch".as_bytes())
}

/// The directory for the daemon's files.
pub fn data_dir() -> (r: Vec<u8>)
    ensures
        exists|dir: Option<Seq<u8>>| r@ == #[trigger] data_dir_of(dir),
{
    match user_data_dir() {
        Some(dir) => data_dir_in(Some(dir.as_slice())),
        None => data_dir_in(None),
    }
}

/// A file of the daemon in a directory for data.
pub fn data_file_in(dir: Option<&[u8]>, name: &str) -> (r: Vec<u8>)
    ensures
        r@ == data_file(
            match dir {
                Some(d) => Some(d@),
                None => None,
            },
            name@,
        ),
{
    join_path(&data_dir_in(dir), name.as_bytes())
}

/// A file of the daemon.
fn own_file(name: &str) -> (r: Vec<u8>)
    ensures
        exists|dir: Option<Seq<u8>>| r@ == #[trigger] data_file(dir, name@),
{
    match user_data_dir() {
        Some(dir) => data_file_in(Some(dir.as_slice()), name),
        None => data_file_in(None, name),
    }
}

/// The daemon's socket.
pub fn socket_path() -> (r: Vec<u8>)
    ensures
        exists|dir: Option<Seq<u8>>| r@ == #[trigger] data_file(dir, "ocwatch.sock"@),
{
    own_file("ocwatch.sock")
}

/// The file with the number of the daemon's process.
pub fn pid_path() -> (r: Vec<u8>)
    ensures
        exists|dir: Option<Seq<u8>>| r@ == #[trigger] data_file(dir, "ocwatch.pid"@),
{
    own_file("ocwatch.pid")
}

/// The daemon's log.
pub fn log_path() -> (r: Vec<u8>)
    ensures
        exists|dir: Option<Seq<u8>>| r@ == #[trigger] data_file(dir, "daemon.log"@),
{
    own_file("daemon.log")
}

/// The file with the recent directories.
pub fn recent_dirs_path() -> (r: Vec<u8>)
    ensures
        exists|dir: Option<Seq<u8>>| r@ == #[trigger] data_file(dir, "recent_dirs.json"@),
{
    own_file("recent_dirs.json")
}

/// The file that tells of a running interface.
pub fn record_path() -> (r: Vec<u8>)
    ensures
        exists|dir: Option<Seq<u8>>| r@ == #[trigger] data_file(dir, "tui.json"@),
{
    own_file("tui.json")
}

/// The file that is locked while an interface starts.
pub fn startup_lock_path() -> (r: Vec<u8>)
    ensures
        exists|dir: Option<Seq<u8>>| r@ == #[trigger] data_file(dir, "tui.lock"@),
{
    own_file("tui.lock")
}

// ---------------------------------------------------------------------------
// Starting
// ---------------------------------------------------------------------------

/// The number of a process that a file holds, white space around it or not.
pub open spec fn pid_in(text: Seq<char>) -> Option<u32> {
    match parse_number(trim(text), u32::MAX as nat) {
        Some(n) => Some(n as u32),
        None => None,
    }
}

/// The number of a process that a file holds.
pub fn read_pid(text: &str) -> (r: Option<u32>)
    ensures
        r == pid_in(text@),
{
    let chars = chars_of(text);
    let trimmed = trim_white(&chars);
    match number_of(&trimmed, 4294967295) {
        Some(n) => {
            assert(n <= 4294967295);
            Some(n as u32)
        },
        None => None,
    }
}

/// What is known of a daemon from before: nothing, or the number of its process
/// and whether it is alive.
#[derive(Clone, Copy, Debug, PartialEq, Eq, Structural)]
pub enum KnownDaemon {
    Unknown,
    Process { pid: u32, alive: bool },
}

/// How the start of the daemon begins.
pub enum StartStep {
    /// It runs already, in words.
    Refuse(String),
    /// A process is started; what a dead one left behind is removed first.
    Launch { remove_stale: bool },
}

/// How the start of the daemon begins.
pub fn start_daemon(known: KnownDaemon) -> (r: StartStep)
    ensures
        match known {
            KnownDaemon::Unknown => r == (StartStep::Launch { remove_stale: false }),
            KnownDaemon::Process { pid, alive } => if alive {
                r matches StartStep::Refuse(t) && t@ == "Daemon already running (PID: "@ + decimal(
                    pid as nat,
                ) + ")"@
            } else {
                r == (StartStep::Launch { remove_stale: true })
            },
        },
{
    match known {
        KnownDaemon::Unknown => StartStep::Launch { remove_stale: false },
        KnownDaemon::Process { pid, alive } => {
            if alive {
                StartStep::Refuse(
                    concat3(
                        "Daemon already running (PID: ",
                        number_text(pid as u64).as_str(),
                        ")",
                    ),
                )
            } else {
                StartStep::Launch { remove_stale: true }
            }
        },
    }
}

/// How waiting for a process goes on.
#[derive(Clone, Copy, Debug, PartialEq, Eq, Structural)]
pub enum WaitStep {
    /// What was waited for has come.
    Over,
    /// It has not come in time.
    TooLate,
    /// To be asked again after that many milliseconds.
    Again(u64),
}

/// How waiting for the daemon's files goes on.
pub open spec fn launch_step(socket_exists: bool, pid_file_exists: bool, waited_ms: u64) -> WaitStep {
    if socket_exists && pid_file_exists {
        WaitStep::Over
    } else if waited_ms > 5000 {
        WaitStep::TooLate
    } else {
        WaitStep::Again(100)
    }
}

/// How waiting for the end of the daemon goes on.
pub open spec fn stop_step(alive: bool, waited_ms: u64) -> WaitStep {
    if !alive {
        WaitStep::Over
    } else if waited_ms > 5000 {
        WaitStep::TooLate
    } else {
        WaitStep::Again(100)
    }
}

/// How waiting for the daemon's files goes on, by whether both are there and by
/// how many milliseconds have passed: they are waited for five seconds.
pub fn launch_wait(socket_exists: bool, pid_file_exists: bool, waited_ms: u64) -> (r: WaitStep)
    ensures
        r == launch_step(socket_exists, pid_file_exists, waited_ms),
{
    if socket_exists && pid_file_exists {
        WaitStep::Over
    } else if waited_ms > 5000 {
        WaitStep::TooLate
    } else {
        WaitStep::Again(100)
    }
}

/// What is told once the daemon has started.
pub fn started_text(pid: u32) -> (r: String)
    ensures
        r@ == "Daemon started (PID: "@ + decimal(pid as nat) + ")"@,
{
    concat3("Daemon started (PID: ", number_text(pid as u64).as_str(), ")")
}

// ---------------------------------------------------------------------------
// Stopping
// ---------------------------------------------------------------------------

/// How the stop of the daemon begins.
pub enum StopStep {
    /// There is none, in words.
    Refuse(String),
    /// It is dead already, in words; what it left behind is removed.
    RemoveStale(String),
    /// Its process is asked to end.
    Terminate(u32),
}

/// How the stop of the daemon begins.
pub fn stop_daemon(known: KnownDaemon) -> (r: StopStep)
    ensures
        match known {
            KnownDaemon::Unknown => r matches StopStep::Refuse(t) && t@
                == "No daemon running (no PID file found)"@,
            KnownDaemon::Process { pid, alive } => if alive {
                r == StopStep::Terminate(pid)
            } else {
                r matches StopStep::RemoveStale(t) && t@ == "Daemon PID "@ + decimal(pid as nat)
                    + " is not running. Cleaning up stale files."@
            },
        },
{
    match known {
        KnownDaemon::Unknown => StopStep::Refuse(
            "No daemon running (no PID file found)".to_string(),
        ),
        KnownDaemon::Process { pid, alive } => {
            if alive {
                StopStep::Terminate(pid)
            } else {
                StopStep::RemoveStale(
                    concat3(
                        "Daemon PID ",
                        number_text(pid as u64).as_str(),
                        " is not running. Cleaning up stale files.",
                    ),
                )
            }
        },
    }
}

/// How waiting for the end of the daemon goes on: after five seconds it is too
/// late, and its process is killed.
pub fn stop_wait(alive: bool, waited_ms: u64) -> (r: WaitStep)
    ensures
        r == stop_step(alive, waited_ms),
{
    if !alive {
        WaitStep::Over
    } else if waited_ms > 5000 {
        WaitStep::TooLate
    } else {
        WaitStep::Again(100)
    }
}

// ---------------------------------------------------------------------------
// Running
// ---------------------------------------------------------------------------

/// The report on a daemon that does not run.
pub fn daemon_status(reason: &str) -> (r: String)
    ensures
        r@ == "{\"running\": false, \"reason\": \""@ + reason@ + "\"}"@,
{
    concat3("{\"running\": false, \"reason\": \"", reason, "\"}")
}

/// The configuration that the daemon runs with: the default one where there is
/// none that can be used.
pub fn run_config(loaded: Option<Config>) -> (r: Config)
    ensures
        match loaded {
            Some(config) => r == config,
            None => r.poll_interval_secs == 5 && r.hosts@.len() == 0,
        },
{
    match loaded {
        Some(config) => config,
        None => Config::default(),
    }
}

/// The number of a process reads back from its file, whatever white space stands
/// around it; a file that holds something else names no process.
pub proof fn law_process_number_reads_back(a: Seq<char>, pid: u32, b: Seq<char>, text: Seq<char>)
    requires
        forall|i: int| 0 <= i < a.len() ==> is_white(#[trigger] a[i]),
        forall|i: int| 0 <= i < b.len() ==> is_white(#[trigger] b[i]),
    ensures
        pid_in(a + decimal(pid as nat) + b) == Some(pid),
        trim(text).len() == 0 ==> pid_in(text) is None,
        parse_number(trim(text), u32::MAX as nat) is None ==> pid_in(text) is None,
{
    let n = decimal(pid as nat);
    law_decimal_denotes(pid as nat);
    assert(is_digit(n[0]) && is_digit(n[n.len() - 1]));
    law_trim(a, n, b, ' ');
    law_parse_undoes_decimal(pid as nat, u32::MAX as nat);
}

/// The start of the daemon is over if and only if both its files are there; else
/// they are asked for again every tenth of a second for five seconds, and then it
/// is too late.
pub proof fn law_start_takes_five_seconds(socket: bool, pid_file: bool, waited_ms: u64)
    ensures
        launch_step(socket, pid_file, waited_ms) == WaitStep::Over <==> socket && pid_file,
        launch_step(socket, pid_file, waited_ms) == WaitStep::TooLate <==> !(socket && pid_file)
            && waited_ms >= 5001,
        launch_step(socket, pid_file, waited_ms) matches WaitStep::Again(ms) ==> ms == 100
            && waited_ms <= 5000,
{
}

/// The stop of the daemon is over if and only if its process is gone; else it is
/// asked for again every tenth of a second for five seconds, and then it is too
/// late.
pub proof fn law_stop_takes_five_seconds(alive: bool, waited_ms: u64)
    ensures
        stop_step(alive, waited_ms) == WaitStep::Over <==> !alive,
        stop_step(alive, waited_ms) == WaitStep::TooLate <==> alive && waited_ms >= 5001,
        stop_step(alive, waited_ms) matches WaitStep::Again(ms) ==> ms == 100 && waited_ms <= 5000,
{
}

/// A file of the daemon stands in the daemon's own directory below the user's
/// directory for data.
pub proof fn law_files_stand_in_the_own_directory(dir: Seq<u8>, name: Seq<char>)
    requires
        dir.len() > 0 && dir.last() != 47,
        encode_utf8(name).len() > 0 && encode_utf8(name)[0] != 47,
    ensures
        data_file(Some(dir), name) == dir + seq![47u8] + encode_utf8("ocwatch"@) + seq![47u8]
            + encode_utf8(name),
{
    reveal_strlit("ocwatch");
    let own = encode_utf8("ocwatch"@);
    is_ascii_chars_encode_utf8("ocwatch"@);
    assert(own[0] == 'o' as u8 && own[6] == 'h' as u8);
    law_joined_with_one_slash(dir, own);
    let place = dir + seq![47u8] + own;
    assert(place.last() == own[6]);
    law_joined_with_one_slash(place, encode_utf8(name));
}

} // verus!
