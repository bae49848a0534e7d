//! One interface at a time: a second one goes to the first, or takes its place.

use vstd::prelude::*;
use vstd::string::*;

use crate::daemon::lifecycle::WaitStep;
use crate::path::{file_name, file_name_of};
use crate::text::{
    chars_of, concat2, decimal, ends_with, is_white, law_first_piece, law_trim,
    law_unsplit_text_is_one_piece, number_text, opt_text, split, split_chars, str_eq, string_of,
    text_ends_with, the_char, trim, trim_white, words, words_of,
};
use crate::tui::interaction::{execute_tmux_attach, slice_text, tmux_plan, AttachPlan, StepView};

verus! {

/// What is written down of a running interface.
#[derive(Debug)]
pub struct TuiInstanceRecord {
    pub pid: u32,
    /// Unix time in milliseconds.
    pub started_at_unix_ms: u64,
    pub exe_path: String,
    pub tmux_socket: Option<String>,
    pub tmux_session: Option<String>,
    pub tmux_window: Option<String>,
    pub tmux_pane: Option<String>,
}

/// Where an interface is in tmux.
#[derive(Debug)]
pub struct TmuxTarget {
    pub socket_path: String,
    pub session: String,
    pub window: String,
    pub pane: String,
}

/// Where an interface is in tmux, as values.
#[verifier::ext_equal]
pub struct TargetView {
    pub socket: Seq<char>,
    pub session: Seq<char>,
    pub window: Seq<char>,
    pub pane: Seq<char>,
}

impl View for TmuxTarget {
    type V = TargetView;

    open spec fn view(&self) -> TargetView {
        TargetView {
            socket: self.socket_path@,
            session: self.session@,
            window: self.window@,
            pane: self.pane@,
        }
    }
}

/// Where an interface is in tmux: the socket stands first in tmux's variable,
/// and session, window and pane are the first three fields of what tmux tells.
pub open spec fn target_in(variable: Seq<char>, told: Seq<char>) -> Option<TargetView> {
    let fields = split(trim(told), '\t');
    if fields.len() < 3 {
        None
    } else {
        Some(
            TargetView {
                socket: split(variable, ',')[0],
                session: fields[0],
                window: fields[1],
                pane: fields[2],
            },
        )
    }
}

/// Where this interface is in tmux, by tmux's variable and by what tmux tells;
/// nowhere where one of them is missing.
pub fn current_tmux_target(variable: Option<&str>, told: Option<&str>) -> (r: Option<TmuxTarget>)
    ensures
        match (variable, told) {
            (Some(v), Some(t)) => match target_in(v@, t@) {
                Some(target) => r matches Some(x) && x@ == target,
                None => r is None,
            },
            _ => r is None,
        },
{
    match (variable, told) {
        (Some(variable), Some(told)) => {
            let var_chars = chars_of(variable);
            let sockets = split_chars(&var_chars, ',');
            assert(split(variable@, ',')[0] == sockets@[0]@);
            let told_chars = chars_of(told);
            let trimmed = trim_white(&told_chars);
            let fields = split_chars(&trimmed, '\t');
            let ghost fs = split(trim(told@), '\t');
            if fields.len() < 3 {
                return None;
            }
            assert(fs[0] == fields@[0]@);
            assert(fs[1] == fields@[1]@);
            assert(fs[2] == fields@[2]@);
            Some(
                TmuxTarget {
                    socket_path: string_of(&sockets[0]),
                    session: string_of(&fields[0]),
                    window: string_of(&fields[1]),
                    pane: string_of(&fields[2]),
                },
            )
        },
        _ => None,
    }
}

impl TuiInstanceRecord {
    /// What is written down of this interface.
    pub fn current(
        pid: u32,
        started_at_unix_ms: u64,
        exe_path: String,
        target: Option<TmuxTarget>,
    ) -> (r: TuiInstanceRecord)
        ensures
            r.pid == pid,
            r.started_at_unix_ms == started_at_unix_ms,
            r.exe_path == exe_path,
            match target {
                Some(t) => {
                    &&& opt_text(r.tmux_socket) == Some(t.socket_path@)
                    &&& opt_text(r.tmux_session) == Some(t.session@)
                    &&& opt_text(r.tmux_window) == Some(t.window@)
                    &&& opt_text(r.tmux_pane) == Some(t.pane@)
                },
                None => {
                    &&& r.tmux_socket is None
                    &&& r.tmux_session is None
                    &&& r.tmux_window is None
                    &&& r.tmux_pane is None
                },
            },
    {
        match target {
            Some(t) => TuiInstanceRecord {
                pid,
                started_at_unix_ms,
                exe_path,
                tmux_socket: Some(t.socket_path),
                tmux_session: Some(t.session),
                tmux_window: Some(t.window),
                tmux_pane: Some(t.pane),
            },
            None => TuiInstanceRecord {
                pid,
                started_at_unix_ms,
                exe_path,
                tmux_socket: None,
                tmux_session: None,
                tmux_window: None,
                tmux_pane: None,
            },
        }
    }

    /// Whether the interface can be gone to.
    pub fn is_attachable(&self) -> (r: bool)
        ensures
            r == (self.tmux_session is Some),
    {
        self.tmux_session.is_some()
    }

    /// Whether an interface may remove the record.
    pub fn is_owned_by(&self, pid: u32) -> (r: bool)
        ensures
            r == (self.pid == pid),
    {
        self.pid == pid
    }
}

// ---------------------------------------------------------------------------
// The same process
// ---------------------------------------------------------------------------

/// The first word of a text, empty where there is none.
pub open spec fn first_word(s: Seq<char>) -> Seq<char> {
    if words(s).len() > 0 {
        words(s)[0]
    } else {
        Seq::empty()
    }
}

/// Whether a command line is that of a program: by its path, or by its name with
/// any directory before it.
pub open spec fn runs_program(command: Seq<char>, exe_path: Seq<char>) -> bool {
    let executable = first_word(trim(command));
    let name = match file_name(exe_path) {
        Some(n) => n,
        None => Seq::empty(),
    };
    executable == exe_path || executable == name || ends_with(executable, "/"@ + name)
}

/// Whether the process of a record still is the interface: it is alive, and ps
/// gives its command line, which is that of the program.
pub fn is_same_tui_process(record: &TuiInstanceRecord, alive: bool, command: Option<&str>) -> (r:
    bool)
    ensures
        r == (alive && (match command {
            Some(c) => runs_program(c@, record.exe_path@),
            None => false,
        })),
{
    if !alive {
        return false;
    }
    match command {
        None => false,
        Some(command) => {
            let chars = chars_of(command);
            let trimmed = trim_white(&chars);
            let ws = words_of(&trimmed);
            let ghost want = words(trim(command@));
            let executable = if ws.len() > 0 {
                assert(want[0] == ws@[0]@);
                string_of(&ws[0])
            } else {
                let empty = String::new();
                assert(empty@ =~= Seq::<char>::empty());
                empty
            };
            let name = match file_name_of(record.exe_path.as_str()) {
                Some(name) => name,
                None => {
                    let empty = String::new();
                    assert(empty@ =~= Seq::<char>::empty());
                    empty
                },
            };
            let tail = concat2("/", name.as_str());
            str_eq(executable.as_str(), record.exe_path.as_str()) || str_eq(
                executable.as_str(),
                name.as_str(),
            ) || text_ends_with(executable.as_str(), tail.as_str())
        },
    }
}

// ---------------------------------------------------------------------------
// Starting an interface
// ---------------------------------------------------------------------------

/// How the start of an interface goes on.
pub enum LaunchStep {
    /// It starts; a record that is there is removed first.
    Start { remove_record: bool },
    /// The one that runs is gone to; where that fails, it is ended.
    Attach { plan: AttachPlan, pid: u32 },
    /// The one that runs is ended.
    Terminate { pid: u32 },
}

/// How the start of an interface goes on, as values.
#[verifier::ext_equal]
pub enum LaunchView {
    Start { remove_record: bool },
    Attach { plan: Seq<StepView>, pid: u32 },
    Terminate { pid: u32 },
}

impl View for LaunchStep {
    type V = LaunchView;

    open spec fn view(&self) -> LaunchView {
        match *self {
            LaunchStep::Start { remove_record } => LaunchView::Start { remove_record },
            LaunchStep::Attach { plan, pid } => LaunchView::Attach { plan: plan@, pid },
            LaunchStep::Terminate { pid } => LaunchView::Terminate { pid },
        }
    }
}

/// How the start of an interface goes on: by the record of another one, by
/// whether its process still is that interface, and by whether this one is inside
/// tmux.
pub open spec fn launch_of(
    record: Option<TuiInstanceRecord>,
    own_pid: u32,
    same: bool,
    in_tmux: bool,
) -> LaunchView {
    match record {
        None => LaunchView::Start { remove_record: false },
        Some(rec) => if rec.pid == own_pid || !same {
            LaunchView::Start { remove_record: true }
        } else {
            match rec.tmux_session {
                Some(session) => LaunchView::Attach {
                    plan: tmux_plan(
                        in_tmux,
                        opt_text(rec.tmux_socket),
                        session@,
                        opt_text(rec.tmux_window),
                        opt_text(rec.tmux_pane),
                    ),
                    pid: rec.pid,
                },
                None => LaunchView::Terminate { pid: rec.pid },
            }
        },
    }
}

/// A slice of a text, if there is one.
fn slice_of(s: &Option<String>) -> (r: Option<&str>)
    ensures
        slice_text(r) == opt_text(*s),
{
    match s {
        Some(t) => Some(t.as_str()),
        None => None,
    }
}

/// How the start of an interface goes on.
pub fn prepare_tui_launch(
    record: Option<&TuiInstanceRecord>,
    own_pid: u32,
    same: bool,
    in_tmux: bool,
) -> (r: LaunchStep)
    ensures
        r@ == launch_of(
            match record {
                Some(rec) => Some(*rec),
                None => None,
            },
            own_pid,
            same,
            in_tmux,
        ),
{
    match record {
        None => LaunchStep::Start { remove_record: false },
        Some(rec) => {
            if rec.pid == own_pid || !same {
                return LaunchStep::Start { remove_record: true };
            }
            match &rec.tmux_session {
                Some(session) => LaunchStep::Attach {
                    plan: execute_tmux_attach(
                        in_tmux,
                        slice_of(&rec.tmux_socket),
                        session.as_str(),
                        slice_of(&rec.tmux_window),
                        slice_of(&rec.tmux_pane),
                    ),
                    pid: rec.pid,
                },
                None => LaunchStep::Terminate { pid: rec.pid },
            }
        },
    }
}

/// An interface never ends itself.
pub proof fn law_launch_spares_itself(
    record: Option<TuiInstanceRecord>,
    own_pid: u32,
    same: bool,
    in_tmux: bool,
)
    ensures
        launch_of(record, own_pid, same, in_tmux) matches LaunchView::Terminate { pid } ==> pid
            != own_pid && same,
        launch_of(record, own_pid, same, in_tmux) matches LaunchView::Attach { pid, .. } ==> pid
            != own_pid && same,
{
}

/// How an attempt at the lock ended.
#[derive(Clone, Copy, Debug, PartialEq, Eq, Structural)]
pub enum LockTry {
    Locked,
    /// Another one holds it.
    Busy,
    Failed,
}

/// How getting the lock goes on.
#[derive(Clone, Copy, Debug, PartialEq, Eq, Structural)]
pub enum LockStep {
    Locked,
    TimedOut,
    Failed,
    /// To be tried again after that many milliseconds.
    Again(u64),
}

/// How getting the lock goes on.
pub open spec fn lock_step(attempt: LockTry, waited_ms: u64) -> LockStep {
    match attempt {
        LockTry::Locked => LockStep::Locked,
        LockTry::Failed => LockStep::Failed,
        LockTry::Busy => if waited_ms >= 5000 {
            LockStep::TimedOut
        } else {
            LockStep::Again(50)
        },
    }
}

/// How getting the lock goes on: it is tried for five seconds.
pub fn acquire_startup_lock(attempt: LockTry, waited_ms: u64) -> (r: LockStep)
    ensures
        r == lock_step(attempt, waited_ms),
{
    match attempt {
        LockTry::Locked => LockStep::Locked,
        LockTry::Failed => LockStep::Failed,
        LockTry::Busy => if waited_ms >= 5000 {
            LockStep::TimedOut
        } else {
            LockStep::Again(50)
        },
    }
}

/// How far the end of another interface is.
#[derive(Clone, Copy, Debug, PartialEq, Eq, Structural)]
pub enum Ending {
    /// It was asked to end.
    Asked,
    /// It was killed.
    Killed,
}

/// How waiting for the end of another interface goes on.
pub open spec fn ending_step(ending: Ending, alive: bool, waited_ms: u64) -> WaitStep {
    match ending {
        Ending::Asked => if waited_ms >= 2000 {
            WaitStep::TooLate
        } else if !alive {
            WaitStep::Over
        } else {
            WaitStep::Again(50)
        },
        Ending::Killed => if waited_ms >= 1000 {
            WaitStep::TooLate
        } else if !alive {
            WaitStep::Over
        } else {
            WaitStep::Again(25)
        },
    }
}

/// How waiting for the end of another interface goes on: two seconds after it was
/// asked, and one after it was killed, it is too late.
pub fn terminate_wait(ending: Ending, alive: bool, waited_ms: u64) -> (r: WaitStep)
    ensures
        r == ending_step(ending, alive, waited_ms),
{
    match ending {
        Ending::Asked => if waited_ms >= 2000 {
            WaitStep::TooLate
        } else if !alive {
            WaitStep::Over
        } else {
            WaitStep::Again(50)
        },
        Ending::Killed => if waited_ms >= 1000 {
            WaitStep::TooLate
        } else if !alive {
            WaitStep::Over
        } else {
            WaitStep::Again(25)
        },
    }
}

/// What is told where another interface does not end.
pub fn not_ended_text(pid: u32) -> (r: String)
    ensures
        r@ == "Failed to stop existing ocwatch TUI process "@ + decimal(pid as nat),
{
    concat2("Failed to stop existing ocwatch TUI process ", number_text(pid as u64).as_str())
}

/// The place in tmux reads back from what tmux told: the session, the window and
/// the pane between tabs; the socket is what the variable gives before its first
/// comma.
pub proof fn law_place_reads_back(
    socket: Seq<char>,
    more: Seq<char>,
    session: Seq<char>,
    window: Seq<char>,
    pane: Seq<char>,
)
    requires
        forall|i: int| 0 <= i < socket.len() ==> #[trigger] socket[i] != ',',
        forall|i: int| 0 <= i < session.len() ==> #[trigger] session[i] != '\t',
        forall|i: int| 0 <= i < window.len() ==> #[trigger] window[i] != '\t',
        forall|i: int| 0 <= i < pane.len() ==> #[trigger] pane[i] != '\t',
        session.len() > 0 && !is_white(session[0]),
        pane.len() > 0 && !is_white(pane.last()),
    ensures
        target_in(
            socket + seq![','] + more,
            session + seq!['\t'] + (window + seq!['\t'] + pane) + seq!['\n'],
        ) == Some(TargetView { socket, session, window, pane }),
        target_in(socket, session + seq!['\t'] + (window + seq!['\t'] + pane)) == Some(
            TargetView { socket, session, window, pane },
        ),
{
    let comma = the_char(',');
    let tab = the_char('\t');
    let none = Seq::<char>::empty();
    let rest = window + seq!['\t'] + pane;
    let told = session + seq!['\t'] + rest;
    assert forall|i: int| 0 <= i < socket.len() implies !comma(#[trigger] socket[i]) by {}
    assert forall|i: int| 0 <= i < session.len() implies !tab(#[trigger] session[i]) by {}
    assert forall|i: int| 0 <= i < window.len() implies !tab(#[trigger] window[i]) by {}
    assert forall|i: int| 0 <= i < pane.len() implies !tab(#[trigger] pane[i]) by {}
    law_first_piece(socket, ',', more, comma);
    law_unsplit_text_is_one_piece(socket, comma);
    law_first_piece(session, '\t', rest, tab);
    law_first_piece(window, '\t', pane, tab);
    law_unsplit_text_is_one_piece(pane, tab);
    assert(split(told, '\t') =~= seq![session, window, pane]);
    assert(told[0] == session[0] && told.last() == pane.last());
    law_trim(none, told, seq!['\n'], ' ');
    law_trim(none, told, none, ' ');
    assert(none + told + seq!['\n'] =~= told + seq!['\n']);
    assert(none + told + none =~= told);
}

/// A process runs the program if the first word of its command is the path of the
/// program, or its file name with or without a directory; other first words, and
/// further words, do not count.
pub proof fn law_program_by_first_word(command: Seq<char>, exe_path: Seq<char>, name: Seq<char>)
    requires
        file_name(exe_path) == Some(name),
        words(trim(command)).len() > 0,
    ensures
        runs_program(command, exe_path) <==> words(trim(command))[0] == exe_path || words(
            trim(command),
        )[0] == name || ends_with(words(trim(command))[0], "/"@ + name),
{
}

/// A program that finds no record starts; one that finds its own or a stale record
/// starts too, and takes the record away; one that finds another that runs goes to
/// its place in tmux, or ends it where it has none.
pub proof fn law_what_a_launch_does(
    rec: TuiInstanceRecord,
    own_pid: u32,
    same: bool,
    in_tmux: bool,
)
    ensures
        launch_of(None, own_pid, same, in_tmux) == (LaunchView::Start { remove_record: false }),
        rec.pid == own_pid || !same ==> launch_of(Some(rec), own_pid, same, in_tmux) == (
        LaunchView::Start { remove_record: true }),
        rec.pid != own_pid && same && rec.tmux_session is None ==> launch_of(
            Some(rec),
            own_pid,
            same,
            in_tmux,
        ) == (LaunchView::Terminate { pid: rec.pid }),
        rec.pid != own_pid && same && rec.tmux_session is Some ==> (launch_of(
            Some(rec),
            own_pid,
            same,
            in_tmux,
        ) matches LaunchView::Attach { plan, pid } && pid == rec.pid && plan == tmux_plan(
            in_tmux,
            opt_text(rec.tmux_socket),
            rec.tmux_session->0@,
            opt_text(rec.tmux_window),
            opt_text(rec.tmux_pane),
        )),
{
}

/// The lock is taken or refused at once where it is free or cannot be had; while
/// another one holds it, it is tried again every twentieth of a second for five
/// seconds.
pub proof fn law_lock_takes_five_seconds(attempt: LockTry, waited_ms: u64)
    ensures
        lock_step(attempt, waited_ms) == LockStep::Locked <==> attempt == LockTry::Locked,
        lock_step(attempt, waited_ms) == LockStep::Failed <==> attempt == LockTry::Failed,
        lock_step(attempt, waited_ms) == LockStep::TimedOut <==> attempt == LockTry::Busy
            && waited_ms >= 5000,
        lock_step(attempt, waited_ms) matches LockStep::Again(ms) ==> ms == 50 && waited_ms < 5000,
{
}

/// Another interface has two seconds to end when it is asked to and one when it is
/// killed; within that time its end is seen, and after that it is too late.
pub proof fn law_end_takes_two_seconds_or_one(alive: bool, waited_ms: u64)
    ensures
        ending_step(Ending::Asked, alive, waited_ms) == WaitStep::TooLate <==> waited_ms >= 2000,
        ending_step(Ending::Killed, alive, waited_ms) == WaitStep::TooLate <==> waited_ms >= 1000,
        ending_step(Ending::Asked, alive, waited_ms) == WaitStep::Over <==> !alive && waited_ms
            < 2000,
        ending_step(Ending::Killed, alive, waited_ms) == WaitStep::Over <==> !alive && waited_ms
            < 1000,
        ending_step(Ending::Asked, alive, waited_ms) matches WaitStep::Again(ms) ==> ms == 50,
        ending_step(Ending::Killed, alive, waited_ms) matches WaitStep::Again(ms) ==> ms == 25,
{
}

} // verus!
