//! What tmux and lsof tell of processes.

use vstd::prelude::*;
use vstd::string::*;

use crate::text::{
    chars_eq, chars_of, decimal, is_digit, law_bounded_first_piece,
    law_bounded_split_keeps_the_rest, law_decimal_denotes, law_last_piece, law_parse_undoes_decimal,
    law_visible_start_is_kept, lines, lines_of, number_of, opt_text, parse_number, split,
    split_chars, splitn, splitn_chars, string_of, texts, the_char, trim, trim_white, words,
    words_of,
};
use crate::types::SessionState;

verus! {

/// An OpenCode process.
#[derive(Debug)]
pub struct DiscoveredInstance {
    pub pid: u32,
    pub port: u16,
    pub remote_port: Option<u16>,
    pub tmux_session: Option<String>,
    pub tmux_window: Option<String>,
    pub tmux_window_index: Option<u32>,
    pub tmux_pane_index: Option<u32>,
    pub tmux_pane_tty: Option<String>,
}

/// An OpenCode process as values.
#[verifier::ext_equal]
pub struct InstanceView {
    pub pid: u32,
    pub port: u16,
    pub remote_port: Option<u16>,
    pub tmux_session: Option<Seq<char>>,
    pub tmux_window: Option<Seq<char>>,
    pub tmux_window_index: Option<u32>,
    pub tmux_pane_index: Option<u32>,
    pub tmux_pane_tty: Option<Seq<char>>,
}

impl View for DiscoveredInstance {
    type V = InstanceView;

    open spec fn view(&self) -> InstanceView {
        InstanceView {
            pid: self.pid,
            port: self.port,
            remote_port: self.remote_port,
            tmux_session: opt_text(self.tmux_session),
            tmux_window: opt_text(self.tmux_window),
            tmux_window_index: self.tmux_window_index,
            tmux_pane_index: self.tmux_pane_index,
            tmux_pane_tty: opt_text(self.tmux_pane_tty),
        }
    }
}

/// A pane of tmux.
#[derive(Debug)]
pub struct TmuxPane {
    pub pane_pid: u32,
    pub session_name: String,
    pub window_name: String,
    pub window_index: u32,
    pub pane_index: u32,
    pub pane_current_command: String,
    pub pane_tty: String,
}

/// A pane of tmux as values.
#[verifier::ext_equal]
pub struct PaneView {
    pub pid: u32,
    pub session: Seq<char>,
    pub window: Seq<char>,
    pub window_index: u32,
    pub index: u32,
    pub command: Seq<char>,
    pub tty: Seq<char>,
}

impl View for TmuxPane {
    type V = PaneView;

    open spec fn view(&self) -> PaneView {
        PaneView {
            pid: self.pane_pid,
            session: self.session_name@,
            window: self.window_name@,
            window_index: self.window_index,
            index: self.pane_index,
            command: self.pane_current_command@,
            tty: self.pane_tty@,
        }
    }
}

impl Clone for TmuxPane {
    fn clone(&self) -> (r: TmuxPane)
        ensures
            r@ == self@,
    {
        TmuxPane {
            pane_pid: self.pane_pid,
            session_name: self.session_name.clone(),
            window_name: self.window_name.clone(),
            window_index: self.window_index,
            pane_index: self.pane_index,
            pane_current_command: self.pane_current_command.clone(),
            pane_tty: self.pane_tty.clone(),
        }
    }
}

/// The views of panes.
pub open spec fn pane_views(panes: Seq<TmuxPane>) -> Seq<PaneView> {
    Seq::new(panes.len(), |k: int| panes[k]@)
}

/// A session that a running OpenCode shows or has started.
#[derive(Debug)]
pub struct ActiveSession {
    pub session_id: String,
    pub parent_id: Option<String>,
    pub title: String,
    pub directory: String,
    pub project_id: String,
    /// The state as far as it can be read off the stored session.
    pub inferred_state: Option<SessionState>,
    /// Unix time in milliseconds.
    pub time_updated_ms: u64,
    pub tui_pid: u32,
    pub tmux_session: Option<String>,
    pub tmux_window: Option<String>,
    pub tmux_window_index: Option<u32>,
    pub tmux_pane_index: Option<u32>,
    pub tmux_pane_tty: Option<String>,
}

/// A session as values.
#[verifier::ext_equal]
pub struct ActiveView {
    pub id: Seq<char>,
    pub parent_id: Option<Seq<char>>,
    pub title: Seq<char>,
    pub directory: Seq<char>,
    pub project_id: Seq<char>,
    pub inferred: Option<SessionState>,
    pub updated_ms: u64,
    pub pid: u32,
    pub tmux_session: Option<Seq<char>>,
    pub tmux_window: Option<Seq<char>>,
    pub tmux_window_index: Option<u32>,
    pub tmux_pane_index: Option<u32>,
    pub tmux_pane_tty: Option<Seq<char>>,
}

impl View for ActiveSession {
    type V = ActiveView;

    open spec fn view(&self) -> ActiveView {
        ActiveView {
            id: self.session_id@,
            parent_id: opt_text(self.parent_id),
            title: self.title@,
            directory: self.directory@,
            project_id: self.project_id@,
            inferred: self.inferred_state,
            updated_ms: self.time_updated_ms,
            pid: self.tui_pid,
            tmux_session: opt_text(self.tmux_session),
            tmux_window: opt_text(self.tmux_window),
            tmux_window_index: self.tmux_window_index,
            tmux_pane_index: self.tmux_pane_index,
            tmux_pane_tty: opt_text(self.tmux_pane_tty),
        }
    }
}

/// The views of sessions.
pub open spec fn active_views(v: Seq<ActiveSession>) -> Seq<ActiveView> {
    Seq::new(v.len(), |k: int| v[k]@)
}

/// What a host shows.
#[derive(Debug)]
pub struct ScanResult {
    /// The port here of OpenCode's server.
    pub server_port: Option<u16>,
    /// Its port on the host.
    pub server_remote_port: Option<u16>,
    pub active_sessions: Vec<ActiveSession>,
}

// ---------------------------------------------------------------------------
// Panes
// ---------------------------------------------------------------------------

/// The pane that a line of seven fields tells of.
pub open spec fn pane_of(line: Seq<char>, sep: char) -> Option<PaneView> {
    let parts = splitn(line, 7, sep);
    if trim(line).len() == 0 || parts.len() < 7 {
        None
    } else {
        match (
            parse_number(parts[0], u32::MAX as nat),
            parse_number(parts[3], u32::MAX as nat),
            parse_number(parts[4], u32::MAX as nat),
        ) {
            (Some(pid), Some(window_index), Some(index)) => Some(
                PaneView {
                    pid: pid as u32,
                    session: parts[1],
                    window: parts[2],
                    window_index: window_index as u32,
                    index: index as u32,
                    command: parts[5],
                    tty: trim(parts[6]),
                },
            ),
            _ => None,
        }
    }
}

/// The panes that lines tell of, in their order.
pub open spec fn panes_of(lines: Seq<Seq<char>>, sep: char) -> Seq<PaneView>
    decreases lines.len(),
{
    if lines.len() == 0 {
        Seq::empty()
    } else {
        match pane_of(lines.last(), sep) {
            Some(pane) => panes_of(lines.drop_last(), sep).push(pane),
            None => panes_of(lines.drop_last(), sep),
        }
    }
}

/// The number up to the greatest 32-bit one that a text denotes.
pub fn number32(s: &Vec<char>) -> (r: Option<u32>)
    ensures
        match r {
            Some(v) => parse_number(s@, u32::MAX as nat) == Some(v as nat),
            None => parse_number(s@, u32::MAX as nat) is None,
        },
{
    match number_of(s, 4294967295) {
        Some(v) => {
            assert(v <= 4294967295);
            Some(v as u32)
        },
        None => None,
    }
}

/// The port that a text denotes.
pub fn number16(s: &[char]) -> (r: Option<u16>)
    ensures
        match r {
            Some(v) => parse_number(s@, u16::MAX as nat) == Some(v as nat),
            None => parse_number(s@, u16::MAX as nat) is None,
        },
{
    match number_of(s, 65535) {
        Some(v) => {
            assert(v <= 65535);
            Some(v as u16)
        },
        None => None,
    }
}

/// The pane that a line tells of.
fn parse_pane(line: &Vec<char>, sep: char) -> (r: Option<TmuxPane>)
    ensures
        match r {
            Some(pane) => pane_of(line@, sep) == Some(pane@),
            None => pane_of(line@, sep) is None,
        },
{
    if trim_white(line).len() == 0 {
        return None;
    }
    let parts = splitn_chars(line, 7, sep);
    let ghost ps = splitn(line@, 7, sep);
    if parts.len() < 7 {
        return None;
    }
    assert forall|k: int| 0 <= k < 7 implies #[trigger] ps[k] == parts@[k]@ by {
        assert(texts(parts@)[k] == parts@[k]@);
    }
    let pid = number32(&parts[0]);
    let window_index = number32(&parts[3]);
    let index = number32(&parts[4]);
    match (pid, window_index, index) {
        (Some(pane_pid), Some(window_index), Some(pane_index)) => Some(
            TmuxPane {
                pane_pid,
                session_name: string_of(&parts[1]),
                window_name: string_of(&parts[2]),
                window_index,
                pane_index,
                pane_current_command: string_of(&parts[5]),
                pane_tty: string_of(&trim_white(&parts[6])),
            },
        ),
        _ => None,
    }
}

/// The panes that tmux lists, with fields apart by `sep`.
pub fn parse_panes(raw: &str, sep: char) -> (r: Vec<TmuxPane>)
    ensures
        pane_views(r@) == panes_of(lines(raw@), sep),
{
    let chars = chars_of(raw);
    let all = lines_of(&chars);
    let ghost ls = lines(raw@);
    let mut out: Vec<TmuxPane> = Vec::new();
    assert(pane_views(out@) =~= panes_of(ls.take(0), sep));
    for i in 0..all.len()
        invariant
            texts(all@) == ls,
            pane_views(out@) == panes_of(ls.take(i as int), sep),
    {
        assert(ls[i as int] == all@[i as int]@);
        assert(ls.take(i + 1).drop_last() =~= ls.take(i as int));
        let ghost before = out@;
        match parse_pane(&all[i], sep) {
            Some(pane) => {
                out.push(pane);
                assert(pane_views(out@) =~= pane_views(before).push(pane@));
            },
            None => {},
        }
    }
    assert(ls.take(ls.len() as int) =~= ls);
    out
}

/// The panes that the local tmux lists, with fields apart by blanks.
pub fn parse_tmux_output(raw: &str) -> (r: Vec<TmuxPane>)
    ensures
        pane_views(r@) == panes_of(lines(raw@), ' '),
{
    parse_panes(raw, ' ')
}

// ---------------------------------------------------------------------------
// Ports
// ---------------------------------------------------------------------------

/// The port at which a line of lsof says that a process listens.
pub open spec fn lsof_port_of(line: Seq<char>) -> Option<u16> {
    let ws = words(line);
    if ws.len() < 2 || ws.last() != "(LISTEN)"@ {
        None
    } else {
        match parse_number(split(ws[ws.len() - 2], ':').last(), u16::MAX as nat) {
            Some(p) => Some(p as u16),
            None => None,
        }
    }
}

/// The first port at which lines of lsof, from `from` on, say that a process
/// listens.
pub open spec fn lsof_port_in(lines: Seq<Seq<char>>, from: nat) -> Option<u16>
    decreases lines.len() - from,
{
    if from >= lines.len() {
        None
    } else {
        match lsof_port_of(lines[from as int]) {
            Some(p) => Some(p),
            None => lsof_port_in(lines, from + 1),
        }
    }
}

/// The port at which a line of lsof says that a process listens.
fn parse_lsof_line(line: &Vec<char>) -> (r: Option<u16>)
    ensures
        r == lsof_port_of(line@),
{
    let ws = words_of(line);
    let ghost want = words(line@);
    let n: usize = ws.len();
    if n < 2 {
        return None;
    }
    let listen = chars_of("(LISTEN)");
    assert(want[n - 1] == ws@[n - 1]@);
    if !chars_eq(&ws[n - 1], &listen) {
        return None;
    }
    assert(want[n - 2] == ws@[n - 2]@);
    let parts = split_chars(&ws[n - 2], ':');
    let ghost ps = split(want[n - 2], ':');
    assert(ps.last() == parts@[parts@.len() - 1]@);
    number16(&parts[parts.len() - 1])
}

/// The first port at which lsof says that a process listens.
pub fn discover_port_from_lsof(text: &str) -> (r: Option<u16>)
    ensures
        r == lsof_port_in(lines(text@), 0),
{
    let chars = chars_of(text);
    let all = lines_of(&chars);
    let ghost ls = lines(text@);
    let mut i: usize = 0;
    while i < all.len()
        invariant
            i <= all@.len(),
            ls == lines(text@),
            texts(all@) == ls,
            lsof_port_in(ls, 0) == lsof_port_in(ls, i as nat),
        decreases all@.len() - i,
    {
        assert(ls[i as int] == all@[i as int]@);
        match parse_lsof_line(&all[i]) {
            Some(port) => {
                return Some(port);
            },
            None => {},
        }
        i = i + 1;
    }
    None
}

/// The panes that lines tell of are those of each line in turn; a line that tells
/// of none is passed over.
pub proof fn law_panes_in_turn(line: Seq<char>, rest: Seq<Seq<char>>, sep: char)
    ensures
        panes_of(Seq::empty(), sep).len() == 0,
        pane_of(line, sep) matches Some(p) ==> panes_of(seq![line] + rest, sep) == seq![p]
            + panes_of(rest, sep),
        pane_of(line, sep) is None ==> panes_of(seq![line] + rest, sep) == panes_of(rest, sep),
    decreases rest.len(),
{
    let all = seq![line] + rest;
    if rest.len() == 0 {
        assert(all.drop_last() =~= Seq::<Seq<char>>::empty());
        assert(all.last() == line);
        assert(panes_of(all.drop_last(), sep) =~= Seq::<PaneView>::empty());
        if let Some(p) = pane_of(line, sep) {
            assert(panes_of(all, sep) =~= seq![p] + panes_of(rest, sep));
        }
    } else {
        law_panes_in_turn(line, rest.drop_last(), sep);
        assert(all.drop_last() =~= seq![line] + rest.drop_last());
        assert(all.last() == rest.last());
        if let Some(p) = pane_of(line, sep) {
            assert(panes_of(all, sep) =~= seq![p] + panes_of(rest, sep));
        }
    }
}

/// A line for a pane reads back, field by field: the process, the names of the
/// session and the window, the numbers of the window and the pane, the command
/// and the terminal.
pub proof fn law_pane_line_reads_back(p: PaneView, sep: char)
    requires
        !is_digit(sep),
        forall|i: int| 0 <= i < p.session.len() ==> #[trigger] p.session[i] != sep,
        forall|i: int| 0 <= i < p.window.len() ==> #[trigger] p.window[i] != sep,
        forall|i: int| 0 <= i < p.command.len() ==> #[trigger] p.command[i] != sep,
        trim(p.tty) == p.tty,
    ensures
        pane_of(
            decimal(p.pid as nat) + seq![sep] + (p.session + seq![sep] + (p.window + seq![sep] + (
            decimal(p.window_index as nat) + seq![sep] + (decimal(p.index as nat) + seq![sep] + (
            p.command + seq![sep] + p.tty))))),
            sep,
        ) == Some(p),
{
    let pid = decimal(p.pid as nat);
    let wi = decimal(p.window_index as nat);
    let pi = decimal(p.index as nat);
    let f = p.command + seq![sep] + p.tty;
    let e = pi + seq![sep] + f;
    let d = wi + seq![sep] + e;
    let c = p.window + seq![sep] + d;
    let b = p.session + seq![sep] + c;
    let line = pid + seq![sep] + b;
    law_decimal_denotes(p.pid as nat);
    law_decimal_denotes(p.window_index as nat);
    law_decimal_denotes(p.index as nat);
    law_parse_undoes_decimal(p.pid as nat, u32::MAX as nat);
    law_parse_undoes_decimal(p.window_index as nat, u32::MAX as nat);
    law_parse_undoes_decimal(p.index as nat, u32::MAX as nat);
    assert forall|i: int| 0 <= i < pid.len() implies #[trigger] pid[i] != sep by {
        assert(is_digit(pid[i]));
    }
    assert forall|i: int| 0 <= i < wi.len() implies #[trigger] wi[i] != sep by {
        assert(is_digit(wi[i]));
    }
    assert forall|i: int| 0 <= i < pi.len() implies #[trigger] pi[i] != sep by {
        assert(is_digit(pi[i]));
    }
    law_bounded_first_piece(pid, sep, b, 7);
    law_bounded_first_piece(p.session, sep, c, 6);
    law_bounded_first_piece(p.window, sep, d, 5);
    law_bounded_first_piece(wi, sep, e, 4);
    law_bounded_first_piece(pi, sep, f, 3);
    law_bounded_first_piece(p.command, sep, p.tty, 2);
    law_bounded_split_keeps_the_rest(p.tty, 1, sep);
    assert(splitn(line, 7, sep) =~= seq![
        pid,
        p.session,
        p.window,
        wi,
        pi,
        p.command,
        p.tty,
    ]);
    assert(is_digit(pid[0]));
    assert(line[0] == pid[0]);
    law_visible_start_is_kept(line);
}

/// A line of lsof that ends in the word for listening gives the port behind the
/// last colon of the word before; any other line gives none.
pub proof fn law_listening_line_gives_its_port(line: Seq<char>, address: Seq<char>, port: u16)
    ensures
        words(line).len() >= 2 && words(line).last() == "(LISTEN)"@ && words(line)[words(line).len()
            - 2] == address + seq![':'] + decimal(port as nat) ==> lsof_port_of(line) == Some(port),
        words(line).len() < 2 || words(line).last() != "(LISTEN)"@ ==> lsof_port_of(line) is None,
{
    let n = decimal(port as nat);
    let sep = the_char(':');
    law_decimal_denotes(port as nat);
    law_parse_undoes_decimal(port as nat, u16::MAX as nat);
    assert forall|i: int| 0 <= i < n.len() implies !sep(#[trigger] n[i]) by {
        assert(is_digit(n[i]));
    }
    law_last_piece(address, ':', n, sep);
}

/// The first line that gives a port counts.
pub proof fn law_first_listening_line_counts(lines: Seq<Seq<char>>, from: nat, at: nat)
    requires
        from <= at <= lines.len(),
        forall|k: int| from <= k < at ==> lsof_port_of(#[trigger] lines[k]) is None,
        at < lines.len() ==> lsof_port_of(lines[at as int]) is Some,
    ensures
        at < lines.len() ==> lsof_port_in(lines, from) == lsof_port_of(lines[at as int]),
        at == lines.len() ==> lsof_port_in(lines, from) is None,
    decreases at - from,
{
    if from < at {
        assert(lsof_port_of(lines[from as int]) is None);
        law_first_listening_line_counts(lines, from + 1, at);
    }
}

} // verus!
