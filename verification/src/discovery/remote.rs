//! What is asked of a remote host, and what its answers tell.

use vstd::prelude::*;
use vstd::string::*;

use crate::discovery::local::{cmdline_port, discover_port_from_cmdline, instance_views, pid_of};
use crate::discovery::panes::{number32, ActiveView, DiscoveredInstance, InstanceView, ScanResult};
use crate::ipc::RecentDirEntry;
use crate::shell::{escape_quotes, inside_quotes};
use crate::text::{
    chars_eq, chars_of, clone_chars, clone_opt, concat2, concat3, concat5, contains_text, decimal,
    ends_with, is_digit, join, join_chars, law_bounded_first_piece,
    law_bounded_split_keeps_the_rest, law_decimal_denotes, law_parse_undoes_decimal,
    law_parts_are_seen, law_replace_joins_the_pieces, law_trim, law_unsplit_text_is_one_piece,
    lemma_texts_push, lines, lines_of, lowered, number_of, number_text, opt_text, parse_number,
    replace_char, replace_text, split, splitn, splitn_chars, starts_with, str_eq, string_of,
    text_contains, text_starts_with, texts, the_char, to_lower, trim, trim_white, words, words_of,
};

verus! {

// ---------------------------------------------------------------------------
// Processes
// ---------------------------------------------------------------------------

/// A process on a host.
#[derive(Debug)]
pub struct RemoteProcess {
    pub pid: u32,
    pub cmdline: String,
}

/// A process on a host as values.
#[verifier::ext_equal]
pub struct ProcView {
    pub pid: u32,
    pub cmdline: Seq<char>,
}

impl View for RemoteProcess {
    type V = ProcView;

    open spec fn view(&self) -> ProcView {
        ProcView { pid: self.pid, cmdline: self.cmdline@ }
    }
}

/// The views of processes.
pub open spec fn proc_views(v: Seq<RemoteProcess>) -> Seq<ProcView> {
    Seq::new(v.len(), |k: int| v[k]@)
}

/// The process that a line of `ps aux` tells of: the second word is its number,
/// and its command line starts at the eleventh.
pub open spec fn ps_line(line: Seq<char>) -> Option<ProcView> {
    let ws = words(line);
    if ws.len() < 11 || ws[0] == "USER"@ {
        None
    } else {
        match pid_of(ws[1]) {
            Some(pid) => Some(ProcView { pid, cmdline: join(ws.skip(10), " "@) }),
            None => None,
        }
    }
}

/// Whether a line of `ps aux`, given in lower case too, is about OpenCode and
/// not about looking for it.
pub open spec fn about_opencode(line: Seq<char>, lower: Seq<char>) -> bool {
    (contains_text(lower, "opencode"@) || contains_text(lower, ".opencode/bin"@)) && !contains_text(
        line,
        "grep"@,
    ) && !contains_text(line, "ps aux"@)
}

/// The OpenCode processes that lines of `ps aux` tell of, in their order.
pub open spec fn opencode_processes(lines: Seq<Seq<char>>) -> Seq<ProcView>
    decreases lines.len(),
{
    if lines.len() == 0 {
        Seq::empty()
    } else {
        let before = opencode_processes(lines.drop_last());
        let line = lines.last();
        if about_opencode(line, lowered(line)) {
            match ps_line(line) {
                Some(p) => before.push(p),
                None => before,
            }
        } else {
            before
        }
    }
}

/// The process that a line of `ps aux` tells of.
pub fn parse_ps_line(line: &[char]) -> (r: Option<RemoteProcess>)
    ensures
        match r {
            Some(p) => ps_line(line@) == Some(p@),
            None => ps_line(line@) is None,
        },
{
    let ws = words_of(line);
    let ghost want = words(line@);
    let n: usize = ws.len();
    if n < 11 {
        return None;
    }
    let user = chars_of("USER");
    assert(want[0] == ws@[0]@);
    if chars_eq(&ws[0], &user) {
        return None;
    }
    assert(want[1] == ws@[1]@);
    match number32(&ws[1]) {
        None => None,
        Some(pid) => {
            let mut tail: Vec<Vec<char>> = Vec::new();
            assert(texts(tail@) =~= want.skip(10).take(0));
            for k in 10..n
                invariant
                    n == ws@.len(),
                    n >= 11,
                    texts(ws@) == want,
                    texts(tail@) == want.skip(10).take(k - 10),
            {
                let word = clone_chars(&ws[k]);
                proof {
                    lemma_texts_push(tail@, word);
                }
                tail.push(word);
                assert(want[k as int] == ws@[k as int]@);
                assert(texts(tail@) =~= want.skip(10).take(k - 9));
            }
            assert(want.skip(10).take(n - 10) =~= want.skip(10));
            Some(RemoteProcess { pid, cmdline: join_chars(&tail, " ") })
        },
    }
}

/// Whether a line of `ps aux` is about OpenCode.
pub fn is_about_opencode(line: &str, lower: &str) -> (r: bool)
    ensures
        r == about_opencode(line@, lower@),
{
    (text_contains(lower, "opencode") || text_contains(lower, ".opencode/bin")) && !text_contains(
        line,
        "grep",
    ) && !text_contains(line, "ps aux")
}

/// The OpenCode processes that `ps aux` tells of.
pub fn parse_processes(ps_output: &str) -> (r: Vec<RemoteProcess>)
    ensures
        proc_views(r@) == opencode_processes(lines(ps_output@)),
{
    let chars = chars_of(ps_output);
    let all = lines_of(&chars);
    let ghost ls = lines(ps_output@);
    let mut out: Vec<RemoteProcess> = Vec::new();
    assert(proc_views(out@) =~= opencode_processes(ls.take(0)));
    for i in 0..all.len()
        invariant
            texts(all@) == ls,
            proc_views(out@) == opencode_processes(ls.take(i as int)),
    {
        assert(ls[i as int] == all@[i as int]@);
        assert(ls.take(i + 1).drop_last() =~= ls.take(i as int));
        let line = string_of(&all[i]);
        let lower = to_lower(line.as_str());
        let ghost before = out@;
        if is_about_opencode(line.as_str(), lower.as_str()) {
            match parse_ps_line(&all[i]) {
                Some(p) => {
                    out.push(p);
                    assert(proc_views(out@) =~= proc_views(before).push(p@));
                },
                None => {},
            }
        }
    }
    assert(ls.take(ls.len() as int) =~= ls);
    out
}

/// The port above the reserved ones that a command line gives.
pub open spec fn server_port_in(cmdline: Seq<char>) -> Option<u16> {
    match cmdline_port(cmdline) {
        Some(p) => if p > 1024 {
            Some(p)
        } else {
            None
        },
        None => None,
    }
}

/// The port above the reserved ones that a command line gives.
pub fn extract_port_from_cmdline(cmdline: &str) -> (r: Option<u16>)
    ensures
        r == server_port_in(cmdline@),
{
    match discover_port_from_cmdline(cmdline) {
        Some(p) => if p > 1024 {
            Some(p)
        } else {
            None
        },
        None => None,
    }
}

/// The terminal of a process, by what ps gives: none for a process without one.
pub open spec fn tty_of(output: Seq<char>) -> Option<Seq<char>> {
    let tty = trim(output);
    if tty.len() == 0 || tty == "?"@ {
        None
    } else if starts_with(tty, "/dev/"@) {
        Some(tty)
    } else {
        Some("/dev/"@ + tty)
    }
}

/// The terminal of a process, by what ps gives.
pub fn normalize_tty(output: &str) -> (r: Option<String>)
    ensures
        opt_text(r) == tty_of(output@),
{
    let chars = chars_of(output);
    let trimmed = trim_white(&chars);
    if trimmed.len() == 0 {
        return None;
    }
    let tty = string_of(&trimmed);
    if str_eq(tty.as_str(), "?") {
        None
    } else if text_starts_with(tty.as_str(), "/dev/") {
        Some(tty)
    } else {
        Some(concat2("/dev/", tty.as_str()))
    }
}

// ---------------------------------------------------------------------------
// Stored sessions
// ---------------------------------------------------------------------------

/// A session as it is stored on a host.
#[derive(Debug)]
pub struct RemoteDbSession {
    pub id: String,
    pub parent_id: Option<String>,
    pub title: String,
    pub directory: String,
    pub time_updated_ms: u64,
}

/// A stored session as values.
#[verifier::ext_equal]
pub struct DbView {
    pub id: Seq<char>,
    pub parent_id: Option<Seq<char>>,
    pub title: Seq<char>,
    pub directory: Seq<char>,
    pub updated_ms: u64,
}

impl View for RemoteDbSession {
    type V = DbView;

    open spec fn view(&self) -> DbView {
        DbView {
            id: self.id@,
            parent_id: opt_text(self.parent_id),
            title: self.title@,
            directory: self.directory@,
            updated_ms: self.time_updated_ms,
        }
    }
}

impl Clone for RemoteDbSession {
    fn clone(&self) -> (r: RemoteDbSession)
        ensures
            r@ == self@,
    {
        RemoteDbSession {
            id: self.id.clone(),
            parent_id: clone_opt(&self.parent_id),
            title: self.title.clone(),
            directory: self.directory.clone(),
            time_updated_ms: self.time_updated_ms,
        }
    }
}

/// The views of stored sessions.
pub open spec fn db_views(v: Seq<RemoteDbSession>) -> Seq<DbView> {
    Seq::new(v.len(), |k: int| v[k]@)
}

/// A number that a text denotes, or none at all.
pub open spec fn number_or_zero(s: Seq<char>) -> u64 {
    match parse_number(s, u64::MAX as nat) {
        Some(n) => n as u64,
        None => 0,
    }
}

/// A number that a text denotes, or none at all.
fn parse_or_zero(s: &Vec<char>) -> (r: u64)
    ensures
        r == number_or_zero(s@),
{
    match number_of(s, 18446744073709551615) {
        Some(n) => n,
        None => 0,
    }
}

/// The stored session that a line of five fields tells of.
pub open spec fn db_line(line: Seq<char>) -> Option<DbView> {
    let parts = splitn(line, 5, '|');
    if parts.len() < 5 {
        None
    } else {
        Some(
            DbView {
                id: parts[0],
                parent_id: if parts[1].len() == 0 {
                    None
                } else {
                    Some(parts[1])
                },
                title: parts[2],
                directory: parts[3],
                updated_ms: number_or_zero(parts[4]),
            },
        )
    }
}

/// The stored sessions that lines tell of, in their order.
pub open spec fn db_sessions(lines: Seq<Seq<char>>) -> Seq<DbView>
    decreases lines.len(),
{
    if lines.len() == 0 {
        Seq::empty()
    } else {
        match db_line(lines.last()) {
            Some(s) => db_sessions(lines.drop_last()).push(s),
            None => db_sessions(lines.drop_last()),
        }
    }
}

/// The stored session that a line tells of.
fn parse_db_line(line: &Vec<char>) -> (r: Option<RemoteDbSession>)
    ensures
        match r {
            Some(s) => db_line(line@) == Some(s@),
            None => db_line(line@) is None,
        },
{
    let parts = splitn_chars(line, 5, '|');
    let ghost ps = splitn(line@, 5, '|');
    if parts.len() < 5 {
        return None;
    }
    assert forall|k: int| 0 <= k < 5 implies #[trigger] ps[k] == parts@[k]@ by {
        assert(texts(parts@)[k] == parts@[k]@);
    }
    let parent_id = if parts[1].len() == 0 {
        None
    } else {
        Some(string_of(&parts[1]))
    };
    Some(
        RemoteDbSession {
            id: string_of(&parts[0]),
            parent_id,
            title: string_of(&parts[2]),
            directory: string_of(&parts[3]),
            time_updated_ms: parse_or_zero(&parts[4]),
        },
    )
}

/// The stored sessions that the answer to a query tells of.
pub fn parse_remote_db_sessions(output: &str) -> (r: Vec<RemoteDbSession>)
    ensures
        db_views(r@) == db_sessions(lines(output@)),
{
    let chars = chars_of(output);
    let all = lines_of(&chars);
    let ghost ls = lines(output@);
    let mut out: Vec<RemoteDbSession> = Vec::new();
    assert(db_views(out@) =~= db_sessions(ls.take(0)));
    for i in 0..all.len()
        invariant
            texts(all@) == ls,
            db_views(out@) == db_sessions(ls.take(i as int)),
    {
        assert(ls[i as int] == all@[i as int]@);
        assert(ls.take(i + 1).drop_last() =~= ls.take(i as int));
        let ghost before = out@;
        match parse_db_line(&all[i]) {
            Some(s) => {
                out.push(s);
                assert(db_views(out@) =~= db_views(before).push(s@));
            },
            None => {},
        }
    }
    assert(ls.take(ls.len() as int) =~= ls);
    out
}

/// The recent directory that a line of two fields tells of.
pub open spec fn recent_line(line: Seq<char>) -> Option<(Seq<char>, u64)> {
    let parts = splitn(line, 2, '|');
    if parts.len() < 2 || trim(parts[0]).len() == 0 {
        None
    } else {
        Some((trim(parts[0]), number_or_zero(trim(parts[1]))))
    }
}

/// The recent directories that lines tell of, in their order.
pub open spec fn recent_lines(lines: Seq<Seq<char>>) -> Seq<(Seq<char>, u64)>
    decreases lines.len(),
{
    if lines.len() == 0 {
        Seq::empty()
    } else {
        match recent_line(lines.last()) {
            Some(d) => recent_lines(lines.drop_last()).push(d),
            None => recent_lines(lines.drop_last()),
        }
    }
}

/// Whether entries are the recent directories of a host.
pub open spec fn entries_are(
    entries: Seq<RecentDirEntry>,
    host: Seq<char>,
    dirs: Seq<(Seq<char>, u64)>,
) -> bool {
    &&& entries.len() == dirs.len()
    &&& forall|k: int|
        0 <= k < entries.len() ==> (#[trigger] entries[k]).host@ == host && entries[k].directory@
            == dirs[k].0 && entries[k].last_seen_unix_ms == dirs[k].1
}

/// The recent directories of a host that the answer to a query tells of; none
/// where there was no answer.
pub fn recent_directories(host_name: &str, output: Option<&str>) -> (r: Vec<RecentDirEntry>)
    ensures
        match output {
            Some(text) => entries_are(r@, host_name@, recent_lines(lines(text@))),
            None => r@.len() == 0,
        },
{
    let mut out: Vec<RecentDirEntry> = Vec::new();
    match output {
        None => out,
        Some(text) => {
            let chars = chars_of(text);
            let all = lines_of(&chars);
            let ghost ls = lines(text@);
            assert(recent_lines(ls.take(0)) =~= Seq::<(Seq<char>, u64)>::empty());
            for i in 0..all.len()
                invariant
                    texts(all@) == ls,
                    entries_are(out@, host_name@, recent_lines(ls.take(i as int))),
            {
                assert(ls[i as int] == all@[i as int]@);
                assert(ls.take(i + 1).drop_last() =~= ls.take(i as int));
                let parts = splitn_chars(&all[i], 2, '|');
                let ghost ps = splitn(ls[i as int], 2, '|');
                if parts.len() >= 2 {
                    assert(ps[0] == parts@[0]@);
                    assert(ps[1] == parts@[1]@);
                    let directory = trim_white(&parts[0]);
                    if directory.len() > 0 {
                        let time = trim_white(&parts[1]);
                        out.push(
                            RecentDirEntry {
                                host: host_name.to_string(),
                                directory: string_of(&directory),
                                last_seen_unix_ms: parse_or_zero(&time),
                            },
                        );
                    }
                }
            }
            assert(ls.take(ls.len() as int) =~= ls);
            out
        },
    }
}

// ---------------------------------------------------------------------------
// Questions
// ---------------------------------------------------------------------------

/// A text to stand inside single quotes of a query.
pub open spec fn in_query(s: Seq<char>) -> Seq<char> {
    replace_char(s, '\'', "''"@)
}

/// The question for the panes of tmux.
pub fn panes_question() -> (r: &'static str)
    ensures
        r@ == panes_question_text(),
{
    "tmux list-panes -a -F '#{pane_pid}\t#{session_name}\t#{window_name}\t#{window_index}\t#{pane_index}\t#{pane_current_command}\t#{pane_tty}' 2>/dev/null || true"
}

/// The question for the panes of tmux.
pub open spec fn panes_question_text() -> Seq<char> {
    "tmux list-panes -a -F '#{pane_pid}\t#{session_name}\t#{window_name}\t#{window_index}\t#{pane_index}\t#{pane_current_command}\t#{pane_tty}' 2>/dev/null || true"@
}

/// The question for the ports of a process.
pub open spec fn lsof_question_text(pid: u32) -> Seq<char> {
    "lsof -a -p "@ + decimal(pid as nat) + " -i -P -n 2>/dev/null || true"@
}

/// The question for the ports of a process.
pub fn lsof_question(pid: u32) -> (r: String)
    ensures
        r@ == lsof_question_text(pid),
{
    concat3("lsof -a -p ", number_text(pid as u64).as_str(), " -i -P -n 2>/dev/null || true")
}

/// The question for the working directory of a process.
pub open spec fn cwd_question_text(pid: u32) -> Seq<char> {
    "readlink /proc/"@ + decimal(pid as nat) + "/cwd 2>/dev/null || lsof -a -p "@ + decimal(
        pid as nat,
    ) + " -d cwd -F n 2>/dev/null | grep '^n' | sed 's/^n//'"@
}

/// The question for the working directory of a process.
pub fn cwd_question(pid: u32) -> (r: String)
    ensures
        r@ == cwd_question_text(pid),
{
    let n = number_text(pid as u64);
    concat5(
        "readlink /proc/",
        n.as_str(),
        "/cwd 2>/dev/null || lsof -a -p ",
        n.as_str(),
        " -d cwd -F n 2>/dev/null | grep '^n' | sed 's/^n//'",
    )
}

/// The question for the project of a directory.
pub open spec fn project_question_text(cwd: Seq<char>) -> Seq<char> {
    "git -C '"@ + inside_quotes(cwd)
        + "' rev-list --max-parents=0 HEAD 2>/dev/null | sort | head -1"@
}

/// The question for the project of a directory.
pub fn project_question(cwd: &str) -> (r: String)
    ensures
        r@ == project_question_text(cwd@),
{
    concat3(
        "git -C '",
        escape_quotes(cwd).as_str(),
        "' rev-list --max-parents=0 HEAD 2>/dev/null | sort | head -1",
    )
}

/// The question for the session of a project that was updated last.
pub open spec fn latest_question_text(project: Seq<char>) -> Seq<char> {
    "sqlite3 -separator '|' ~/.local/share/opencode/opencode.db \"SELECT id, COALESCE(parent_id, ''), title, directory, time_updated FROM session WHERE project_id = '"@
        + in_query(project) + "' AND parent_id IS NULL ORDER BY time_updated DESC LIMIT 1\""@
}

/// The question for the session of a project that was updated last.
pub fn latest_question(project: &str) -> (r: String)
    ensures
        r@ == latest_question_text(project@),
{
    concat3(
        "sqlite3 -separator '|' ~/.local/share/opencode/opencode.db \"SELECT id, COALESCE(parent_id, ''), title, directory, time_updated FROM session WHERE project_id = '",
        replace_text(project, '\'', "''").as_str(),
        "' AND parent_id IS NULL ORDER BY time_updated DESC LIMIT 1\"",
    )
}

/// The question for a session and the sessions below it.
pub open spec fn tree_question_text(root: Seq<char>) -> Seq<char> {
    "sqlite3 -separator '|' ~/.local/share/opencode/opencode.db \"WITH RECURSIVE session_tree(id, parent_id, title, directory, time_updated) AS ( SELECT id, parent_id, title, directory, time_updated FROM session WHERE id = '"@
        + in_query(root)
        + "' UNION ALL SELECT child.id, child.parent_id, child.title, child.directory, child.time_updated FROM session child JOIN session_tree parent ON child.parent_id = parent.id ) SELECT id, COALESCE(parent_id, ''), title, directory, time_updated FROM session_tree ORDER BY CASE WHEN parent_id IS NULL THEN 0 ELSE 1 END, time_updated DESC\""@
}

/// The question for a session and the sessions below it.
pub fn tree_question(root: &str) -> (r: String)
    ensures
        r@ == tree_question_text(root@),
{
    concat3(
        "sqlite3 -separator '|' ~/.local/share/opencode/opencode.db \"WITH RECURSIVE session_tree(id, parent_id, title, directory, time_updated) AS ( SELECT id, parent_id, title, directory, time_updated FROM session WHERE id = '",
        replace_text(root, '\'', "''").as_str(),
        "' UNION ALL SELECT child.id, child.parent_id, child.title, child.directory, child.time_updated FROM session child JOIN session_tree parent ON child.parent_id = parent.id ) SELECT id, COALESCE(parent_id, ''), title, directory, time_updated FROM session_tree ORDER BY CASE WHEN parent_id IS NULL THEN 0 ELSE 1 END, time_updated DESC\"",
    )
}

/// The question for the terminal of a process.
pub open spec fn tty_question_text(pid: u32) -> Seq<char> {
    "ps -p "@ + decimal(pid as nat) + " -o tty= 2>/dev/null | tr -d ' '"@
}

/// The question for the terminal of a process.
pub fn tty_question(pid: u32) -> (r: String)
    ensures
        r@ == tty_question_text(pid),
{
    concat3("ps -p ", number_text(pid as u64).as_str(), " -o tty= 2>/dev/null | tr -d ' '")
}

/// The question for the last stored parts of a session.
pub open spec fn parts_question_text(id: Seq<char>) -> Seq<char> {
    "sqlite3 ~/.local/share/opencode/opencode.db \"SELECT hex(data) FROM part WHERE session_id = '"@
        + in_query(id) + "' ORDER BY time_updated DESC LIMIT 32\""@
}

/// The question for the last stored parts of a session.
pub fn parts_question(id: &str) -> (r: String)
    ensures
        r@ == parts_question_text(id@),
{
    concat3(
        "sqlite3 ~/.local/share/opencode/opencode.db \"SELECT hex(data) FROM part WHERE session_id = '",
        replace_text(id, '\'', "''").as_str(),
        "' ORDER BY time_updated DESC LIMIT 32\"",
    )
}

/// The question for the recent directories of a host.
pub open spec fn recent_question_text(limit: usize) -> Seq<char> {
    "sqlite3 -separator '|' ~/.local/share/opencode/opencode.db \"SELECT directory, MAX(time_updated) FROM session WHERE parent_id IS NULL AND directory != '' GROUP BY directory ORDER BY MAX(time_updated) DESC LIMIT "@
        + decimal(limit as nat) + "\""@
}

/// The question for the recent directories of a host.
pub fn recent_question(limit: usize) -> (r: String)
    ensures
        r@ == recent_question_text(limit),
{
    concat3(
        "sqlite3 -separator '|' ~/.local/share/opencode/opencode.db \"SELECT directory, MAX(time_updated) FROM session WHERE parent_id IS NULL AND directory != '' GROUP BY directory ORDER BY MAX(time_updated) DESC LIMIT ",
        number_text(limit as u64).as_str(),
        "\"",
    )
}

// ---------------------------------------------------------------------------
// Ports and instances
// ---------------------------------------------------------------------------

/// The ports of a list that are not in another, in their order.
pub open spec fn ports_without(old: Seq<u16>, current: Seq<u16>) -> Seq<u16>
    decreases old.len(),
{
    if old.len() == 0 {
        Seq::empty()
    } else if current.contains(old.last()) {
        ports_without(old.drop_last(), current)
    } else {
        ports_without(old.drop_last(), current).push(old.last())
    }
}

/// Whether a list holds a port.
fn holds_port(ports: &Vec<u16>, port: u16) -> (r: bool)
    ensures
        r == ports@.contains(port),
{
    for i in 0..ports.len()
        invariant
            forall|k: int| 0 <= k < i ==> ports@[k] != port,
    {
        if ports[i] == port {
            assert(ports@.contains(ports@[i as int]));
            return true;
        }
    }
    false
}

/// The ports whose forwarding is to be ended: those forwarded before that no
/// process uses any more.
pub fn reconcile_port_forwards(
    current_remote_ports: &Vec<u16>,
    previous_remote_ports: &Vec<u16>,
) -> (r: Vec<u16>)
    ensures
        r@ == ports_without(previous_remote_ports@, current_remote_ports@),
{
    let mut out: Vec<u16> = Vec::new();
    let ghost prev = previous_remote_ports@;
    for i in 0..previous_remote_ports.len()
        invariant
            prev == previous_remote_ports@,
            out@ == ports_without(prev.take(i as int), current_remote_ports@),
    {
        assert(prev.take(i + 1).drop_last() =~= prev.take(i as int));
        if !holds_port(current_remote_ports, previous_remote_ports[i]) {
            out.push(previous_remote_ports[i]);
        }
    }
    assert(prev.take(prev.len() as int) =~= prev);
    out
}

/// A port that is still used keeps its forwarding, and one that is not loses it.
pub proof fn law_reconcile_is_exact(old: Seq<u16>, current: Seq<u16>, p: u16)
    ensures
        ports_without(old, current).contains(p) <==> old.contains(p) && !current.contains(p),
    decreases old.len(),
{
    if old.len() > 0 {
        let head = old.drop_last();
        law_reconcile_is_exact(head, current, p);
        let before = ports_without(head, current);
        let now = ports_without(old, current);
        if old.contains(p) && old.last() != p {
            let i = choose|i: int| 0 <= i < old.len() && old[i] == p;
            assert(head[i] == p);
        }
        if head.contains(p) {
            let i = choose|i: int| 0 <= i < head.len() && head[i] == p;
            assert(old[i] == p);
        }
        if old.last() == p {
            assert(old[old.len() - 1] == p);
            if !current.contains(p) {
                assert(now[now.len() - 1] == p);
            }
        }
        if before.contains(p) {
            let i = choose|i: int| 0 <= i < before.len() && before[i] == p;
            assert(now[i] == p);
        }
        if now.contains(p) && !before.contains(p) {
            let i = choose|i: int| 0 <= i < now.len() && now[i] == p;
            if i < before.len() {
                assert(before[i] == p);
            }
        }
    }
}

/// The process that shows a session.
pub open spec fn instance_of_session(
    s: ActiveView,
    port: Option<u16>,
    remote_port: Option<u16>,
) -> InstanceView {
    InstanceView {
        pid: s.pid,
        port: match port {
            Some(p) => p,
            None => 0,
        },
        remote_port,
        tmux_session: s.tmux_session,
        tmux_window: s.tmux_window,
        tmux_window_index: s.tmux_window_index,
        tmux_pane_index: s.tmux_pane_index,
        tmux_pane_tty: s.tmux_pane_tty,
    }
}

/// The processes that show the sessions of a host.
pub fn scan_remote(result: &ScanResult) -> (r: Vec<DiscoveredInstance>)
    ensures
        instance_views(r@) == Seq::new(
            result.active_sessions@.len(),
            |k: int|
                instance_of_session(
                    result.active_sessions@[k]@,
                    result.server_port,
                    result.server_remote_port,
                ),
        ),
{
    let mut out: Vec<DiscoveredInstance> = Vec::new();
    for i in 0..result.active_sessions.len()
        invariant
            out@.len() == i,
            forall|k: int|
                0 <= k < i ==> (#[trigger] out@[k])@ == instance_of_session(
                    result.active_sessions@[k]@,
                    result.server_port,
                    result.server_remote_port,
                ),
    {
        let s = &result.active_sessions[i];
        let port: u16 = match result.server_port {
            Some(p) => p,
            None => 0,
        };
        out.push(
            DiscoveredInstance {
                pid: s.tui_pid,
                port,
                remote_port: result.server_remote_port,
                tmux_session: clone_opt(&s.tmux_session),
                tmux_window: clone_opt(&s.tmux_window),
                tmux_window_index: s.tmux_window_index,
                tmux_pane_index: s.tmux_pane_index,
                tmux_pane_tty: clone_opt(&s.tmux_pane_tty),
            },
        );
    }
    assert(instance_views(out@) =~= Seq::new(
        result.active_sessions@.len(),
        |k: int|
            instance_of_session(
                result.active_sessions@[k]@,
                result.server_port,
                result.server_remote_port,
            ),
    ));
    out
}

/// The stored sessions that lines tell of are those of each line in turn; a line
/// that tells of none is passed over.
pub proof fn law_stored_sessions_in_turn(line: Seq<char>, rest: Seq<Seq<char>>)
    ensures
        db_sessions(Seq::empty()).len() == 0,
        db_line(line) matches Some(s) ==> db_sessions(seq![line] + rest) == seq![s] + db_sessions(
            rest,
        ),
        db_line(line) is None ==> db_sessions(seq![line] + rest) == db_sessions(rest),
    decreases rest.len(),
{
    let all = seq![line] + rest;
    if rest.len() == 0 {
        assert(all.drop_last() =~= Seq::<Seq<char>>::empty());
        assert(all.last() == line);
        assert(db_sessions(all.drop_last()) =~= Seq::<DbView>::empty());
        if let Some(s) = db_line(line) {
            assert(db_sessions(all) =~= seq![s] + db_sessions(rest));
        }
    } else {
        law_stored_sessions_in_turn(line, rest.drop_last());
        assert(all.drop_last() =~= seq![line] + rest.drop_last());
        assert(all.last() == rest.last());
        if let Some(s) = db_line(line) {
            assert(db_sessions(all) =~= seq![s] + db_sessions(rest));
        }
    }
}

/// A row for a stored session reads back: its ID, the ID of its parent or nothing,
/// its title, its directory and the time of its last update.
pub proof fn law_stored_row_reads_back(
    id: Seq<char>,
    parent: Seq<char>,
    title: Seq<char>,
    directory: Seq<char>,
    updated_ms: u64,
)
    requires
        forall|i: int| 0 <= i < id.len() ==> #[trigger] id[i] != '|',
        forall|i: int| 0 <= i < parent.len() ==> #[trigger] parent[i] != '|',
        forall|i: int| 0 <= i < title.len() ==> #[trigger] title[i] != '|',
        forall|i: int| 0 <= i < directory.len() ==> #[trigger] directory[i] != '|',
    ensures
        ({
            let line = id + seq!['|'] + (parent + seq!['|'] + (title + seq!['|'] + (directory
                + seq!['|'] + decimal(updated_ms as nat))));
            db_line(line) == Some(
                DbView {
                    id,
                    parent_id: if parent.len() == 0 {
                        None
                    } else {
                        Some(parent)
                    },
                    title,
                    directory,
                    updated_ms,
                },
            )
        }),
{
    let time = decimal(updated_ms as nat);
    let d = directory + seq!['|'] + time;
    let t = title + seq!['|'] + d;
    let p = parent + seq!['|'] + t;
    let line = id + seq!['|'] + p;
    law_bounded_first_piece(id, '|', p, 5);
    law_bounded_first_piece(parent, '|', t, 4);
    law_bounded_first_piece(title, '|', d, 3);
    law_bounded_first_piece(directory, '|', time, 2);
    law_bounded_split_keeps_the_rest(time, 1, '|');
    law_parse_undoes_decimal(updated_ms as nat, u64::MAX as nat);
    let parts = splitn(line, 5, '|');
    assert(parts =~= seq![id, parent, title, directory, time]);
}

/// The directories that lines tell of are those of each line in turn.
pub proof fn law_recent_directories_in_turn(line: Seq<char>, rest: Seq<Seq<char>>)
    ensures
        recent_lines(Seq::empty()).len() == 0,
        recent_line(line) matches Some(d) ==> recent_lines(seq![line] + rest) == seq![d]
            + recent_lines(rest),
        recent_line(line) is None ==> recent_lines(seq![line] + rest) == recent_lines(rest),
    decreases rest.len(),
{
    let all = seq![line] + rest;
    if rest.len() == 0 {
        assert(all.drop_last() =~= Seq::<Seq<char>>::empty());
        assert(all.last() == line);
        assert(recent_lines(all.drop_last()) =~= Seq::<(Seq<char>, u64)>::empty());
        if let Some(d) = recent_line(line) {
            assert(recent_lines(all) =~= seq![d] + recent_lines(rest));
        }
    } else {
        law_recent_directories_in_turn(line, rest.drop_last());
        assert(all.drop_last() =~= seq![line] + rest.drop_last());
        assert(all.last() == rest.last());
        if let Some(d) = recent_line(line) {
            assert(recent_lines(all) =~= seq![d] + recent_lines(rest));
        }
    }
}

/// A row for a directory reads back: the directory, without white space around it,
/// and the time; a row without a directory tells nothing.
pub proof fn law_recent_row_reads_back(directory: Seq<char>, seen_ms: u64)
    requires
        forall|i: int| 0 <= i < directory.len() ==> #[trigger] directory[i] != '|',
    ensures
        ({
            let line = directory + seq!['|'] + decimal(seen_ms as nat);
            &&& trim(directory).len() > 0 ==> recent_line(line) == Some((trim(directory), seen_ms))
            &&& trim(directory).len() == 0 ==> recent_line(line) is None
            &&& recent_line(directory) is None
        }),
{
    let time = decimal(seen_ms as nat);
    law_bounded_first_piece(directory, '|', time, 2);
    law_bounded_split_keeps_the_rest(time, 1, '|');
    law_bounded_split_keeps_the_rest(directory, 2, '|');
    law_decimal_denotes(seen_ms as nat);
    law_parse_undoes_decimal(seen_ms as nat, u64::MAX as nat);
    let none = Seq::<char>::empty();
    assert(is_digit(time[0]) && is_digit(time[time.len() - 1]));
    assert(none + time + none =~= time);
    law_trim(none, time, none, ' ');
    let parts = splitn(directory + seq!['|'] + time, 2, '|');
    assert(parts =~= seq![directory, time]);
}

/// The processes that lines of ps tell of are those of each line in turn that is
/// about OpenCode.
pub proof fn law_processes_in_turn(line: Seq<char>, rest: Seq<Seq<char>>)
    ensures
        opencode_processes(Seq::empty()).len() == 0,
        about_opencode(line, lowered(line)) && ps_line(line) is Some ==> opencode_processes(
            seq![line] + rest,
        ) == seq![ps_line(line)->0] + opencode_processes(rest),
        !about_opencode(line, lowered(line)) || ps_line(line) is None ==> opencode_processes(
            seq![line] + rest,
        ) == opencode_processes(rest),
    decreases rest.len(),
{
    let all = seq![line] + rest;
    if rest.len() == 0 {
        assert(all.drop_last() =~= Seq::<Seq<char>>::empty());
        assert(all.last() == line);
        assert(opencode_processes(all.drop_last()) =~= Seq::<ProcView>::empty());
        if about_opencode(line, lowered(line)) && ps_line(line) is Some {
            assert(opencode_processes(all) =~= seq![ps_line(line)->0] + opencode_processes(rest));
        }
    } else {
        law_processes_in_turn(line, rest.drop_last());
        assert(all.drop_last() =~= seq![line] + rest.drop_last());
        assert(all.last() == rest.last());
        if about_opencode(line, lowered(line)) && ps_line(line) is Some {
            assert(opencode_processes(all) =~= seq![ps_line(line)->0] + opencode_processes(rest));
        }
    }
}

/// A line of ps is about OpenCode if and only if it names it, whatever the case,
/// and is not that of the search itself.
pub proof fn law_line_is_about_opencode(line: Seq<char>, lower: Seq<char>)
    ensures
        about_opencode(line, lower) <==> contains_text(lower, "opencode"@) && !contains_text(
            line,
            "grep"@,
        ) && !contains_text(line, "ps aux"@),
{
    if contains_text(lower, ".opencode/bin"@) {
        reveal_strlit(".opencode/bin");
        reveal_strlit("opencode");
        assert(".opencode/bin"@.len() == 13 && "opencode"@.len() == 8);
        let i = choose|i: int|
            0 <= i && i + ".opencode/bin"@.len() <= lower.len() && #[trigger] lower.subrange(
                i,
                i + ".opencode/bin"@.len(),
            ) == ".opencode/bin"@;
        let got = lower.subrange(i, i + 13);
        assert(lower.subrange(i + 1, i + 1 + "opencode"@.len()) =~= "opencode"@) by {
            assert forall|j: int| 0 <= j < 8 implies lower[i + 1 + j] == "opencode"@[j] by {
                assert(got[1 + j] == lower[i + 1 + j]);
                assert(".opencode/bin"@[1 + j] == "opencode"@[j]);
            }
        }
    }
}

/// A line of ps names the process in its second word and the command line from its
/// eleventh word on; a shorter line and the heading tell of no process.
pub proof fn law_process_line_by_words(line: Seq<char>, pid: u32)
    ensures
        words(line).len() <= 10 ==> ps_line(line) is None,
        words(line).len() > 0 && words(line)[0] == "USER"@ ==> ps_line(line) is None,
        words(line).len() >= 11 && words(line)[0] != "USER"@ && words(line)[1] == decimal(
            pid as nat,
        ) ==> ps_line(line) == Some(
            ProcView {
                pid,
                cmdline: join(words(line).subrange(10, words(line).len() as int), " "@),
            },
        ),
{
    law_parse_undoes_decimal(pid as nat, u32::MAX as nat);
    if words(line).len() >= 11 {
        assert(words(line).skip(10) =~= words(line).subrange(10, words(line).len() as int));
    }
}

/// A server listens above the first 1024 ports: lesser ports on a command line do
/// not count.
pub proof fn law_server_port_is_above_1024(cmdline: Seq<char>, port: u16)
    ensures
        server_port_in(cmdline) == Some(port) <==> cmdline_port(cmdline) == Some(port) && port
            >= 1025,
        server_port_in(cmdline) is None <==> cmdline_port(cmdline) is None || cmdline_port(
            cmdline,
        )->0 <= 1024,
{
}

/// A terminal is told by its path below `/dev/`, whether or not the answer gives
/// the directory; a blank answer and a question mark tell of none.
pub proof fn law_terminal_is_below_dev(output: Seq<char>)
    ensures
        tty_of(output) is None <==> trim(output).len() == 0 || trim(output) == "?"@,
        tty_of(output) matches Some(t) ==> starts_with(t, "/dev/"@) && (t == trim(output) || t
            == "/dev/"@ + trim(output)),
        tty_of(output) is Some && starts_with(trim(output), "/dev/"@) ==> tty_of(output) == Some(
            trim(output),
        ),
{
    law_parts_are_seen(Seq::empty(), "/dev/"@, trim(output));
}

/// An instance has the process and the place of its session, and the ports of the
/// server.
pub proof fn law_instance_is_of_its_session(
    s: ActiveView,
    port: Option<u16>,
    remote_port: Option<u16>,
)
    ensures
        ({
            let i = instance_of_session(s, port, remote_port);
            &&& i.pid == s.pid
            &&& port matches Some(p) ==> i.port == p
            &&& port is None ==> i.port == 0
            &&& i.remote_port == remote_port
            &&& i.tmux_session == s.tmux_session
            &&& i.tmux_window == s.tmux_window
            &&& i.tmux_window_index == s.tmux_window_index
            &&& i.tmux_pane_index == s.tmux_pane_index
            &&& i.tmux_pane_tty == s.tmux_pane_tty
        }),
{
}

/// In a query a quote stands twice, and everything else as it is.
pub proof fn law_quotes_are_doubled(s: Seq<char>)
    ensures
        in_query(s) == join(split(s, '\''), seq!['\'', '\'']),
        (forall|i: int| 0 <= i < s.len() ==> #[trigger] s[i] != '\'') ==> in_query(s) == s,
{
    reveal_strlit("''");
    assert("''"@ =~= seq!['\'', '\'']);
    law_replace_joins_the_pieces(s, '\'', "''"@);
    if forall|i: int| 0 <= i < s.len() ==> #[trigger] s[i] != '\'' {
        let sep = the_char('\'');
        assert forall|i: int| 0 <= i < s.len() implies !sep(#[trigger] s[i]) by {}
        law_unsplit_text_is_one_piece(s, sep);
    }
}

/// Each question is about its process, its directory or its session.
pub proof fn law_questions_name_their_subject(pid: u32, text: Seq<char>, limit: usize)
    ensures
        starts_with(lsof_question_text(pid), "lsof -a -p "@ + decimal(pid as nat) + " "@),
        starts_with(cwd_question_text(pid), "readlink /proc/"@ + decimal(pid as nat) + "/cwd"@),
        starts_with(tty_question_text(pid), "ps -p "@ + decimal(pid as nat) + " "@),
        starts_with(project_question_text(text), "git -C '"@ + inside_quotes(text) + "'"@),
        contains_text(latest_question_text(text), in_query(text)),
        ends_with(
            latest_question_text(text),
            "' AND parent_id IS NULL ORDER BY time_updated DESC LIMIT 1\""@,
        ),
        contains_text(tree_question_text(text), in_query(text)),
        contains_text(parts_question_text(text), in_query(text)),
        ends_with(parts_question_text(text), "' ORDER BY time_updated DESC LIMIT 32\""@),
        ends_with(recent_question_text(limit), decimal(limit as nat) + "\""@),
{
    let n = decimal(pid as nat);
    let none = Seq::<char>::empty();
    reveal_strlit(" -i -P -n 2>/dev/null || true");
    reveal_strlit(" ");
    reveal_strlit("/cwd");
    reveal_strlit("/cwd 2>/dev/null || lsof -a -p ");
    reveal_strlit(" -o tty= 2>/dev/null | tr -d ' '");
    reveal_strlit("'");
    reveal_strlit("' rev-list --max-parents=0 HEAD 2>/dev/null | sort | head -1");
    let a = lsof_question_text(pid);
    let ah = "lsof -a -p "@ + n + " "@;
    assert(a.take(ah.len() as int) =~= ah);
    let b = cwd_question_text(pid);
    let bh = "readlink /proc/"@ + n + "/cwd"@;
    assert(b.take(bh.len() as int) =~= bh);
    let c = tty_question_text(pid);
    let ch = "ps -p "@ + n + " "@;
    assert(c.take(ch.len() as int) =~= ch);
    let d = project_question_text(text);
    let dh = "git -C '"@ + inside_quotes(text) + "'"@;
    assert(d.take(dh.len() as int) =~= dh);
    let q = in_query(text);
    let lh = "sqlite3 -separator '|' ~/.local/share/opencode/opencode.db \"SELECT id, COALESCE(parent_id, ''), title, directory, time_updated FROM session WHERE project_id = '"@;
    let lt = "' AND parent_id IS NULL ORDER BY time_updated DESC LIMIT 1\""@;
    law_parts_are_seen(lh, q, lt);
    law_parts_are_seen(lh + q, lt, none);
    let th = "sqlite3 -separator '|' ~/.local/share/opencode/opencode.db \"WITH RECURSIVE session_tree(id, parent_id, title, directory, time_updated) AS ( SELECT id, parent_id, title, directory, time_updated FROM session WHERE id = '"@;
    let tt = "' UNION ALL SELECT child.id, child.parent_id, child.title, child.directory, child.time_updated FROM session child JOIN session_tree parent ON child.parent_id = parent.id ) SELECT id, COALESCE(parent_id, ''), title, directory, time_updated FROM session_tree ORDER BY CASE WHEN parent_id IS NULL THEN 0 ELSE 1 END, time_updated DESC\""@;
    law_parts_are_seen(th, q, tt);
    let ph = "sqlite3 ~/.local/share/opencode/opencode.db \"SELECT hex(data) FROM part WHERE session_id = '"@;
    let pt = "' ORDER BY time_updated DESC LIMIT 32\""@;
    law_parts_are_seen(ph, q, pt);
    law_parts_are_seen(ph + q, pt, none);
    let r = recent_question_text(limit);
    let rt = decimal(limit as nat) + "\""@;
    assert(r.skip(r.len() - rt.len()) =~= rt);
}

} // verus!
