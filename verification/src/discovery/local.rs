//! OpenCode processes in the panes of the local tmux.

use vstd::prelude::*;
use vstd::string::*;

use crate::discovery::panes::{
    lsof_port_in, number16, number32, discover_port_from_lsof, pane_views, DiscoveredInstance,
    InstanceView, PaneView, TmuxPane,
};
use crate::text::{
    chars_eq, chars_of, clone_chars, contains_text, decimal, join, join_chars,
    law_parse_undoes_decimal, law_parts_are_seen, lemma_texts_push, lines, lines_of, lowered,
    number_text, parse_number, starts_with, str_eq, strip_prefix, sub_chars, text_contains, texts,
    to_lower, words, words_of,
};
use crate::tui::interaction::slice_text;

verus! {

/// Whether a command is OpenCode, by its name in lower case.
pub open spec fn opencode_name(lower: Seq<char>) -> bool {
    contains_text(lower, "opencode"@) || lower == "oc"@
}

/// Whether a command is OpenCode, by its name in lower case.
pub fn is_opencode_name(lower: &str) -> (r: bool)
    ensures
        r == opencode_name(lower@),
{
    text_contains(lower, "opencode") || str_eq(lower, "oc")
}

/// Whether the command of a pane is OpenCode, whatever the case of its name.
pub fn is_opencode_command(cmd: &str) -> (r: bool)
    ensures
        r == opencode_name(lowered(cmd@)),
{
    is_opencode_name(to_lower(cmd).as_str())
}

// ---------------------------------------------------------------------------
// The process below a shell
// ---------------------------------------------------------------------------

/// A line of ps: a process, its parent, and whether it is OpenCode.
pub struct PsRow {
    pub pid_text: Vec<char>,
    pub pid: Option<u32>,
    pub ppid: Option<u32>,
    pub opencode: bool,
}

/// A line of ps as values.
#[verifier::ext_equal]
pub struct PsRowView {
    pub pid_text: Seq<char>,
    pub pid: Option<u32>,
    pub ppid: Option<u32>,
    pub opencode: bool,
}

impl View for PsRow {
    type V = PsRowView;

    open spec fn view(&self) -> PsRowView {
        PsRowView {
            pid_text: self.pid_text@,
            pid: self.pid,
            ppid: self.ppid,
            opencode: self.opencode,
        }
    }
}

/// The number of a process that a text denotes.
pub open spec fn pid_of(s: Seq<char>) -> Option<u32> {
    match parse_number(s, u32::MAX as nat) {
        Some(n) => Some(n as u32),
        None => None,
    }
}

/// What a line of ps tells: the process, its parent, and its command line in at
/// least one word.
pub open spec fn ps_row(line: Seq<char>) -> Option<PsRowView> {
    let ws = words(line);
    if ws.len() < 3 {
        None
    } else {
        let args = lowered(join(ws.skip(2), " "@));
        Some(
            PsRowView {
                pid_text: ws[0],
                pid: pid_of(ws[0]),
                ppid: pid_of(ws[1]),
                opencode: contains_text(args, "opencode"@) || contains_text(
                    args,
                    "/.opencode/"@,
                ),
            },
        )
    }
}

/// What lines of ps tell, in their order.
pub open spec fn ps_rows(lines: Seq<Seq<char>>) -> Seq<PsRowView>
    decreases lines.len(),
{
    if lines.len() == 0 {
        Seq::empty()
    } else {
        match ps_row(lines.last()) {
            Some(row) => ps_rows(lines.drop_last()).push(row),
            None => ps_rows(lines.drop_last()),
        }
    }
}

/// The views of lines of ps.
pub open spec fn row_views(rows: Seq<PsRow>) -> Seq<PsRowView> {
    Seq::new(rows.len(), |k: int| rows[k]@)
}

/// Whether a process is OpenCode.
pub open spec fn opencode_pid(rows: Seq<PsRowView>, pid: u32) -> bool {
    exists|k: int|
        0 <= k < rows.len() && (#[trigger] rows[k]).pid_text == decimal(pid as nat)
            && rows[k].opencode
}

/// The first OpenCode process below a process, from the row `from` on: children
/// in their order, each before the processes below it, to a depth.
pub open spec fn below(rows: Seq<PsRowView>, parent: u32, from: nat, depth: nat) -> Option<u32>
    decreases depth, rows.len() - from,
{
    if depth == 0 || from >= rows.len() {
        None
    } else {
        let row = rows[from as int];
        if row.ppid == Some(parent) && row.pid is Some {
            let child = row.pid->0;
            if opencode_pid(rows, child) {
                Some(child)
            } else {
                match below(rows, child, 0, (depth - 1) as nat) {
                    Some(found) => Some(found),
                    None => below(rows, parent, from + 1, depth),
                }
            }
        } else {
            below(rows, parent, from + 1, depth)
        }
    }
}

/// The first OpenCode process below a process: no way down is longer than the
/// number of processes.
pub open spec fn opencode_below(rows: Seq<PsRowView>, parent: u32) -> Option<u32> {
    below(rows, parent, 0, rows.len())
}

/// Whether every process has a lower rank than its parent, so that none is
/// below itself.
pub open spec fn ranked(rows: Seq<PsRowView>, rank: spec_fn(u32) -> nat) -> bool {
    forall|k: int|
        0 <= k < rows.len() && (#[trigger] rows[k]).pid is Some && rows[k].ppid is Some ==> rank(
            rows[k].pid->0,
        ) < rank(rows[k].ppid->0)
}

/// Depths that are at least the rank of a process find the same below it.
proof fn lemma_depths_agree(
    rows: Seq<PsRowView>,
    rank: spec_fn(u32) -> nat,
    parent: u32,
    from: nat,
    d1: nat,
    d2: nat,
)
    requires
        ranked(rows, rank),
        rank(parent) <= d1,
        rank(parent) <= d2,
    ensures
        below(rows, parent, from, d1) == below(rows, parent, from, d2),
    decreases rank(parent), rows.len() - from,
{
    if from < rows.len() {
        let row = rows[from as int];
        if row.ppid == Some(parent) && row.pid is Some {
            let child = row.pid->0;
            assert(rank(child) < rank(parent));
            lemma_depths_agree(rows, rank, child, 0, (d1 - 1) as nat, (d2 - 1) as nat);
        }
        lemma_depths_agree(rows, rank, parent, from + 1, d1, d2);
    }
}

/// How many rows are about processes of a rank below `r`.
spec fn lower_rows(rows: Seq<PsRowView>, rank: spec_fn(u32) -> nat, r: nat) -> nat
    decreases rows.len(),
{
    if rows.len() == 0 {
        0
    } else {
        let before = lower_rows(rows.drop_last(), rank, r);
        match rows.last().pid {
            Some(pid) => if rank(pid) < r {
                before + 1
            } else {
                before
            },
            None => before,
        }
    }
}

/// Fewer rows are below a lower rank, where some row is between the two.
proof fn lemma_lower_rows(rows: Seq<PsRowView>, rank: spec_fn(u32) -> nat, r1: nat, r2: nat)
    requires
        r1 <= r2,
    ensures
        lower_rows(rows, rank, r1) <= lower_rows(rows, rank, r2) <= rows.len(),
        (exists|k: int|
            0 <= k < rows.len() && (#[trigger] rows[k]).pid is Some && r1 <= rank(rows[k].pid->0)
                < r2) ==> lower_rows(rows, rank, r1) < lower_rows(rows, rank, r2),
    decreases rows.len(),
{
    if rows.len() > 0 {
        let head = rows.drop_last();
        lemma_lower_rows(head, rank, r1, r2);
        if exists|k: int|
            0 <= k < rows.len() && (#[trigger] rows[k]).pid is Some && r1 <= rank(rows[k].pid->0)
                < r2 {
            let k = choose|k: int|
                0 <= k < rows.len() && (#[trigger] rows[k]).pid is Some && r1 <= rank(
                    rows[k].pid->0,
                ) < r2;
            if k < head.len() {
                assert(head[k] == rows[k]);
            }
        }
    }
}

/// Where no process is below itself, the depth of the search cuts nothing off: a
/// deeper one finds nothing else.
pub proof fn law_depth_cuts_nothing_off(
    rows: Seq<PsRowView>,
    rank: spec_fn(u32) -> nat,
    parent: u32,
    depth: nat,
)
    requires
        ranked(rows, rank),
        depth >= rows.len(),
    ensures
        below(rows, parent, 0, depth) == opencode_below(rows, parent),
{
    let few = |pid: u32| lower_rows(rows, rank, rank(pid));
    assert forall|k: int|
        0 <= k < rows.len() && (#[trigger] rows[k]).pid is Some && rows[k].ppid is Some implies few(
        rows[k].pid->0,
    ) < few(rows[k].ppid->0) by {
        lemma_lower_rows(rows, rank, rank(rows[k].pid->0), rank(rows[k].ppid->0));
    }
    lemma_lower_rows(rows, rank, rank(parent), rank(parent));
    lemma_depths_agree(rows, few, parent, 0, depth, rows.len());
}

/// What is found is OpenCode.
pub proof fn law_found_is_opencode(rows: Seq<PsRowView>, parent: u32, from: nat, depth: nat)
    ensures
        below(rows, parent, from, depth) matches Some(pid) ==> opencode_pid(rows, pid),
    decreases depth, rows.len() - from,
{
    if depth > 0 && from < rows.len() {
        let row = rows[from as int];
        if row.ppid == Some(parent) && row.pid is Some {
            law_found_is_opencode(rows, row.pid->0, 0, (depth - 1) as nat);
        }
        law_found_is_opencode(rows, parent, from + 1, depth);
    }
}

/// What a line of ps tells.
fn parse_ps_row(line: &Vec<char>) -> (r: Option<PsRow>)
    ensures
        match r {
            Some(row) => ps_row(line@) == Some(row@),
            None => ps_row(line@) is None,
        },
{
    let ws = words_of(line);
    let ghost want = words(line@);
    let n: usize = ws.len();
    if n < 3 {
        return None;
    }
    let mut tail: Vec<Vec<char>> = Vec::new();
    assert(texts(tail@) =~= want.skip(2).take(0));
    for k in 2..n
        invariant
            n == ws@.len(),
            n >= 3,
            texts(ws@) == want,
            texts(tail@) == want.skip(2).take(k - 2),
    {
        let word = clone_chars(&ws[k]);
        proof {
            lemma_texts_push(tail@, word);
        }
        tail.push(word);
        assert(want[k as int] == ws@[k as int]@);
        assert(texts(tail@) =~= want.skip(2).take(k - 1));
    }
    assert(want.skip(2).take(n - 2) =~= want.skip(2));
    let args = to_lower(join_chars(&tail, " ").as_str());
    let opencode = text_contains(args.as_str(), "opencode") || text_contains(
        args.as_str(),
        "/.opencode/",
    );
    assert(want[0] == ws@[0]@);
    assert(want[1] == ws@[1]@);
    let pid = number32(&ws[0]);
    let ppid = number32(&ws[1]);
    Some(PsRow { pid_text: clone_chars(&ws[0]), pid, ppid, opencode })
}

/// What ps tells.
pub fn parse_ps_rows(ps_output: &str) -> (r: Vec<PsRow>)
    ensures
        row_views(r@) == ps_rows(lines(ps_output@)),
{
    let chars = chars_of(ps_output);
    let all = lines_of(&chars);
    let ghost ls = lines(ps_output@);
    let mut out: Vec<PsRow> = Vec::new();
    assert(row_views(out@) =~= ps_rows(ls.take(0)));
    for i in 0..all.len()
        invariant
            texts(all@) == ls,
            row_views(out@) == ps_rows(ls.take(i as int)),
    {
        assert(ls[i as int] == all@[i as int]@);
        assert(ls.take(i + 1).drop_last() =~= ls.take(i as int));
        let ghost before = out@;
        match parse_ps_row(&all[i]) {
            Some(row) => {
                out.push(row);
                assert(row_views(out@) =~= row_views(before).push(row@));
            },
            None => {},
        }
    }
    assert(ls.take(ls.len() as int) =~= ls);
    out
}

/// Whether a process is OpenCode.
pub fn is_opencode_pid(rows: &Vec<PsRow>, pid: u32) -> (r: bool)
    ensures
        r == opencode_pid(row_views(rows@), pid),
{
    let text = chars_of(number_text(pid as u64).as_str());
    let ghost rv = row_views(rows@);
    for k in 0..rows.len()
        invariant
            text@ == decimal(pid as nat),
            rv == row_views(rows@),
            forall|j: int|
                0 <= j < k ==> !((#[trigger] rv[j]).pid_text == decimal(pid as nat)
                    && rv[j].opencode),
    {
        assert(rv[k as int] == rows@[k as int]@);
        if rows[k].opencode && chars_eq(&rows[k].pid_text, &text) {
            return true;
        }
    }
    false
}

/// The first OpenCode process below a process, to a depth.
fn find_opencode_child_recursive(rows: &Vec<PsRow>, parent_pid: u32, depth: usize) -> (r: Option<
    u32,
>)
    ensures
        r == below(row_views(rows@), parent_pid, 0, depth as nat),
    decreases depth,
{
    if depth == 0 {
        return None;
    }
    let ghost rv = row_views(rows@);
    let mut k: usize = 0;
    while k < rows.len()
        invariant
            k <= rows@.len(),
            depth > 0,
            rv == row_views(rows@),
            below(rv, parent_pid, 0, depth as nat) == below(
                rv,
                parent_pid,
                k as nat,
                depth as nat,
            ),
        decreases rows@.len() - k,
    {
        assert(rv[k as int] == rows@[k as int]@);
        match (rows[k].pid, rows[k].ppid) {
            (Some(child), Some(ppid)) => {
                if ppid == parent_pid {
                    if is_opencode_pid(rows, child) {
                        return Some(child);
                    }
                    match find_opencode_child_recursive(rows, child, depth - 1) {
                        Some(found) => {
                            return Some(found);
                        },
                        None => {},
                    }
                }
            },
            _ => {},
        }
        k = k + 1;
    }
    None
}

/// The first OpenCode process below the shell of a pane, by what ps tells.
pub fn find_opencode_child_pid(ps_output: &str, shell_pid: u32) -> (r: Option<u32>)
    ensures
        r == opencode_below(ps_rows(lines(ps_output@)), shell_pid),
{
    let rows = parse_ps_rows(ps_output);
    find_opencode_child_recursive(&rows, shell_pid, rows.len())
}

// ---------------------------------------------------------------------------
// Ports
// ---------------------------------------------------------------------------

/// What a command line gives as the port, from the word `from` on.
pub open spec fn port_text(ws: Seq<Seq<char>>, from: nat) -> Option<Seq<char>>
    decreases ws.len() - from,
{
    if from >= ws.len() {
        None
    } else if ws[from as int] == "--port"@ {
        if from + 1 < ws.len() {
            Some(ws[(from + 1) as int])
        } else {
            None
        }
    } else {
        match strip_prefix(ws[from as int], "--port="@) {
            Some(t) => Some(t),
            None => port_text(ws, from + 1),
        }
    }
}

/// The port that a command line gives.
pub open spec fn cmdline_port(cmdline: Seq<char>) -> Option<u16> {
    match port_text(words(cmdline), 0) {
        Some(t) => match parse_number(t, u16::MAX as nat) {
            Some(p) => Some(p as u16),
            None => None,
        },
        None => None,
    }
}

/// What follows a prefix.
fn after_prefix(s: &Vec<char>, p: &Vec<char>) -> (r: Option<Vec<char>>)
    ensures
        match r {
            Some(t) => strip_prefix(s@, p@) == Some(t@),
            None => strip_prefix(s@, p@) is None,
        },
{
    if s.len() < p.len() {
        return None;
    }
    let head = sub_chars(s, 0, p.len());
    assert(head@ =~= s@.take(p@.len() as int));
    if !chars_eq(&head, p) {
        return None;
    }
    let tail = sub_chars(s, p.len(), s.len());
    assert(tail@ =~= s@.skip(p@.len() as int));
    Some(tail)
}

/// The port that a command line gives.
pub fn discover_port_from_cmdline(args: &str) -> (r: Option<u16>)
    ensures
        r == cmdline_port(args@),
{
    let chars = chars_of(args);
    let ws = words_of(&chars);
    let ghost want = words(args@);
    let flag = chars_of("--port");
    let prefix = chars_of("--port=");
    let mut i: usize = 0;
    while i < ws.len()
        invariant
            i <= ws@.len(),
            texts(ws@) == want,
            want == words(args@),
            flag@ == "--port"@,
            prefix@ == "--port="@,
            port_text(want, 0) == port_text(want, i as nat),
        decreases ws@.len() - i,
    {
        assert(want[i as int] == ws@[i as int]@);
        if chars_eq(&ws[i], &flag) {
            if i < ws.len() - 1 {
                assert(want[i + 1] == ws@[i + 1]@);
                return number16(&ws[i + 1]);
            }
            return None;
        }
        match after_prefix(&ws[i], &prefix) {
            Some(t) => {
                return number16(&t);
            },
            None => {},
        }
        i = i + 1;
    }
    None
}

/// The port of a process: what lsof tells, else what its command line gives.
pub open spec fn told_port(lsof: Option<Seq<char>>, cmdline: Option<Seq<char>>) -> Option<u16> {
    let given = match cmdline {
        Some(args) => cmdline_port(args),
        None => None,
    };
    match lsof {
        Some(text) => match lsof_port_in(lines(text), 0) {
            Some(port) => Some(port),
            None => given,
        },
        None => given,
    }
}

/// The port of a process: what lsof tells, else what its command line gives.
pub fn discover_port_for_pid(lsof: Option<&str>, cmdline: Option<&str>) -> (r: Option<u16>)
    ensures
        r == told_port(slice_text(lsof), slice_text(cmdline)),
{
    match lsof {
        Some(text) => {
            match discover_port_from_lsof(text) {
                Some(port) => {
                    return Some(port);
                },
                None => {},
            }
        },
        None => {},
    }
    match cmdline {
        Some(args) => discover_port_from_cmdline(args),
        None => None,
    }
}

// ---------------------------------------------------------------------------
// Instances
// ---------------------------------------------------------------------------

/// What was found out about the process in a pane.
#[derive(Clone, Copy, Debug, PartialEq, Eq, Structural)]
pub struct PaneProbe {
    /// The OpenCode process below the pane's shell, if there is one.
    pub child: Option<u32>,
    /// Its port, or that of the shell where there is none.
    pub port: Option<u16>,
}

/// The process in a pane.
pub open spec fn instance_in(pane: PaneView, probe: PaneProbe, port: u16) -> InstanceView {
    InstanceView {
        pid: match probe.child {
            Some(pid) => pid,
            None => pane.pid,
        },
        port,
        remote_port: None,
        tmux_session: Some(pane.session),
        tmux_window: Some(pane.window),
        tmux_window_index: Some(pane.window_index),
        tmux_pane_index: Some(pane.index),
        tmux_pane_tty: Some(pane.tty),
    }
}

/// The processes in panes whose command is OpenCode and whose port is known.
pub open spec fn instances_in(panes: Seq<PaneView>, probes: Seq<PaneProbe>) -> Seq<InstanceView>
    decreases panes.len(),
{
    if panes.len() == 0 {
        Seq::empty()
    } else {
        let before = instances_in(panes.drop_last(), probes.drop_last());
        let pane = panes.last();
        let probe = probes.last();
        if opencode_name(lowered(pane.command)) && probe.port is Some {
            before.push(instance_in(pane, probe, probe.port->0))
        } else {
            before
        }
    }
}

/// The views of processes.
pub open spec fn instance_views(v: Seq<DiscoveredInstance>) -> Seq<InstanceView> {
    Seq::new(v.len(), |k: int| v[k]@)
}

/// The OpenCode processes in panes, each of which was looked into.
pub fn scan_local_tmux(panes: &Vec<TmuxPane>, probes: &Vec<PaneProbe>) -> (r: Vec<
    DiscoveredInstance,
>)
    requires
        panes@.len() == probes@.len(),
    ensures
        instance_views(r@) == instances_in(pane_views(panes@), probes@),
{
    let ghost pv = pane_views(panes@);
    let mut out: Vec<DiscoveredInstance> = Vec::new();
    assert(instance_views(out@) =~= instances_in(pv.take(0), probes@.take(0)));
    for i in 0..panes.len()
        invariant
            panes@.len() == probes@.len(),
            pv == pane_views(panes@),
            instance_views(out@) == instances_in(pv.take(i as int), probes@.take(i as int)),
    {
        assert(pv[i as int] == panes@[i as int]@);
        assert(pv.take(i + 1).drop_last() =~= pv.take(i as int));
        assert(probes@.take(i + 1).drop_last() =~= probes@.take(i as int));
        let pane = &panes[i];
        let ghost before = out@;
        if is_opencode_command(pane.pane_current_command.as_str()) {
            match probes[i].port {
                Some(port) => {
                    let pid: u32 = match probes[i].child {
                        Some(pid) => pid,
                        None => pane.pane_pid,
                    };
                    let instance = DiscoveredInstance {
                        pid,
                        port,
                        remote_port: None,
                        tmux_session: Some(pane.session_name.clone()),
                        tmux_window: Some(pane.window_name.clone()),
                        tmux_window_index: Some(pane.window_index),
                        tmux_pane_index: Some(pane.pane_index),
                        tmux_pane_tty: Some(pane.pane_tty.clone()),
                    };
                    out.push(instance);
                    assert(instance_views(out@) =~= instance_views(before).push(instance@));
                },
                None => {},
            }
        }
    }
    assert(pv.take(pv.len() as int) =~= pv);
    assert(probes@.take(probes@.len() as int) =~= probes@);
    out
}

/// Whether a process is a child of another one, by some row.
pub open spec fn is_child(rows: Seq<PsRowView>, parent: u32, child: u32) -> bool {
    exists|k: int|
        0 <= k < rows.len() && (#[trigger] rows[k]).pid == Some(child) && rows[k].ppid == Some(
            parent,
        )
}

/// Whether processes are a way down from a process: its child, a child of that,
/// and so on.
pub open spec fn is_way_down(rows: Seq<PsRowView>, parent: u32, way: Seq<u32>) -> bool {
    forall|k: int|
        0 <= k < way.len() ==> is_child(
            rows,
            if k == 0 {
                parent
            } else {
                way[k - 1]
            },
            #[trigger] way[k],
        )
}

/// A search from a row on, deep enough for a way down that starts at that row or
/// later and ends in OpenCode, finds something.
proof fn lemma_way_down_is_found(
    rows: Seq<PsRowView>,
    parent: u32,
    way: Seq<u32>,
    start: int,
    from: nat,
    depth: nat,
)
    requires
        0 < way.len() <= depth,
        is_way_down(rows, parent, way),
        opencode_pid(rows, way.last()),
        from <= start < rows.len(),
        rows[start].pid == Some(way[0]),
        rows[start].ppid == Some(parent),
    ensures
        below(rows, parent, from, depth) is Some,
    decreases way.len(), start - from,
{
    if from < start {
        lemma_way_down_is_found(rows, parent, way, start, from + 1, depth);
    } else if way.len() > 1 {
        let rest = way.skip(1);
        assert(way[1] == rest[0]);
        assert(is_child(rows, way[0], way[1]));
        let next = choose|k: int|
            0 <= k < rows.len() && (#[trigger] rows[k]).pid == Some(way[1]) && rows[k].ppid == Some(
                way[0],
            );
        assert forall|k: int| 0 <= k < rest.len() implies is_child(
            rows,
            if k == 0 {
                way[0]
            } else {
                rest[k - 1]
            },
            #[trigger] rest[k],
        ) by {
            assert(rest[k] == way[k + 1]);
            if k > 0 {
                assert(rest[k - 1] == way[k]);
            }
        }
        lemma_way_down_is_found(rows, way[0], rest, next, 0, (depth - 1) as nat);
    }
}

/// Where some process below a process is OpenCode, at the end of a way down no
/// longer than the number of rows, the search finds one: it finds none only where
/// no child, no grandchild and so on is OpenCode.
pub proof fn law_opencode_below_is_found(rows: Seq<PsRowView>, parent: u32, way: Seq<u32>)
    requires
        0 < way.len() <= rows.len(),
        is_way_down(rows, parent, way),
        opencode_pid(rows, way.last()),
    ensures
        opencode_below(rows, parent) is Some,
{
    assert(is_child(rows, parent, way[0]));
    let start = choose|k: int|
        0 <= k < rows.len() && (#[trigger] rows[k]).pid == Some(way[0]) && rows[k].ppid == Some(
            parent,
        );
    lemma_way_down_is_found(rows, parent, way, start, 0, rows.len());
}

/// What is found is at the end of a way down from the process.
pub proof fn law_found_is_below(rows: Seq<PsRowView>, parent: u32, from: nat, depth: nat)
    ensures
        below(rows, parent, from, depth) matches Some(pid) ==> exists|way: Seq<u32>|
            0 < way.len() <= depth && #[trigger] is_way_down(rows, parent, way) && way.last()
                == pid,
    decreases depth, rows.len() - from,
{
    if depth > 0 && from < rows.len() {
        let row = rows[from as int];
        if row.ppid == Some(parent) && row.pid is Some {
            let child = row.pid->0;
            assert(is_child(rows, parent, child));
            if opencode_pid(rows, child) {
                let way = seq![child];
                assert(is_way_down(rows, parent, way) && way.last() == child);
            } else if below(rows, child, 0, (depth - 1) as nat) is Some {
                law_found_is_below(rows, child, 0, (depth - 1) as nat);
                let found = below(rows, child, 0, (depth - 1) as nat)->0;
                let rest = choose|way: Seq<u32>|
                    0 < way.len() <= depth - 1 && #[trigger] is_way_down(rows, child, way)
                        && way.last() == found;
                let way = seq![child] + rest;
                assert forall|k: int| 0 <= k < way.len() implies is_child(
                    rows,
                    if k == 0 {
                        parent
                    } else {
                        way[k - 1]
                    },
                    #[trigger] way[k],
                ) by {
                    if k > 0 {
                        assert(way[k] == rest[k - 1]);
                        if k > 1 {
                            assert(way[k - 1] == rest[k - 2]);
                        }
                    }
                }
                assert(is_way_down(rows, parent, way) && way.last() == found);
            } else {
                law_found_is_below(rows, parent, from + 1, depth);
            }
        } else {
            law_found_is_below(rows, parent, from + 1, depth);
        }
    }
}

/// Children are searched in the order of their rows: what is found is the first
/// child that is OpenCode or has OpenCode below it, itself before what is below.
pub proof fn law_first_child_first(
    rows: Seq<PsRowView>,
    parent: u32,
    from: nat,
    first: nat,
    depth: nat,
)
    requires
        depth > 0,
        from <= first < rows.len(),
        rows[first as int].ppid == Some(parent),
        rows[first as int].pid is Some,
        forall|k: int|
            from <= k < first && (#[trigger] rows[k]).ppid == Some(parent) && rows[k].pid is Some
                ==> !opencode_pid(rows, rows[k].pid->0) && below(
                rows,
                rows[k].pid->0,
                0,
                (depth - 1) as nat,
            ) is None,
    ensures
        ({
            let child = rows[first as int].pid->0;
            let deeper = below(rows, child, 0, (depth - 1) as nat);
            &&& opencode_pid(rows, child) ==> below(rows, parent, from, depth) == Some(child)
            &&& !opencode_pid(rows, child) && deeper is Some ==> below(rows, parent, from, depth)
                == deeper
        }),
    decreases first - from,
{
    if from < first {
        law_first_child_first(rows, parent, from + 1, first, depth);
    }
}

/// A process is OpenCode if and only if some row has its number, as ps writes it,
/// and a command line that names OpenCode, whatever its case.
pub proof fn law_opencode_by_command_line(lines: Seq<Seq<char>>, pid: u32)
    ensures
        opencode_pid(ps_rows(lines), pid) <==> exists|k: int|
            0 <= k < lines.len() && words(#[trigger] lines[k]).len() >= 3 && words(lines[k])[0]
                == decimal(pid as nat) && contains_text(
                lowered(join(words(lines[k]).skip(2), " "@)),
                "opencode"@,
            ),
    decreases lines.len(),
{
    if lines.len() > 0 {
        let head = lines.drop_last();
        let last = lines.last();
        let before = ps_rows(head);
        let rows = ps_rows(lines);
        law_opencode_by_command_line(head, pid);
        if words(last).len() >= 3 {
            lemma_marks_agree(last);
        }
        if opencode_pid(before, pid) {
            let k = choose|k: int|
                0 <= k < before.len() && (#[trigger] before[k]).pid_text == decimal(pid as nat)
                    && before[k].opencode;
            assert(rows[k] == before[k]);
            let j = choose|j: int|
                0 <= j < head.len() && words(#[trigger] head[j]).len() >= 3 && words(head[j])[0]
                    == decimal(pid as nat) && contains_text(
                    lowered(join(words(head[j]).skip(2), " "@)),
                    "opencode"@,
                );
            assert(lines[j] == head[j]);
        } else {
            if opencode_pid(rows, pid) {
                let k = choose|k: int|
                    0 <= k < rows.len() && (#[trigger] rows[k]).pid_text == decimal(pid as nat)
                        && rows[k].opencode;
                if k < before.len() {
                    assert(before[k] == rows[k]);
                }
                assert(lines[lines.len() - 1] == last);
            }
            if exists|k: int|
                0 <= k < lines.len() && words(#[trigger] lines[k]).len() >= 3 && words(lines[k])[0]
                    == decimal(pid as nat) && contains_text(
                    lowered(join(words(lines[k]).skip(2), " "@)),
                    "opencode"@,
                ) {
                let k = choose|k: int|
                    0 <= k < lines.len() && words(#[trigger] lines[k]).len() >= 3 && words(
                        lines[k],
                    )[0] == decimal(pid as nat) && contains_text(
                        lowered(join(words(lines[k]).skip(2), " "@)),
                        "opencode"@,
                    );
                if k < head.len() {
                    assert(head[k] == lines[k]);
                }
                assert(rows[rows.len() - 1].opencode);
            }
        }
    }
}

/// A command line that names the directory of OpenCode names OpenCode.
proof fn lemma_marks_agree(line: Seq<char>)
    requires
        words(line).len() >= 3,
    ensures
        ps_row(line)->0.opencode == contains_text(
            lowered(join(words(line).skip(2), " "@)),
            "opencode"@,
        ),
{
    let args = lowered(join(words(line).skip(2), " "@));
    if contains_text(args, "/.opencode/"@) {
        reveal_strlit("/.opencode/");
        reveal_strlit("opencode");
        let i = choose|i: int|
            0 <= i && i + "/.opencode/"@.len() <= args.len() && #[trigger] args.subrange(
                i,
                i + "/.opencode/"@.len(),
            ) == "/.opencode/"@;
        let got = args.subrange(i, i + 11);
        assert(args.subrange(i + 2, i + 2 + "opencode"@.len()) =~= "opencode"@) by {
            assert("/.opencode/"@.len() == 11 && "opencode"@.len() == 8);
            assert forall|j: int| 0 <= j < 8 implies args[i + 2 + j] == "opencode"@[j] by {
                assert(got[2 + j] == args[i + 2 + j]);
                assert("/.opencode/"@[2 + j] == "opencode"@[j]);
            }
        }
    }
}

/// What follows the first `--port` of a command line, or stands behind the first
/// `--port=` where that comes before, is what the line gives as the port.
pub proof fn law_first_port_counts(ws: Seq<Seq<char>>, from: nat, at: nat)
    requires
        from <= at < ws.len(),
        forall|k: int|
            from <= k < at ==> #[trigger] ws[k] != "--port"@ && !starts_with(ws[k], "--port="@),
    ensures
        ws[at as int] == "--port"@ && at + 1 < ws.len() ==> port_text(ws, from) == Some(
            ws[(at + 1) as int],
        ),
        ws[at as int] == "--port"@ && at + 1 == ws.len() ==> port_text(ws, from) is None,
        forall|t: Seq<char>|
            ws[at as int] == #[trigger] ("--port="@ + t) ==> port_text(ws, from) == Some(t),
    decreases at - from,
{
    if from < at {
        law_first_port_counts(ws, from + 1, at);
    } else {
        reveal_strlit("--port");
        reveal_strlit("--port=");
        assert("--port"@.len() == 6 && "--port="@.len() == 7);
        assert forall|t: Seq<char>| ws[at as int] == #[trigger] ("--port="@ + t) implies port_text(
            ws,
            from,
        ) == Some(t) by {
            let w = "--port="@ + t;
            assert(w.take(7) =~= "--port="@);
            assert(w.skip(7) =~= t);
            assert(w != "--port"@);
        }
    }
}

/// A command line in which no word is `--port` or begins with `--port=` gives no
/// port; neither does one whose port is no number up to 65535.
pub proof fn law_no_port_without_the_option(cmdline: Seq<char>)
    ensures
        (forall|k: int|
            0 <= k < words(cmdline).len() ==> #[trigger] words(cmdline)[k] != "--port"@
                && !starts_with(words(cmdline)[k], "--port="@)) ==> cmdline_port(cmdline) is None,
        match port_text(words(cmdline), 0) {
            Some(t) => match parse_number(t, 65535) {
                Some(n) => cmdline_port(cmdline) == Some(n as u16),
                None => cmdline_port(cmdline) is None,
            },
            None => cmdline_port(cmdline) is None,
        },
{
    if forall|k: int|
        0 <= k < words(cmdline).len() ==> #[trigger] words(cmdline)[k] != "--port"@
            && !starts_with(words(cmdline)[k], "--port="@) {
        lemma_no_port(words(cmdline), 0);
    }
}

proof fn lemma_no_port(ws: Seq<Seq<char>>, from: nat)
    requires
        forall|k: int|
            0 <= k < ws.len() ==> #[trigger] ws[k] != "--port"@ && !starts_with(ws[k], "--port="@),
    ensures
        port_text(ws, from) is None,
    decreases ws.len() - from,
{
    if from < ws.len() {
        assert(ws[from as int] != "--port"@);
        lemma_no_port(ws, from + 1);
    }
}

/// An instance is found in a pane if and only if the pane's command is OpenCode
/// and a port is known; it has the port and the place of the pane, and the
/// process below the pane's shell where there is one, else that of the shell.
pub proof fn law_instances_are_of_panes(panes: Seq<PaneView>, probes: Seq<PaneProbe>)
    requires
        panes.len() == probes.len(),
    ensures
        forall|k: int|
            #![trigger panes[k]]
            0 <= k < panes.len() && opencode_name(lowered(panes[k].command)) && probes[k].port
                is Some ==> exists|j: int|
                0 <= j < instances_in(panes, probes).len() && is_instance_of(
                    #[trigger] instances_in(panes, probes)[j],
                    panes[k],
                    probes[k],
                ),
        forall|j: int|
            0 <= j < instances_in(panes, probes).len() ==> exists|k: int|
                0 <= k < panes.len() && opencode_name(lowered(panes[k].command)) && probes[k].port
                    is Some && is_instance_of(
                    #[trigger] instances_in(panes, probes)[j],
                    #[trigger] panes[k],
                    probes[k],
                ),
    decreases panes.len(),
{
    if panes.len() > 0 {
        let ph = panes.drop_last();
        let bh = probes.drop_last();
        law_instances_are_of_panes(ph, bh);
        let before = instances_in(ph, bh);
        let all = instances_in(panes, probes);
        let n = panes.len() - 1;
        assert forall|k: int|
            #![trigger panes[k]]
            0 <= k < panes.len() && opencode_name(lowered(panes[k].command)) && probes[k].port
                is Some implies exists|j: int|
            0 <= j < all.len() && is_instance_of(#[trigger] all[j], panes[k], probes[k]) by {
            if k < n {
                assert(ph[k] == panes[k] && bh[k] == probes[k]);
                let j = choose|j: int|
                    0 <= j < before.len() && is_instance_of(#[trigger] before[j], ph[k], bh[k]);
                assert(all[j] == before[j]);
            } else {
                assert(is_instance_of(all[all.len() - 1], panes[k], probes[k]));
            }
        }
        assert forall|j: int| 0 <= j < all.len() implies exists|k: int|
            0 <= k < panes.len() && opencode_name(lowered(panes[k].command)) && probes[k].port
                is Some && is_instance_of(#[trigger] all[j], #[trigger] panes[k], probes[k]) by {
            if j < before.len() {
                assert(all[j] == before[j]);
                let k = choose|k: int|
                    0 <= k < ph.len() && opencode_name(lowered(ph[k].command)) && bh[k].port is Some
                        && is_instance_of(#[trigger] before[j], #[trigger] ph[k], bh[k]);
                assert(ph[k] == panes[k] && bh[k] == probes[k]);
            } else {
                assert(is_instance_of(all[j], panes[n], probes[n]));
            }
        }
    }
}

/// Whether an instance has the place of a pane, and the process and the port that
/// were found there.
pub open spec fn is_instance_of(i: InstanceView, pane: PaneView, probe: PaneProbe) -> bool {
    &&& Some(i.port) == probe.port
    &&& probe.child matches Some(pid) ==> i.pid == pid
    &&& probe.child is None ==> i.pid == pane.pid
    &&& i.remote_port is None
    &&& i.tmux_session == Some(pane.session)
    &&& i.tmux_window == Some(pane.window)
    &&& i.tmux_window_index == Some(pane.window_index)
    &&& i.tmux_pane_index == Some(pane.index)
    &&& i.tmux_pane_tty == Some(pane.tty)
}

/// A row of ps names the process in its first word and its parent in its second;
/// a line of fewer than three words is no row.
pub proof fn law_row_names_process_and_parent(line: Seq<char>, pid: u32, ppid: u32)
    ensures
        words(line).len() < 3 ==> ps_row(line) is None,
        words(line).len() >= 3 && words(line)[0] == decimal(pid as nat) ==> (ps_row(
            line,
        ) matches Some(row) && row.pid == Some(pid) && row.pid_text == decimal(pid as nat)),
        words(line).len() >= 3 && words(line)[1] == decimal(ppid as nat) ==> (ps_row(
            line,
        ) matches Some(row) && row.ppid == Some(ppid)),
{
    law_parse_undoes_decimal(pid as nat, u32::MAX as nat);
    law_parse_undoes_decimal(ppid as nat, u32::MAX as nat);
}

/// The rows that lines of ps tell are those of each line in turn.
pub proof fn law_rows_in_turn(line: Seq<char>, rest: Seq<Seq<char>>)
    ensures
        ps_rows(Seq::empty()).len() == 0,
        ps_row(line) matches Some(row) ==> ps_rows(seq![line] + rest) == seq![row] + ps_rows(rest),
        ps_row(line) is None ==> ps_rows(seq![line] + rest) == ps_rows(rest),
    decreases rest.len(),
{
    let all = seq![line] + rest;
    if rest.len() == 0 {
        assert(all.drop_last() =~= Seq::<Seq<char>>::empty());
        assert(all.last() == line);
        assert(ps_rows(all.drop_last()) =~= Seq::<PsRowView>::empty());
        if let Some(row) = ps_row(line) {
            assert(ps_rows(all) =~= seq![row] + ps_rows(rest));
        }
    } else {
        law_rows_in_turn(line, rest.drop_last());
        assert(all.drop_last() =~= seq![line] + rest.drop_last());
        assert(all.last() == rest.last());
        if let Some(row) = ps_row(line) {
            assert(ps_rows(all) =~= seq![row] + ps_rows(rest));
        }
    }
}

/// A command is OpenCode if it is called `oc` or its name holds `opencode`, and
/// not otherwise.
pub proof fn law_names_of_opencode(a: Seq<char>, b: Seq<char>, other: Seq<char>)
    ensures
        opencode_name("oc"@),
        opencode_name(a + "opencode"@ + b),
        other != "oc"@ && !contains_text(other, "opencode"@) ==> !opencode_name(other),
{
    law_parts_are_seen(a, "opencode"@, b);
}

/// What lsof tells counts before what the command line gives, and the command line
/// counts only where lsof tells nothing.
pub proof fn law_lsof_counts_first(lsof: Seq<char>, cmdline: Option<Seq<char>>, args: Seq<char>)
    ensures
        lsof_port_in(lines(lsof), 0) is Some ==> told_port(Some(lsof), cmdline) == lsof_port_in(
            lines(lsof),
            0,
        ),
        lsof_port_in(lines(lsof), 0) is None ==> told_port(Some(lsof), Some(args)) == cmdline_port(
            args,
        ),
        told_port(None, Some(args)) == cmdline_port(args),
        told_port(None, None) is None,
{
}

} // verus!
