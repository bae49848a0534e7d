//! Session and host records.

use vstd::prelude::*;
use vstd::string::*;
use vstd::utf8::*;

use crate::text::{
    ascii_lower, clone_opt, concat2, concat3, concat4, decimal, lowered, number_text, str_eq,
    to_lower,
};

verus! {

/// Session state reported by OpenCode.
#[derive(Clone, Copy, Debug, PartialEq, Eq, Hash, Structural)]
pub enum SessionState {
    Busy,
    Idle,
    WaitingForPermission,
    WaitingForInput,
    Error,
    Compacting,
    Completed,
    /// The OpenCode instance cannot be reached.
    Disconnected,
    Unknown,
}

/// The state that a lower-case status word stands for.
pub open spec fn state_of_word(w: Seq<char>) -> SessionState {
    if w == "busy"@ || w == "running"@ {
        SessionState::Busy
    } else if w == "idle"@ {
        SessionState::Idle
    } else if w == "waiting_for_permission"@ || w == "waitingforpermission"@ {
        SessionState::WaitingForPermission
    } else if w == "waiting_for_input"@ || w == "waitingforinput"@ {
        SessionState::WaitingForInput
    } else if w == "error"@ {
        SessionState::Error
    } else if w == "compacting"@ {
        SessionState::Compacting
    } else if w == "completed"@ || w == "done"@ {
        SessionState::Completed
    } else if w == "disconnected"@ {
        SessionState::Disconnected
    } else {
        SessionState::Unknown
    }
}

/// Whether a state calls for a bell: the agent waits for its user or failed.
pub open spec fn wants_bell(s: SessionState) -> bool {
    s is Idle || s is WaitingForPermission || s is WaitingForInput || s is Error
}

/// The state that OpenCode's status text stands for, whatever its case.
pub open spec fn state_of_status(s: Seq<char>) -> SessionState {
    state_of_word(lowered(s))
}

impl SessionState {
    /// The state that a lower-case status word stands for.
    pub fn from_lower_word(w: &str) -> (r: SessionState)
        ensures
            r == state_of_word(w@),
    {
        if str_eq(w, "busy") || str_eq(w, "running") {
            SessionState::Busy
        } else if str_eq(w, "idle") {
            SessionState::Idle
        } else if str_eq(w, "waiting_for_permission") || str_eq(w, "waitingforpermission") {
            SessionState::WaitingForPermission
        } else if str_eq(w, "waiting_for_input") || str_eq(w, "waitingforinput") {
            SessionState::WaitingForInput
        } else if str_eq(w, "error") {
            SessionState::Error
        } else if str_eq(w, "compacting") {
            SessionState::Compacting
        } else if str_eq(w, "completed") || str_eq(w, "done") {
            SessionState::Completed
        } else if str_eq(w, "disconnected") {
            SessionState::Disconnected
        } else {
            SessionState::Unknown
        }
    }

    /// Reads OpenCode's status text, in snake case or camel case alike.
    pub fn from_oc_str(s: &str) -> (r: SessionState)
        ensures
            r == state_of_status(s@),
    {
        let lower = to_lower(s);
        SessionState::from_lower_word(lower.as_str())
    }

    /// Whether a change to this state calls for a bell.
    pub fn should_bell(&self) -> (r: bool)
        ensures
            r == wants_bell(*self),
    {
        matches!(
            self,
            SessionState::Idle
                | SessionState::WaitingForPermission
                | SessionState::WaitingForInput
                | SessionState::Error
        )
    }

    /// One letter for the counts in the status bar.
    pub fn short_label(&self) -> (r: &'static str)
        ensures
            r@ == short_label_text(*self),
    {
        match self {
            SessionState::Busy => "B",
            SessionState::Idle => "I",
            SessionState::WaitingForPermission => "W",
            SessionState::WaitingForInput => "W",
            SessionState::Error => "E",
            SessionState::Compacting => "C",
            SessionState::Completed => "D",
            SessionState::Disconnected => "X",
            SessionState::Unknown => "?",
        }
    }

    /// The icon for the session list.
    pub fn icon(&self) -> (r: &'static str)
        ensures
            r@ == icon_text(*self),
    {
        match self {
            SessionState::Idle => "●",
            SessionState::Busy => "◐",
            SessionState::WaitingForPermission => "◉",
            SessionState::WaitingForInput => "?",
            SessionState::Error => "✗",
            SessionState::Disconnected => "○",
            SessionState::Compacting => "⟳",
            SessionState::Completed => "✓",
            SessionState::Unknown => "·",
        }
    }

    /// The name shown to the user.
    pub fn name(&self) -> (r: &'static str)
        ensures
            r@ == state_name(*self),
    {
        match self {
            SessionState::Busy => "Busy",
            SessionState::Idle => "Idle",
            SessionState::WaitingForPermission => "Waiting for Permission",
            SessionState::WaitingForInput => "Waiting for Input",
            SessionState::Error => "Error",
            SessionState::Compacting => "Compacting",
            SessionState::Completed => "Completed",
            SessionState::Disconnected => "Disconnected",
            SessionState::Unknown => "Unknown",
        }
    }
}

/// The letter of a state in the status bar.
pub open spec fn short_label_text(s: SessionState) -> Seq<char> {
    match s {
        SessionState::Busy => "B"@,
        SessionState::Idle => "I"@,
        SessionState::WaitingForPermission => "W"@,
        SessionState::WaitingForInput => "W"@,
        SessionState::Error => "E"@,
        SessionState::Compacting => "C"@,
        SessionState::Completed => "D"@,
        SessionState::Disconnected => "X"@,
        SessionState::Unknown => "?"@,
    }
}

/// The icon of a state.
pub open spec fn icon_text(s: SessionState) -> Seq<char> {
    match s {
        SessionState::Idle => "●"@,
        SessionState::Busy => "◐"@,
        SessionState::WaitingForPermission => "◉"@,
        SessionState::WaitingForInput => "?"@,
        SessionState::Error => "✗"@,
        SessionState::Disconnected => "○"@,
        SessionState::Compacting => "⟳"@,
        SessionState::Completed => "✓"@,
        SessionState::Unknown => "·"@,
    }
}

/// The name of a state.
pub open spec fn state_name(s: SessionState) -> Seq<char> {
    match s {
        SessionState::Busy => "Busy"@,
        SessionState::Idle => "Idle"@,
        SessionState::WaitingForPermission => "Waiting for Permission"@,
        SessionState::WaitingForInput => "Waiting for Input"@,
        SessionState::Error => "Error"@,
        SessionState::Compacting => "Compacting"@,
        SessionState::Completed => "Completed"@,
        SessionState::Disconnected => "Disconnected"@,
        SessionState::Unknown => "Unknown"@,
    }
}

/// What is known of one session.
#[derive(Debug)]
pub struct SessionInfo {
    /// OpenCode's session ID.
    pub id: String,
    /// The host: "local" or a configured name.
    pub host: String,
    /// Current state.
    pub state: SessionState,
    /// The session that started this one, if any.
    pub parent_id: Option<String>,
    /// Session title.
    pub title: String,
    /// Working directory.
    pub working_dir: String,
    /// Seconds since the session was last updated.
    pub activity_age_secs: u64,
    /// Port of OpenCode's HTTP API, local or forwarded.
    pub oc_port: u16,
    /// tmux coordinates, where known.
    pub tmux_session: Option<String>,
    pub tmux_window: Option<String>,
    pub tmux_pane: Option<String>,
}

impl Clone for SessionInfo {
    fn clone(&self) -> (r: SessionInfo)
        ensures
            r == *self,
    {
        SessionInfo {
            id: self.id.clone(),
            host: self.host.clone(),
            state: self.state,
            parent_id: clone_opt(&self.parent_id),
            title: self.title.clone(),
            working_dir: self.working_dir.clone(),
            activity_age_secs: self.activity_age_secs,
            oc_port: self.oc_port,
            tmux_session: clone_opt(&self.tmux_session),
            tmux_window: clone_opt(&self.tmux_window),
            tmux_pane: clone_opt(&self.tmux_pane),
        }
    }
}

/// The key of a session: its host and its ID with a colon between them.
pub open spec fn session_key(host: Seq<char>, id: Seq<char>) -> Seq<char> {
    host + ":"@ + id
}

/// The age of a session in words: seconds below a minute, minutes and seconds
/// below an hour, hours and minutes from there on.
pub open spec fn age_text(secs: nat) -> Seq<char> {
    if secs < 60 {
        decimal(secs) + "s"@
    } else if secs < 3600 {
        decimal(secs / 60) + "m "@ + decimal(secs % 60) + "s"@
    } else {
        decimal(secs / 3600) + "h "@ + decimal((secs % 3600) / 60) + "m"@
    }
}

/// The key of a session on a host.
pub fn make_key(host: &str, id: &str) -> (r: String)
    ensures
        r@ == session_key(host@, id@),
{
    concat3(host, ":", id)
}

impl SessionInfo {
    /// The key of the session.
    pub open spec fn spec_key(self) -> Seq<char> {
        session_key(self.host@, self.id@)
    }

    /// The key under which the daemon holds the session.
    pub fn key(&self) -> (r: String)
        ensures
            r@ == self.spec_key(),
    {
        make_key(self.host.as_str(), self.id.as_str())
    }

    /// The age of the last activity in words.
    pub fn activity_age_human(&self) -> (r: String)
        ensures
            r@ == age_text(self.activity_age_secs as nat),
    {
        let secs: u64 = self.activity_age_secs;
        if secs < 60 {
            concat2(number_text(secs).as_str(), "s")
        } else if secs < 3600 {
            concat4(number_text(secs / 60).as_str(), "m ", number_text(secs % 60).as_str(), "s")
        } else {
            concat4(
                number_text(secs / 3600).as_str(),
                "h ",
                number_text((secs % 3600) / 60).as_str(),
                "m",
            )
        }
    }
}

/// What is known of one host.
#[derive(Debug)]
pub struct HostStatus {
    /// Host name.
    pub name: String,
    /// Whether the connection is alive.
    pub connected: bool,
    /// Number of sessions on the host.
    pub session_count: usize,
    /// Unix time of the last successful poll in milliseconds.
    pub last_poll_unix_ms: Option<u64>,
    /// The last error, where the connection is not alive.
    pub error: Option<String>,
}

impl Clone for HostStatus {
    fn clone(&self) -> (r: HostStatus)
        ensures
            r == *self,
    {
        HostStatus {
            name: self.name.clone(),
            connected: self.connected,
            session_count: self.session_count,
            last_poll_unix_ms: self.last_poll_unix_ms,
            error: clone_opt(&self.error),
        }
    }
}

/// Sessions of hosts whose names hold no colon have different keys unless both
/// the host and the ID agree.
pub proof fn law_key_is_injective(h1: Seq<char>, i1: Seq<char>, h2: Seq<char>, i2: Seq<char>)
    requires
        !h1.contains(':'),
        !h2.contains(':'),
        session_key(h1, i1) == session_key(h2, i2),
    ensures
        h1 == h2,
        i1 == i2,
{
    reveal_strlit(":");
    let k = session_key(h1, i1);
    assert(k[h1.len() as int] == ':');
    assert(session_key(h2, i2)[h2.len() as int] == ':');
    if h1.len() < h2.len() {
        assert(h2[h1.len() as int] == ':');
    }
    if h2.len() < h1.len() {
        assert(k[h2.len() as int] == h1[h2.len() as int]);
    }
    assert(h1 =~= k.take(h1.len() as int));
    assert(h2 =~= session_key(h2, i2).take(h2.len() as int));
    assert(i1 =~= k.skip(h1.len() as int + 1));
    assert(i2 =~= session_key(h2, i2).skip(h2.len() as int + 1));
}

// ---------------------------------------------------------------------------
// Names in messages
// ---------------------------------------------------------------------------

/// The name of a state in messages.
pub open spec fn wire_name(s: SessionState) -> Seq<char> {
    match s {
        SessionState::Busy => "busy"@,
        SessionState::Idle => "idle"@,
        SessionState::WaitingForPermission => "waiting_for_permission"@,
        SessionState::WaitingForInput => "waiting_for_input"@,
        SessionState::Error => "error"@,
        SessionState::Compacting => "compacting"@,
        SessionState::Completed => "completed"@,
        SessionState::Disconnected => "disconnected"@,
        SessionState::Unknown => "unknown"@,
    }
}

/// A text without its underscores.
pub open spec fn no_underscores(s: Seq<char>) -> Seq<char>
    decreases s.len(),
{
    if s.len() == 0 {
        Seq::empty()
    } else if s.last() == '_' {
        no_underscores(s.drop_last())
    } else {
        no_underscores(s.drop_last()).push(s.last())
    }
}

proof fn lemma_no_underscores_add(a: Seq<char>, b: Seq<char>)
    ensures
        no_underscores(a + b) == no_underscores(a) + no_underscores(b),
    decreases b.len(),
{
    if b.len() == 0 {
        assert(a + b =~= a);
        assert(no_underscores(a) + no_underscores(b) =~= no_underscores(a));
    } else {
        lemma_no_underscores_add(a, b.drop_last());
        assert((a + b).drop_last() =~= a + b.drop_last());
        assert((a + b).last() == b.last());
        assert(no_underscores(a + b) =~= no_underscores(a) + no_underscores(b));
    }
}

proof fn lemma_no_underscores_none(s: Seq<char>)
    requires
        forall|k: int| 0 <= k < s.len() ==> #[trigger] s[k] != '_',
    ensures
        no_underscores(s) == s,
    decreases s.len(),
{
    if s.len() > 0 {
        assert(s[s.len() - 1] == s.last());
        assert forall|k: int| 0 <= k < s.drop_last().len() implies #[trigger] s.drop_last()[k]
            != '_' by {
            assert(s.drop_last()[k] == s[k]);
        }
        lemma_no_underscores_none(s.drop_last());
        assert(s.drop_last().push(s.last()) =~= s);
    }
}

/// A text of three words without the underscores between them.
proof fn lemma_three_words(a: Seq<char>, b: Seq<char>, c: Seq<char>)
    requires
        forall|k: int| 0 <= k < a.len() ==> #[trigger] a[k] != '_',
        forall|k: int| 0 <= k < b.len() ==> #[trigger] b[k] != '_',
        forall|k: int| 0 <= k < c.len() ==> #[trigger] c[k] != '_',
    ensures
        no_underscores(a + seq!['_'] + b + seq!['_'] + c) == a + b + c,
{
    let u = seq!['_'];
    reveal_with_fuel(no_underscores, 2);
    assert(u.drop_last() =~= Seq::<char>::empty());
    assert(no_underscores(u) =~= Seq::<char>::empty());
    lemma_no_underscores_none(a);
    lemma_no_underscores_none(b);
    lemma_no_underscores_none(c);
    lemma_no_underscores_add(a, u);
    lemma_no_underscores_add(a + u, b);
    lemma_no_underscores_add(a + u + b, u);
    lemma_no_underscores_add(a + u + b + u, c);
    assert(a + Seq::<char>::empty() + b + Seq::<char>::empty() + c =~= a + b + c);
}

/// The words that states are read from differ where their states do.
proof fn lemma_state_words(s: SessionState)
    ensures
        state_of_word(wire_name(s)) == s,
        state_of_word("waitingforpermission"@) == SessionState::WaitingForPermission,
        state_of_word("waitingforinput"@) == SessionState::WaitingForInput,
{
    reveal_strlit("busy");
    reveal_strlit("running");
    reveal_strlit("idle");
    reveal_strlit("waiting_for_permission");
    reveal_strlit("waitingforpermission");
    reveal_strlit("waiting_for_input");
    reveal_strlit("waitingforinput");
    reveal_strlit("error");
    reveal_strlit("compacting");
    reveal_strlit("completed");
    reveal_strlit("done");
    reveal_strlit("disconnected");
    reveal_strlit("unknown");
    assert("busy"@.len() == 4 && "busy"@[0] == 'b');
    assert("idle"@.len() == 4 && "idle"@[0] == 'i');
    assert("done"@.len() == 4 && "done"@[0] == 'd');
    assert("error"@.len() == 5);
    assert("running"@.len() == 7 && "running"@[0] == 'r');
    assert("unknown"@.len() == 7 && "unknown"@[0] == 'u');
    assert("completed"@.len() == 9);
    assert("compacting"@.len() == 10);
    assert("disconnected"@.len() == 12);
    assert("waitingforinput"@.len() == 15);
    assert("waiting_for_input"@.len() == 17);
    assert("waitingforpermission"@.len() == 20);
    assert("waiting_for_permission"@.len() == 22);
}

/// What stands for a state without underscores.
proof fn lemma_compact_names(s: SessionState)
    ensures
        no_underscores(wire_name(s)) == match s {
            SessionState::WaitingForPermission => "waitingforpermission"@,
            SessionState::WaitingForInput => "waitingforinput"@,
            _ => wire_name(s),
        },
{
    reveal_strlit("waiting");
    reveal_strlit("for");
    reveal_strlit("permission");
    reveal_strlit("input");
    reveal_strlit("waiting_for_permission");
    reveal_strlit("waitingforpermission");
    reveal_strlit("waiting_for_input");
    reveal_strlit("waitingforinput");
    reveal_strlit("busy");
    reveal_strlit("idle");
    reveal_strlit("error");
    reveal_strlit("compacting");
    reveal_strlit("completed");
    reveal_strlit("disconnected");
    reveal_strlit("unknown");
    match s {
        SessionState::WaitingForPermission => {
            lemma_three_words("waiting"@, "for"@, "permission"@);
            assert("waiting_for_permission"@ =~= "waiting"@ + seq!['_'] + "for"@ + seq!['_']
                + "permission"@);
            assert("waitingforpermission"@ =~= "waiting"@ + "for"@ + "permission"@);
        },
        SessionState::WaitingForInput => {
            lemma_three_words("waiting"@, "for"@, "input"@);
            assert("waiting_for_input"@ =~= "waiting"@ + seq!['_'] + "for"@ + seq!['_']
                + "input"@);
            assert("waitingforinput"@ =~= "waiting"@ + "for"@ + "input"@);
        },
        _ => {
            lemma_no_underscores_none(wire_name(s));
        },
    }
}

/// The name of a state, with its underscores or without them and in any case of
/// its ASCII letters, is read as that state.
pub proof fn law_state_names_read_back(s: SessionState, text: Seq<char>)
    requires
        is_ascii_chars(text),
        ({
            let word = text.map_values(|c: char| ascii_lower(c));
            word == wire_name(s) || word == no_underscores(wire_name(s))
        }),
    ensures
        state_of_status(text) == s,
{
    lemma_state_words(s);
    lemma_compact_names(s);
}

/// The name of a state is read as that state.
pub proof fn law_wire_name_reads_back(s: SessionState)
    ensures
        state_of_status(wire_name(s)) == s,
{
    reveal_strlit("busy");
    reveal_strlit("idle");
    reveal_strlit("waiting_for_permission");
    reveal_strlit("waiting_for_input");
    reveal_strlit("error");
    reveal_strlit("compacting");
    reveal_strlit("completed");
    reveal_strlit("disconnected");
    reveal_strlit("unknown");
    let name = wire_name(s);
    assert(is_ascii_chars(name));
    assert(name.map_values(|c: char| ascii_lower(c)) =~= name);
    law_state_names_read_back(s, name);
}

/// Each state has its own icon, so that no two look alike.
pub proof fn law_icons_tell_states_apart(a: SessionState, b: SessionState)
    requires
        icon_text(a) == icon_text(b),
    ensures
        a == b,
{
    reveal_strlit("●");
    reveal_strlit("◐");
    reveal_strlit("◉");
    reveal_strlit("?");
    reveal_strlit("✗");
    reveal_strlit("○");
    reveal_strlit("⟳");
    reveal_strlit("✓");
    reveal_strlit("·");
    assert("●"@[0] == '●' && "◐"@[0] == '◐' && "◉"@[0] == '◉');
    assert("?"@[0] == '?' && "✗"@[0] == '✗' && "○"@[0] == '○');
    assert("⟳"@[0] == '⟳' && "✓"@[0] == '✓' && "·"@[0] == '·');
    assert(icon_text(a)[0] == icon_text(b)[0]);
}

/// The icons of the states, by name: a full circle for idle, a half one for busy,
/// a ringed one for waiting for permission and an empty one for disconnected; a
/// question mark for waiting for input, a cross for an error, an arrow for
/// compacting, a tick for completed and a dot for unknown.
pub proof fn law_icons_by_name(s: SessionState)
    ensures
        icon_text(s) == "●"@ <==> s == SessionState::Idle,
        icon_text(s) == "◐"@ <==> s == SessionState::Busy,
        icon_text(s) == "◉"@ <==> s == SessionState::WaitingForPermission,
        icon_text(s) == "?"@ <==> s == SessionState::WaitingForInput,
        icon_text(s) == "✗"@ <==> s == SessionState::Error,
        icon_text(s) == "○"@ <==> s == SessionState::Disconnected,
        icon_text(s) == "⟳"@ <==> s == SessionState::Compacting,
        icon_text(s) == "✓"@ <==> s == SessionState::Completed,
        icon_text(s) == "·"@ <==> s == SessionState::Unknown,
{
    lemma_icons_apart(s, SessionState::Idle);
    lemma_icons_apart(s, SessionState::Busy);
    lemma_icons_apart(s, SessionState::WaitingForPermission);
    lemma_icons_apart(s, SessionState::WaitingForInput);
    lemma_icons_apart(s, SessionState::Error);
    lemma_icons_apart(s, SessionState::Disconnected);
    lemma_icons_apart(s, SessionState::Compacting);
    lemma_icons_apart(s, SessionState::Completed);
    lemma_icons_apart(s, SessionState::Unknown);
}

proof fn lemma_icons_apart(a: SessionState, b: SessionState)
    ensures
        icon_text(a) == icon_text(b) <==> a == b,
{
    if icon_text(a) == icon_text(b) {
        law_icons_tell_states_apart(a, b);
    }
}

/// The short label of a state is one letter, and only the two states of waiting
/// share theirs.
pub proof fn law_short_labels(a: SessionState, b: SessionState)
    ensures
        short_label_text(a).len() == 1,
        short_label_text(SessionState::WaitingForPermission) == "W"@,
        short_label_text(SessionState::WaitingForInput) == "W"@,
        a != b && short_label_text(a) == short_label_text(b) ==> short_label_text(a) == "W"@,
        a == SessionState::Busy || a == SessionState::Idle || a == SessionState::Error || a
            == SessionState::Compacting ==> short_label_text(a)[0] == state_name(a)[0],
{
    reveal_strlit("B");
    reveal_strlit("I");
    reveal_strlit("W");
    reveal_strlit("E");
    reveal_strlit("C");
    reveal_strlit("D");
    reveal_strlit("X");
    reveal_strlit("?");
    reveal_strlit("Busy");
    reveal_strlit("Idle");
    reveal_strlit("Error");
    reveal_strlit("Compacting");
    if short_label_text(a) == short_label_text(b) {
        assert(short_label_text(a)[0] == short_label_text(b)[0]);
    }
}

/// A bell is for the states in which a session is idle, waits for permission or
/// for input, or failed; the other five are quiet.
pub proof fn law_states_that_call(s: SessionState)
    ensures
        wants_bell(SessionState::Idle),
        wants_bell(SessionState::WaitingForPermission),
        wants_bell(SessionState::WaitingForInput),
        wants_bell(SessionState::Error),
        !wants_bell(SessionState::Busy),
        !wants_bell(SessionState::Compacting),
        !wants_bell(SessionState::Completed),
        !wants_bell(SessionState::Disconnected),
        !wants_bell(SessionState::Unknown),
{
}

/// An age is told in its two greatest units: seconds below a minute, minutes and
/// seconds below an hour, then hours and minutes.
pub proof fn law_age_in_two_units(h: nat, m: nat, s: nat)
    requires
        m < 60,
        s < 60,
    ensures
        h == 0 && m == 0 ==> age_text(s) == decimal(s) + "s"@,
        h == 0 && m > 0 ==> age_text(m * 60 + s) == decimal(m) + "m "@ + decimal(s) + "s"@,
        h > 0 ==> age_text(h * 3600 + m * 60 + s) == decimal(h) + "h "@ + decimal(m) + "m"@,
{
    let t = h * 3600 + m * 60 + s;
    assert((m * 60 + s) / 60 == m && (m * 60 + s) % 60 == s);
    assert(t / 3600 == h && (t % 3600) / 60 == m);
}

/// A key is the name of the host, a colon and the ID of the session.
pub proof fn law_key_names_host_and_session(host: Seq<char>, id: Seq<char>)
    ensures
        ({
            let key = session_key(host, id);
            &&& key.len() == host.len() + 1 + id.len()
            &&& key.take(host.len() as int) == host
            &&& key[host.len() as int] == ':'
            &&& key.skip(host.len() as int + 1) == id
        }),
{
    reveal_strlit(":");
    let key = session_key(host, id);
    assert(key.take(host.len() as int) =~= host);
    assert(key.skip(host.len() as int + 1) =~= id);
}

/// Twelve words name states other than unknown, two each for busy, for the states
/// of waiting and for completed; every other word is unknown.
pub proof fn law_words_that_name_states(w: Seq<char>)
    ensures
        state_of_word("busy"@) == SessionState::Busy && state_of_word("running"@)
            == SessionState::Busy,
        state_of_word("done"@) == SessionState::Completed && state_of_word("completed"@)
            == SessionState::Completed,
        w != "busy"@ && w != "running"@ && w != "idle"@ && w != "waiting_for_permission"@ && w
            != "waitingforpermission"@ && w != "waiting_for_input"@ && w != "waitingforinput"@ && w
            != "error"@ && w != "compacting"@ && w != "completed"@ && w != "done"@ && w
            != "disconnected"@ ==> state_of_word(w) == SessionState::Unknown,
{
    reveal_strlit("busy");
    reveal_strlit("running");
    reveal_strlit("idle");
    reveal_strlit("waiting_for_permission");
    reveal_strlit("waitingforpermission");
    reveal_strlit("waiting_for_input");
    reveal_strlit("waitingforinput");
    reveal_strlit("error");
    reveal_strlit("compacting");
    reveal_strlit("completed");
    reveal_strlit("done");
    reveal_strlit("disconnected");
    assert("busy"@.len() == 4 && "idle"@.len() == 4 && "done"@.len() == 4);
    assert("running"@.len() == 7 && "completed"@.len() == 9);
    assert("waiting_for_permission"@.len() == 22 && "waitingforpermission"@.len() == 20);
    assert("waiting_for_input"@.len() == 17 && "waitingforinput"@.len() == 15);
    assert("error"@.len() == 5 && "compacting"@.len() == 10 && "disconnected"@.len() == 12);
    assert("busy"@[0] == 'b' && "idle"@[0] == 'i' && "done"@[0] == 'd');
}

} // verus!
