//! Bells: when a session calls its user, and how.

use vstd::prelude::*;
use vstd::string::*;

use crate::keyed::KeyMap;
use crate::shell::{CommandLine, CommandView};
use crate::text::{
    chars_of, concat3, concat5, push_text, starts_with, string_of, strings, take_chars, take_text,
    text_starts_with, trim, trim_white,
};
use crate::types::{wants_bell, SessionInfo, SessionState};

verus! {

/// How long a session is quiet after a bell, in nanoseconds.
pub const BELL_COOLDOWN_NS: u64 = 30000000000;

/// The times in nanoseconds of the last bells, by session.
pub struct BellNotifier {
    last_bell: KeyMap<u64>,
}

impl View for BellNotifier {
    type V = Map<Seq<char>, u64>;

    closed spec fn view(&self) -> Map<Seq<char>, u64> {
        self.last_bell@
    }
}

/// Whether the last bell of a session is not long ago.
pub open spec fn cooling(last: Map<Seq<char>, u64>, key: Seq<char>, now_ns: u64) -> bool {
    last.contains_key(key) && now_ns < last[key] + BELL_COOLDOWN_NS
}

/// Whether a change of state rings: to a state that calls for a bell, and not too
/// soon after the last one.
pub open spec fn rings(
    last: Map<Seq<char>, u64>,
    key: Seq<char>,
    old_state: SessionState,
    new_state: SessionState,
    now_ns: u64,
) -> bool {
    old_state != new_state && wants_bell(new_state) && !cooling(last, key, now_ns)
}

/// The last bells after a change of state.
pub open spec fn after_change(
    last: Map<Seq<char>, u64>,
    key: Seq<char>,
    old_state: SessionState,
    new_state: SessionState,
    now_ns: u64,
) -> Map<Seq<char>, u64> {
    if rings(last, key, old_state, new_state, now_ns) {
        last.insert(key, now_ns)
    } else {
        last
    }
}

/// What stands in a note on a session.
pub open spec fn note_text(session: SessionInfo, reason: Seq<char>) -> Seq<char> {
    "ocwatch: "@ + take_chars(session.title@, 30) + " needs attention ("@ + reason + ")"@
}

/// How a bell is rung.
pub enum BellPlan {
    /// The terminal of the pane is asked for; the bell is written to it, or a
    /// note is shown on the window of the pane where there is none.
    Pane { ask: CommandLine, note: CommandLine },
    /// A note is shown to everybody.
    Everybody { note: CommandLine },
}

/// How a bell is rung, as values.
#[verifier::ext_equal]
pub enum BellPlanView {
    Pane { ask: CommandView, note: CommandView },
    Everybody { note: CommandView },
}

impl View for BellPlan {
    type V = BellPlanView;

    open spec fn view(&self) -> BellPlanView {
        match *self {
            BellPlan::Pane { ask, note } => BellPlanView::Pane { ask: ask@, note: note@ },
            BellPlan::Everybody { note } => BellPlanView::Everybody { note: note@ },
        }
    }
}

/// A tmux command.
pub open spec fn tmux_words(args: Seq<Seq<char>>) -> CommandView {
    CommandView { program: "tmux"@, args }
}

/// How the bell of a session is rung: at its pane where that is known.
pub open spec fn bell_plan(s: SessionInfo, reason: Seq<char>) -> BellPlanView {
    match (s.tmux_session, s.tmux_window, s.tmux_pane) {
        (Some(session), Some(window), Some(pane)) => BellPlanView::Pane {
            ask: tmux_words(
                seq![
                    "display-message"@,
                    "-t"@,
                    session@ + ":"@ + window@ + "."@ + pane@,
                    "-p"@,
                    "#{pane_tty}"@,
                ],
            ),
            note: tmux_words(
                seq![
                    "display-message"@,
                    "-t"@,
                    session@ + ":"@ + window@,
                    "-d"@,
                    "5000"@,
                    note_text(s, reason),
                ],
            ),
        },
        _ => BellPlanView::Everybody {
            note: tmux_words(seq!["display-message"@, "-d"@, "5000"@, note_text(s, reason)]),
        },
    }
}

/// The terminal to ring at, by what tmux answered, if it is one.
pub open spec fn bell_tty(answer: Seq<char>) -> Option<Seq<char>> {
    let tty = trim(answer);
    if starts_with(tty, "/dev/"@) {
        Some(tty)
    } else {
        None
    }
}

/// The terminal to ring at, by what tmux answered.
pub fn bell_terminal(answer: &str) -> (r: Option<String>)
    ensures
        crate::text::opt_text(r) == bell_tty(answer@),
{
    let chars = chars_of(answer);
    let tty = string_of(&trim_white(&chars));
    if text_starts_with(tty.as_str(), "/dev/") {
        Some(tty)
    } else {
        None
    }
}

impl BellNotifier {
    /// No bell yet.
    pub fn new() -> (r: BellNotifier)
        ensures
            r@ == Map::<Seq<char>, u64>::empty(),
    {
        BellNotifier { last_bell: KeyMap::new() }
    }

    /// Whether a change of state rings; a bell is kept in mind.
    pub fn should_bell(
        &mut self,
        session_id: &str,
        old_state: SessionState,
        new_state: SessionState,
        now_ns: u64,
    ) -> (r: bool)
        ensures
            r == rings(old(self)@, session_id@, old_state, new_state, now_ns),
            final(self)@ == after_change(old(self)@, session_id@, old_state, new_state, now_ns),
    {
        if old_state == new_state {
            return false;
        }
        if !new_state.should_bell() {
            return false;
        }
        match self.last_bell.get(session_id) {
            Some(last) => {
                if now_ns < *last || now_ns - *last < BELL_COOLDOWN_NS {
                    return false;
                }
            },
            None => {},
        }
        self.last_bell.insert(session_id.to_string(), now_ns);
        true
    }

    /// How the bell of a session is rung.
    pub fn fire_bell(&self, session: &SessionInfo, reason: &str) -> (r: BellPlan)
        ensures
            r@ == bell_plan(*session, reason@),
    {
        let title = take_text(session.title.as_str(), 30);
        let text = concat5("ocwatch: ", title.as_str(), " needs attention (", reason, ")");
        match (&session.tmux_session, &session.tmux_window, &session.tmux_pane) {
            (Some(tmux_session), Some(window), Some(pane)) => {
                let pane_target = concat5(
                    tmux_session.as_str(),
                    ":",
                    window.as_str(),
                    ".",
                    pane.as_str(),
                );
                let mut ask: Vec<String> = Vec::new();
                push_text(&mut ask, "display-message");
                push_text(&mut ask, "-t");
                push_text(&mut ask, pane_target.as_str());
                push_text(&mut ask, "-p");
                push_text(&mut ask, "#{pane_tty}");
                let target = concat3(tmux_session.as_str(), ":", window.as_str());
                let mut note: Vec<String> = Vec::new();
                push_text(&mut note, "display-message");
                push_text(&mut note, "-t");
                push_text(&mut note, target.as_str());
                push_text(&mut note, "-d");
                push_text(&mut note, "5000");
                push_text(&mut note, text.as_str());
                let r = BellPlan::Pane {
                    ask: CommandLine { program: "tmux".to_string(), args: ask },
                    note: CommandLine { program: "tmux".to_string(), args: note },
                };
                assert(strings(ask@) =~= bell_plan(*session, reason@)->ask.args);
                assert(strings(note@) =~= bell_plan(*session, reason@)->Pane_note.args);
                r
            },
            _ => {
                let mut note: Vec<String> = Vec::new();
                push_text(&mut note, "display-message");
                push_text(&mut note, "-d");
                push_text(&mut note, "5000");
                push_text(&mut note, text.as_str());
                assert(strings(note@) =~= bell_plan(*session, reason@)->Everybody_note.args);
                BellPlan::Everybody {
                    note: CommandLine { program: "tmux".to_string(), args: note },
                }
            },
        }
    }
}

impl Default for BellNotifier {
    fn default() -> (r: BellNotifier)
        ensures
            r@ == Map::<Seq<char>, u64>::empty(),
    {
        BellNotifier::new()
    }
}

/// After a bell, no change of that session rings for half a minute, and the
/// bells of other sessions are not affected.
pub proof fn law_bell_cools_down(
    last: Map<Seq<char>, u64>,
    key: Seq<char>,
    a: SessionState,
    b: SessionState,
    t: u64,
    other: Seq<char>,
    c: SessionState,
    d: SessionState,
    now_ns: u64,
)
    requires
        rings(last, key, a, b, t),
    ensures
        now_ns < t + BELL_COOLDOWN_NS ==> !rings(
            after_change(last, key, a, b, t),
            key,
            c,
            d,
            now_ns,
        ),
        other != key ==> rings(after_change(last, key, a, b, t), other, c, d, now_ns) == rings(
            last,
            other,
            c,
            d,
            now_ns,
        ),
{
}

/// A change of a session that had no bell in the last thirty seconds rings if and
/// only if the state it changes to is idle, waiting for permission, waiting for
/// input or error.
pub proof fn law_four_states_ring(
    last: Map<Seq<char>, u64>,
    key: Seq<char>,
    a: SessionState,
    b: SessionState,
    now_ns: u64,
)
    requires
        a != b,
        last.contains_key(key) ==> last[key] + 30_000_000_000 <= now_ns,
    ensures
        rings(last, key, a, b, now_ns) <==> (b == SessionState::Idle || b
            == SessionState::WaitingForPermission || b == SessionState::WaitingForInput || b
            == SessionState::Error),
{
}

/// A session that stays in its state does not ring, nor does one whose last bell
/// is less than thirty seconds old, whatever it changes to.
pub proof fn law_quiet_without_change_and_within_half_a_minute(
    last: Map<Seq<char>, u64>,
    key: Seq<char>,
    a: SessionState,
    b: SessionState,
    now_ns: u64,
)
    ensures
        !rings(last, key, a, a, now_ns),
        last.contains_key(key) && now_ns < last[key] + 30_000_000_000 ==> !rings(
            last,
            key,
            a,
            b,
            now_ns,
        ),
{
}

/// A bell is recorded with its time, for its session alone; where none rings,
/// nothing is recorded.
pub proof fn law_bell_is_recorded(
    last: Map<Seq<char>, u64>,
    key: Seq<char>,
    other: Seq<char>,
    a: SessionState,
    b: SessionState,
    now_ns: u64,
)
    ensures
        ({
            let after = after_change(last, key, a, b, now_ns);
            &&& rings(last, key, a, b, now_ns) ==> after.contains_key(key) && after[key] == now_ns
            &&& !rings(last, key, a, b, now_ns) ==> after == last
            &&& other != key ==> (after.contains_key(other) <==> last.contains_key(other))
            &&& other != key && last.contains_key(other) ==> after[other] == last[other]
        }),
{
}

/// A bell whose pane is known asks for the terminal of that very pane, and its
/// note goes to the window of the pane; otherwise the note goes to no window in
/// particular. The note ends the command, and is shown for five seconds.
pub proof fn law_bell_goes_to_its_pane(s: SessionInfo, reason: Seq<char>)
    ensures
        match (s.tmux_session, s.tmux_window, s.tmux_pane) {
            (Some(session), Some(window), Some(pane)) => match bell_plan(s, reason) {
                BellPlanView::Pane { ask, note } => {
                    &&& ask.program == "tmux"@ && note.program == "tmux"@
                    &&& ask.args.len() == 5 && ask.args[0] == "display-message"@ && ask.args[1]
                        == "-t"@ && ask.args[2] == session@ + ":"@ + window@ + "."@ + pane@
                        && ask.args[3] == "-p"@ && ask.args[4] == "#{pane_tty}"@
                    &&& note.args.len() == 6 && note.args[0] == "display-message"@ && note.args[1]
                        == "-t"@ && note.args[2] == session@ + ":"@ + window@ && note.args[3]
                        == "-d"@ && note.args[4] == "5000"@ && note.args[5] == note_text(s, reason)
                },
                BellPlanView::Everybody { note } => false,
            },
            _ => match bell_plan(s, reason) {
                BellPlanView::Pane { ask, note } => false,
                BellPlanView::Everybody { note } => note.program == "tmux"@ && note.args.len() == 4
                    && note.args[0] == "display-message"@ && note.args[1] == "-d"@ && note.args[2]
                    == "5000"@ && note.args[3] == note_text(s, reason),
            },
        },
{
}

/// A note names the program, then at most the first thirty characters of the
/// title, and the reason in brackets at its end.
pub proof fn law_note_names_title_and_reason(s: SessionInfo, reason: Seq<char>)
    ensures
        ({
            let head = "ocwatch: "@;
            let tail = " needs attention ("@ + reason + ")"@;
            let note = note_text(s, reason);
            let shown = note.subrange(head.len() as int, note.len() - tail.len());
            &&& starts_with(note, head)
            &&& note.skip(note.len() - tail.len()) == tail
            &&& shown.len() <= 30
            &&& shown.is_prefix_of(s.title@)
            &&& s.title@.len() <= 30 ==> shown == s.title@
            &&& s.title@.len() > 30 ==> shown.len() == 30
        }),
{
    let head = "ocwatch: "@;
    let tail = " needs attention ("@ + reason + ")"@;
    let title = take_chars(s.title@, 30);
    let note = note_text(s, reason);
    assert(note =~= head + title + tail);
    assert(note.take(head.len() as int) =~= head);
    assert(note.skip(note.len() - tail.len()) =~= tail);
    assert(note.subrange(head.len() as int, note.len() - tail.len()) =~= title);
}

/// What tmux answered is a terminal to ring at if and only if, without the white
/// space around it, it is a path below `/dev/`; that path is the terminal.
pub proof fn law_terminal_is_a_device(before: Seq<char>, tty: Seq<char>)
    requires
        tty == trim(before),
    ensures
        bell_tty(before) matches Some(t) ==> t == tty && starts_with(t, "/dev/"@),
        bell_tty(before) is None ==> !starts_with(tty, "/dev/"@),
{
}

} // verus!
