//! The status bar.

use vstd::prelude::*;
use vstd::string::*;

use crate::text::{concat4, decimal, number_text};
use crate::tui::app::{App, AppView};
use crate::types::{SessionInfo, SessionState};

verus! {

/// The number of sessions in a state.
pub open spec fn count_in(s: Seq<SessionInfo>, state: SessionState) -> nat
    decreases s.len(),
{
    if s.len() == 0 {
        0
    } else if s.last().state == state {
        count_in(s.drop_last(), state) + 1
    } else {
        count_in(s.drop_last(), state)
    }
}

/// The number of sessions that wait for their user.
pub open spec fn count_waiting(s: Seq<SessionInfo>) -> nat {
    count_in(s, SessionState::WaitingForPermission) + count_in(s, SessionState::WaitingForInput)
}

/// The numbers of busy, idle, waiting and failed sessions.
pub fn count_by_state(sessions: &Vec<SessionInfo>) -> (r: (usize, usize, usize, usize))
    ensures
        r.0 == count_in(sessions@, SessionState::Busy),
        r.1 == count_in(sessions@, SessionState::Idle),
        r.2 == count_waiting(sessions@),
        r.3 == count_in(sessions@, SessionState::Error),
{
    let mut busy: usize = 0;
    let mut idle: usize = 0;
    let mut waiting: usize = 0;
    let mut error: usize = 0;
    for k in 0..sessions.len()
        invariant
            busy == count_in(sessions@.take(k as int), SessionState::Busy),
            idle == count_in(sessions@.take(k as int), SessionState::Idle),
            waiting == count_waiting(sessions@.take(k as int)),
            error == count_in(sessions@.take(k as int), SessionState::Error),
            busy <= k,
            idle <= k,
            waiting <= k,
            error <= k,
    {
        assert(sessions@.take(k + 1).drop_last() =~= sessions@.take(k as int));
        match sessions[k].state {
            SessionState::Busy => {
                busy = busy + 1;
            },
            SessionState::Idle => {
                idle = idle + 1;
            },
            SessionState::WaitingForPermission => {
                waiting = waiting + 1;
            },
            SessionState::WaitingForInput => {
                waiting = waiting + 1;
            },
            SessionState::Error => {
                error = error + 1;
            },
            _ => {},
        }
    }
    assert(sessions@.take(sessions@.len() as int) =~= sessions@);
    (busy, idle, waiting, error)
}

/// What the status bar shows.
pub enum StatusBar {
    /// One text over the whole width.
    Disconnected { text: String },
    /// Counts on the left, the current message, and the keys on the right.
    Parts { left: String, center: String, right: String },
}

/// What the status bar shows as values.
#[verifier::ext_equal]
pub enum StatusBarView {
    Disconnected { text: Seq<char> },
    Parts { left: Seq<char>, center: Seq<char>, right: Seq<char> },
}

impl View for StatusBar {
    type V = StatusBarView;

    open spec fn view(&self) -> StatusBarView {
        match *self {
            StatusBar::Disconnected { text } => StatusBarView::Disconnected { text: text@ },
            StatusBar::Parts { left, center, right } => StatusBarView::Parts {
                left: left@,
                center: center@,
                right: right@,
            },
        }
    }
}

/// The counts in the status bar.
pub open spec fn counts_text(s: Seq<SessionInfo>) -> Seq<char> {
    "B:"@ + decimal(count_in(s, SessionState::Busy)) + " I:"@ + decimal(
        count_in(s, SessionState::Idle),
    ) + (" W:"@ + decimal(count_waiting(s)) + " E:"@ + decimal(
        count_in(s, SessionState::Error),
    ))
}

/// The keys in the status bar.
pub open spec fn keys_text() -> Seq<char> {
    "[←/→] tree  [?] help  [n] new  [a] approve  [⏎] drop-in  [q] quit"@
}

/// What the status bar shows at a time.
pub open spec fn status_bar(v: AppView, now_ms: u64) -> StatusBarView {
    if !v.connected {
        StatusBarView::Disconnected {
            text: "⚠ Daemon disconnected — start with: ocwatch daemon start"@,
        }
    } else {
        StatusBarView::Parts {
            left: counts_text(v.sessions),
            center: match v.status {
                Some((text, expires)) => if now_ms < expires {
                    text
                } else {
                    Seq::empty()
                },
                None => Seq::empty(),
            },
            right: keys_text(),
        }
    }
}

/// What the status bar shows at a time.
pub fn render(app: &App, now_ms: u64) -> (r: StatusBar)
    ensures
        r@ == status_bar(app@, now_ms),
{
    if !app.daemon_connected {
        return StatusBar::Disconnected {
            text: "⚠ Daemon disconnected — start with: ocwatch daemon start".to_string(),
        };
    }
    let counts = count_by_state(&app.sessions);
    let first = concat4(
        "B:",
        number_text(counts.0 as u64).as_str(),
        " I:",
        number_text(counts.1 as u64).as_str(),
    );
    let second = concat4(
        " W:",
        number_text(counts.2 as u64).as_str(),
        " E:",
        number_text(counts.3 as u64).as_str(),
    );
    let left = crate::text::concat2(first.as_str(), second.as_str());
    let center = match app.current_status_msg(now_ms) {
        Some(text) => text.to_string(),
        None => String::new(),
    };
    StatusBar::Parts {
        left,
        center,
        right: "[←/→] tree  [?] help  [n] new  [a] approve  [⏎] drop-in  [q] quit".to_string(),
    }
}

/// The sessions in a state are counted one by one.
pub proof fn law_counted_one_by_one(s: SessionInfo, rest: Seq<SessionInfo>, state: SessionState)
    ensures
        count_in(Seq::empty(), state) == 0,
        count_in(seq![s] + rest, state) == count_in(rest, state) + (if s.state == state {
            1nat
        } else {
            0
        }),
    decreases rest.len(),
{
    let all = seq![s] + rest;
    if rest.len() == 0 {
        assert(all.drop_last() =~= Seq::<SessionInfo>::empty());
        assert(all.last() == s);
    } else {
        law_counted_one_by_one(s, rest.drop_last(), state);
        assert(all.drop_last() =~= seq![s] + rest.drop_last());
        assert(all.last() == rest.last());
    }
}

/// The bar counts those that are busy, idle, waiting for permission or for input,
/// and failed, in this order.
pub proof fn law_bar_counts_in_order(s: Seq<SessionInfo>)
    ensures
        counts_text(s) == "B:"@ + decimal(count_in(s, SessionState::Busy)) + " I:"@ + decimal(
            count_in(s, SessionState::Idle),
        ) + " W:"@ + decimal(
            count_in(s, SessionState::WaitingForPermission) + count_in(
                s,
                SessionState::WaitingForInput,
            ),
        ) + " E:"@ + decimal(count_in(s, SessionState::Error)),
{
}

/// A message is shown until it expires and no longer; without the daemon the bar
/// says how to start it, and nothing else.
pub proof fn law_bar_shows_what_has_not_expired(v: AppView, now_ms: u64)
    ensures
        !v.connected ==> status_bar(v, now_ms) is Disconnected,
        v.connected ==> (match status_bar(v, now_ms) {
            StatusBarView::Parts { left, center, right } => {
                &&& left == counts_text(v.sessions)
                &&& v.status is None ==> center.len() == 0
                &&& v.status matches Some((text, expires)) ==> (now_ms < expires ==> center == text)
                    && (now_ms >= expires ==> center.len() == 0)
                &&& right == keys_text()
            },
            StatusBarView::Disconnected { .. } => false,
        }),
{
}

} // verus!
