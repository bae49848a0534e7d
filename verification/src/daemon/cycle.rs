//! Cycles of scans: when one is started, who waits for it, and what is told when
//! it is over.

use vstd::prelude::*;
use vstd::string::*;

use crate::config::{configured_remote_hosts, remote_names};
use crate::daemon::state::{
    action_views, push_action, scan_applied, ActionView, CoreAction, CoreView, DaemonCore,
    ResolvedHostScan,
};
use crate::ipc::{DaemonMessage, DaemonView};
use crate::keyed::{law_listing_is_complete, lemma_listing, lists_values, KeyMap};
use crate::text::strings;
use crate::types::{HostStatus, SessionInfo};

verus! {

// ---------------------------------------------------------------------------
// Snapshots
// ---------------------------------------------------------------------------

/// Whether a message tells all that is known: each session and each host once,
/// in some order.
pub open spec fn is_snapshot(m: DaemonView, v: CoreView) -> bool {
    m matches DaemonView::StateSnapshot { sessions, hosts } && lists_values(sessions, v.sessions)
        && lists_values(hosts, v.hosts)
}

/// The values of a map, each once, in some order.
fn all_sessions(m: &KeyMap<SessionInfo>) -> (r: Vec<SessionInfo>)
    ensures
        lists_values(r@, m@),
{
    let n: usize = m.len();
    let ghost e = m.listed();
    let mut out: Vec<SessionInfo> = Vec::new();
    for i in 0..n
        invariant
            n == e.len(),
            e == m.listed(),
            out@.len() == i,
            forall|j: int| 0 <= j < i ==> #[trigger] out@[j] == e[j].1,
    {
        out.push(m.at(i).1.clone());
    }
    proof {
        lemma_listing(e, out@);
    }
    out
}

/// The values of a map, each once, in some order.
fn all_hosts(m: &KeyMap<HostStatus>) -> (r: Vec<HostStatus>)
    ensures
        lists_values(r@, m@),
{
    let n: usize = m.len();
    let ghost e = m.listed();
    let mut out: Vec<HostStatus> = Vec::new();
    for i in 0..n
        invariant
            n == e.len(),
            e == m.listed(),
            out@.len() == i,
            forall|j: int| 0 <= j < i ==> #[trigger] out@[j] == e[j].1,
    {
        out.push(m.at(i).1.clone());
    }
    proof {
        lemma_listing(e, out@);
    }
    out
}

/// What is told of the daemon itself.
pub struct DaemonFacts {
    pub pid: u32,
    pub uptime_secs: u64,
    pub socket: String,
}

/// Whether a message tells all that is known and what the daemon is.
pub open spec fn is_status(m: DaemonView, v: CoreView, facts: DaemonFacts) -> bool {
    &&& m matches DaemonView::DaemonStatus { running, pid, uptime_secs, socket, hosts, sessions }
    &&& running
    &&& pid == facts.pid
    &&& uptime_secs == facts.uptime_secs
    &&& socket == facts.socket@
    &&& lists_values(hosts, v.hosts)
    &&& lists_values(sessions, v.sessions)
}

// ---------------------------------------------------------------------------
// Hosts that were not heard of yet
// ---------------------------------------------------------------------------

/// Whether nothing is known of a host but its name.
pub open spec fn is_placeholder(h: HostStatus, name: Seq<char>) -> bool {
    &&& h.name@ == name
    &&& !h.connected
    &&& h.session_count == 0
    &&& h.last_poll_unix_ms is None
    &&& h.error is None
}

/// Whether hosts were added to a map, with nothing known of them, and nothing
/// else was changed.
pub open spec fn placed(
    before: Map<Seq<char>, HostStatus>,
    after: Map<Seq<char>, HostStatus>,
    names: Seq<Seq<char>>,
) -> bool {
    &&& forall|k: Seq<char>| #[trigger]
        after.contains_key(k) <==> before.contains_key(k) || names.contains(k)
    &&& forall|k: Seq<char>| #[trigger] before.contains_key(k) ==> after[k] == before[k]
    &&& forall|k: Seq<char>|
        !before.contains_key(k) && names.contains(k) ==> is_placeholder(#[trigger] after[k], k)
}

/// The hosts that the daemon watches.
pub open spec fn watched(v: CoreView) -> Seq<Seq<char>> {
    seq!["local"@] + remote_names(v.configured)
}

/// Adds a host of which nothing is known, where it is not there.
fn add_placeholder(hosts: &mut KeyMap<HostStatus>, name: &str)
    ensures
        if old(hosts)@.contains_key(name@) {
            final(hosts)@ == old(hosts)@
        } else {
            exists|h: HostStatus| #[trigger]
                is_placeholder(h, name@) && final(hosts)@ == old(hosts)@.insert(name@, h)
        },
{
    if !hosts.contains_key(name) {
        let h = HostStatus {
            name: name.to_string(),
            connected: false,
            session_count: 0,
            last_poll_unix_ms: None,
            error: None,
        };
        assert(is_placeholder(h, name@));
        hosts.insert(name.to_string(), h);
    }
}

proof fn lemma_placed_one(
    start: Map<Seq<char>, HostStatus>,
    mid: Map<Seq<char>, HostStatus>,
    after: Map<Seq<char>, HostStatus>,
    names: Seq<Seq<char>>,
    name: Seq<char>,
)
    requires
        placed(start, mid, names),
        if mid.contains_key(name) {
            after == mid
        } else {
            exists|h: HostStatus| #[trigger]
                is_placeholder(h, name) && after == mid.insert(name, h)
        },
    ensures
        placed(start, after, names.push(name)),
{
    let more = names.push(name);
    assert forall|k: Seq<char>| more.contains(k) <==> names.contains(k) || k == name by {
        if more.contains(k) {
            let i = choose|i: int| 0 <= i < more.len() && more[i] == k;
            if i < names.len() {
                assert(names[i] == k);
            }
        }
        if names.contains(k) {
            let i = choose|i: int| 0 <= i < names.len() && names[i] == k;
            assert(more[i] == k);
        }
        if k == name {
            assert(more[names.len() as int] == k);
        }
    }
    assert forall|k: Seq<char>| #[trigger]
        after.contains_key(k) <==> start.contains_key(k) || more.contains(k) by {
        assert(mid.contains_key(k) <==> start.contains_key(k) || names.contains(k));
    }
    assert forall|k: Seq<char>|
        !start.contains_key(k) && more.contains(k) implies is_placeholder(
        #[trigger] after[k],
        k,
    ) by {
        assert(mid.contains_key(k) <==> start.contains_key(k) || names.contains(k));
        if names.contains(k) {
            assert(is_placeholder(mid[k], k));
        }
    }
    assert forall|k: Seq<char>| #[trigger] start.contains_key(k) implies after[k] == start[k] by {
        assert(mid.contains_key(k));
    }
}

// ---------------------------------------------------------------------------
// Steps
// ---------------------------------------------------------------------------

/// After a cycle was asked for: one that runs is followed by another, else one
/// is started.
pub open spec fn cycle_requested(v: CoreView) -> CoreView {
    if v.in_progress {
        CoreView { rescan: true, ..v }
    } else {
        CoreView { in_progress: true, active: (v.active + 1) as u64, ..v }
    }
}

/// The answers to those who waited for a generation that is over.
pub open spec fn due_answers(pending: Seq<(u64, u64)>, completed: u64, m: DaemonView) -> Seq<
    ActionView,
>
    decreases pending.len(),
{
    if pending.len() == 0 {
        Seq::empty()
    } else {
        let before = due_answers(pending.drop_last(), completed, m);
        if pending.last().0 <= completed {
            before.push(ActionView::Answer { ticket: pending.last().1, message: m })
        } else {
            before
        }
    }
}

/// Those who still wait.
pub open spec fn still_waiting(pending: Seq<(u64, u64)>, completed: u64) -> Seq<(u64, u64)>
    decreases pending.len(),
{
    if pending.len() == 0 {
        Seq::empty()
    } else {
        let before = still_waiting(pending.drop_last(), completed);
        if pending.last().0 <= completed {
            before
        } else {
            before.push(pending.last())
        }
    }
}

/// After a cycle is over: who waited for it is answered, and another one is
/// asked for where that was wanted.
pub open spec fn cycle_completed(v: CoreView, snapshot: DaemonView) -> (CoreView, Seq<ActionView>) {
    let over = CoreView {
        in_progress: false,
        completed: v.active,
        pending: still_waiting(v.pending, v.active),
        rescan: false,
        ..v
    };
    let answers = due_answers(v.pending, v.active, snapshot);
    if v.rescan {
        (cycle_requested(over), answers.push(ActionView::StartCycle))
    } else {
        (over, answers)
    }
}

/// What those who wait are told when nothing comes any more.
pub open spec fn abort_answers(pending: Seq<(u64, u64)>) -> Seq<ActionView> {
    Seq::new(
        pending.len(),
        |k: int|
            ActionView::Answer {
                ticket: pending[k].1,
                message: DaemonView::Error {
                    message: "Refresh aborted because the scan worker stopped"@,
                },
            },
    )
}

/// After the worker stopped: who waits is told so, and a cycle is asked for where
/// one was running or wanted.
pub open spec fn worker_stopped_step(v: CoreView) -> (CoreView, Seq<ActionView>) {
    let stopped = CoreView { in_progress: false, pending: Seq::empty(), ..v };
    if wants_cycle(v) {
        (
            cycle_requested(CoreView { rescan: false, ..stopped }),
            abort_answers(v.pending).push(ActionView::StartCycle),
        )
    } else {
        (stopped, abort_answers(v.pending))
    }
}

/// Whether two states agree but for hosts of which nothing is known.
pub open spec fn same_but_placeholders(before: CoreView, after: CoreView) -> bool {
    &&& placed(before.hosts, after.hosts, watched(before))
    &&& after == (CoreView { hosts: after.hosts, ..before })
}

/// What holds once a cycle is over: those who waited for it are answered with one
/// snapshot, and another cycle is started where that was wanted.
pub open spec fn cycle_ends(before: CoreView, after: CoreView, actions: Seq<ActionView>) -> bool {
    exists|snapshot: DaemonView| #[trigger]
        is_snapshot(snapshot, before) && actions == cycle_completed(before, snapshot).1 && (
        if before.rescan {
            same_but_placeholders(cycle_completed(before, snapshot).0, after)
        } else {
            after == cycle_completed(before, snapshot).0
        })
}

/// Whether a cycle was running, wanted or waited for.
pub open spec fn wants_cycle(v: CoreView) -> bool {
    v.in_progress || v.rescan || v.pending.len() > 0
}

/// What holds once the worker stopped.
pub open spec fn worker_ends(before: CoreView, after: CoreView, actions: Seq<ActionView>) -> bool {
    &&& actions == worker_stopped_step(before).1
    &&& if wants_cycle(before) {
        same_but_placeholders(worker_stopped_step(before).0, after)
    } else {
        after == worker_stopped_step(before).0
    }
}

/// What holds once a host was scanned: the scan is taken in, and everybody is told
/// a snapshot of what is known then.
pub open spec fn host_told(
    before: CoreView,
    after: CoreView,
    scan: ResolvedHostScan,
    now_ns: u64,
    actions: Seq<ActionView>,
) -> bool {
    &&& after == scan_applied(before, scan, now_ns).0
    &&& exists|snapshot: DaemonView| #[trigger]
        is_snapshot(snapshot, after) && actions == scan_applied(before, scan, now_ns).1.push(
            ActionView::Broadcast(snapshot),
        )
}

/// What the worker tells.
pub enum ScanWorkerEvent {
    HostScanned(ResolvedHostScan),
    CycleComplete,
}

/// How a wish for a fresh state goes on.
#[derive(Clone, Copy, Debug, PartialEq, Eq, Structural)]
pub enum RefreshStep {
    /// It is answered when the next cycle is over.
    Waiting,
    /// A cycle is to be started, which answers it.
    Start,
}

impl DaemonCore {
    /// All that is known.
    pub fn state_snapshot(&self) -> (r: DaemonMessage)
        ensures
            is_snapshot(r@, self@),
    {
        DaemonMessage::StateSnapshot {
            sessions: all_sessions(&self.sessions),
            hosts: all_hosts(&self.hosts),
        }
    }

    /// All that is known, and what the daemon is.
    pub fn build_status(&self, facts: &DaemonFacts) -> (r: DaemonMessage)
        ensures
            is_status(r@, self@, *facts),
    {
        DaemonMessage::DaemonStatus {
            running: true,
            pid: facts.pid,
            uptime_secs: facts.uptime_secs,
            socket: facts.socket.clone(),
            hosts: all_hosts(&self.hosts),
            sessions: all_sessions(&self.sessions),
        }
    }

    /// Adds the watched hosts of which nothing is known yet.
    pub fn ensure_host_placeholders(&mut self)
        ensures
            same_but_placeholders(old(self)@, final(self)@),
    {
        let ghost v = self@;
        let ghost start = v.hosts;
        let names = configured_remote_hosts(&self.config);
        let ghost all = watched(v);
        assert(placed(start, start, all.take(0)));
        let ghost mid = self.hosts@;
        add_placeholder(&mut self.hosts, "local");
        proof {
            lemma_placed_one(start, mid, self.hosts@, all.take(0), "local"@);
            assert(all.take(0).push("local"@) =~= all.take(1));
        }
        for i in 0..names.len()
            invariant
                strings(names@) == remote_names(v.configured),
                all == watched(v),
                start == v.hosts,
                placed(start, self.hosts@, all.take(i + 1)),
                self@ == (CoreView { hosts: self.hosts@, ..v }),
        {
            let ghost mid = self.hosts@;
            add_placeholder(&mut self.hosts, names[i].as_str());
            proof {
                lemma_placed_one(start, mid, self.hosts@, all.take(i + 1), names@[i as int]@);
                assert(all[i + 1] == names@[i as int]@);
                assert(all.take(i + 1).push(names@[i as int]@) =~= all.take(i + 2));
                assert(self@ =~= CoreView { hosts: self.hosts@, ..v });
            }
        }
        assert(all.take(all.len() as int) =~= all);
    }

    /// Asks for a cycle; says whether one is to be started.
    pub fn request_scan_cycle(&mut self) -> (start: bool)
        requires
            old(self)@.in_progress || old(self)@.active < u64::MAX,
        ensures
            start == !old(self)@.in_progress,
            same_but_placeholders(cycle_requested(old(self)@), final(self)@),
    {
        self.ensure_host_placeholders();
        let ghost v = self@;
        if self.scan_in_progress {
            self.rescan_requested = true;
            assert(self@ =~= CoreView { rescan: true, ..v });
            return false;
        }
        self.scan_in_progress = true;
        self.active_scan_generation = self.active_scan_generation + 1;
        assert(self@ =~= cycle_requested(v));
        true
    }

    /// Notes that a cycle could not be started after all.
    pub fn scan_not_started(&mut self)
        ensures
            final(self)@ == (CoreView { in_progress: false, ..old(self)@ }),
    {
        self.scan_in_progress = false;
        assert(self@ =~= CoreView { in_progress: false, ..old(self)@ });
    }

    /// Takes in the wish of somebody for a fresh state.
    pub fn schedule_refresh(&mut self, ticket: u64) -> (r: RefreshStep)
        requires
            old(self)@.active < u64::MAX,
        ensures
            if old(self)@.in_progress {
                &&& r == RefreshStep::Waiting
                &&& final(self)@ == (CoreView {
                    rescan: true,
                    pending: old(self)@.pending.push(((old(self)@.active + 1) as u64, ticket)),
                    ..old(self)@
                })
            } else {
                &&& r == RefreshStep::Start
                &&& same_but_placeholders(cycle_requested(old(self)@), final(self)@)
            },
    {
        if self.scan_in_progress {
            self.rescan_requested = true;
            self.pending_refresh_responders.push((self.active_scan_generation + 1, ticket));
            assert(self@ =~= CoreView {
                rescan: true,
                pending: old(self)@.pending.push(((old(self)@.active + 1) as u64, ticket)),
                ..old(self)@
            });
            RefreshStep::Waiting
        } else {
            self.request_scan_cycle();
            RefreshStep::Start
        }
    }

    /// Notes that the cycle for somebody's wish was started.
    pub fn refresh_started(&mut self, ticket: u64)
        ensures
            final(self)@ == (CoreView {
                pending: old(self)@.pending.push((old(self)@.active, ticket)),
                ..old(self)@
            }),
    {
        self.pending_refresh_responders.push((self.active_scan_generation, ticket));
        assert(self@ =~= CoreView {
            pending: old(self)@.pending.push((old(self)@.active, ticket)),
            ..old(self)@
        });
    }

    /// Notes that the cycle for somebody's wish could not be started; gives the
    /// answer.
    pub fn refresh_not_started(&mut self) -> (r: DaemonMessage)
        ensures
            final(self)@ == (CoreView { in_progress: false, ..old(self)@ }),
            r@ == (DaemonView::Error { message: "Failed to start refresh scan"@ }),
    {
        self.scan_not_started();
        DaemonMessage::Error { message: "Failed to start refresh scan".to_string() }
    }

    /// Answers those who waited for a generation that is over.
    fn flush_refresh_responders(&mut self, snapshot: &DaemonMessage) -> (r: Vec<CoreAction>)
        ensures
            final(self)@ == (CoreView {
                pending: still_waiting(old(self)@.pending, old(self)@.completed),
                ..old(self)@
            }),
            action_views(r@) == due_answers(old(self)@.pending, old(self)@.completed, snapshot@),
    {
        let ghost v = self@;
        let ghost p = v.pending;
        let mut answers: Vec<CoreAction> = Vec::new();
        let mut remaining: Vec<(u64, u64)> = Vec::new();
        assert(action_views(answers@) =~= Seq::<ActionView>::empty());
        for k in 0..self.pending_refresh_responders.len()
            invariant
                self@ == v,
                p == v.pending,
                action_views(answers@) == due_answers(p.take(k as int), v.completed, snapshot@),
                remaining@ == still_waiting(p.take(k as int), v.completed),
        {
            assert(p.take(k + 1).drop_last() =~= p.take(k as int));
            let (generation, ticket) = self.pending_refresh_responders[k];
            assert(p.take(k + 1).last() == (generation, ticket));
            if generation <= self.completed_scan_generation {
                push_action(
                    &mut answers,
                    CoreAction::Answer { ticket, message: snapshot.clone() },
                );
            } else {
                remaining.push((generation, ticket));
            }
        }
        assert(p.take(p.len() as int) =~= p);
        self.pending_refresh_responders = remaining;
        assert(self@ =~= CoreView { pending: still_waiting(p, v.completed), ..v });
        answers
    }

    /// Tells those who wait that nothing comes any more.
    fn fail_refresh_responders(&mut self) -> (r: Vec<CoreAction>)
        ensures
            final(self)@ == (CoreView { pending: Seq::empty(), ..old(self)@ }),
            action_views(r@) == abort_answers(old(self)@.pending),
    {
        let ghost v = self@;
        let mut answers: Vec<CoreAction> = Vec::new();
        assert(action_views(answers@) =~= abort_answers(v.pending).take(0));
        for k in 0..self.pending_refresh_responders.len()
            invariant
                self@ == v,
                action_views(answers@) == abort_answers(v.pending).take(k as int),
        {
            let ticket: u64 = self.pending_refresh_responders[k].1;
            push_action(
                &mut answers,
                CoreAction::Answer {
                    ticket,
                    message: DaemonMessage::Error {
                        message: "Refresh aborted because the scan worker stopped".to_string(),
                    },
                },
            );
            assert(action_views(answers@) =~= abort_answers(v.pending).take(k + 1));
        }
        assert(abort_answers(v.pending).take(v.pending.len() as int) =~= abort_answers(v.pending));
        self.pending_refresh_responders = Vec::new();
        assert(self@ =~= CoreView { pending: Seq::empty(), ..v });
        answers
    }

    /// Takes in the end of a cycle.
    pub fn cycle_complete(&mut self) -> (r: Vec<CoreAction>)
        requires
            old(self)@.rescan ==> old(self)@.active < u64::MAX,
        ensures
            cycle_ends(old(self)@, final(self)@, action_views(r@)),
    {
        let ghost v = self@;
        self.scan_in_progress = false;
        self.completed_scan_generation = self.active_scan_generation;
        assert(self@ =~= CoreView { in_progress: false, completed: v.active, ..v });
        let snapshot = self.state_snapshot();
        assert(is_snapshot(snapshot@, v));
        let mut actions = self.flush_refresh_responders(&snapshot);
        let ghost over = CoreView {
            in_progress: false,
            completed: v.active,
            pending: still_waiting(v.pending, v.active),
            rescan: false,
            ..v
        };
        if self.rescan_requested {
            self.rescan_requested = false;
            assert(self@ =~= over);
            self.request_scan_cycle();
            push_action(&mut actions, CoreAction::StartCycle);
        } else {
            assert(self@ =~= over);
        }
        actions
    }

    /// Takes in that the worker stopped.
    pub fn worker_stopped(&mut self) -> (r: Vec<CoreAction>)
        requires
            old(self)@.active < u64::MAX,
        ensures
            worker_ends(old(self)@, final(self)@, action_views(r@)),
    {
        let ghost v = self@;
        let resume = self.scan_in_progress || self.rescan_requested
            || self.pending_refresh_responders.len() > 0;
        let mut actions = self.fail_refresh_responders();
        self.scan_in_progress = false;
        assert(self@ =~= CoreView { in_progress: false, pending: Seq::empty(), ..v });
        if resume {
            self.rescan_requested = false;
            assert(self@ =~= CoreView {
                in_progress: false,
                pending: Seq::empty(),
                rescan: false,
                ..v
            });
            self.request_scan_cycle();
            push_action(&mut actions, CoreAction::StartCycle);
        }
        actions
    }

    /// Takes in the scan of a host, and tells everybody all that is known.
    pub fn host_scanned(&mut self, scan: ResolvedHostScan, now_ns: u64) -> (r: Vec<CoreAction>)
        ensures
            host_told(old(self)@, final(self)@, scan, now_ns, action_views(r@)),
    {
        let mut actions = self.apply_scan_result(scan, now_ns);
        let snapshot = self.state_snapshot();
        push_action(&mut actions, CoreAction::Broadcast(snapshot));
        assert(is_snapshot(snapshot@, self@));
        actions
    }

    /// Takes in what the worker tells, or that it stopped.
    pub fn worker_event(&mut self, event: Option<ScanWorkerEvent>, now_ns: u64) -> (r: Vec<
        CoreAction,
    >)
        requires
            old(self)@.active < u64::MAX,
        ensures
            match event {
                Some(ScanWorkerEvent::HostScanned(scan)) => host_told(
                    old(self)@,
                    final(self)@,
                    scan,
                    now_ns,
                    action_views(r@),
                ),
                Some(ScanWorkerEvent::CycleComplete) => cycle_ends(
                    old(self)@,
                    final(self)@,
                    action_views(r@),
                ),
                None => worker_ends(old(self)@, final(self)@, action_views(r@)),
            },
    {
        match event {
            Some(ScanWorkerEvent::HostScanned(scan)) => self.host_scanned(scan, now_ns),
            Some(ScanWorkerEvent::CycleComplete) => self.cycle_complete(),
            None => self.worker_stopped(),
        }
    }
}

// ---------------------------------------------------------------------------
// Laws
// ---------------------------------------------------------------------------

/// Whether those who wait wait for a cycle that runs, or for the next one, which
/// then is wanted.
pub open spec fn refresh_ok(v: CoreView) -> bool {
    &&& v.completed <= v.active
    &&& forall|k: int|
        0 <= k < v.pending.len() ==> (#[trigger] v.pending[k]).0 <= v.active + 1 && (
        v.pending[k].0 == v.active + 1 ==> v.in_progress && v.rescan)
}

proof fn lemma_still_waiting(pending: Seq<(u64, u64)>, completed: u64)
    ensures
        forall|k: int|
            0 <= k < still_waiting(pending, completed).len() ==> (
            #[trigger] still_waiting(pending, completed)[k]).0 > completed && pending.contains(
                still_waiting(pending, completed)[k],
            ),
        forall|k: int|
            0 <= k < pending.len() && (#[trigger] pending[k]).0 > completed ==> still_waiting(
                pending,
                completed,
            ).contains(pending[k]),
    decreases pending.len(),
{
    if pending.len() > 0 {
        let head = pending.drop_last();
        lemma_still_waiting(head, completed);
        let before = still_waiting(head, completed);
        let now = still_waiting(pending, completed);
        assert forall|k: int| 0 <= k < now.len() implies (#[trigger] now[k]).0 > completed
            && pending.contains(now[k]) by {
            if k < before.len() {
                assert(before[k] == now[k]);
                let n = choose|n: int| 0 <= n < head.len() && head[n] == before[k];
                assert(pending[n] == before[k]);
            } else {
                assert(pending[pending.len() - 1] == now[k]);
            }
        }
        assert forall|k: int| 0 <= k < pending.len() && (#[trigger] pending[k]).0 > completed implies now.contains(
            pending[k],
        ) by {
            if k < head.len() {
                assert(head[k] == pending[k]);
                let n = choose|n: int| 0 <= n < before.len() && before[n] == head[k];
                assert(now[n] == pending[k]);
            } else {
                assert(now[now.len() - 1] == pending[k]);
            }
        }
    }
}

proof fn lemma_due_answers(pending: Seq<(u64, u64)>, completed: u64, m: DaemonView, k: int)
    requires
        0 <= k < pending.len(),
        pending[k].0 <= completed,
    ensures
        due_answers(pending, completed, m).contains(
            ActionView::Answer { ticket: pending[k].1, message: m },
        ),
    decreases pending.len(),
{
    let now = due_answers(pending, completed, m);
    let want = ActionView::Answer { ticket: pending[k].1, message: m };
    if k == pending.len() - 1 {
        assert(now[now.len() - 1] == want);
    } else {
        let head = pending.drop_last();
        lemma_due_answers(head, completed, m, k);
        let before = due_answers(head, completed, m);
        let n = choose|n: int| 0 <= n < before.len() && before[n] == want;
        assert(now[n] == want);
    }
}

/// Asking for a cycle, a wish, the end of a cycle, the end of the worker, and a
/// cycle that could not be started: after each of them those who wait wait for
/// something that comes, as they did before.
pub proof fn law_refresh_stays_ok(v: CoreView, ticket: u64, snapshot: DaemonView)
    requires
        refresh_ok(v),
        v.active < u64::MAX,
    ensures
        refresh_ok(cycle_requested(v)),
        v.in_progress ==> refresh_ok(
            CoreView {
                rescan: true,
                pending: v.pending.push(((v.active + 1) as u64, ticket)),
                ..v
            },
        ),
        !v.in_progress ==> refresh_ok(
            CoreView {
                pending: cycle_requested(v).pending.push((cycle_requested(v).active, ticket)),
                ..cycle_requested(v)
            },
        ),
        refresh_ok(cycle_completed(v, snapshot).0),
        refresh_ok(worker_stopped_step(v).0),
{
    let done = cycle_completed(v, snapshot).0;
    lemma_still_waiting(v.pending, v.active);
    let left = still_waiting(v.pending, v.active);
    assert forall|k: int| 0 <= k < left.len() implies (#[trigger] left[k]).0 == v.active + 1
        && v.rescan by {
        assert(v.pending.contains(left[k]));
        let n = choose|n: int| 0 <= n < v.pending.len() && v.pending[n] == left[k];
        assert(v.pending[n].0 <= v.active + 1);
    }
    assert(done.pending == left);
}

/// Whoever waited when a cycle was over is answered with the state then, unless
/// the wish came while that cycle ran; then another cycle is started at once, and
/// its end brings the answer.
pub proof fn law_refresh_is_answered(v: CoreView, snapshot: DaemonView, later: DaemonView, k: int)
    requires
        refresh_ok(v),
        v.active + 1 < u64::MAX,
        0 <= k < v.pending.len(),
    ensures
        v.pending[k].0 <= v.active ==> cycle_completed(v, snapshot).1.contains(
            ActionView::Answer { ticket: v.pending[k].1, message: snapshot },
        ),
        v.pending[k].0 > v.active ==> {
            let next = cycle_completed(v, snapshot).0;
            &&& next.in_progress
            &&& cycle_completed(v, snapshot).1.contains(ActionView::StartCycle)
            &&& next.pending.contains(v.pending[k])
            &&& cycle_completed(next, later).1.contains(
                ActionView::Answer { ticket: v.pending[k].1, message: later },
            )
        },
{
    let answers = due_answers(v.pending, v.active, snapshot);
    let all = cycle_completed(v, snapshot).1;
    if v.pending[k].0 <= v.active {
        lemma_due_answers(v.pending, v.active, snapshot, k);
        let want = ActionView::Answer { ticket: v.pending[k].1, message: snapshot };
        let n = choose|n: int| 0 <= n < answers.len() && answers[n] == want;
        assert(all[n] == want);
    } else {
        let next = cycle_completed(v, snapshot).0;
        assert(v.rescan);
        assert(all[answers.len() as int] == ActionView::StartCycle);
        lemma_still_waiting(v.pending, v.active);
        assert(next.pending.contains(v.pending[k]));
        let m = choose|m: int| 0 <= m < next.pending.len() && next.pending[m] == v.pending[k];
        assert(next.active == v.active + 1);
        lemma_due_answers(next.pending, next.active, later, m);
        let want = ActionView::Answer { ticket: v.pending[k].1, message: later };
        let mine = due_answers(next.pending, next.active, later);
        let n = choose|n: int| 0 <= n < mine.len() && mine[n] == want;
        assert(cycle_completed(next, later).1[n] == want);
    }
}

/// What is answered to whoever waits under a number, one answer after the other.
pub open spec fn answers_to(actions: Seq<ActionView>, ticket: u64) -> Seq<DaemonView>
    decreases actions.len(),
{
    if actions.len() == 0 {
        Seq::empty()
    } else {
        let before = answers_to(actions.drop_last(), ticket);
        match actions.last() {
            ActionView::Answer { ticket: t, message } => if t == ticket {
                before.push(message)
            } else {
                before
            },
            _ => before,
        }
    }
}

/// Whether nobody waits under a number but, maybe, the one at a place.
pub open spec fn waits_alone(pending: Seq<(u64, u64)>, ticket: u64, place: int) -> bool {
    forall|j: int| 0 <= j < pending.len() && j != place ==> (#[trigger] pending[j]).1 != ticket
}

/// What those who wait are answered once a generation is over.
proof fn lemma_answers_to(
    pending: Seq<(u64, u64)>,
    completed: u64,
    m: DaemonView,
    ticket: u64,
    place: int,
)
    requires
        waits_alone(pending, ticket, place),
    ensures
        answers_to(due_answers(pending, completed, m), ticket) == if 0 <= place < pending.len()
            && pending[place].1 == ticket && pending[place].0 <= completed {
            seq![m]
        } else {
            Seq::empty()
        },
    decreases pending.len(),
{
    if pending.len() > 0 {
        let head = pending.drop_last();
        assert forall|j: int| 0 <= j < head.len() && j != place implies (#[trigger] head[j]).1
            != ticket by {
            assert(head[j] == pending[j]);
        }
        lemma_answers_to(head, completed, m, ticket, place);
        let before = due_answers(head, completed, m);
        let last = pending[pending.len() - 1];
        if last.0 <= completed {
            let answer = ActionView::Answer { ticket: last.1, message: m };
            assert(before.push(answer).drop_last() =~= before);
        }
        if 0 <= place < head.len() {
            assert(head[place] == pending[place]);
        }
        assert(Seq::<DaemonView>::empty().push(m) =~= seq![m]);
    }
}

/// Once a generation is over, each of those who wait for it or an earlier one is
/// answered once, and nobody else; the others go on waiting, in their order.
pub proof fn law_only_the_due_are_answered(
    pending: Seq<(u64, u64)>,
    completed: u64,
    snapshot: DaemonView,
    ticket: u64,
    place: int,
)
    requires
        waits_alone(pending, ticket, place),
    ensures
        answers_to(due_answers(pending, completed, snapshot), ticket) == if 0 <= place
            < pending.len() && pending[place].1 == ticket && pending[place].0 <= completed {
            seq![snapshot]
        } else {
            Seq::empty()
        },
        still_waiting(pending, completed) == pending.filter(|p: (u64, u64)| p.0 > completed),
{
    lemma_answers_to(pending, completed, snapshot, ticket, place);
    lemma_still_waiting_filter(pending, completed);
}

/// The end of a cycle answers each of those who wait for a generation that is
/// over once, with the state then, and nobody else; the others go on waiting, in
/// their order.
pub proof fn law_refresh_answers_only_the_due(
    v: CoreView,
    snapshot: DaemonView,
    ticket: u64,
    place: int,
)
    requires
        waits_alone(v.pending, ticket, place),
    ensures
        answers_to(cycle_completed(v, snapshot).1, ticket) == if 0 <= place < v.pending.len()
            && v.pending[place].1 == ticket && v.pending[place].0 <= v.active {
            seq![snapshot]
        } else {
            Seq::empty()
        },
        cycle_completed(v, snapshot).0.pending == v.pending.filter(
            |p: (u64, u64)| p.0 > v.active,
        ),
{
    let answers = due_answers(v.pending, v.active, snapshot);
    law_only_the_due_are_answered(v.pending, v.active, snapshot, ticket, place);
    assert(answers.push(ActionView::StartCycle).drop_last() =~= answers);
}

proof fn lemma_still_waiting_filter(pending: Seq<(u64, u64)>, completed: u64)
    ensures
        still_waiting(pending, completed) == pending.filter(|p: (u64, u64)| p.0 > completed),
    decreases pending.len(),
{
    reveal(Seq::filter);
    if pending.len() > 0 {
        lemma_still_waiting_filter(pending.drop_last(), completed);
    }
}

/// A wish that comes while a cycle runs is not answered at the end of that cycle,
/// and once, with the state then, at the end of the next one.
pub proof fn law_wish_waits_for_the_next_cycle(
    v: CoreView,
    ticket: u64,
    early: DaemonView,
    late: DaemonView,
)
    requires
        v.in_progress,
        v.active < u64::MAX,
        waits_alone(v.pending, ticket, -1),
    ensures
        ({
            let asked = CoreView {
                rescan: true,
                pending: v.pending.push(((v.active + 1) as u64, ticket)),
                ..v
            };
            let next = cycle_completed(asked, early).0;
            &&& answers_to(cycle_completed(asked, early).1, ticket) == Seq::<DaemonView>::empty()
            &&& next.in_progress
            &&& answers_to(cycle_completed(next, late).1, ticket) == seq![late]
        }),
{
    let wish = ((v.active + 1) as u64, ticket);
    let asked = CoreView { rescan: true, pending: v.pending.push(wish), ..v };
    let place = v.pending.len() as int;
    assert(waits_alone(asked.pending, ticket, place)) by {
        assert forall|j: int| 0 <= j < asked.pending.len() && j != place implies (
        #[trigger] asked.pending[j]).1 != ticket by {
            assert(asked.pending[j] == v.pending[j]);
        }
    }
    law_refresh_answers_only_the_due(asked, early, ticket, place);
    let next = cycle_completed(asked, early).0;
    let kept = still_waiting(v.pending, v.active);
    assert(asked.pending.drop_last() =~= v.pending);
    assert(next.pending == kept.push(wish));
    lemma_still_waiting(v.pending, v.active);
    let at = kept.len() as int;
    assert(waits_alone(next.pending, ticket, at)) by {
        assert forall|j: int| 0 <= j < next.pending.len() && j != at implies (
        #[trigger] next.pending[j]).1 != ticket by {
            assert(next.pending[j] == kept[j]);
            let n = choose|n: int| 0 <= n < v.pending.len() && v.pending[n] == kept[j];
            assert(v.pending[n].1 != ticket);
        }
    }
    law_refresh_answers_only_the_due(next, late, ticket, at);
}

/// A cycle that is asked for starts at once where none is in progress, as the one
/// after the last that was started; else it follows the one in progress.
pub proof fn law_cycle_starts_or_follows(v: CoreView)
    requires
        v.active < u64::MAX,
    ensures
        ({
            let after = cycle_requested(v);
            &&& after.in_progress
            &&& v.in_progress ==> after.rescan && after.active == v.active
            &&& !v.in_progress ==> after.active == v.active + 1 && after.rescan == v.rescan
            &&& after.completed == v.completed
            &&& after.pending == v.pending
            &&& after.sessions == v.sessions
            &&& after.hosts == v.hosts
        }),
{
}

/// The end of a cycle completes the one that was started last. Another one starts
/// at once if and only if one was asked for meanwhile, and that wish is then met.
pub proof fn law_cycle_ends(v: CoreView, snapshot: DaemonView)
    requires
        v.active < u64::MAX,
    ensures
        ({
            let (after, actions) = cycle_completed(v, snapshot);
            &&& after.completed == v.active
            &&& !after.rescan
            &&& after.in_progress == v.rescan
            &&& v.rescan ==> after.active == v.active + 1 && actions.len() > 0 && actions.last()
                == ActionView::StartCycle
            &&& !v.rescan ==> after.active == v.active
            &&& after.sessions == v.sessions
            &&& after.runtime == v.runtime
            &&& after.bells == v.bells
            &&& after.recent == v.recent
            &&& forall|k: int|
                0 <= k < actions.len() && #[trigger] actions[k] is StartCycle ==> v.rescan && k
                    == actions.len() - 1
        }),
{
    lemma_due_answers_start_nothing(v.pending, v.active, snapshot);
    let due = due_answers(v.pending, v.active, snapshot);
    let actions = cycle_completed(v, snapshot).1;
    assert forall|k: int|
        0 <= k < actions.len() && #[trigger] actions[k] is StartCycle implies v.rescan && k
        == actions.len() - 1 by {
        if k < due.len() {
            assert(actions[k] == due[k]);
        }
    }
}

proof fn lemma_due_answers_start_nothing(pending: Seq<(u64, u64)>, completed: u64, m: DaemonView)
    ensures
        forall|k: int|
            0 <= k < due_answers(pending, completed, m).len() ==> (#[trigger] due_answers(
                pending,
                completed,
                m,
            )[k] is Answer),
    decreases pending.len(),
{
    if pending.len() > 0 {
        lemma_due_answers_start_nothing(pending.drop_last(), completed, m);
        let before = due_answers(pending.drop_last(), completed, m);
        let now = due_answers(pending, completed, m);
        assert forall|k: int| 0 <= k < now.len() implies (#[trigger] now[k] is Answer) by {
            if k < before.len() {
                assert(now[k] == before[k]);
            }
        }
    }
}

/// Those who still wait after a cycle are the ones whom it does not answer, in the
/// order in which they came.
pub proof fn law_the_others_still_wait(pending: Seq<(u64, u64)>, completed: u64, p: (u64, u64))
    ensures
        still_waiting(pending, completed).contains(p) <==> pending.contains(p) && p.0 > completed,
        still_waiting(pending, completed).len() <= pending.len(),
    decreases pending.len(),
{
    if pending.len() > 0 {
        let head = pending.drop_last();
        let last = pending.last();
        law_the_others_still_wait(head, completed, p);
        let v = still_waiting(head, completed);
        let w = still_waiting(pending, completed);
        assert(pending[pending.len() - 1] == last);
        if head.contains(p) {
            let i = choose|i: int| 0 <= i < head.len() && head[i] == p;
            assert(pending[i] == p);
        }
        if pending.contains(p) && p != last {
            let i = choose|i: int| 0 <= i < pending.len() && pending[i] == p;
            assert(head[i] == p);
        }
        if last.0 > completed {
            assert(w[w.len() - 1] == last);
            if v.contains(p) {
                let i = choose|i: int| 0 <= i < v.len() && v[i] == p;
                assert(w[i] == p);
            }
            if w.contains(p) && p != last {
                let i = choose|i: int| 0 <= i < w.len() && w[i] == p;
                assert(v[i] == p);
            }
        }
    }
}

/// When the worker stops, everyone who waits is told in turn that the refresh was
/// aborted, and nobody waits any more; where a scan was under way or wished for, a
/// new cycle starts.
pub proof fn law_stopped_worker_aborts(v: CoreView)
    requires
        v.active < u64::MAX,
    ensures
        ({
            let (after, actions) = worker_stopped_step(v);
            &&& after.pending.len() == 0
            &&& forall|k: int|
                0 <= k < v.pending.len() ==> #[trigger] actions[k] == (ActionView::Answer {
                    ticket: v.pending[k].1,
                    message: DaemonView::Error {
                        message: "Refresh aborted because the scan worker stopped"@,
                    },
                })
            &&& v.in_progress || v.rescan || v.pending.len() > 0 ==> after.in_progress
                && after.active == v.active + 1 && !after.rescan && actions.len()
                == v.pending.len() + 1 && actions.last() == ActionView::StartCycle
            &&& !(v.in_progress || v.rescan || v.pending.len() > 0) ==> !after.in_progress
                && actions.len() == 0
            &&& after.sessions == v.sessions
            &&& after.hosts == v.hosts
        }),
{
}

/// The hosts that are watched are the local one, first, and then those that are
/// reached through ssh.
pub proof fn law_local_host_is_watched_first(v: CoreView)
    ensures
        watched(v).len() == remote_names(v.configured).len() + 1,
        watched(v)[0] == "local"@,
        watched(v).skip(1) == remote_names(v.configured),
{
    assert(watched(v).skip(1) =~= remote_names(v.configured));
}

/// A snapshot tells all that is known: every session and every host, and no others.
pub proof fn law_snapshot_tells_all(m: DaemonView, v: CoreView, key: Seq<char>)
    requires
        is_snapshot(m, v),
    ensures
        match m {
            DaemonView::StateSnapshot { sessions, hosts } => {
                &&& v.sessions.contains_key(key) ==> sessions.contains(v.sessions[key])
                &&& v.hosts.contains_key(key) ==> hosts.contains(v.hosts[key])
                &&& sessions.len() == v.sessions.dom().len()
                &&& hosts.len() == v.hosts.dom().len()
            },
            _ => false,
        },
{
    if let DaemonView::StateSnapshot { sessions, hosts } = m {
        law_listing_is_complete(sessions, v.sessions);
        law_listing_is_complete(hosts, v.hosts);
    }
}

/// A status tells that the daemon runs, in which process and since when, where it
/// listens, and all that is known.
pub proof fn law_status_tells_all(m: DaemonView, v: CoreView, facts: DaemonFacts, key: Seq<char>)
    requires
        is_status(m, v, facts),
    ensures
        match m {
            DaemonView::DaemonStatus { running, pid, uptime_secs, socket, hosts, sessions } => {
                &&& running
                &&& pid == facts.pid
                &&& uptime_secs == facts.uptime_secs
                &&& socket == facts.socket@
                &&& v.sessions.contains_key(key) ==> sessions.contains(v.sessions[key])
                &&& v.hosts.contains_key(key) ==> hosts.contains(v.hosts[key])
                &&& sessions.len() == v.sessions.dom().len()
                &&& hosts.len() == v.hosts.dom().len()
            },
            _ => false,
        },
{
    if let DaemonView::DaemonStatus { hosts, sessions, .. } = m {
        law_listing_is_complete(sessions, v.sessions);
        law_listing_is_complete(hosts, v.hosts);
    }
}

/// When a cycle starts, every watched host is known: one that was known before as
/// before, any other as not connected, without sessions, never polled and without
/// an error. Nothing but the hosts changes.
pub proof fn law_watched_hosts_are_known(before: CoreView, after: CoreView, name: Seq<char>)
    requires
        same_but_placeholders(before, after),
    ensures
        before.hosts.contains_key(name) ==> after.hosts.contains_key(name) && after.hosts[name]
            == before.hosts[name],
        !before.hosts.contains_key(name) && (name == "local"@ || remote_names(
            before.configured,
        ).contains(name)) ==> after.hosts.contains_key(name) && after.hosts[name].name@ == name
            && !after.hosts[name].connected && after.hosts[name].session_count == 0
            && after.hosts[name].last_poll_unix_ms is None && after.hosts[name].error is None,
        after.hosts.contains_key(name) ==> before.hosts.contains_key(name) || name == "local"@
            || remote_names(before.configured).contains(name),
        after.sessions == before.sessions,
        after.runtime == before.runtime,
        after.pending == before.pending,
        after.active == before.active,
        after.in_progress == before.in_progress,
{
    let names = watched(before);
    let remote = remote_names(before.configured);
    assert(names.contains(name) <==> name == "local"@ || remote.contains(name)) by {
        if name == "local"@ {
            assert(names[0] == name);
        }
        if remote.contains(name) {
            let i = choose|i: int| 0 <= i < remote.len() && remote[i] == name;
            assert(names[i + 1] == name);
        }
        if names.contains(name) {
            let i = choose|i: int| 0 <= i < names.len() && names[i] == name;
            if i > 0 {
                assert(remote[i - 1] == name);
            }
        }
    }
}

/// After the scan of a host the clients are told of all that is then known, as the
/// last thing and once.
pub proof fn law_scan_is_told_last(
    before: CoreView,
    after: CoreView,
    scan: ResolvedHostScan,
    now_ns: u64,
    actions: Seq<ActionView>,
)
    requires
        host_told(before, after, scan, now_ns, actions),
    ensures
        actions.len() > 0,
        actions.last() matches ActionView::Broadcast(m) && is_snapshot(m, after),
        actions.drop_last() == scan_applied(before, scan, now_ns).1,
        after == scan_applied(before, scan, now_ns).0,
{
    let snapshot = choose|snapshot: DaemonView| #[trigger]
        is_snapshot(snapshot, after) && actions == scan_applied(before, scan, now_ns).1.push(
            ActionView::Broadcast(snapshot),
        );
    assert(actions.drop_last() =~= scan_applied(before, scan, now_ns).1);
    assert(actions.last() == ActionView::Broadcast(snapshot));
}

/// At the end of a cycle everyone who is answered gets all that is known then.
pub proof fn law_end_of_cycle_answers_with_all(
    before: CoreView,
    after: CoreView,
    actions: Seq<ActionView>,
    k: int,
)
    requires
        cycle_ends(before, after, actions),
        0 <= k < actions.len(),
        actions[k] is Answer,
    ensures
        actions[k] matches ActionView::Answer { ticket, message } && is_snapshot(message, before)
            && exists|j: int|
            0 <= j < before.pending.len() && (#[trigger] before.pending[j]).1 == ticket
                && before.pending[j].0 <= before.active,
{
    let snapshot = choose|snapshot: DaemonView| #[trigger]
        is_snapshot(snapshot, before) && actions == cycle_completed(before, snapshot).1 && (
        if before.rescan {
            same_but_placeholders(cycle_completed(before, snapshot).0, after)
        } else {
            after == cycle_completed(before, snapshot).0
        });
    lemma_due_answer(before.pending, before.active, snapshot, k);
}

proof fn lemma_due_answer(pending: Seq<(u64, u64)>, completed: u64, m: DaemonView, k: int)
    ensures
        0 <= k < due_answers(pending, completed, m).len() ==> (due_answers(
            pending,
            completed,
            m,
        )[k] matches ActionView::Answer { ticket, message } && message == m && exists|j: int|
            0 <= j < pending.len() && (#[trigger] pending[j]).1 == ticket && pending[j].0
                <= completed),
    decreases pending.len(),
{
    if pending.len() > 0 {
        let head = pending.drop_last();
        let before = due_answers(head, completed, m);
        lemma_due_answer(head, completed, m, k);
        if 0 <= k < before.len() {
            let ticket = before[k]->Answer_ticket;
            let j = choose|j: int|
                0 <= j < head.len() && (#[trigger] head[j]).1 == ticket && head[j].0 <= completed;
            assert(pending[j] == head[j]);
        } else if k < due_answers(pending, completed, m).len() {
            assert(pending[pending.len() - 1] == pending.last());
        }
    }
}

} // verus!
