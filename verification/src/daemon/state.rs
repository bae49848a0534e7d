//! What the daemon knows, and what happens to it when a host was scanned, when a
//! scan is asked for and when one is over.

use vstd::prelude::*;
use vstd::string::*;

use crate::config::{Config, HostConfig};
use crate::daemon::bell::{after_change, rings, BellNotifier};
use crate::daemon::recent_dirs::{upserted, RecentDirStore};
use crate::ipc::{DaemonMessage, DaemonView, RecentDirEntry};
use crate::keyed::{without_stale, KeyMap, KeySet};
use crate::ssh::manager::{ConnView, SshManager};
use crate::text::{chars_of, concat2, starts_with, trim, trim_white};
use crate::types::{
    law_key_names_host_and_session, make_key, session_key, HostStatus, SessionInfo, SessionState,
};

verus! {

// ---------------------------------------------------------------------------
// State
// ---------------------------------------------------------------------------

/// What is kept of a session apart from what is shown of it.
#[derive(Debug)]
pub struct SessionRuntime {
    pub last_state: SessionState,
    pub oc_base_url: String,
}

/// A session that a scan found.
#[derive(Debug)]
pub struct ResolvedSession {
    pub info: SessionInfo,
    pub oc_base_url: String,
    pub last_seen_unix_ms: u64,
}

/// What the scan of a host found.
#[derive(Debug)]
pub struct ResolvedHostScan {
    pub host: String,
    pub connected: bool,
    pub error: Option<String>,
    pub completed_unix_ms: u64,
    pub sessions: Vec<ResolvedSession>,
}

/// What the daemon knows.
pub struct DaemonCore {
    pub config: Config,
    pub ssh_manager: SshManager,
    pub sessions: KeyMap<SessionInfo>,
    pub session_runtime: KeyMap<SessionRuntime>,
    pub hosts: KeyMap<HostStatus>,
    pub scan_in_progress: bool,
    pub rescan_requested: bool,
    pub active_scan_generation: u64,
    pub completed_scan_generation: u64,
    /// Who waits for a scan: its generation, and the number of who waits.
    pub pending_refresh_responders: Vec<(u64, u64)>,
    pub bell_notifier: BellNotifier,
    pub recent_dirs: RecentDirStore,
}

/// What the daemon knows, as values.
#[verifier::ext_equal]
pub struct CoreView {
    pub poll_secs: u16,
    pub configured: Seq<HostConfig>,
    pub conns: Map<Seq<char>, ConnView>,
    pub sessions: Map<Seq<char>, SessionInfo>,
    pub runtime: Map<Seq<char>, SessionRuntime>,
    pub hosts: Map<Seq<char>, HostStatus>,
    pub in_progress: bool,
    pub rescan: bool,
    pub active: u64,
    pub completed: u64,
    pub pending: Seq<(u64, u64)>,
    pub bells: Map<Seq<char>, u64>,
    pub recent: Seq<RecentDirEntry>,
}

impl View for DaemonCore {
    type V = CoreView;

    open spec fn view(&self) -> CoreView {
        CoreView {
            poll_secs: self.config.poll_interval_secs,
            configured: self.config.hosts@,
            conns: self.ssh_manager@,
            sessions: self.sessions@,
            runtime: self.session_runtime@,
            hosts: self.hosts@,
            in_progress: self.scan_in_progress,
            rescan: self.rescan_requested,
            active: self.active_scan_generation,
            completed: self.completed_scan_generation,
            pending: self.pending_refresh_responders@,
            bells: self.bell_notifier@,
            recent: self.recent_dirs.entries@,
        }
    }
}

/// What the daemon does.
pub enum CoreAction {
    /// Everybody who listens is told something.
    Broadcast(DaemonMessage),
    /// The bell of a session is rung.
    Ring { session: SessionInfo, reason: String },
    /// The recent directories are saved.
    SaveRecentDirs,
    /// A cycle of scans is started.
    StartCycle,
    /// Who waits under a number is answered.
    Answer { ticket: u64, message: DaemonMessage },
}

/// What the daemon does, as values.
#[verifier::ext_equal]
pub enum ActionView {
    Broadcast(DaemonView),
    Ring { session: SessionInfo, reason: Seq<char> },
    SaveRecentDirs,
    StartCycle,
    Answer { ticket: u64, message: DaemonView },
}

impl View for CoreAction {
    type V = ActionView;

    open spec fn view(&self) -> ActionView {
        match *self {
            CoreAction::Broadcast(m) => ActionView::Broadcast(m@),
            CoreAction::Ring { session, reason } => ActionView::Ring { session, reason: reason@ },
            CoreAction::SaveRecentDirs => ActionView::SaveRecentDirs,
            CoreAction::StartCycle => ActionView::StartCycle,
            CoreAction::Answer { ticket, message } => ActionView::Answer {
                ticket,
                message: message@,
            },
        }
    }
}

/// The views of actions.
pub open spec fn action_views(v: Seq<CoreAction>) -> Seq<ActionView> {
    Seq::new(v.len(), |k: int| v[k]@)
}

/// Adds an action to a list.
pub fn push_action(actions: &mut Vec<CoreAction>, action: CoreAction)
    ensures
        action_views(final(actions)@) == action_views(old(actions)@).push(action@),
{
    let ghost before = actions@;
    actions.push(action);
    assert(action_views(actions@) =~= action_views(before).push(action@));
}

// ---------------------------------------------------------------------------
// A scan of a host
// ---------------------------------------------------------------------------

/// Why a session in a state calls, in a word.
pub open spec fn reason_of(s: SessionState) -> Seq<char> {
    match s {
        SessionState::Idle => "idle"@,
        SessionState::WaitingForPermission => "permission"@,
        SessionState::WaitingForInput => "input"@,
        SessionState::Error => "error"@,
        _ => "attention"@,
    }
}

/// Why a session in a state calls, in a word.
pub fn bell_reason(s: SessionState) -> (r: &'static str)
    ensures
        r@ == reason_of(s),
{
    match s {
        SessionState::Idle => "idle",
        SessionState::WaitingForPermission => "permission",
        SessionState::WaitingForInput => "input",
        SessionState::Error => "error",
        _ => "attention",
    }
}

/// Recent directories after one was seen; a blank one is left out.
pub open spec fn recorded(
    recent: Seq<RecentDirEntry>,
    host: String,
    directory: String,
    seen_ms: u64,
) -> Seq<RecentDirEntry> {
    if trim(directory@).len() == 0 {
        recent
    } else {
        upserted(recent, RecentDirEntry { host, directory, last_seen_unix_ms: seen_ms })
    }
}

/// How far a scan was taken in: what the daemon knows, the keys of the sessions
/// that were found, and what is to be done.
#[verifier::ext_equal]
pub struct Applied {
    pub core: CoreView,
    pub seen: Set<Seq<char>>,
    pub actions: Seq<ActionView>,
}

/// Takes in one session: a change of its state may ring, a new session or a
/// change is told, and what was known of it is replaced.
pub open spec fn apply_session(
    a: Applied,
    host: String,
    s: ResolvedSession,
    now_ns: u64,
) -> Applied {
    let core = a.core;
    let key = session_key(host@, s.info.id@);
    let state = s.info.state;
    let known = core.runtime.contains_key(key);
    let ring = known && rings(core.bells, key, core.runtime[key].last_state, state, now_ns);
    let called = if ring {
        a.actions.push(ActionView::Ring { session: s.info, reason: reason_of(state) }).push(
            ActionView::Broadcast(
                DaemonView::Bell {
                    session_id: s.info.id@,
                    host: s.info.host@,
                    reason: reason_of(state),
                },
            ),
        )
    } else {
        a.actions
    };
    let changed = !core.sessions.contains_key(key) || core.sessions[key].state != state;
    Applied {
        core: CoreView {
            recent: recorded(core.recent, host, s.info.working_dir, s.last_seen_unix_ms),
            bells: if known {
                after_change(core.bells, key, core.runtime[key].last_state, state, now_ns)
            } else {
                core.bells
            },
            runtime: core.runtime.insert(
                key,
                SessionRuntime { last_state: state, oc_base_url: s.oc_base_url },
            ),
            sessions: core.sessions.insert(key, s.info),
            ..core
        },
        seen: a.seen.insert(key),
        actions: if changed {
            called.push(ActionView::Broadcast(DaemonView::SessionUpdated { session: s.info }))
        } else {
            called
        },
    }
}

/// Takes in sessions, one after the other.
pub open spec fn apply_sessions(
    a: Applied,
    host: String,
    list: Seq<ResolvedSession>,
    now_ns: u64,
) -> Applied
    decreases list.len(),
{
    if list.len() == 0 {
        a
    } else {
        apply_session(apply_sessions(a, host, list.drop_last(), now_ns), host, list.last(), now_ns)
    }
}

/// The sessions of a scan taken in by what is known.
pub open spec fn apply_all(v: CoreView, scan: ResolvedHostScan, now_ns: u64) -> Applied {
    apply_sessions(
        Applied { core: v, seen: Set::empty(), actions: Seq::empty() },
        scan.host,
        scan.sessions@,
        now_ns,
    )
}

/// What keys of a host begin with.
pub open spec fn host_prefix(host: Seq<char>) -> Seq<char> {
    host + ":"@
}

/// When a host was polled with success last, after a scan of it: then, or as
/// before where the host was not reached.
pub open spec fn last_success(
    hosts: Map<Seq<char>, HostStatus>,
    scan: ResolvedHostScan,
) -> Option<u64> {
    if scan.connected {
        Some(scan.completed_unix_ms)
    } else if hosts.contains_key(scan.host@) {
        hosts[scan.host@].last_poll_unix_ms
    } else {
        None
    }
}

/// What is known of a host after a scan of it.
pub open spec fn scanned_host(
    hosts: Map<Seq<char>, HostStatus>,
    scan: ResolvedHostScan,
    seen: Set<Seq<char>>,
) -> HostStatus {
    HostStatus {
        name: scan.host,
        connected: scan.connected,
        session_count: seen.len() as usize,
        last_poll_unix_ms: last_success(hosts, scan),
        error: scan.error,
    }
}

/// What the daemon knows and does after a scan of a host: its sessions are taken
/// in, those of the host that are gone are dropped, and the host is noted.
pub open spec fn scan_applied(v: CoreView, scan: ResolvedHostScan, now_ns: u64) -> (
    CoreView,
    Seq<ActionView>,
) {
    let a = apply_all(v, scan, now_ns);
    let prefix = host_prefix(scan.host@);
    (
        CoreView {
            sessions: without_stale(a.core.sessions, prefix, a.seen),
            runtime: without_stale(a.core.runtime, prefix, a.seen),
            hosts: a.core.hosts.insert(scan.host@, scanned_host(a.core.hosts, scan, a.seen)),
            ..a.core
        },
        a.actions.push(ActionView::SaveRecentDirs),
    )
}

impl DaemonCore {
    /// What the daemon knows at its start.
    pub fn new(config: Config, recent_dirs: RecentDirStore) -> (r: DaemonCore)
        ensures
            r@ == (CoreView {
                poll_secs: config.poll_interval_secs,
                configured: config.hosts@,
                conns: Map::empty(),
                sessions: Map::empty(),
                runtime: Map::empty(),
                hosts: Map::empty(),
                in_progress: false,
                rescan: false,
                active: 0,
                completed: 0,
                pending: Seq::empty(),
                bells: Map::empty(),
                recent: recent_dirs.entries@,
            }),
    {
        DaemonCore {
            config,
            ssh_manager: SshManager::new(),
            sessions: KeyMap::new(),
            session_runtime: KeyMap::new(),
            hosts: KeyMap::new(),
            scan_in_progress: false,
            rescan_requested: false,
            active_scan_generation: 0,
            completed_scan_generation: 0,
            pending_refresh_responders: Vec::new(),
            bell_notifier: BellNotifier::new(),
            recent_dirs,
        }
    }

    /// Notes a directory in which a session was seen; a blank one is left out.
    pub fn record_recent_dir(&mut self, host: &String, directory: &String, last_seen_unix_ms: u64)
        ensures
            final(self)@ == (CoreView {
                recent: recorded(old(self)@.recent, *host, *directory, last_seen_unix_ms),
                ..old(self)@
            }),
    {
        let chars = chars_of(directory.as_str());
        if trim_white(&chars).len() > 0 {
            self.recent_dirs.upsert(
                RecentDirEntry {
                    host: host.clone(),
                    directory: directory.clone(),
                    last_seen_unix_ms,
                },
            );
        }
        assert(self@ =~= CoreView {
            recent: recorded(old(self)@.recent, *host, *directory, last_seen_unix_ms),
            ..old(self)@
        });
    }

    /// Takes in one session of a scan.
    fn apply_resolved(
        &mut self,
        host: &String,
        resolved: &ResolvedSession,
        seen: &mut KeySet,
        actions: &mut Vec<CoreAction>,
        now_ns: u64,
    )
        ensures
            (Applied {
                core: final(self)@,
                seen: final(seen)@,
                actions: action_views(final(actions)@),
            }) == apply_session(
                Applied {
                    core: old(self)@,
                    seen: old(seen)@,
                    actions: action_views(old(actions)@),
                },
                *host,
                *resolved,
                now_ns,
            ),
    {
        let ghost v = self@;
        let ghost start = Applied { core: v, seen: seen@, actions: action_views(actions@) };
        self.record_recent_dir(host, &resolved.info.working_dir, resolved.last_seen_unix_ms);
        let state = resolved.info.state;
        let key = make_key(host.as_str(), resolved.info.id.as_str());
        seen.insert(key.clone());
        let previous: Option<SessionState> = match self.session_runtime.get(key.as_str()) {
            Some(runtime) => Some(runtime.last_state),
            None => None,
        };
        match previous {
            Some(old_state) => {
                if self.bell_notifier.should_bell(key.as_str(), old_state, state, now_ns) {
                    let reason = bell_reason(state);
                    push_action(
                        actions,
                        CoreAction::Ring {
                            session: resolved.info.clone(),
                            reason: reason.to_string(),
                        },
                    );
                    push_action(
                        actions,
                        CoreAction::Broadcast(
                            DaemonMessage::Bell {
                                session_id: resolved.info.id.clone(),
                                host: resolved.info.host.clone(),
                                reason: reason.to_string(),
                            },
                        ),
                    );
                }
            },
            None => {},
        }
        self.session_runtime.insert(
            key.clone(),
            SessionRuntime { last_state: state, oc_base_url: resolved.oc_base_url.clone() },
        );
        let changed = match self.sessions.get(key.as_str()) {
            Some(session) => session.state != state,
            None => true,
        };
        if changed {
            push_action(
                actions,
                CoreAction::Broadcast(
                    DaemonMessage::SessionUpdated { session: resolved.info.clone() },
                ),
            );
        }
        self.sessions.insert(key, resolved.info.clone());
        proof {
            let want = apply_session(start, *host, *resolved, now_ns);
            assert(self@ =~= want.core);
            assert(seen@ =~= want.seen);
            assert(action_views(actions@) =~= want.actions);
        }
    }

    /// Takes in the scan of a host.
    pub fn apply_scan_result(&mut self, scan: ResolvedHostScan, now_ns: u64) -> (r: Vec<CoreAction>)
        ensures
            (final(self)@, action_views(r@)) == scan_applied(old(self)@, scan, now_ns),
    {
        let ghost v = self@;
        let ghost start = Applied { core: v, seen: Set::empty(), actions: Seq::empty() };
        let mut seen = KeySet::new();
        let mut actions: Vec<CoreAction> = Vec::new();
        assert(action_views(actions@) =~= Seq::<ActionView>::empty());
        let ghost list = scan.sessions@;
        assert(list.take(0) =~= Seq::<ResolvedSession>::empty());
        for i in 0..scan.sessions.len()
            invariant
                list == scan.sessions@,
                start == (Applied { core: v, seen: Set::empty(), actions: Seq::empty() }),
                (Applied { core: self@, seen: seen@, actions: action_views(actions@) })
                    == apply_sessions(start, scan.host, list.take(i as int), now_ns),
        {
            assert(list.take(i + 1).drop_last() =~= list.take(i as int));
            self.apply_resolved(
                &scan.host,
                &scan.sessions[i],
                &mut seen,
                &mut actions,
                now_ns,
            );
        }
        assert(list.take(list.len() as int) =~= list);
        let ghost a = apply_all(v, scan, now_ns);
        self.cleanup_stale_sessions(scan.host.as_str(), &seen);
        let session_count: usize = seen.len();
        let last_poll_unix_ms: Option<u64> = if scan.connected {
            Some(scan.completed_unix_ms)
        } else {
            match self.hosts.get(scan.host.as_str()) {
                Some(known) => known.last_poll_unix_ms,
                None => None,
            }
        };
        self.hosts.insert(
            scan.host.clone(),
            HostStatus {
                name: scan.host.clone(),
                connected: scan.connected,
                session_count,
                last_poll_unix_ms,
                error: scan.error,
            },
        );
        push_action(&mut actions, CoreAction::SaveRecentDirs);
        proof {
            let want = scan_applied(v, scan, now_ns);
            assert(self@ =~= want.0);
            assert(action_views(actions@) =~= want.1);
        }
        actions
    }

    /// Drops the sessions of a host that were not found.
    fn cleanup_stale_sessions(&mut self, host: &str, seen_keys: &KeySet)
        ensures
            final(self)@ == (CoreView {
                sessions: without_stale(old(self)@.sessions, host_prefix(host@), seen_keys@),
                runtime: without_stale(old(self)@.runtime, host_prefix(host@), seen_keys@),
                ..old(self)@
            }),
    {
        let prefix = concat2(host, ":");
        self.sessions.drop_stale(prefix.as_str(), seen_keys);
        self.session_runtime.drop_stale(prefix.as_str(), seen_keys);
        assert(self@ =~= CoreView {
            sessions: without_stale(old(self)@.sessions, host_prefix(host@), seen_keys@),
            runtime: without_stale(old(self)@.runtime, host_prefix(host@), seen_keys@),
            ..old(self)@
        });
    }

    /// Drops all sessions of a host.
    pub fn remove_host_sessions(&mut self, host_name: &str)
        ensures
            final(self)@ == (CoreView {
                sessions: without_stale(old(self)@.sessions, host_prefix(host_name@), Set::empty()),
                runtime: without_stale(old(self)@.runtime, host_prefix(host_name@), Set::empty()),
                ..old(self)@
            }),
    {
        let none = KeySet::new();
        self.cleanup_stale_sessions(host_name, &none);
    }
}

// ---------------------------------------------------------------------------
// Laws
// ---------------------------------------------------------------------------

/// Whether one of the sessions that were found has a key.
pub open spec fn found(host: Seq<char>, list: Seq<ResolvedSession>, k: Seq<char>) -> bool {
    exists|i: int| 0 <= i < list.len() && session_key(host, (#[trigger] list[i]).info.id@) == k
}

/// Whether exactly the sessions that are shown have something kept of them.
pub open spec fn keeps_both(v: CoreView) -> bool {
    v.sessions.dom() == v.runtime.dom()
}

/// What taking in sessions does to one key.
proof fn lemma_applied(
    a: Applied,
    host: String,
    list: Seq<ResolvedSession>,
    now_ns: u64,
    k: Seq<char>,
)
    ensures
        ({
            let after = apply_sessions(a, host, list, now_ns);
            &&& after.seen.contains(k) <==> a.seen.contains(k) || found(host@, list, k)
            &&& after.core.sessions.contains_key(k) <==> a.core.sessions.contains_key(k) || found(
                host@,
                list,
                k,
            )
            &&& after.core.runtime.contains_key(k) <==> a.core.runtime.contains_key(k) || found(
                host@,
                list,
                k,
            )
            &&& !found(host@, list, k) ==> after.core.sessions[k] == a.core.sessions[k]
                && after.core.runtime[k] == a.core.runtime[k]
        }),
    decreases list.len(),
{
    if list.len() > 0 {
        let head = list.drop_last();
        lemma_applied(a, host, head, now_ns, k);
        if found(host@, head, k) {
            let i = choose|i: int|
                0 <= i < head.len() && session_key(host@, (#[trigger] head[i]).info.id@) == k;
            assert(list[i] == head[i]);
        }
        if found(host@, list, k) {
            let i = choose|i: int|
                0 <= i < list.len() && session_key(host@, (#[trigger] list[i]).info.id@) == k;
            if i < head.len() {
                assert(head[i] == list[i]);
            } else {
                assert(list[i] == list.last());
            }
        }
        if session_key(host@, list.last().info.id@) == k {
            assert(list[list.len() - 1] == list.last());
        }
    }
}

/// What is known of the last session with a key that was taken in.
proof fn lemma_applied_last(
    a: Applied,
    host: String,
    list: Seq<ResolvedSession>,
    now_ns: u64,
    i: int,
)
    requires
        0 <= i < list.len(),
        forall|j: int|
            i < j < list.len() ==> session_key(host@, (#[trigger] list[j]).info.id@)
                != session_key(host@, list[i].info.id@),
    ensures
        ({
            let after = apply_sessions(a, host, list, now_ns);
            let k = session_key(host@, list[i].info.id@);
            &&& after.core.sessions[k] == list[i].info
            &&& after.core.runtime[k] == (SessionRuntime {
                last_state: list[i].info.state,
                oc_base_url: list[i].oc_base_url,
            })
        }),
    decreases list.len(),
{
    let head = list.drop_last();
    if i < head.len() {
        assert(head[i] == list[i]);
        assert forall|j: int| i < j < head.len() implies session_key(
            host@,
            (#[trigger] head[j]).info.id@,
        ) != session_key(host@, head[i].info.id@) by {
            assert(head[j] == list[j]);
        }
        lemma_applied_last(a, host, head, now_ns, i);
        assert(list[list.len() - 1] == list.last());
    }
}

/// A key of a host begins with what keys of that host begin with.
proof fn lemma_key_has_prefix(host: Seq<char>, id: Seq<char>)
    ensures
        starts_with(session_key(host, id), host_prefix(host)),
{
    let p = host_prefix(host);
    assert(session_key(host, id).take(p.len() as int) =~= p);
}

/// A scan of a host changes nothing of what is known of sessions whose keys do
/// not begin as those of the host do, nor of other hosts.
pub proof fn law_scan_spares_others(v: CoreView, scan: ResolvedHostScan, now_ns: u64, k: Seq<char>)
    ensures
        ({
            let after = scan_applied(v, scan, now_ns).0;
            &&& !starts_with(k, host_prefix(scan.host@)) ==> {
                &&& after.sessions.contains_key(k) == v.sessions.contains_key(k)
                &&& after.runtime.contains_key(k) == v.runtime.contains_key(k)
                &&& v.sessions.contains_key(k) ==> after.sessions[k] == v.sessions[k]
                &&& v.runtime.contains_key(k) ==> after.runtime[k] == v.runtime[k]
            }
            &&& k != scan.host@ ==> after.hosts.contains_key(k) == v.hosts.contains_key(k)
                && after.hosts[k] == v.hosts[k]
        }),
{
    let a = Applied { core: v, seen: Set::empty(), actions: Seq::empty() };
    lemma_applied(a, scan.host, scan.sessions@, now_ns, k);
    if found(scan.host@, scan.sessions@, k) {
        let i = choose|i: int|
            0 <= i < scan.sessions@.len() && session_key(
                scan.host@,
                (#[trigger] scan.sessions@[i]).info.id@,
            ) == k;
        lemma_key_has_prefix(scan.host@, scan.sessions@[i].info.id@);
    }
    lemma_applied_rest(a, scan.host, scan.sessions@, now_ns);
}

/// Taking in sessions changes neither the hosts nor the cycles of scans.
proof fn lemma_applied_rest(a: Applied, host: String, list: Seq<ResolvedSession>, now_ns: u64)
    ensures
        ({
            let after = apply_sessions(a, host, list, now_ns).core;
            after == (CoreView {
                sessions: after.sessions,
                runtime: after.runtime,
                bells: after.bells,
                recent: after.recent,
                ..a.core
            })
        }),
    decreases list.len(),
{
    if list.len() > 0 {
        lemma_applied_rest(a, host, list.drop_last(), now_ns);
    }
}

/// After a scan of a host, the sessions of the host that are known are those that
/// the scan found; each is known as the scan found it last.
pub proof fn law_scan_replaces_host(v: CoreView, scan: ResolvedHostScan, now_ns: u64, k: Seq<char>)
    requires
        starts_with(k, host_prefix(scan.host@)),
    ensures
        ({
            let after = scan_applied(v, scan, now_ns).0;
            let list = scan.sessions@;
            &&& after.sessions.contains_key(k) <==> found(scan.host@, list, k)
            &&& after.runtime.contains_key(k) <==> found(scan.host@, list, k)
            &&& forall|i: int|
                0 <= i < list.len() && session_key(scan.host@, (#[trigger] list[i]).info.id@) == k
                    && (forall|j: int|
                    i < j < list.len() ==> session_key(
                        scan.host@,
                        (#[trigger] list[j]).info.id@,
                    ) != k) ==> after.sessions[k] == list[i].info && after.runtime[k].last_state
                    == list[i].info.state && after.runtime[k].oc_base_url == list[i].oc_base_url
            &&& after.hosts.contains_key(scan.host@)
            &&& after.hosts[scan.host@].connected == scan.connected
            &&& after.hosts[scan.host@].error == scan.error
        }),
{
    let a = Applied { core: v, seen: Set::empty(), actions: Seq::empty() };
    let list = scan.sessions@;
    let after = scan_applied(v, scan, now_ns).0;
    lemma_applied(a, scan.host, list, now_ns, k);
    assert forall|i: int|
        0 <= i < list.len() && session_key(scan.host@, (#[trigger] list[i]).info.id@) == k && (
        forall|j: int|
            i < j < list.len() ==> session_key(scan.host@, (#[trigger] list[j]).info.id@)
                != k) implies after.sessions[k] == list[i].info && after.runtime[k].last_state
        == list[i].info.state && after.runtime[k].oc_base_url == list[i].oc_base_url by {
        lemma_applied_last(a, scan.host, list, now_ns, i);
        assert(found(scan.host@, list, k));
    }
}

/// A scan keeps something of exactly the sessions that are shown.
pub proof fn law_scan_keeps_both(v: CoreView, scan: ResolvedHostScan, now_ns: u64)
    requires
        keeps_both(v),
    ensures
        keeps_both(scan_applied(v, scan, now_ns).0),
{
    let a = Applied { core: v, seen: Set::empty(), actions: Seq::empty() };
    let after = scan_applied(v, scan, now_ns).0;
    assert forall|k: Seq<char>| after.sessions.dom().contains(k) == after.runtime.dom().contains(
        k,
    ) by {
        lemma_applied(a, scan.host, scan.sessions@, now_ns, k);
        assert(v.sessions.dom().contains(k) == v.runtime.dom().contains(k));
    }
    assert(after.sessions.dom() =~= after.runtime.dom());
}

/// A scan of a host that was not reached leaves the time of its last successful
/// poll as it was.
pub proof fn law_failed_scan_keeps_last_poll(v: CoreView, scan: ResolvedHostScan, now_ns: u64)
    requires
        !scan.connected,
    ensures
        ({
            let after = scan_applied(v, scan, now_ns).0;
            after.hosts[scan.host@].last_poll_unix_ms == if v.hosts.contains_key(scan.host@) {
                v.hosts[scan.host@].last_poll_unix_ms
            } else {
                None
            }
        }),
{
    let a = Applied { core: v, seen: Set::empty(), actions: Seq::empty() };
    lemma_applied_rest(a, scan.host, scan.sessions@, now_ns);
}

/// A scan leaves the cycles of scans and those who wait for them alone.
pub proof fn law_scan_leaves_cycles(v: CoreView, scan: ResolvedHostScan, now_ns: u64)
    ensures
        ({
            let after = scan_applied(v, scan, now_ns).0;
            &&& after.in_progress == v.in_progress
            &&& after.rescan == v.rescan
            &&& after.active == v.active
            &&& after.completed == v.completed
            &&& after.pending == v.pending
        }),
{
    let a = Applied { core: v, seen: Set::empty(), actions: Seq::empty() };
    lemma_applied_rest(a, scan.host, scan.sessions@, now_ns);
}

/// A session that was not known before rings no bell, whatever its state.
pub proof fn law_new_session_is_silent(a: Applied, host: String, s: ResolvedSession, now_ns: u64)
    requires
        !a.core.runtime.contains_key(session_key(host@, s.info.id@)),
        !a.core.sessions.contains_key(session_key(host@, s.info.id@)),
    ensures
        apply_session(a, host, s, now_ns).actions == a.actions.push(
            ActionView::Broadcast(DaemonView::SessionUpdated { session: s.info }),
        ),
{
}

/// A session that was taken in is known as it was found, under its key, and so are
/// its state and its server; all other sessions stay as they were.
pub proof fn law_session_is_taken_in(
    a: Applied,
    host: String,
    s: ResolvedSession,
    now_ns: u64,
    other: Seq<char>,
)
    ensures
        ({
            let key = session_key(host@, s.info.id@);
            let after = apply_session(a, host, s, now_ns).core;
            &&& after.sessions.contains_key(key) && after.sessions[key] == s.info
            &&& after.runtime.contains_key(key) && after.runtime[key].last_state == s.info.state
                && after.runtime[key].oc_base_url == s.oc_base_url
            &&& other != key ==> (after.sessions.contains_key(other)
                <==> a.core.sessions.contains_key(other)) && after.sessions[other]
                == a.core.sessions[other] && (after.runtime.contains_key(other)
                <==> a.core.runtime.contains_key(other)) && after.runtime[other]
                == a.core.runtime[other]
            &&& after.hosts == a.core.hosts
        }),
{
}

/// What taking in a session has the daemon do, after all that was to be done
/// before: where a known session rings, its bell is rung and told to the clients,
/// for the same reason; where the session is new or in another state than the
/// clients were told, they are told of it; otherwise nothing.
pub proof fn law_session_tells_what_changed(
    a: Applied,
    host: String,
    s: ResolvedSession,
    now_ns: u64,
)
    ensures
        ({
            let key = session_key(host@, s.info.id@);
            let n = a.actions.len() as int;
            let after = apply_session(a, host, s, now_ns).actions;
            let ring = a.core.runtime.contains_key(key) && rings(
                a.core.bells,
                key,
                a.core.runtime[key].last_state,
                s.info.state,
                now_ns,
            );
            let news = !(a.core.sessions.contains_key(key) && a.core.sessions[key].state
                == s.info.state);
            &&& after.take(n) == a.actions
            &&& after.len() == n + (if ring {
                2int
            } else {
                0
            }) + (if news {
                1int
            } else {
                0
            })
            &&& ring ==> after[n] == (ActionView::Ring {
                session: s.info,
                reason: reason_of(s.info.state),
            }) && after[n + 1] == ActionView::Broadcast(
                DaemonView::Bell {
                    session_id: s.info.id@,
                    host: s.info.host@,
                    reason: reason_of(s.info.state),
                },
            )
            &&& news ==> after.last() == ActionView::Broadcast(
                DaemonView::SessionUpdated { session: s.info },
            )
        }),
{
    let after = apply_session(a, host, s, now_ns).actions;
    assert(after.take(a.actions.len() as int) =~= a.actions);
}

/// The reason of a bell names the state that calls for it.
pub proof fn law_reason_names_the_state(s: SessionState)
    ensures
        s == SessionState::Idle ==> reason_of(s) == "idle"@,
        s == SessionState::WaitingForPermission ==> reason_of(s) == "permission"@,
        s == SessionState::WaitingForInput ==> reason_of(s) == "input"@,
        s == SessionState::Error ==> reason_of(s) == "error"@,
        s != SessionState::Idle && s != SessionState::WaitingForPermission && s
            != SessionState::WaitingForInput && s != SessionState::Error ==> reason_of(s)
            == "attention"@,
{
}

/// The bell of a known session is remembered with its time; what is remembered of
/// other sessions stays, and a session that was not known leaves nothing.
pub proof fn law_taken_in_bell_is_remembered(
    a: Applied,
    host: String,
    s: ResolvedSession,
    now_ns: u64,
    other: Seq<char>,
)
    ensures
        ({
            let key = session_key(host@, s.info.id@);
            let after = apply_session(a, host, s, now_ns).core.bells;
            let known = a.core.runtime.contains_key(key);
            let was = a.core.runtime[key].last_state;
            &&& known && rings(a.core.bells, key, was, s.info.state, now_ns) ==> after
                == a.core.bells.insert(key, now_ns)
            &&& !(known && rings(a.core.bells, key, was, s.info.state, now_ns)) ==> after
                == a.core.bells
        }),
{
}

/// The directory of a session that was found is remembered under the host of the
/// scan with the time at which the session was last seen, unless it is blank.
pub proof fn law_directory_is_remembered(
    a: Applied,
    host: String,
    s: ResolvedSession,
    now_ns: u64,
)
    ensures
        ({
            let after = apply_session(a, host, s, now_ns).core.recent;
            &&& trim(s.info.working_dir@).len() == 0 ==> after == a.core.recent
            &&& trim(s.info.working_dir@).len() > 0 ==> after == upserted(
                a.core.recent,
                RecentDirEntry {
                    host,
                    directory: s.info.working_dir,
                    last_seen_unix_ms: s.last_seen_unix_ms,
                },
            )
        }),
{
}

/// What a scan tells of its host: its name, whether it was reached, the error, and
/// the time of the poll where it was reached.
pub proof fn law_scan_tells_of_its_host(v: CoreView, scan: ResolvedHostScan, now_ns: u64)
    ensures
        ({
            let after = scan_applied(v, scan, now_ns).0;
            let h = after.hosts[scan.host@];
            &&& after.hosts.contains_key(scan.host@)
            &&& h.name == scan.host
            &&& h.connected == scan.connected
            &&& h.error == scan.error
            &&& scan.connected ==> h.last_poll_unix_ms == Some(scan.completed_unix_ms)
        }),
{
}

proof fn lemma_seen_count(a: Applied, host: String, list: Seq<ResolvedSession>, now_ns: u64)
    requires
        a.seen == Set::<Seq<char>>::empty(),
        forall|i: int, j: int|
            0 <= i < j < list.len() ==> (#[trigger] list[i]).info.id@ != (
            #[trigger] list[j]).info.id@,
    ensures
        apply_sessions(a, host, list, now_ns).seen.finite(),
        apply_sessions(a, host, list, now_ns).seen.len() == list.len(),
    decreases list.len(),
{
    if list.len() > 0 {
        let head = list.drop_last();
        let last = list.last();
        let key = session_key(host@, last.info.id@);
        assert(forall|i: int| 0 <= i < head.len() ==> #[trigger] head[i] == list[i]);
        lemma_seen_count(a, host, head, now_ns);
        lemma_applied(a, host, head, now_ns, key);
        if found(host@, head, key) {
            let i = choose|i: int|
                0 <= i < head.len() && session_key(host@, (#[trigger] head[i]).info.id@) == key;
            law_key_names_host_and_session(host@, head[i].info.id@);
            law_key_names_host_and_session(host@, last.info.id@);
            assert(head[i] == list[i]);
            assert(list[list.len() - 1] == last);
        }
    }
}

/// A host is told to have as many sessions as its scan found.
pub proof fn law_sessions_are_counted(v: CoreView, scan: ResolvedHostScan, now_ns: u64)
    requires
        scan.sessions@.len() <= usize::MAX,
        forall|i: int, j: int|
            0 <= i < j < scan.sessions@.len() ==> (#[trigger] scan.sessions@[i]).info.id@ != (
            #[trigger] scan.sessions@[j]).info.id@,
    ensures
        scan_applied(v, scan, now_ns).0.hosts[scan.host@].session_count
            == scan.sessions@.len(),
{
    let a = Applied { core: v, seen: Set::empty(), actions: Seq::empty() };
    lemma_seen_count(a, scan.host, scan.sessions@, now_ns);
}

/// The recent directories are saved once, at the end of each scan of a host.
pub proof fn law_scan_ends_with_saving(v: CoreView, scan: ResolvedHostScan, now_ns: u64)
    ensures
        ({
            let actions = scan_applied(v, scan, now_ns).1;
            &&& actions.len() > 0
            &&& actions.last() == ActionView::SaveRecentDirs
            &&& forall|k: int|
                0 <= k < actions.len() - 1 ==> !(#[trigger] actions[k] is SaveRecentDirs)
        }),
{
    let a = Applied { core: v, seen: Set::empty(), actions: Seq::empty() };
    lemma_sessions_save_nothing(a, scan.host, scan.sessions@, now_ns);
}

proof fn lemma_sessions_save_nothing(
    a: Applied,
    host: String,
    list: Seq<ResolvedSession>,
    now_ns: u64,
)
    requires
        forall|k: int| 0 <= k < a.actions.len() ==> !(#[trigger] a.actions[k] is SaveRecentDirs),
    ensures
        ({
            let after = apply_sessions(a, host, list, now_ns).actions;
            forall|k: int| 0 <= k < after.len() ==> !(#[trigger] after[k] is SaveRecentDirs)
        }),
    decreases list.len(),
{
    if list.len() > 0 {
        lemma_sessions_save_nothing(a, host, list.drop_last(), now_ns);
        let before = apply_sessions(a, host, list.drop_last(), now_ns);
        let after = apply_sessions(a, host, list, now_ns).actions;
        law_session_tells_what_changed(before, host, list.last(), now_ns);
        assert forall|k: int| 0 <= k < after.len() implies !(#[trigger] after[k]
            is SaveRecentDirs) by {
            if k < before.actions.len() {
                assert(after.take(before.actions.len() as int)[k] == after[k]);
            }
        }
    }
}

/// The sessions of a scan are taken in one after the other, in their order.
pub proof fn law_sessions_in_turn(
    a: Applied,
    host: String,
    first: ResolvedSession,
    rest: Seq<ResolvedSession>,
    now_ns: u64,
)
    ensures
        apply_sessions(a, host, Seq::empty(), now_ns) == a,
        apply_sessions(a, host, seq![first] + rest, now_ns) == apply_sessions(
            apply_session(a, host, first, now_ns),
            host,
            rest,
            now_ns,
        ),
    decreases rest.len(),
{
    let all = seq![first] + rest;
    if rest.len() == 0 {
        assert(all.drop_last() =~= Seq::<ResolvedSession>::empty());
        assert(all.last() == first);
        assert(apply_sessions(a, host, all.drop_last(), now_ns) == a);
    } else {
        law_sessions_in_turn(a, host, first, rest.drop_last(), now_ns);
        assert(all.drop_last() =~= seq![first] + rest.drop_last());
        assert(all.last() == rest.last());
    }
}

} // verus!
