//! What the daemon does for a client.

use vstd::prelude::*;
use vstd::string::*;

use crate::config::configured_remote_hosts;
use crate::daemon::attach::{drop_in_for, drop_in_result, knows_id, DropIn, DropInView};
use crate::daemon::bell::{after_change, rings};
use crate::daemon::create::{create_start, CreatePlan};
use crate::daemon::cycle::{
    cycle_requested, is_snapshot, is_status, same_but_placeholders, watched, DaemonFacts,
    RefreshStep,
};
use crate::daemon::recent_dirs::has_host;
use crate::daemon::state::{
    action_views, bell_reason, keeps_both, push_action, reason_of, ActionView, CoreAction, CoreView,
    DaemonCore,
};
use crate::ipc::{AttachSpec, ClientMessage, DaemonMessage, DaemonView, RecentDirEntry};
use crate::opencode::client::{
    allow_json, allow_patch, base_of, request_of, session_path, ApiRequest, Method, OcClient,
};
use crate::text::{concat2, opt_text, str_eq, strings};
use crate::types::{state_of_status, SessionInfo, SessionState};

verus! {

// ---------------------------------------------------------------------------
// Events from outside
// ---------------------------------------------------------------------------

/// What the daemon knows and does after somebody told it the state of a session.
pub open spec fn injected(v: CoreView, key: Seq<char>, state: SessionState, now_ns: u64) -> (
    CoreView,
    Seq<ActionView>,
) {
    let before = v.sessions[key];
    let session = SessionInfo { state, ..before };
    let told = ActionView::Broadcast(DaemonView::SessionUpdated { session });
    (
        CoreView {
            sessions: v.sessions.insert(key, session),
            bells: after_change(v.bells, key, before.state, state, now_ns),
            ..v
        },
        if rings(v.bells, key, before.state, state, now_ns) {
            seq![
                ActionView::Ring { session, reason: reason_of(state) },
                ActionView::Broadcast(
                    DaemonView::Bell {
                        session_id: session.id@,
                        host: session.host@,
                        reason: reason_of(state),
                    },
                ),
                told,
            ]
        } else {
            seq![told]
        },
    )
}

// ---------------------------------------------------------------------------
// Recent directories
// ---------------------------------------------------------------------------

/// Whether no recent directory is known of one of the hosts.
pub open spec fn lacks_some(recent: Seq<RecentDirEntry>, names: Seq<Seq<char>>) -> bool {
    exists|k: int| 0 <= k < names.len() && !has_host(recent, #[trigger] names[k])
}

/// The first entries, at most as many as are asked for.
pub open spec fn first_entries(recent: Seq<RecentDirEntry>, limit: u32) -> Seq<RecentDirEntry> {
    recent.take(
        if limit < recent.len() {
            limit as int
        } else {
            recent.len() as int
        },
    )
}

// ---------------------------------------------------------------------------
// Answers
// ---------------------------------------------------------------------------

/// What is answered once a session was approved, or was not.
pub fn approve_reply(session_id: &str, outcome: &Result<String, String>) -> (r: DaemonMessage)
    ensures
        r@ == (DaemonView::Error {
            message: match *outcome {
                Ok(_) => "Approved: "@ + session_id@,
                Err(e) => "Approve failed: "@ + e@,
            },
        }),
{
    match outcome {
        Ok(_) => DaemonMessage::Error { message: concat2("Approved: ", session_id) },
        Err(e) => DaemonMessage::Error { message: concat2("Approve failed: ", e.as_str()) },
    }
}

/// How waiting for a fresh state ended.
pub enum RefreshEnd {
    Answered(DaemonMessage),
    /// Nobody is left who could answer.
    Dropped,
    TimedOut,
}

/// How many seconds a fresh state is waited for.
pub const REFRESH_SECS: u64 = 30;

/// What is answered to a wish for a fresh state.
pub fn refresh_reply(end: RefreshEnd) -> (r: DaemonMessage)
    ensures
        r@ == (match end {
            RefreshEnd::Answered(message) => message@,
            RefreshEnd::Dropped => DaemonView::Error {
                message: "Refresh failed before a fresh snapshot was available"@,
            },
            RefreshEnd::TimedOut => DaemonView::Error {
                message: "Refresh timed out waiting for a fresh snapshot"@,
            },
        }),
{
    match end {
        RefreshEnd::Answered(message) => message,
        RefreshEnd::Dropped => DaemonMessage::Error {
            message: "Refresh failed before a fresh snapshot was available".to_string(),
        },
        RefreshEnd::TimedOut => DaemonMessage::Error {
            message: "Refresh timed out waiting for a fresh snapshot".to_string(),
        },
    }
}

/// What is answered to a wish to get into a session.
pub fn attach_reply(outcome: Result<AttachSpec, String>) -> (r: DaemonMessage)
    ensures
        r@ == (match outcome {
            Ok(attach) => DaemonView::AttachReady { attach: attach@ },
            Err(e) => DaemonView::Error { message: e@ },
        }),
{
    match outcome {
        Ok(attach) => DaemonMessage::AttachReady { attach },
        Err(e) => DaemonMessage::Error { message: e },
    }
}

// ---------------------------------------------------------------------------
// Wishes of clients
// ---------------------------------------------------------------------------

/// What is done for a client.
pub enum ClientPlan {
    /// The client is answered.
    Reply(DaemonMessage),
    /// The client is answered, and from then on told what everybody is told.
    Subscribe(DaemonMessage),
    /// A request is sent, and the client is told what came of it.
    Approve { session_id: String, request: ApiRequest },
    /// The client waits for a fresh state.
    Refresh(RefreshStep),
    /// The client is answered; where something is missing it is looked for, and
    /// the client is answered again.
    RecentDirs { initial: DaemonMessage, missing: bool },
    /// A session is made.
    Create(CreatePlan),
    /// The client gets into a session, or is told an error.
    DropIn(Result<DropIn, String>),
    /// The client is answered, and the daemon ends.
    Shutdown(DaemonMessage),
}

/// Whether a key is that of a session with an ID whose server is known.
pub open spec fn approvable(v: CoreView, key: Seq<char>, session_id: Seq<char>) -> bool {
    v.sessions.contains_key(key) && v.runtime.contains_key(key) && v.sessions[key].id@ == session_id
}

/// What is answered where no session has the ID that is to be approved.
pub open spec fn not_approved(session_id: Seq<char>) -> DaemonView {
    DaemonView::Error { message: "Approve failed: Session not found: "@ + session_id }
}

/// Whether an approval is what is done for a client: with the server of one of
/// the sessions with the ID, or none, and an answer that says so, where there is
/// no such session.
pub open spec fn is_approval(plan: ClientPlan, v: CoreView, session_id: Seq<char>) -> bool {
    if exists|k: Seq<char>| #[trigger] approvable(v, k, session_id) {
        exists|k: Seq<char>| #[trigger]
            approvable(v, k, session_id) && (plan matches ClientPlan::Approve {
                session_id: id,
                request,
            } && id@ == session_id && request@ == request_of(
                base_of(v.runtime[k].oc_base_url@),
                Method::Patch,
                session_path(session_id),
                Some(allow_json()),
            ))
    } else {
        plan matches ClientPlan::Reply(m) && m@ == not_approved(session_id)
    }
}

/// Whether a way into a session is what is done for a client.
pub open spec fn is_way_in(
    plan: ClientPlan,
    sessions: Map<Seq<char>, SessionInfo>,
    session_id: Seq<char>,
) -> bool {
    plan matches ClientPlan::DropIn(r) && (if knows_id(sessions, session_id) {
        exists|k: Seq<char>| #[trigger]
            sessions.contains_key(k) && sessions[k].id@ == session_id && drop_in_result(r)
                == drop_in_for(sessions[k])
    } else {
        drop_in_result(r) == Err::<DropInView, Seq<char>>("Session not found: "@ + session_id)
    })
}

/// What the daemon knows after a wish for a fresh state, and how the wish goes on.
pub open spec fn refresh_scheduled(
    before: CoreView,
    after: CoreView,
    ticket: u64,
    step: RefreshStep,
) -> bool {
    if before.in_progress {
        &&& step == RefreshStep::Waiting
        &&& after == (CoreView {
            rescan: true,
            pending: before.pending.push(((before.active + 1) as u64, ticket)),
            ..before
        })
    } else {
        &&& step == RefreshStep::Start
        &&& same_but_placeholders(cycle_requested(before), after)
    }
}

impl DaemonCore {
    /// Takes in the state of the session with a key, as somebody tells it; what
    /// is known under no key changes nothing.
    pub fn inject_event(&mut self, key: &str, state: SessionState, now_ns: u64) -> (r: Vec<
        CoreAction,
    >)
        ensures
            if old(self)@.sessions.contains_key(key@) {
                (final(self)@, action_views(r@)) == injected(old(self)@, key@, state, now_ns)
            } else {
                final(self)@ == old(self)@ && r@.len() == 0
            },
    {
        let ghost v = self@;
        let mut actions: Vec<CoreAction> = Vec::new();
        let mut session: SessionInfo = match self.sessions.get(key) {
            Some(found) => found.clone(),
            None => {
                return actions;
            },
        };
        let ghost before = session;
        let old_state = session.state;
        session.state = state;
        assert(session == SessionInfo { state, ..before });
        assert(action_views(actions@) =~= Seq::<ActionView>::empty());
        if self.bell_notifier.should_bell(key, old_state, state, now_ns) {
            let reason = bell_reason(state);
            push_action(
                &mut actions,
                CoreAction::Ring { session: session.clone(), reason: reason.to_string() },
            );
            push_action(
                &mut actions,
                CoreAction::Broadcast(
                    DaemonMessage::Bell {
                        session_id: session.id.clone(),
                        host: session.host.clone(),
                        reason: reason.to_string(),
                    },
                ),
            );
        }
        push_action(
            &mut actions,
            CoreAction::Broadcast(DaemonMessage::SessionUpdated { session: session.clone() }),
        );
        self.sessions.insert(key.to_string(), session);
        proof {
            let want = injected(v, key@, state, now_ns);
            assert(self@ =~= want.0);
            assert(action_views(actions@) =~= want.1);
        }
        actions
    }

    /// Whether no recent directory is known of one of the watched hosts.
    pub fn has_missing_recent_dir_hosts(&self) -> (r: bool)
        ensures
            r == lacks_some(self@.recent, watched(self@)),
    {
        let ghost all = watched(self@);
        if !self.recent_dirs.has_host_entries("local") {
            assert(all[0] == "local"@);
            return true;
        }
        let names = configured_remote_hosts(&self.config);
        for i in 0..names.len()
            invariant
                all == watched(self@),
                all == seq!["local"@] + strings(names@),
                forall|k: int| 0 <= k <= i ==> has_host(self@.recent, #[trigger] all[k]),
        {
            assert(all[i + 1] == names@[i as int]@);
            if !self.recent_dirs.has_host_entries(names[i].as_str()) {
                return true;
            }
        }
        false
    }

    /// The recent directories, at most as many as are asked for.
    pub fn recent_dirs_response(&self, limit: u32, is_complete: bool) -> (r: DaemonMessage)
        ensures
            r@ == (DaemonView::RecentDirs {
                entries: first_entries(self@.recent, limit),
                is_complete,
            }),
    {
        DaemonMessage::RecentDirs { entries: self.recent_dirs.entries(limit as usize), is_complete }
    }

    /// What is done for a client that asks to approve what a session asks for.
    fn plan_approval(&self, session_id: String) -> (r: ClientPlan)
        ensures
            is_approval(r, self@, session_id@),
    {
        let n: usize = self.sessions.len();
        let ghost e = self.sessions.listed();
        for i in 0..n
            invariant
                n == e.len(),
                e == self.sessions.listed(),
                forall|j: int|
                    0 <= j < i ==> !approvable(self@, (#[trigger] e[j]).0@, session_id@),
        {
            let (key, session) = self.sessions.at(i);
            if str_eq(session.id.as_str(), session_id.as_str()) {
                match self.session_runtime.get(key.as_str()) {
                    Some(runtime) => {
                        let client = OcClient::new(runtime.oc_base_url.as_str());
                        let request = client.update_session(session_id.as_str(), allow_patch());
                        assert(approvable(self@, key@, session_id@));
                        return ClientPlan::Approve { session_id, request };
                    },
                    None => {},
                }
            }
        }
        proof {
            if exists|k: Seq<char>| #[trigger] approvable(self@, k, session_id@) {
                let k = choose|k: Seq<char>| #[trigger] approvable(self@, k, session_id@);
                let j = choose|j: int| 0 <= j < e.len() && (#[trigger] e[j]).0@ == k;
                assert(!approvable(self@, e[j].0@, session_id@));
            }
        }
        ClientPlan::Reply(
            DaemonMessage::Error {
                message: concat2("Approve failed: Session not found: ", session_id.as_str()),
            },
        )
    }

    /// Does what a client wishes. The ticket is the number under which the client
    /// waits, where it has to.
    pub fn handle_client(
        &mut self,
        message: ClientMessage,
        facts: &DaemonFacts,
        ticket: u64,
        now_ns: u64,
    ) -> (r: (ClientPlan, Vec<CoreAction>))
        requires
            message is RefreshAll ==> old(self)@.active < u64::MAX,
        ensures
            match message {
                ClientMessage::GetStatus => r.0 matches ClientPlan::Reply(m) && is_status(
                    m@,
                    old(self)@,
                    *facts,
                ),
                ClientMessage::Subscribe => r.0 matches ClientPlan::Subscribe(m) && is_snapshot(
                    m@,
                    old(self)@,
                ),
                ClientMessage::InjectEvent { .. } => r.0 matches ClientPlan::Reply(m) && m@ == (
                DaemonView::Error { message: "inject-event acknowledged"@ }),
                ClientMessage::Approve { session_id } => is_approval(
                    r.0,
                    old(self)@,
                    session_id@,
                ),
                ClientMessage::RefreshAll => r.0 matches ClientPlan::Refresh(step)
                    && refresh_scheduled(old(self)@, final(self)@, ticket, step),
                ClientMessage::GetRecentDirs { limit } => r.0 matches ClientPlan::RecentDirs {
                    initial,
                    missing,
                } && missing == lacks_some(old(self)@.recent, watched(old(self)@)) && initial@ == (
                DaemonView::RecentDirs {
                    entries: first_entries(old(self)@.recent, limit),
                    is_complete: !missing,
                }),
                ClientMessage::CreateSession { host, directory, name_hint } => r.0 matches ClientPlan::Create(plan)
                    && plan@ == create_start(host@, directory@, opt_text(name_hint)),
                ClientMessage::DropIn { session_id } => is_way_in(
                    r.0,
                    old(self)@.sessions,
                    session_id@,
                ),
                ClientMessage::Shutdown => r.0 matches ClientPlan::Shutdown(m) && m@ == (
                DaemonView::Error { message: "Shutting down"@ }),
            },
            match message {
                ClientMessage::InjectEvent { session_id, state } => if knows_id(
                    old(self)@.sessions,
                    session_id@,
                ) {
                    exists|k: Seq<char>| #[trigger]
                        old(self)@.sessions.contains_key(k) && old(self)@.sessions[k].id@
                            == session_id@ && (
                        final(self)@,
                        action_views(r.1@),
                    ) == injected(old(self)@, k, state_of_status(state@), now_ns)
                } else {
                    final(self)@ == old(self)@ && r.1@.len() == 0
                },
                ClientMessage::RefreshAll => r.1@.len() == 0,
                _ => final(self)@ == old(self)@ && r.1@.len() == 0,
            },
    {
        let none: Vec<CoreAction> = Vec::new();
        match message {
            ClientMessage::GetStatus => (ClientPlan::Reply(self.build_status(facts)), none),
            ClientMessage::Subscribe => (ClientPlan::Subscribe(self.state_snapshot()), none),
            ClientMessage::InjectEvent { session_id, state } => {
                let reply = DaemonMessage::Error {
                    message: "inject-event acknowledged".to_string(),
                };
                let new_state = SessionState::from_oc_str(state.as_str());
                match self.find_session(session_id.as_str()) {
                    Some(found) => {
                        let key = found.clone();
                        assert(old(self)@.sessions.contains_key(key@));
                        let actions = self.inject_event(key.as_str(), new_state, now_ns);
                        (ClientPlan::Reply(reply), actions)
                    },
                    None => (ClientPlan::Reply(reply), none),
                }
            },
            ClientMessage::Approve { session_id } => (self.plan_approval(session_id), none),
            ClientMessage::RefreshAll => (ClientPlan::Refresh(self.schedule_refresh(ticket)), none),
            ClientMessage::GetRecentDirs { limit } => {
                let missing = self.has_missing_recent_dir_hosts();
                let initial = self.recent_dirs_response(limit, !missing);
                (ClientPlan::RecentDirs { initial, missing }, none)
            },
            ClientMessage::CreateSession { host, directory, name_hint } => (
                ClientPlan::Create(
                    CreatePlan::start(host.as_str(), directory.as_str(), name_hint),
                ),
                none,
            ),
            ClientMessage::DropIn { session_id } => (
                ClientPlan::DropIn(self.drop_in_attach_spec(session_id.as_str())),
                none,
            ),
            ClientMessage::Shutdown => (
                ClientPlan::Shutdown(
                    DaemonMessage::Error { message: "Shutting down".to_string() },
                ),
                none,
            ),
        }
    }
}

// ---------------------------------------------------------------------------
// Laws
// ---------------------------------------------------------------------------

/// Telling the state of a session leaves all other sessions, and all that is kept
/// of sessions, as they are, and changes nothing but the state of that session.
pub proof fn law_injection_changes_one_state(
    v: CoreView,
    key: Seq<char>,
    state: SessionState,
    now_ns: u64,
    other: Seq<char>,
)
    requires
        v.sessions.contains_key(key),
    ensures
        ({
            let after = injected(v, key, state, now_ns).0;
            &&& after.sessions.dom() == v.sessions.dom()
            &&& after.runtime == v.runtime
            &&& after.hosts == v.hosts
            &&& after.sessions[key] == (SessionInfo { state, ..v.sessions[key] })
            &&& other != key ==> after.sessions[other] == v.sessions[other]
        }),
{
    let after = injected(v, key, state, now_ns).0;
    assert(after.sessions.dom() =~= v.sessions.dom());
}

/// While something is kept of exactly the sessions that are known, a request is
/// sent for an approval if and only if a session has the ID; else the client is
/// told that there is none.
pub proof fn law_approve_is_answered(v: CoreView, plan: ClientPlan, session_id: Seq<char>)
    requires
        keeps_both(v),
        is_approval(plan, v, session_id),
    ensures
        plan is Approve <==> knows_id(v.sessions, session_id),
        !knows_id(v.sessions, session_id) ==> (plan matches ClientPlan::Reply(m) && m@
            == not_approved(session_id)),
{
    if knows_id(v.sessions, session_id) {
        let k = choose|k: Seq<char>| #[trigger]
            v.sessions.contains_key(k) && v.sessions[k].id@ == session_id;
        assert(v.sessions.dom().contains(k));
        assert(v.runtime.dom().contains(k));
        assert(approvable(v, k, session_id));
    }
    if exists|k: Seq<char>| #[trigger] approvable(v, k, session_id) {
        let k = choose|k: Seq<char>| #[trigger] approvable(v, k, session_id);
        assert(v.sessions.contains_key(k));
    }
}

/// An injected state is told to all clients last, with the session in that state;
/// before, where the change rings, the bell of the session is rung and told.
pub proof fn law_injection_is_told(
    v: CoreView,
    key: Seq<char>,
    state: SessionState,
    now_ns: u64,
)
    requires
        v.sessions.contains_key(key),
    ensures
        ({
            let actions = injected(v, key, state, now_ns).1;
            let ring = rings(v.bells, key, v.sessions[key].state, state, now_ns);
            &&& actions.len() == if ring {
                3int
            } else {
                1
            }
            &&& actions.last() matches ActionView::Broadcast(
                DaemonView::SessionUpdated { session },
            ) && session.state == state && session.id == v.sessions[key].id && session.title
                == v.sessions[key].title && session.host == v.sessions[key].host
            &&& ring ==> (actions[0] matches ActionView::Ring { session, reason } && session.id
                == v.sessions[key].id && reason == reason_of(state))
            &&& ring ==> actions[1] == ActionView::Broadcast(
                DaemonView::Bell {
                    session_id: v.sessions[key].id@,
                    host: v.sessions[key].host@,
                    reason: reason_of(state),
                },
            )
            &&& ring ==> injected(v, key, state, now_ns).0.bells == v.bells.insert(key, now_ns)
            &&& !ring ==> injected(v, key, state, now_ns).0.bells == v.bells
        }),
{
}

/// An approval is asked of the server of the session with the ID: a patch of that
/// session which allows what it asked for.
pub proof fn law_approval_allows(v: CoreView, plan: ClientPlan, session_id: Seq<char>)
    requires
        is_approval(plan, v, session_id),
    ensures
        match plan {
            ClientPlan::Approve { session_id: id, request } => id@ == session_id && request@.method
                == Method::Patch && request@.path == "/session/"@ + session_id && request@.body
                == Some("{\"permission\":[{\"action\":\"allow\"}]}"@) && exists|k: Seq<char>|
                #[trigger]
                v.sessions.contains_key(k) && v.runtime.contains_key(k) && v.sessions[k].id@
                    == session_id && request@.url == base_of(v.runtime[k].oc_base_url@)
                    + "/session/"@ + session_id,
            ClientPlan::Reply(m) => m@ == (DaemonView::Error {
                message: "Approve failed: Session not found: "@ + session_id,
            }) && forall|k: Seq<char>| #[trigger]
                v.sessions.contains_key(k) && v.runtime.contains_key(k) ==> v.sessions[k].id@
                    != session_id,
            _ => false,
        },
{
    if exists|k: Seq<char>| #[trigger] approvable(v, k, session_id) {
        let k = choose|k: Seq<char>| #[trigger]
            approvable(v, k, session_id) && (plan matches ClientPlan::Approve {
                session_id: id,
                request,
            } && id@ == session_id && request@ == request_of(
                base_of(v.runtime[k].oc_base_url@),
                Method::Patch,
                session_path(session_id),
                Some(allow_json()),
            ));
        let base = base_of(v.runtime[k].oc_base_url@);
        assert(base + session_path(session_id) =~= base + "/session/"@ + session_id);
        assert(v.sessions.contains_key(k));
    } else {
        assert forall|k: Seq<char>| #[trigger]
            v.sessions.contains_key(k) && v.runtime.contains_key(k) implies v.sessions[k].id@
            != session_id by {
            assert(!approvable(v, k, session_id));
        }
    }
}

/// A client gets the first entries up to the number it asks for, in their order.
pub proof fn law_first_entries(recent: Seq<RecentDirEntry>, limit: u32)
    ensures
        first_entries(recent, limit).len() <= limit,
        first_entries(recent, limit).len() <= recent.len(),
        first_entries(recent, limit).len() == limit || first_entries(recent, limit) == recent,
        forall|k: int|
            0 <= k < first_entries(recent, limit).len() ==> #[trigger] first_entries(
                recent,
                limit,
            )[k] == recent[k],
{
    if recent.len() <= limit {
        assert(first_entries(recent, limit) =~= recent);
    }
}

/// The recent directories lack some host if and only if there is a name that no
/// entry has.
pub proof fn law_lacking_host_has_no_entry(recent: Seq<RecentDirEntry>, names: Seq<Seq<char>>)
    ensures
        lacks_some(recent, names) <==> exists|n: int|
            0 <= n < names.len() && #[trigger] is_missing(recent, names[n]),
{
    if lacks_some(recent, names) {
        let n = choose|n: int| 0 <= n < names.len() && !has_host(recent, #[trigger] names[n]);
        assert(is_missing(recent, names[n]));
    }
    if exists|n: int| 0 <= n < names.len() && #[trigger] is_missing(recent, names[n]) {
        let n = choose|n: int| 0 <= n < names.len() && #[trigger] is_missing(recent, names[n]);
        assert(!has_host(recent, names[n]));
    }
}

/// Whether no entry has a host.
pub open spec fn is_missing(recent: Seq<RecentDirEntry>, host: Seq<char>) -> bool {
    forall|k: int| 0 <= k < recent.len() ==> (#[trigger] recent[k]).host@ != host
}

/// The way in is that into a session with the ID where one is known; else the
/// client is told that there is none.
pub proof fn law_way_in_is_by_id(
    plan: ClientPlan,
    sessions: Map<Seq<char>, SessionInfo>,
    session_id: Seq<char>,
)
    requires
        is_way_in(plan, sessions, session_id),
    ensures
        plan matches ClientPlan::DropIn(r) && match r {
            Ok(d) => exists|k: Seq<char>| #[trigger]
                sessions.contains_key(k) && sessions[k].id@ == session_id && drop_in_for(
                    sessions[k],
                ) == Ok::<DropInView, Seq<char>>(d@),
            Err(e) => (exists|k: Seq<char>| #[trigger]
                sessions.contains_key(k) && sessions[k].id@ == session_id && drop_in_for(
                    sessions[k],
                ) == Err::<DropInView, Seq<char>>(e@)) || (e@ == "Session not found: "@ + session_id
                && forall|k: Seq<char>| #[trigger]
                sessions.contains_key(k) ==> sessions[k].id@ != session_id),
        },
{
    if let ClientPlan::DropIn(r) = plan {
        if knows_id(sessions, session_id) {
            let k = choose|k: Seq<char>| #[trigger]
                sessions.contains_key(k) && sessions[k].id@ == session_id && drop_in_result(r)
                    == drop_in_for(sessions[k]);
            assert(sessions.contains_key(k));
        }
    }
}

/// A refresh that is asked for during a cycle waits for the next one, which is then
/// wished for; otherwise a cycle starts.
pub proof fn law_refresh_waits_or_starts(
    before: CoreView,
    after: CoreView,
    ticket: u64,
    step: RefreshStep,
)
    requires
        before.active < u64::MAX,
        refresh_scheduled(before, after, ticket, step),
    ensures
        before.in_progress ==> step == RefreshStep::Waiting && after.rescan && after.pending
            == before.pending.push(((before.active + 1) as u64, ticket)) && after.active
            == before.active && after.in_progress,
        !before.in_progress ==> step == RefreshStep::Start && after.in_progress && after.active
            == before.active + 1 && after.pending == before.pending,
        after.sessions == before.sessions,
{
}

} // verus!
