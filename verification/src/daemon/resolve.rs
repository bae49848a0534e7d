//! What the daemon makes of the scan of a host.

use vstd::prelude::*;
use vstd::string::*;

use crate::config::{configured_remote_hosts, remote_names, Config};
use crate::daemon::state::{ResolvedHostScan, ResolvedSession};
use crate::discovery::panes::{ActiveSession, ScanResult};
use crate::keyed::KeyMap;
use crate::opencode::client::{base_of, request_of, ApiRequest, Method, OcClient, OcSessionStatus};
use crate::text::{
    clone_opt, concat2, concat3, decimal, digit, law_parse_undoes_decimal, number_text, opt_text,
    parse_number, strings,
};
use crate::types::{state_of_status, SessionInfo, SessionState};

verus! {

// ---------------------------------------------------------------------------
// What a cycle visits
// ---------------------------------------------------------------------------

/// A host that a cycle visits.
#[derive(Debug)]
pub enum ScanTarget {
    Local,
    Remote(String),
}

/// The names of hosts that a cycle visits.
pub open spec fn target_names(targets: Seq<ScanTarget>) -> Seq<Option<Seq<char>>> {
    Seq::new(
        targets.len(),
        |k: int|
            match targets[k] {
                ScanTarget::Local => None,
                ScanTarget::Remote(name) => Some(name@),
            },
    )
}

/// The hosts that a cycle visits, in their order: this one first, then those that
/// are reached through ssh, as they are configured.
pub fn cycle_targets(config: &Config) -> (r: Vec<ScanTarget>)
    ensures
        target_names(r@) == seq![None::<Seq<char>>] + remote_names(config.hosts@).map_values(
            |name: Seq<char>| Some(name),
        ),
{
    let names = configured_remote_hosts(config);
    let ghost all = remote_names(config.hosts@);
    let mut targets: Vec<ScanTarget> = Vec::new();
    targets.push(ScanTarget::Local);
    for i in 0..names.len()
        invariant
            strings(names@) == all,
            targets@.len() == i + 1,
            targets@[0] is Local,
            forall|k: int|
                0 < k <= i ==> (match #[trigger] targets@[k] {
                    ScanTarget::Remote(name) => name@ == all[k - 1],
                    ScanTarget::Local => false,
                }),
    {
        assert(all[i as int] == names@[i as int]@);
        targets.push(ScanTarget::Remote(names[i].clone()));
    }
    assert(target_names(targets@) =~= seq![None::<Seq<char>>] + all.map_values(
        |name: Seq<char>| Some(name),
    ));
    targets
}

// ---------------------------------------------------------------------------
// Sessions
// ---------------------------------------------------------------------------

/// The address of OpenCode's server on a port here.
pub open spec fn local_url(port: u16) -> Seq<char> {
    "http://localhost:"@ + decimal(port as nat)
}

/// The address of OpenCode's server on a port here.
fn local_url_text(port: u16) -> (r: String)
    ensures
        r@ == local_url(port),
{
    concat2("http://localhost:", number_text(port as u64).as_str())
}

proof fn lemma_local_url_is_base(port: u16)
    ensures
        base_of(local_url(port)) == local_url(port),
{
    let n = port as nat;
    let d = decimal(n);
    assert(d.len() > 0 && d.last() == digit(n % 10));
    assert(local_url(port).last() == d.last());
}

/// The request for the statuses of the sessions of a host; none where the host
/// has no server.
pub fn status_request(scan: &ScanResult) -> (r: Option<ApiRequest>)
    ensures
        match scan.server_port {
            Some(port) => r matches Some(request) && request@ == request_of(
                local_url(port),
                Method::Get,
                "/session/status"@,
                None,
            ),
            None => r is None,
        },
{
    match scan.server_port {
        Some(port) => {
            let client = OcClient::new(local_url_text(port).as_str());
            proof {
                lemma_local_url_is_base(port);
            }
            Some(client.get_session_statuses())
        },
        None => None,
    }
}

/// The state of a session: what the server says where that says something, else
/// what was inferred from what is stored.
pub open spec fn resolved_state(
    statuses: Option<Map<Seq<char>, OcSessionStatus>>,
    id: Seq<char>,
    inferred: Option<SessionState>,
) -> SessionState {
    let fallback = match inferred {
        Some(state) => state,
        None => SessionState::Unknown,
    };
    match statuses {
        Some(known) => if known.contains_key(id) {
            match known[id].status {
                Some(text) => if state_of_status(text@) == SessionState::Unknown {
                    fallback
                } else {
                    state_of_status(text@)
                },
                None => fallback,
            }
        } else {
            fallback
        },
        None => fallback,
    }
}

/// The statuses as values.
pub open spec fn status_map(statuses: Option<&KeyMap<OcSessionStatus>>) -> Option<
    Map<Seq<char>, OcSessionStatus>,
> {
    match statuses {
        Some(known) => Some(known@),
        None => None,
    }
}

/// The port of a server, or zero where there is none.
pub open spec fn port_or_zero(port: Option<u16>) -> u16 {
    match port {
        Some(p) => p,
        None => 0,
    }
}

/// Whether a session is what the daemon makes of a session that was found.
pub open spec fn is_resolved(
    r: ResolvedSession,
    host: Seq<char>,
    active: ActiveSession,
    server_port: Option<u16>,
    statuses: Option<Map<Seq<char>, OcSessionStatus>>,
    now_ms: u64,
) -> bool {
    &&& r.info.id@ == active.session_id@
    &&& r.info.host@ == host
    &&& r.info.state == resolved_state(statuses, active.session_id@, active.inferred_state)
    &&& opt_text(r.info.parent_id) == opt_text(active.parent_id)
    &&& r.info.title@ == active.title@
    &&& r.info.working_dir@ == active.directory@
    &&& r.info.activity_age_secs as int == (if now_ms > active.time_updated_ms {
        (now_ms - active.time_updated_ms) / 1000
    } else {
        0
    })
    &&& r.info.oc_port == port_or_zero(server_port)
    &&& opt_text(r.info.tmux_session) == opt_text(active.tmux_session)
    &&& opt_text(r.info.tmux_window) == opt_text(active.tmux_window)
    &&& opt_text(r.info.tmux_pane) == (match active.tmux_pane_index {
        Some(index) => Some(decimal(index as nat)),
        None => None,
    })
    &&& r.oc_base_url@ == local_url(port_or_zero(server_port))
    &&& r.last_seen_unix_ms == active.time_updated_ms
}

/// The state of a session.
fn state_for(
    statuses: Option<&KeyMap<OcSessionStatus>>,
    id: &str,
    inferred: Option<SessionState>,
) -> (r: SessionState)
    ensures
        r == resolved_state(status_map(statuses), id@, inferred),
{
    let fallback = match inferred {
        Some(state) => state,
        None => SessionState::Unknown,
    };
    match statuses {
        Some(known) => match known.get(id) {
            Some(found) => match &found.status {
                Some(text) => {
                    let state = SessionState::from_oc_str(text.as_str());
                    if state == SessionState::Unknown {
                        fallback
                    } else {
                        state
                    }
                },
                None => fallback,
            },
            None => fallback,
        },
        None => fallback,
    }
}

/// What the daemon makes of a session that was found.
pub fn resolve_active_session(
    host: &str,
    active: &ActiveSession,
    server_port: Option<u16>,
    statuses: Option<&KeyMap<OcSessionStatus>>,
    now_ms: u64,
) -> (r: ResolvedSession)
    ensures
        is_resolved(r, host@, *active, server_port, status_map(statuses), now_ms),
{
    let oc_port: u16 = match server_port {
        Some(port) => port,
        None => 0,
    };
    let age_ms: u64 = if now_ms > active.time_updated_ms {
        now_ms - active.time_updated_ms
    } else {
        0
    };
    ResolvedSession {
        info: SessionInfo {
            id: active.session_id.clone(),
            host: host.to_string(),
            state: state_for(statuses, active.session_id.as_str(), active.inferred_state),
            parent_id: clone_opt(&active.parent_id),
            title: active.title.clone(),
            working_dir: active.directory.clone(),
            activity_age_secs: age_ms / 1000,
            oc_port,
            tmux_session: clone_opt(&active.tmux_session),
            tmux_window: clone_opt(&active.tmux_window),
            tmux_pane: match active.tmux_pane_index {
                Some(index) => Some(number_text(index as u64)),
                None => None,
            },
        },
        oc_base_url: local_url_text(oc_port),
        last_seen_unix_ms: active.time_updated_ms,
    }
}

// ---------------------------------------------------------------------------
// Hosts
// ---------------------------------------------------------------------------

/// What the daemon makes of the scan of a host: of each session that was found,
/// in their order.
pub fn resolve_host_scan(
    host: &str,
    scan: &ScanResult,
    connected: bool,
    error: Option<String>,
    statuses: Option<&KeyMap<OcSessionStatus>>,
    now_ms: u64,
) -> (r: ResolvedHostScan)
    ensures
        r.host@ == host@,
        r.connected == connected,
        r.error == error,
        r.completed_unix_ms == now_ms,
        r.sessions@.len() == scan.active_sessions@.len(),
        forall|k: int|
            0 <= k < r.sessions@.len() ==> is_resolved(
                #[trigger] r.sessions@[k],
                host@,
                scan.active_sessions@[k],
                scan.server_port,
                status_map(statuses),
                now_ms,
            ),
{
    let mut sessions: Vec<ResolvedSession> = Vec::new();
    for i in 0..scan.active_sessions.len()
        invariant
            sessions@.len() == i,
            forall|k: int|
                0 <= k < i ==> is_resolved(
                    #[trigger] sessions@[k],
                    host@,
                    scan.active_sessions@[k],
                    scan.server_port,
                    status_map(statuses),
                    now_ms,
                ),
    {
        sessions.push(
            resolve_active_session(
                host,
                &scan.active_sessions[i],
                scan.server_port,
                statuses,
                now_ms,
            ),
        );
    }
    ResolvedHostScan {
        host: host.to_string(),
        connected,
        error,
        completed_unix_ms: now_ms,
        sessions,
    }
}

/// What is said of a host that is not configured.
pub open spec fn unknown_host(host: Seq<char>) -> Seq<char> {
    "Host '"@ + host + "' not found in config"@
}

/// What is said of a host that is not configured.
pub fn unknown_host_text(host: &str) -> (r: String)
    ensures
        r@ == unknown_host(host@),
{
    concat3("Host '", host, "' not found in config")
}

/// A scan that found nothing, for the reason given: the connection to the host
/// failed, or, where no reason is given, the host is not configured.
pub fn failed_scan(host: &str, reason: Option<String>, now_ms: u64) -> (r: ResolvedHostScan)
    ensures
        r.host@ == host@,
        !r.connected,
        opt_text(r.error) == Some(
            match reason {
                Some(text) => text@,
                None => unknown_host(host@),
            },
        ),
        r.completed_unix_ms == now_ms,
        r.sessions@.len() == 0,
{
    let error = match reason {
        Some(text) => text,
        None => unknown_host_text(host),
    };
    ResolvedHostScan {
        host: host.to_string(),
        connected: false,
        error: Some(error),
        completed_unix_ms: now_ms,
        sessions: Vec::new(),
    }
}

/// What the server says of a session stands, whatever was inferred: where its
/// statuses hold a text for the session that is read as a state other than
/// unknown, that is the session's state.
pub proof fn law_server_outweighs_inference(
    statuses: Map<Seq<char>, OcSessionStatus>,
    id: Seq<char>,
    text: String,
    inferred: Option<SessionState>,
)
    requires
        statuses.contains_key(id),
        statuses[id].status == Some(text),
        state_of_status(text@) != SessionState::Unknown,
    ensures
        resolved_state(Some(statuses), id, inferred) == state_of_status(text@),
{
}

/// Where the server says nothing of a session that is read as a state other than
/// unknown, the session's state is what was inferred, or unknown where nothing
/// was.
pub proof fn law_inference_stands_where_server_is_silent(
    statuses: Option<Map<Seq<char>, OcSessionStatus>>,
    id: Seq<char>,
    inferred: Option<SessionState>,
)
    requires
        match statuses {
            Some(known) => !known.contains_key(id) || match known[id].status {
                Some(text) => state_of_status(text@) == SessionState::Unknown,
                None => true,
            },
            None => true,
        },
    ensures
        inferred matches Some(state) ==> resolved_state(statuses, id, inferred) == state,
        inferred is None ==> resolved_state(statuses, id, inferred) == SessionState::Unknown,
{
}

/// What the daemon makes of a session that was found keeps its names and its
/// place, field by field; its age is counted in whole seconds from its last
/// update.
pub proof fn law_resolved_keeps_the_session(
    r: ResolvedSession,
    host: Seq<char>,
    active: ActiveSession,
    server_port: Option<u16>,
    statuses: Option<Map<Seq<char>, OcSessionStatus>>,
    now_ms: u64,
)
    requires
        is_resolved(r, host, active, server_port, statuses, now_ms),
    ensures
        r.info.id@ == active.session_id@,
        r.info.host@ == host,
        opt_text(r.info.parent_id) == opt_text(active.parent_id),
        r.info.title@ == active.title@,
        r.info.working_dir@ == active.directory@,
        opt_text(r.info.tmux_session) == opt_text(active.tmux_session),
        opt_text(r.info.tmux_window) == opt_text(active.tmux_window),
        active.tmux_pane_index is None <==> r.info.tmux_pane is None,
        active.tmux_pane_index matches Some(index) ==> parse_number(
            r.info.tmux_pane->0@,
            u32::MAX as nat,
        ) == Some(index as nat),
        server_port matches Some(port) ==> r.info.oc_port == port,
        server_port is None ==> r.info.oc_port == 0,
        r.oc_base_url@ == "http://localhost:"@ + decimal(r.info.oc_port as nat),
        r.last_seen_unix_ms == active.time_updated_ms,
        now_ms <= active.time_updated_ms ==> r.info.activity_age_secs == 0,
        now_ms >= active.time_updated_ms ==> r.info.activity_age_secs * 1000 <= now_ms
            - active.time_updated_ms < (r.info.activity_age_secs + 1) * 1000,
        r.info.state == resolved_state(statuses, active.session_id@, active.inferred_state),
{
    if let Some(index) = active.tmux_pane_index {
        law_parse_undoes_decimal(index as nat, u32::MAX as nat);
    }
}

} // verus!
