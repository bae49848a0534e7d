//! How a client gets into a session that is there, and how one is made for it.

use vstd::prelude::*;
use vstd::string::*;

use crate::config::{find_host, host_named, HostConfig};
use crate::daemon::resolve::{unknown_host, unknown_host_text};
use crate::daemon::state::DaemonCore;
use crate::ipc::{AttachSpec, AttachView};
use crate::shell::{escape_quotes, inside_quotes};
use crate::ssh::manager::{command_args, error_text, ConnView, SshError};
use crate::text::{
    chars_of, clone_opt, concat2, concat3, concat5, law_first_piece, law_unsplit_text_is_one_piece,
    opt_text, split, split_chars, str_eq, string_of, texts, the_char,
};
use crate::tui::interaction::slice_text;
use crate::types::SessionInfo;

verus! {

// ---------------------------------------------------------------------------
// Into a session that is there
// ---------------------------------------------------------------------------

/// What is done to get into a session.
#[derive(Debug)]
pub enum DropIn {
    /// It runs here.
    Here(AttachSpec),
    /// It runs in tmux on another host.
    RemoteTmux { host: String, target: String },
    /// It runs on another host, outside tmux.
    RemoteShell { host: String },
}

/// What is done to get into a session, as values.
#[verifier::ext_equal]
pub enum DropInView {
    Here(AttachView),
    RemoteTmux { host: Seq<char>, target: Seq<char> },
    RemoteShell { host: Seq<char> },
}

impl View for DropIn {
    type V = DropInView;

    open spec fn view(&self) -> DropInView {
        match *self {
            DropIn::Here(attach) => DropInView::Here(attach@),
            DropIn::RemoteTmux { host, target } => DropInView::RemoteTmux {
                host: host@,
                target: target@,
            },
            DropIn::RemoteShell { host } => DropInView::RemoteShell { host: host@ },
        }
    }
}

/// The view of what is done, or of an error in words.
pub open spec fn drop_in_result(r: Result<DropIn, String>) -> Result<DropInView, Seq<char>> {
    match r {
        Ok(d) => Ok(d@),
        Err(e) => Err(e@),
    }
}

/// Where tmux finds a session: its pane where the window and the pane are known.
pub open spec fn tmux_place(
    session: Seq<char>,
    window: Option<Seq<char>>,
    pane: Option<Seq<char>>,
) -> Seq<char> {
    match (window, pane) {
        (Some(w), Some(p)) => session + ":"@ + w + "."@ + p,
        _ => session,
    }
}

/// What is done to get into a session that is known.
pub open spec fn drop_in_for(s: SessionInfo) -> Result<DropInView, Seq<char>> {
    if s.host@ == "local"@ {
        match s.tmux_session {
            Some(session) => Ok(
                DropInView::Here(
                    AttachView::LocalTmux {
                        session: session@,
                        window: opt_text(s.tmux_window),
                        pane: opt_text(s.tmux_pane),
                    },
                ),
            ),
            None => Err("No tmux info — cannot drop in"@),
        }
    } else {
        match s.tmux_session {
            Some(session) => Ok(
                DropInView::RemoteTmux {
                    host: s.host@,
                    target: tmux_place(session@, opt_text(s.tmux_window), opt_text(s.tmux_pane)),
                },
            ),
            None => Ok(DropInView::RemoteShell { host: s.host@ }),
        }
    }
}

/// What is done to get into a session that is known.
pub fn plan_drop_in(session: &SessionInfo) -> (r: Result<DropIn, String>)
    ensures
        drop_in_result(r) == drop_in_for(*session),
{
    if str_eq(session.host.as_str(), "local") {
        match &session.tmux_session {
            Some(name) => Ok(
                DropIn::Here(
                    AttachSpec::LocalTmux {
                        session: name.clone(),
                        window: clone_opt(&session.tmux_window),
                        pane: clone_opt(&session.tmux_pane),
                    },
                ),
            ),
            None => Err("No tmux info — cannot drop in".to_string()),
        }
    } else {
        match &session.tmux_session {
            Some(name) => {
                let target = match (&session.tmux_window, &session.tmux_pane) {
                    (Some(window), Some(pane)) => concat5(
                        name.as_str(),
                        ":",
                        window.as_str(),
                        ".",
                        pane.as_str(),
                    ),
                    _ => name.clone(),
                };
                Ok(DropIn::RemoteTmux { host: session.host.clone(), target })
            },
            None => Ok(DropIn::RemoteShell { host: session.host.clone() }),
        }
    }
}

/// Whether a session with an ID is known.
pub open spec fn knows_id(m: Map<Seq<char>, SessionInfo>, id: Seq<char>) -> bool {
    exists|k: Seq<char>| #[trigger] m.contains_key(k) && m[k].id@ == id
}

/// The command that attaches to a place of tmux on another host.
pub open spec fn attach_command(target: Seq<char>) -> Seq<char> {
    "tmux attach -t '"@ + inside_quotes(target) + "'"@
}

/// The name of a tmux session, out of a place in it.
pub open spec fn shown_name(target: Seq<char>) -> Seq<char> {
    split(target, ':')[0]
}

/// The name of a tmux session, out of a place in it.
fn display_name(target: &str) -> (r: String)
    ensures
        r@ == shown_name(target@),
{
    let chars = chars_of(target);
    let parts = split_chars(&chars, ':');
    proof {
        assert(texts(parts@)[0] == parts@[0]@);
    }
    string_of(&parts[0])
}

/// How a client gets to another host: by running the command, or the error in
/// words.
pub open spec fn remote_attach(
    conns: Map<Seq<char>, ConnView>,
    host: Seq<char>,
    command: Option<Seq<char>>,
    window_name: Seq<char>,
) -> Result<AttachView, Seq<char>> {
    match command_args(conns, host, true, command) {
        Ok((program, args)) => Ok(
            AttachView::Exec { program, args, tmux_window_name: Some(window_name) },
        ),
        Err(e) => Err(error_text(e, host)),
    }
}

/// The view of how a client gets in, or of an error in words.
pub open spec fn attach_result(r: Result<AttachSpec, String>) -> Result<AttachView, Seq<char>> {
    match r {
        Ok(a) => Ok(a@),
        Err(e) => Err(e@),
    }
}

/// How a client gets to a place of tmux on another host.
pub open spec fn remote_tmux_attach(
    conns: Map<Seq<char>, ConnView>,
    host: Seq<char>,
    target: Seq<char>,
) -> Result<AttachView, Seq<char>> {
    remote_attach(conns, host, Some(attach_command(target)), host + ":"@ + shown_name(target))
}

/// How a client gets into a session that was just made.
pub open spec fn new_session_attach(
    conns: Map<Seq<char>, ConnView>,
    host: Seq<char>,
    session: Seq<char>,
) -> Result<AttachView, Seq<char>> {
    if host == "local"@ {
        Ok(AttachView::LocalTmux { session, window: None, pane: None })
    } else {
        remote_tmux_attach(conns, host, session)
    }
}

impl DaemonCore {
    /// The key of a session with an ID, if one is known.
    pub fn find_session(&self, session_id: &str) -> (r: Option<&String>)
        ensures
            match r {
                Some(k) => self@.sessions.contains_key(k@) && self@.sessions[k@].id@ == session_id@,
                None => !knows_id(self@.sessions, session_id@),
            },
    {
        let n: usize = self.sessions.len();
        let ghost e = self.sessions.listed();
        for i in 0..n
            invariant
                n == e.len(),
                e == self.sessions.listed(),
                forall|j: int| 0 <= j < i ==> (#[trigger] e[j]).1.id@ != session_id@,
        {
            let (key, session) = self.sessions.at(i);
            if str_eq(session.id.as_str(), session_id) {
                return Some(key);
            }
        }
        proof {
            if knows_id(self@.sessions, session_id@) {
                let k = choose|k: Seq<char>| #[trigger]
                    self@.sessions.contains_key(k) && self@.sessions[k].id@ == session_id@;
                let j = choose|j: int| 0 <= j < e.len() && (#[trigger] e[j]).0@ == k;
                assert(self@.sessions[k] == e[j].1);
            }
        }
        None
    }

    /// What is done to get into the session with an ID: one of those that are
    /// known with that ID is taken.
    pub fn drop_in_attach_spec(&self, session_id: &str) -> (r: Result<DropIn, String>)
        ensures
            if knows_id(self@.sessions, session_id@) {
                exists|k: Seq<char>| #[trigger]
                    self@.sessions.contains_key(k) && self@.sessions[k].id@ == session_id@
                        && drop_in_result(r) == drop_in_for(self@.sessions[k])
            } else {
                drop_in_result(r) == Err::<DropInView, Seq<char>>(
                    "Session not found: "@ + session_id@,
                )
            },
    {
        if let Some(key) = self.find_session(session_id) {
            if let Some(session) = self.sessions.get(key.as_str()) {
                return plan_drop_in(session);
            }
        }
        Err(concat2("Session not found: ", session_id))
    }

    /// The host to which a connection is set up, or the error in words.
    pub fn host_to_connect(&self, host: &str) -> (r: Result<&HostConfig, String>)
        ensures
            match host_named(self@.configured, host@, 0) {
                Some(i) => r matches Ok(found) && *found == self@.configured[i as int],
                None => r matches Err(e) && e@ == unknown_host(host@),
            },
    {
        match find_host(&self.config, host) {
            Some(found) => Ok(found),
            None => Err(unknown_host_text(host)),
        }
    }

    /// How a client gets to another host, which is connected.
    fn attach_remote(&self, host: &str, command: Option<&str>, window_name: String) -> (r: Result<
        AttachSpec,
        String,
    >)
        ensures
            attach_result(r) == remote_attach(
                self@.conns,
                host@,
                slice_text(command),
                window_name@,
            ),
    {
        match self.ssh_manager.build_command_args(host, true, command) {
            Ok((program, args)) => Ok(
                AttachSpec::Exec { program, args, tmux_window_name: Some(window_name) },
            ),
            Err(e) => Err(e.message(host)),
        }
    }

    /// How a client gets to a place of tmux on another host, which is connected.
    pub fn attach_spec_for_remote_tmux(&self, host: &str, target: &str) -> (r: Result<
        AttachSpec,
        String,
    >)
        ensures
            attach_result(r) == remote_tmux_attach(self@.conns, host@, target@),
    {
        let command = concat3("tmux attach -t '", escape_quotes(target).as_str(), "'");
        let window_name = concat3(host, ":", display_name(target).as_str());
        self.attach_remote(host, Some(command.as_str()), window_name)
    }

    /// How a client gets to a shell on another host, which is connected.
    pub fn attach_spec_for_remote_shell(&self, host: &str) -> (r: Result<AttachSpec, String>)
        ensures
            attach_result(r) == remote_attach(self@.conns, host@, None, host@),
    {
        self.attach_remote(host, None, host.to_string())
    }

    /// How a client gets into a session that was just made; another host is
    /// connected.
    pub fn attach_spec_for_new_session(&self, host: &str, session: &str) -> (r: Result<
        AttachSpec,
        String,
    >)
        ensures
            attach_result(r) == new_session_attach(self@.conns, host@, session@),
    {
        if str_eq(host, "local") {
            return Ok(
                AttachSpec::LocalTmux { session: session.to_string(), window: None, pane: None },
            );
        }
        self.attach_spec_for_remote_tmux(host, session)
    }
}

/// A session here is dropped into at its place in tmux, and cannot be without one;
/// a session on another host is dropped into through a shell there, at its place
/// in tmux where it has one.
pub proof fn law_where_a_session_is_dropped_into(s: SessionInfo)
    ensures
        s.host@ == "local"@ && s.tmux_session is Some ==> drop_in_for(s) == Ok::<
            DropInView,
            Seq<char>,
        >(
            DropInView::Here(
                AttachView::LocalTmux {
                    session: s.tmux_session->0@,
                    window: opt_text(s.tmux_window),
                    pane: opt_text(s.tmux_pane),
                },
            ),
        ),
        drop_in_for(s) is Err <==> s.host@ == "local"@ && s.tmux_session is None,
        s.host@ != "local"@ && s.tmux_session is None ==> drop_in_for(s) == Ok::<
            DropInView,
            Seq<char>,
        >(DropInView::RemoteShell { host: s.host@ }),
        s.host@ != "local"@ && s.tmux_session is Some ==> (drop_in_for(s) matches Ok(
            DropInView::RemoteTmux { host, target },
        ) && host == s.host@ && target == tmux_place(
            s.tmux_session->0@,
            opt_text(s.tmux_window),
            opt_text(s.tmux_pane),
        )),
{
}

/// A place in tmux names the window and the pane where both are known, else the
/// session alone.
pub proof fn law_place_names_window_and_pane(
    session: Seq<char>,
    window: Seq<char>,
    pane: Seq<char>,
)
    ensures
        tmux_place(session, Some(window), Some(pane)) == session + ":"@ + window + "."@ + pane,
        tmux_place(session, None, Some(pane)) == session,
        tmux_place(session, Some(window), None) == session,
        tmux_place(session, None, None) == session,
{
}

/// The name that is shown of a place is that of its session: what stands before
/// the first colon.
pub proof fn law_shown_name_is_the_session(session: Seq<char>, rest: Seq<char>)
    requires
        forall|i: int| 0 <= i < session.len() ==> #[trigger] session[i] != ':',
    ensures
        shown_name(session) == session,
        shown_name(session + ":"@ + rest) == session,
{
    reveal_strlit(":");
    let sep = the_char(':');
    assert forall|i: int| 0 <= i < session.len() implies !sep(#[trigger] session[i]) by {}
    law_unsplit_text_is_one_piece(session, sep);
    law_first_piece(session, ':', rest, sep);
    assert(":"@ =~= seq![':']);
}

/// A new session here is attached to by its name; on another host, through a shell
/// in a window that is named after the host and the session.
pub proof fn law_new_session_is_attached_to(
    conns: Map<Seq<char>, ConnView>,
    host: Seq<char>,
    session: Seq<char>,
)
    ensures
        host == "local"@ ==> new_session_attach(conns, host, session) == Ok::<
            AttachView,
            Seq<char>,
        >(AttachView::LocalTmux { session, window: None, pane: None }),
        host != "local"@ ==> (match new_session_attach(conns, host, session) {
            Ok(AttachView::Exec { program, args, tmux_window_name }) => tmux_window_name == Some(
                host + ":"@ + shown_name(session),
            ) && command_args(
                conns,
                host,
                true,
                Some("tmux attach -t '"@ + inside_quotes(session) + "'"@),
            ) == Ok::<(Seq<char>, Seq<Seq<char>>), SshError>((program, args)),
            Ok(_) => false,
            Err(_) => true,
        }),
{
}

/// A place on another host is attached to by an interactive ssh in a window of the
/// given name; a host that takes no commands is told of in the error.
pub proof fn law_remote_attach_is_interactive(
    conns: Map<Seq<char>, ConnView>,
    host: Seq<char>,
    target: Seq<char>,
    command: Option<Seq<char>>,
    window_name: Seq<char>,
)
    ensures
        match command_args(conns, host, true, command) {
            Ok((program, args)) => remote_attach(conns, host, command, window_name) == Ok::<
                AttachView,
                Seq<char>,
            >(AttachView::Exec { program, args, tmux_window_name: Some(window_name) }),
            Err(e) => remote_attach(conns, host, command, window_name) == Err::<
                AttachView,
                Seq<char>,
            >(error_text(e, host)),
        },
        remote_tmux_attach(conns, host, target) == remote_attach(
            conns,
            host,
            Some("tmux attach -t '"@ + inside_quotes(target) + "'"@),
            host + ":"@ + shown_name(target),
        ),
{
}

/// An ID is known if and only if some session has it.
pub proof fn law_known_by_its_id(m: Map<Seq<char>, SessionInfo>, k: Seq<char>, id: Seq<char>)
    requires
        m.contains_key(k),
    ensures
        m[k].id@ == id ==> knows_id(m, id),
        !knows_id(m, id) ==> m[k].id@ != id,
        knows_id(Map::empty(), id) == false,
{
}

} // verus!
