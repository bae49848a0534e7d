//! The state of the terminal interface: what it shows, which session is
//! selected, and what keys and messages of the daemon do to it.

use vstd::prelude::*;
use vstd::string::*;

use crate::ipc::{
    clone_entries, AttachSpec, AttachView, ClientMessage, ClientView, DaemonMessage, DaemonView,
    RecentDirEntry,
};
use crate::keyed::KeySet;
use crate::path::{file_name, file_name_of};
use crate::text::{concat2, concat5, str_eq};
use crate::tui::session_list::{
    has_children, law_listed_once, law_parent_has_no_parent, law_parentless_is_listed, ordered,
    ordered_session_indices, parent_index, parent_session_index, session_has_children,
};
use crate::types::{make_key, session_key, wants_bell, HostStatus, SessionInfo, SessionState};

verus! {

// ---------------------------------------------------------------------------
// State
// ---------------------------------------------------------------------------

/// A line in the status bar and the time in milliseconds at which it goes.
pub struct StatusMsg {
    pub text: String,
    pub expires_ms: u64,
}

/// The list of recent directories in which to start a session.
pub struct RecentDirsModal {
    pub entries: Vec<RecentDirEntry>,
    pub selected_index: usize,
    pub is_complete: bool,
}

/// The list of recent directories as values.
#[verifier::ext_equal]
pub struct ModalView {
    pub entries: Seq<RecentDirEntry>,
    pub selected: usize,
    pub is_complete: bool,
}

impl View for RecentDirsModal {
    type V = ModalView;

    open spec fn view(&self) -> ModalView {
        ModalView {
            entries: self.entries@,
            selected: self.selected_index,
            is_complete: self.is_complete,
        }
    }
}

/// The state of the interface.
pub struct App {
    pub sessions: Vec<SessionInfo>,
    pub hosts: Vec<HostStatus>,
    pub expanded_session_keys: KeySet,
    pub selected_index: usize,
    pub should_quit: bool,
    pub daemon_connected: bool,
    pub status_msg: Option<StatusMsg>,
    pub attention_session_keys: KeySet,
    pub pending_attach: Option<AttachSpec>,
    pub recent_dirs_cache: Vec<RecentDirEntry>,
    pub recent_dirs_modal: Option<RecentDirsModal>,
}

/// The state of the interface as values.
#[verifier::ext_equal]
pub struct AppView {
    pub sessions: Seq<SessionInfo>,
    pub hosts: Seq<HostStatus>,
    pub expanded: Set<Seq<char>>,
    pub selected: usize,
    pub should_quit: bool,
    pub connected: bool,
    pub status: Option<(Seq<char>, u64)>,
    pub attention: Set<Seq<char>>,
    pub pending: Option<AttachView>,
    pub cache: Seq<RecentDirEntry>,
    pub modal: Option<ModalView>,
}

impl View for App {
    type V = AppView;

    open spec fn view(&self) -> AppView {
        AppView {
            sessions: self.sessions@,
            hosts: self.hosts@,
            expanded: self.expanded_session_keys@,
            selected: self.selected_index,
            should_quit: self.should_quit,
            connected: self.daemon_connected,
            status: match self.status_msg {
                Some(m) => Some((m.text@, m.expires_ms)),
                None => None,
            },
            attention: self.attention_session_keys@,
            pending: match self.pending_attach {
                Some(a) => Some(a@),
                None => None,
            },
            cache: self.recent_dirs_cache@,
            modal: match self.recent_dirs_modal {
                Some(m) => Some(m@),
                None => None,
            },
        }
    }
}

/// A time in milliseconds after another one, at most the greatest there is.
pub open spec fn later(now_ms: u64, millis: u64) -> u64 {
    if now_ms + millis > u64::MAX {
        u64::MAX
    } else {
        (now_ms + millis) as u64
    }
}

/// The first session from `from` on with a key.
pub open spec fn first_with_key(s: Seq<SessionInfo>, key: Seq<char>, from: nat) -> Option<usize>
    decreases s.len() - from,
{
    if from >= s.len() {
        None
    } else if s[from as int].spec_key() == key {
        Some(from as usize)
    } else {
        first_with_key(s, key, from + 1)
    }
}

/// Where an entry stands in a list for the first time, from `from` on.
pub open spec fn place_from(list: Seq<usize>, x: usize, from: nat) -> Option<nat>
    decreases list.len() - from,
{
    if from >= list.len() {
        None
    } else if list[from as int] == x {
        Some(from)
    } else {
        place_from(list, x, from + 1)
    }
}

/// Where an entry stands in a list; at the front where it does not.
pub open spec fn place(list: Seq<usize>, x: usize) -> nat {
    match place_from(list, x, 0) {
        Some(p) => p,
        None => 0,
    }
}

/// The keys of sessions that have children.
pub open spec fn expandable(s: Seq<SessionInfo>) -> Set<Seq<char>> {
    Set::new(
        |k: Seq<char>|
            exists|i: int|
                0 <= i < s.len() && has_children(s, i) && #[trigger] s[i].spec_key() == k,
    )
}

/// The keys of sessions whose state calls for a bell.
pub open spec fn calling(s: Seq<SessionInfo>) -> Set<Seq<char>> {
    Set::new(
        |k: Seq<char>|
            exists|i: int|
                0 <= i < s.len() && wants_bell(s[i].state) && #[trigger] s[i].spec_key() == k,
    )
}

impl AppView {
    /// The listed sessions from top to bottom.
    pub open spec fn listed(self) -> Seq<usize> {
        ordered(self.sessions, self.expanded)
    }

    /// The session at the selected position.
    pub open spec fn selected_session(self) -> Option<SessionInfo> {
        if self.selected < self.sessions.len() {
            Some(self.sessions[self.selected as int])
        } else {
            None
        }
    }

    /// Whether the selection stands on a listed session; on the first position
    /// where none is listed.
    pub open spec fn selection_shown(self) -> bool {
        if self.listed().len() == 0 {
            self.selected == 0
        } else {
            self.listed().contains(self.selected)
        }
    }

    /// With a line in the status bar.
    pub open spec fn with_status(self, text: Seq<char>, now_ms: u64, millis: u64) -> AppView {
        AppView { status: Some((text, later(now_ms, millis))), ..self }
    }

    /// Without the mark on the selected session.
    pub open spec fn attended(self) -> AppView {
        match self.selected_session() {
            Some(s) => AppView { attention: self.attention.remove(s.spec_key()), ..self },
            None => self,
        }
    }

    /// With the selection on a listed session: on the same one where it is
    /// listed, else on its parent, else on the first one.
    pub open spec fn settled(self) -> AppView {
        let list = self.listed();
        let selected = if list.len() == 0 {
            0
        } else if list.contains(self.selected) {
            self.selected
        } else {
            match parent_index(self.sessions, self.selected as int) {
                Some(p) => p,
                None => list[0],
            }
        };
        AppView { selected, ..self }
    }

    /// With the selection one session further down.
    pub open spec fn moved_down(self) -> AppView {
        let list = self.listed();
        if list.len() == 0 {
            self
        } else {
            let p = place(list, self.selected) as int;
            let next = if p + 1 < list.len() {
                p + 1
            } else {
                list.len() - 1
            };
            AppView { selected: list[next as int], ..self }.attended()
        }
    }

    /// With the selection one session further up.
    pub open spec fn moved_up(self) -> AppView {
        let list = self.listed();
        if list.len() == 0 {
            self
        } else {
            let p = place(list, self.selected) as int;
            let prev = if p > 0 {
                p - 1
            } else {
                0
            };
            AppView { selected: list[prev as int], ..self }.attended()
        }
    }

    /// With the selected session expanded where it has children.
    pub open spec fn expanded_selected(self) -> AppView {
        match self.selected_session() {
            Some(s) => {
                let grown = if has_children(self.sessions, self.selected as int) {
                    AppView { expanded: self.expanded.insert(s.spec_key()), ..self }
                } else {
                    self
                };
                grown.settled()
            },
            None => self,
        }
    }

    /// With the selected session collapsed where it is expanded, else with its
    /// parent collapsed and selected.
    pub open spec fn collapsed_selected(self) -> AppView {
        match self.selected_session() {
            Some(s) => if has_children(self.sessions, self.selected as int)
                && self.expanded.contains(s.spec_key()) {
                AppView { expanded: self.expanded.remove(s.spec_key()), ..self }.settled().attended()
            } else {
                match parent_index(self.sessions, self.selected as int) {
                    Some(p) => AppView {
                        expanded: self.expanded.remove(self.sessions[p as int].spec_key()),
                        selected: p,
                        ..self
                    }.settled().attended(),
                    None => self,
                }
            },
            None => self,
        }
    }

    /// With the selection on an existing session, and settled.
    pub open spec fn clamped(self) -> AppView {
        if self.sessions.len() == 0 {
            AppView { selected: 0, ..self }
        } else if self.selected < self.sessions.len() {
            self.settled()
        } else {
            AppView { selected: (self.sessions.len() - 1) as usize, ..self }.settled()
        }
    }

    /// With other sessions and hosts; the selection stays on the same session
    /// where it is still there.
    pub open spec fn replaced(self, sessions: Seq<SessionInfo>, hosts: Seq<HostStatus>) -> AppView {
        let fresh = AppView {
            sessions,
            hosts,
            attention: self.attention.intersect(calling(sessions)),
            expanded: self.expanded.intersect(expandable(sessions)),
            ..self
        };
        match self.selected_session() {
            Some(s) => match first_with_key(sessions, s.spec_key(), 0) {
                Some(i) => AppView { selected: i, ..fresh }.settled(),
                None => fresh.clamped(),
            },
            None => fresh.clamped(),
        }
    }

    /// With one session changed or added.
    pub open spec fn updated(self, session: SessionInfo) -> AppView {
        let key = session.spec_key();
        let attention = if wants_bell(session.state) {
            self.attention
        } else {
            self.attention.remove(key)
        };
        let sessions = match first_with_key(self.sessions, key, 0) {
            Some(i) => self.sessions.update(i as int, session),
            None => self.sessions.push(session),
        };
        AppView {
            sessions,
            attention,
            expanded: self.expanded.intersect(expandable(sessions)),
            ..self
        }.settled()
    }

    /// With a mark on a session that calls, unless it is the selected one.
    pub open spec fn rung(self, id: Seq<char>, host: Seq<char>) -> AppView {
        let key = session_key(host, id);
        let on_it = match self.selected_session() {
            Some(s) => s.spec_key() == key,
            None => false,
        };
        if on_it {
            self
        } else {
            AppView { attention: self.attention.insert(key), ..self }
        }
    }

    /// With other recent directories, shown where their list is open.
    pub open spec fn with_recent_dirs(
        self,
        entries: Seq<RecentDirEntry>,
        is_complete: bool,
    ) -> AppView {
        AppView {
            cache: entries,
            modal: match self.modal {
                Some(m) => Some(
                    ModalView {
                        entries,
                        is_complete,
                        selected: if entries.len() == 0 {
                            0
                        } else if m.selected < entries.len() {
                            m.selected
                        } else {
                            (entries.len() - 1) as usize
                        },
                    },
                ),
                None => None,
            },
            ..self
        }
    }

    /// With the next entry of the open list selected.
    pub open spec fn modal_down(self) -> AppView {
        match self.modal {
            Some(m) => if m.entries.len() == 0 {
                self
            } else {
                let selected = if m.selected + 1 < m.entries.len() {
                    (m.selected + 1) as usize
                } else {
                    (m.entries.len() - 1) as usize
                };
                AppView { modal: Some(ModalView { selected, ..m }), ..self }
            },
            None => self,
        }
    }

    /// With the entry before selected in the open list.
    pub open spec fn modal_up(self) -> AppView {
        match self.modal {
            Some(m) => if m.entries.len() == 0 || m.selected == 0 {
                self
            } else {
                AppView {
                    modal: Some(ModalView { selected: (m.selected - 1) as usize, ..m }),
                    ..self
                }
            },
            None => self,
        }
    }

    /// The selected entry of the open list.
    pub open spec fn selected_dir(self) -> Option<RecentDirEntry> {
        match self.modal {
            Some(m) => if m.selected < m.entries.len() {
                Some(m.entries[m.selected as int])
            } else {
                None
            },
            None => None,
        }
    }
}

/// A freshly started interface.
pub open spec fn fresh_app() -> AppView {
    AppView {
        sessions: Seq::empty(),
        hosts: Seq::empty(),
        expanded: Set::empty(),
        selected: 0,
        should_quit: false,
        connected: false,
        status: None,
        attention: Set::empty(),
        pending: None,
        cache: Seq::empty(),
        modal: None,
    }
}

// ---------------------------------------------------------------------------
// Operations
// ---------------------------------------------------------------------------

/// A time in milliseconds after another one.
pub fn later_time(now_ms: u64, millis: u64) -> (r: u64)
    ensures
        r == later(now_ms, millis),
{
    if millis > u64::MAX - now_ms {
        u64::MAX
    } else {
        now_ms + millis
    }
}

/// The first session with a key.
pub fn session_with_key(sessions: &Vec<SessionInfo>, key: &str) -> (r: Option<usize>)
    ensures
        r == first_with_key(sessions@, key@, 0),
{
    let mut i: usize = 0;
    while i < sessions.len()
        invariant
            i <= sessions@.len(),
            first_with_key(sessions@, key@, 0) == first_with_key(sessions@, key@, i as nat),
        decreases sessions@.len() - i,
    {
        if str_eq(sessions[i].key().as_str(), key) {
            return Some(i);
        }
        i = i + 1;
    }
    None
}

/// Where an entry stands in a list, if it does.
fn place_of(list: &Vec<usize>, x: usize) -> (r: Option<usize>)
    ensures
        match r {
            Some(p) => place_from(list@, x, 0) == Some(p as nat) && p < list@.len()
                && list@[p as int] == x,
            None => place_from(list@, x, 0) is None && !list@.contains(x),
        },
{
    let mut i: usize = 0;
    while i < list.len()
        invariant
            i <= list@.len(),
            place_from(list@, x, 0) == place_from(list@, x, i as nat),
            forall|k: int| 0 <= k < i ==> list@[k] != x,
        decreases list@.len() - i,
    {
        if list[i] == x {
            return Some(i);
        }
        i = i + 1;
    }
    None
}

/// The keys of sessions that have children.
fn expandable_keys(sessions: &Vec<SessionInfo>) -> (r: KeySet)
    ensures
        r@ == expandable(sessions@),
{
    let mut keys = KeySet::new();
    for i in 0..sessions.len()
        invariant
            forall|k: Seq<char>| #[trigger]
                keys@.contains(k) <==> exists|j: int|
                    0 <= j < i && has_children(sessions@, j) && #[trigger] sessions@[j].spec_key()
                        == k,
    {
        let ghost before = keys@;
        if session_has_children(sessions.as_slice(), i) {
            keys.insert(sessions[i].key());
        }
        assert forall|k: Seq<char>| #[trigger] keys@.contains(k) <==> exists|j: int|
            0 <= j < i + 1 && has_children(sessions@, j) && #[trigger] sessions@[j].spec_key()
                == k by {
            if before.contains(k) {
                let j = choose|j: int|
                    0 <= j < i && has_children(sessions@, j) && #[trigger] sessions@[j].spec_key()
                        == k;
                assert(sessions@[j].spec_key() == k);
            }
            if has_children(sessions@, i as int) && sessions@[i as int].spec_key() == k {
                assert(keys@.contains(k));
            }
        }
    }
    assert(keys@ =~= expandable(sessions@));
    keys
}

/// The keys of sessions whose state calls for a bell.
fn calling_keys(sessions: &Vec<SessionInfo>) -> (r: KeySet)
    ensures
        r@ == calling(sessions@),
{
    let mut keys = KeySet::new();
    for i in 0..sessions.len()
        invariant
            forall|k: Seq<char>| #[trigger]
                keys@.contains(k) <==> exists|j: int|
                    0 <= j < i && wants_bell(sessions@[j].state)
                        && #[trigger] sessions@[j].spec_key() == k,
    {
        let ghost before = keys@;
        if sessions[i].state.should_bell() {
            keys.insert(sessions[i].key());
        }
        assert forall|k: Seq<char>| #[trigger] keys@.contains(k) <==> exists|j: int|
            0 <= j < i + 1 && wants_bell(sessions@[j].state)
                && #[trigger] sessions@[j].spec_key() == k by {
            if before.contains(k) {
                let j = choose|j: int|
                    0 <= j < i && wants_bell(sessions@[j].state)
                        && #[trigger] sessions@[j].spec_key() == k;
                assert(sessions@[j].spec_key() == k);
            }
            if wants_bell(sessions@[i as int].state) && sessions@[i as int].spec_key() == k {
                assert(keys@.contains(k));
            }
        }
    }
    assert(keys@ =~= calling(sessions@));
    keys
}

/// The name of a session in a directory: the directory's own name.
pub open spec fn inferred_name(directory: Seq<char>) -> Seq<char> {
    match file_name(directory) {
        Some(name) => name,
        None => "opencode"@,
    }
}

/// The name of a session in a directory.
pub fn infer_name_from_directory(directory: &str) -> (r: String)
    ensures
        r@ == inferred_name(directory@),
{
    match file_name_of(directory) {
        Some(name) => name,
        None => "opencode".to_string(),
    }
}

impl App {
    /// A freshly started interface.
    pub fn new() -> (r: App)
        ensures
            r@ == fresh_app(),
    {
        let r = App {
            sessions: Vec::new(),
            hosts: Vec::new(),
            expanded_session_keys: KeySet::new(),
            selected_index: 0,
            should_quit: false,
            daemon_connected: false,
            status_msg: None,
            attention_session_keys: KeySet::new(),
            pending_attach: None,
            recent_dirs_cache: Vec::new(),
            recent_dirs_modal: None,
        };
        assert(r@ =~= fresh_app());
        r
    }

    /// Puts a line into the status bar for a while.
    pub fn set_status(&mut self, msg: String, millis: u64, now_ms: u64)
        ensures
            final(self)@ == old(self)@.with_status(msg@, now_ms, millis),
    {
        self.status_msg = Some(StatusMsg { text: msg, expires_ms: later_time(now_ms, millis) });
        assert(self@ =~= old(self)@.with_status(msg@, now_ms, millis));
    }

    /// The line in the status bar, while it lasts.
    pub fn current_status_msg(&self, now_ms: u64) -> (r: Option<&str>)
        ensures
            match self@.status {
                Some((text, expires)) => if now_ms < expires {
                    r matches Some(t) && t@ == text
                } else {
                    r is None
                },
                None => r is None,
            },
    {
        match &self.status_msg {
            Some(m) => if now_ms < m.expires_ms {
                Some(m.text.as_str())
            } else {
                None
            },
            None => None,
        }
    }

    /// Takes the line out of the status bar once its time is over.
    pub fn expire_status(&mut self, now_ms: u64)
        ensures
            final(self)@ == (AppView {
                status: match old(self)@.status {
                    Some((text, expires)) => if now_ms >= expires {
                        None
                    } else {
                        old(self)@.status
                    },
                    None => None,
                },
                ..old(self)@
            }),
    {
        let over = match &self.status_msg {
            Some(m) => now_ms >= m.expires_ms,
            None => false,
        };
        if over {
            self.status_msg = None;
        }
        assert(self@ =~= AppView { status: self@.status, ..old(self)@ });
    }

    /// The selected session.
    pub fn selected_session(&self) -> (r: Option<&SessionInfo>)
        ensures
            match r {
                Some(s) => self@.selected_session() == Some(*s),
                None => self@.selected_session() is None,
            },
    {
        if self.selected_index < self.sessions.len() {
            Some(&self.sessions[self.selected_index])
        } else {
            None
        }
    }

    /// Whether a session is marked.
    pub fn session_has_attention(&self, session: &SessionInfo) -> (r: bool)
        ensures
            r == self@.attention.contains(session.spec_key()),
    {
        self.attention_session_keys.contains(session.key().as_str())
    }

    /// Takes the mark off the selected session.
    fn clear_attention_for_selected(&mut self)
        ensures
            final(self)@ == old(self)@.attended(),
    {
        if self.selected_index < self.sessions.len() {
            let key = self.sessions[self.selected_index].key();
            self.attention_session_keys.remove(key.as_str());
        }
        assert(self@ =~= old(self)@.attended());
    }

    /// Selects the next listed session.
    pub fn move_down(&mut self)
        ensures
            final(self)@ == old(self)@.moved_down(),
    {
        let list = ordered_session_indices(
            self.sessions.as_slice(),
            &self.expanded_session_keys,
        );
        if list.len() == 0 {
            return;
        }
        let p: usize = match place_of(&list, self.selected_index) {
            Some(p) => p,
            None => 0,
        };
        let next: usize = if p < list.len() - 1 {
            p + 1
        } else {
            list.len() - 1
        };
        self.selected_index = list[next];
        assert(self@ =~= AppView { selected: list@[next as int], ..old(self)@ });
        self.clear_attention_for_selected();
    }

    /// Selects the listed session before.
    pub fn move_up(&mut self)
        ensures
            final(self)@ == old(self)@.moved_up(),
    {
        let list = ordered_session_indices(
            self.sessions.as_slice(),
            &self.expanded_session_keys,
        );
        if list.len() == 0 {
            return;
        }
        let p: usize = match place_of(&list, self.selected_index) {
            Some(p) => p,
            None => 0,
        };
        let prev: usize = if p > 0 {
            p - 1
        } else {
            0
        };
        self.selected_index = list[prev];
        assert(self@ =~= AppView { selected: list@[prev as int], ..old(self)@ });
        self.clear_attention_for_selected();
    }

    /// Moves the selection to a listed session.
    pub fn ensure_selected_visible(&mut self)
        ensures
            final(self)@ == old(self)@.settled(),
            final(self)@.selection_shown(),
    {
        let list = ordered_session_indices(
            self.sessions.as_slice(),
            &self.expanded_session_keys,
        );
        let total: usize = self.sessions.len();
        proof {
            assert(total == self@.sessions.len());
            lemma_settled_is_shown(self@);
        }
        if list.len() == 0 {
            self.selected_index = 0;
        } else {
            match place_of(&list, self.selected_index) {
                Some(p) => {
                    assert(list@.contains(list@[p as int]));
                },
                None => {
                    match parent_session_index(self.sessions.as_slice(), self.selected_index) {
                        Some(p) => {
                            self.selected_index = p;
                        },
                        None => {
                            self.selected_index = list[0];
                        },
                    }
                },
            }
        }
        assert(self@ =~= old(self)@.settled());
    }

    /// Expands the selected session where it has children.
    pub fn expand_selected(&mut self)
        ensures
            final(self)@ == old(self)@.expanded_selected(),
    {
        if self.selected_index >= self.sessions.len() {
            return;
        }
        if session_has_children(self.sessions.as_slice(), self.selected_index) {
            let key = self.sessions[self.selected_index].key();
            self.expanded_session_keys.insert(key);
            assert(self@ =~= AppView {
                expanded: old(self)@.expanded.insert(
                    old(self)@.sessions[old(self)@.selected as int].spec_key(),
                ),
                ..old(self)@
            });
        }
        self.ensure_selected_visible();
    }

    /// Collapses the selected session, or its parent, which it then selects.
    pub fn collapse_selected(&mut self)
        ensures
            final(self)@ == old(self)@.collapsed_selected(),
    {
        if self.selected_index >= self.sessions.len() {
            return;
        }
        let key = self.sessions[self.selected_index].key();
        if session_has_children(self.sessions.as_slice(), self.selected_index)
            && self.expanded_session_keys.contains(key.as_str()) {
            self.expanded_session_keys.remove(key.as_str());
            assert(self@ =~= AppView { expanded: old(self)@.expanded.remove(key@), ..old(self)@ });
            self.ensure_selected_visible();
            self.clear_attention_for_selected();
            return;
        }
        match parent_session_index(self.sessions.as_slice(), self.selected_index) {
            Some(p) => {
                proof {
                    law_parent_has_no_parent(self.sessions@, self.selected_index as int, p);
                }
                let parent_key = self.sessions[p].key();
                self.expanded_session_keys.remove(parent_key.as_str());
                self.selected_index = p;
                assert(self@ =~= AppView {
                    expanded: old(self)@.expanded.remove(parent_key@),
                    selected: p,
                    ..old(self)@
                });
                self.ensure_selected_visible();
                self.clear_attention_for_selected();
            },
            None => {},
        }
    }

    /// Opens the list of recent directories with what is known of them, and
    /// gives the request for more.
    pub fn open_recent_dirs_modal(&mut self) -> (r: ClientMessage)
        ensures
            final(self)@ == (AppView {
                modal: Some(
                    ModalView { entries: old(self)@.cache, selected: 0, is_complete: false },
                ),
                ..old(self)@
            }),
            r@ == (ClientView::GetRecentDirs { limit: 10 }),
    {
        let n: usize = self.recent_dirs_cache.len();
        let entries = clone_entries(&self.recent_dirs_cache, n);
        assert(entries@ =~= self.recent_dirs_cache@);
        self.recent_dirs_modal = Some(
            RecentDirsModal { entries, selected_index: 0, is_complete: false },
        );
        assert(self@ =~= AppView {
            modal: Some(ModalView { entries: old(self)@.cache, selected: 0, is_complete: false }),
            ..old(self)@
        });
        ClientMessage::GetRecentDirs { limit: 10 }
    }

    /// Closes the list of recent directories.
    pub fn close_recent_dirs_modal(&mut self)
        ensures
            final(self)@ == (AppView { modal: None, ..old(self)@ }),
    {
        self.recent_dirs_modal = None;
        assert(self@ =~= AppView { modal: None, ..old(self)@ });
    }

    /// Takes over recent directories.
    pub fn update_recent_dirs(&mut self, entries: Vec<RecentDirEntry>, is_complete: bool)
        ensures
            final(self)@ == old(self)@.with_recent_dirs(entries@, is_complete),
    {
        let n: usize = entries.len();
        let copy = clone_entries(&entries, n);
        assert(copy@ =~= entries@);
        match &self.recent_dirs_modal {
            Some(modal) => {
                let selected_index: usize = if n == 0 {
                    0
                } else if modal.selected_index < n {
                    modal.selected_index
                } else {
                    n - 1
                };
                self.recent_dirs_modal = Some(
                    RecentDirsModal { entries: copy, selected_index, is_complete },
                );
            },
            None => {},
        }
        self.recent_dirs_cache = entries;
        assert(self@ =~= old(self)@.with_recent_dirs(entries@, is_complete));
    }

    /// Selects the next entry of the open list.
    pub fn move_recent_dirs_down(&mut self)
        ensures
            final(self)@ == old(self)@.modal_down(),
    {
        match self.recent_dirs_modal.take() {
            Some(modal) => {
                let mut m = modal;
                if m.entries.len() > 0 {
                    m.selected_index = if m.selected_index < m.entries.len() - 1 {
                        m.selected_index + 1
                    } else {
                        m.entries.len() - 1
                    };
                }
                self.recent_dirs_modal = Some(m);
            },
            None => {},
        }
        assert(self@ =~= old(self)@.modal_down());
    }

    /// Selects the entry before in the open list.
    pub fn move_recent_dirs_up(&mut self)
        ensures
            final(self)@ == old(self)@.modal_up(),
    {
        match self.recent_dirs_modal.take() {
            Some(modal) => {
                let mut m = modal;
                if m.entries.len() > 0 && m.selected_index > 0 {
                    m.selected_index = m.selected_index - 1;
                }
                self.recent_dirs_modal = Some(m);
            },
            None => {},
        }
        assert(self@ =~= old(self)@.modal_up());
    }

    /// The selected entry of the open list.
    pub fn selected_recent_dir(&self) -> (r: Option<&RecentDirEntry>)
        ensures
            match r {
                Some(e) => self@.selected_dir() == Some(*e),
                None => self@.selected_dir() is None,
            },
    {
        match &self.recent_dirs_modal {
            Some(m) => if m.selected_index < m.entries.len() {
                Some(&m.entries[m.selected_index])
            } else {
                None
            },
            None => None,
        }
    }
}

impl Default for App {
    fn default() -> (r: App)
        ensures
            r@ == fresh_app(),
    {
        App::new()
    }
}

/// The selection stands on a listed session once it is settled.
pub proof fn lemma_settled_is_shown(v: AppView)
    requires
        v.sessions.len() <= usize::MAX,
    ensures
        v.settled().selection_shown(),
        v.selection_shown() ==> v.settled() == v,
{
    let list = v.listed();
    assert(v.settled().listed() == list);
    if list.len() > 0 {
        assert(list.contains(list[0]));
        if !list.contains(v.selected) {
            match parent_index(v.sessions, v.selected as int) {
                Some(p) => {
                    law_parent_has_no_parent(v.sessions, v.selected as int, p);
                    law_parentless_is_listed(v.sessions, v.expanded, p);
                },
                None => {},
            }
        }
    }
    if v.selection_shown() {
        assert(v.settled() =~= v);
    }
}

// ---------------------------------------------------------------------------
// Messages of the daemon
// ---------------------------------------------------------------------------

/// The line for a session that calls.
pub open spec fn attention_text(id: Seq<char>, reason: Seq<char>) -> Seq<char> {
    "⚠ "@ + id + " needs attention ("@ + reason + ")"@
}

/// What a message of the daemon does to the interface.
pub open spec fn message_step(v: AppView, msg: DaemonView, now_ms: u64) -> AppView {
    match msg {
        DaemonView::StateSnapshot { sessions, hosts } => v.replaced(sessions, hosts),
        DaemonView::SessionUpdated { session } => v.updated(session),
        DaemonView::Bell { session_id, host, reason } => v.rung(session_id, host).with_status(
            attention_text(session_id, reason),
            now_ms,
            10000,
        ),
        DaemonView::Error { message } => v.with_status("Error: "@ + message, now_ms, 5000),
        DaemonView::DaemonStatus { sessions, hosts, .. } => v.replaced(sessions, hosts),
        DaemonView::RecentDirs { entries, is_complete } => {
            let w = v.with_recent_dirs(entries, is_complete);
            if is_complete {
                w.with_status("Recent directories loaded"@, now_ms, 2000)
            } else {
                w
            }
        },
        DaemonView::AttachReady { attach } => AppView {
            pending: Some(attach),
            should_quit: true,
            ..v
        },
    }
}

/// Keeps the expanded keys of sessions that have children.
fn retain_expandable_session_keys(app: &mut App)
    ensures
        final(app)@ == (AppView {
            expanded: old(app)@.expanded.intersect(expandable(old(app)@.sessions)),
            ..old(app)@
        }),
{
    let keep = expandable_keys(&app.sessions);
    app.expanded_session_keys.retain_in(&keep);
    assert(app@ =~= AppView {
        expanded: old(app)@.expanded.intersect(expandable(old(app)@.sessions)),
        ..old(app)@
    });
}

/// Moves the selection to an existing, listed session.
fn clamp_index(app: &mut App)
    ensures
        final(app)@ == old(app)@.clamped(),
{
    let n: usize = app.sessions.len();
    if n == 0 {
        app.selected_index = 0;
        assert(app@ =~= old(app)@.clamped());
    } else {
        if app.selected_index >= n {
            app.selected_index = n - 1;
            assert(app@ =~= AppView { selected: (n - 1) as usize, ..old(app)@ });
        }
        app.ensure_selected_visible();
    }
}

/// Takes over sessions and hosts.
pub fn replace_sessions(app: &mut App, sessions: Vec<SessionInfo>, hosts: Vec<HostStatus>)
    ensures
        final(app)@ == old(app)@.replaced(sessions@, hosts@),
{
    let selected_key: Option<String> = match app.selected_session() {
        Some(s) => Some(s.key()),
        None => None,
    };
    let live = calling_keys(&sessions);
    app.attention_session_keys.retain_in(&live);
    app.sessions = sessions;
    app.hosts = hosts;
    assert(app@ =~= AppView {
        sessions: sessions@,
        hosts: hosts@,
        attention: old(app)@.attention.intersect(calling(sessions@)),
        ..old(app)@
    });
    retain_expandable_session_keys(app);
    let ghost fresh = app@;
    assert(fresh =~= AppView {
        sessions: sessions@,
        hosts: hosts@,
        attention: old(app)@.attention.intersect(calling(sessions@)),
        expanded: old(app)@.expanded.intersect(expandable(sessions@)),
        ..old(app)@
    });
    match selected_key {
        Some(key) => {
            match session_with_key(&app.sessions, key.as_str()) {
                Some(i) => {
                    app.selected_index = i;
                    assert(app@ =~= AppView { selected: i, ..fresh });
                    app.ensure_selected_visible();
                },
                None => clamp_index(app),
            }
        },
        None => clamp_index(app),
    }
}

/// What is found by a key is at that position.
pub proof fn lemma_first_with_key(s: Seq<SessionInfo>, key: Seq<char>, from: nat)
    requires
        s.len() <= usize::MAX,
    ensures
        match first_with_key(s, key, from) {
            Some(i) => from <= i < s.len() && s[i as int].spec_key() == key,
            None => forall|j: int| from <= j < s.len() ==> (#[trigger] s[j]).spec_key() != key,
        },
    decreases s.len() - from,
{
    if from < s.len() && s[from as int].spec_key() != key {
        lemma_first_with_key(s, key, from + 1);
    }
}

/// Takes over one session.
fn update_session(app: &mut App, session: SessionInfo)
    ensures
        final(app)@ == old(app)@.updated(session),
{
    let key = session.key();
    if !session.state.should_bell() {
        app.attention_session_keys.remove(key.as_str());
    }
    let total: usize = app.sessions.len();
    let ghost before = app.sessions@;
    proof {
        lemma_first_with_key(before, key@, 0);
    }
    match session_with_key(&app.sessions, key.as_str()) {
        Some(i) => {
            app.sessions.set(i, session);
        },
        None => {
            app.sessions.push(session);
        },
    }
    let ghost attention = if wants_bell(session.state) {
        old(app)@.attention
    } else {
        old(app)@.attention.remove(key@)
    };
    assert(app@ =~= AppView { sessions: app@.sessions, attention, ..old(app)@ });
    retain_expandable_session_keys(app);
    assert(app@ =~= AppView {
        sessions: app@.sessions,
        attention,
        expanded: old(app)@.expanded.intersect(expandable(app@.sessions)),
        ..old(app)@
    });
    app.ensure_selected_visible();
}

/// Does to the interface what a message of the daemon asks for.
pub fn handle_daemon_message(app: &mut App, msg: DaemonMessage, now_ms: u64)
    ensures
        final(app)@ == message_step(old(app)@, msg@, now_ms),
{
    match msg {
        DaemonMessage::StateSnapshot { sessions, hosts } => replace_sessions(app, sessions, hosts),
        DaemonMessage::SessionUpdated { session } => update_session(app, session),
        DaemonMessage::Bell { session_id, host, reason } => {
            let key = make_key(host.as_str(), session_id.as_str());
            let on_it = match app.selected_session() {
                Some(s) => str_eq(s.key().as_str(), key.as_str()),
                None => false,
            };
            if !on_it {
                app.attention_session_keys.insert(key);
            }
            assert(app@ =~= old(app)@.rung(session_id@, host@));
            let text = concat5(
                "⚠ ",
                session_id.as_str(),
                " needs attention (",
                reason.as_str(),
                ")",
            );
            app.set_status(text, 10000, now_ms);
        },
        DaemonMessage::Error { message } => {
            let text = concat2("Error: ", message.as_str());
            app.set_status(text, 5000, now_ms);
        },
        DaemonMessage::DaemonStatus { running: _, pid: _, uptime_secs: _, socket: _, hosts, sessions } =>
        replace_sessions(app, sessions, hosts),
        DaemonMessage::RecentDirs { entries, is_complete } => {
            app.update_recent_dirs(entries, is_complete);
            if is_complete {
                app.set_status("Recent directories loaded".to_string(), 2000, now_ms);
            }
        },
        DaemonMessage::AttachReady { attach } => {
            app.pending_attach = Some(attach);
            app.should_quit = true;
            assert(app@ =~= AppView { pending: Some(attach@), should_quit: true, ..old(app)@ });
        },
    }
}

/// What the end of the daemon's messages does to the interface.
pub fn handle_daemon_disconnect(app: &mut App, now_ms: u64)
    ensures
        final(app)@ == (AppView { connected: false, ..old(app)@ }).with_status(
            "Daemon disconnected"@,
            now_ms,
            300000,
        ),
{
    app.daemon_connected = false;
    assert(app@ =~= AppView { connected: false, ..old(app)@ });
    app.set_status("Daemon disconnected".to_string(), 300000, now_ms);
}

// ---------------------------------------------------------------------------
// Keys
// ---------------------------------------------------------------------------

/// A key.
#[derive(Clone, Copy, Debug, PartialEq, Eq, Structural)]
pub enum Key {
    Char(char),
    Up,
    Down,
    Left,
    Right,
    Enter,
    Esc,
    Other,
}

/// The keys and what they do, in one line.
pub open spec fn help_text() -> Seq<char> {
    "j/k: navigate  ←/→: collapse/expand  n: new  a: approve  enter: drop-in  r: refresh  q: quit"@
}

/// What a key does while the list of recent directories is open.
pub open spec fn modal_key_step(v: AppView, key: Key, ctrl: bool, now_ms: u64) -> (
    AppView,
    Option<ClientView>,
) {
    if key == Key::Esc {
        (AppView { modal: None, ..v }, None)
    } else if key == Key::Char('c') && ctrl {
        (AppView { should_quit: true, ..v }, None)
    } else if key == Key::Char('j') || key == Key::Down {
        (v.modal_down(), None)
    } else if key == Key::Char('k') || key == Key::Up {
        (v.modal_up(), None)
    } else if key == Key::Enter {
        match v.selected_dir() {
            Some(entry) => (
                AppView { modal: None, ..v }.with_status(
                    "Creating session in "@ + entry.directory@,
                    now_ms,
                    4000,
                ),
                Some(
                    ClientView::CreateSession {
                        host: entry.host@,
                        directory: entry.directory@,
                        name_hint: Some(inferred_name(entry.directory@)),
                    },
                ),
            ),
            None => (v, None),
        }
    } else {
        (v, None)
    }
}

/// What a key does: the state after it, and what is asked of the daemon.
pub open spec fn key_step(v: AppView, key: Key, ctrl: bool, now_ms: u64) -> (
    AppView,
    Option<ClientView>,
) {
    if v.modal is Some {
        modal_key_step(v, key, ctrl, now_ms)
    } else if key == Key::Char('q') || (key == Key::Char('c') && ctrl) {
        (AppView { should_quit: true, ..v }, None)
    } else if key == Key::Char('j') || key == Key::Down {
        (v.moved_down(), None)
    } else if key == Key::Char('k') || key == Key::Up {
        (v.moved_up(), None)
    } else if key == Key::Char('l') || key == Key::Right {
        (v.expanded_selected(), None)
    } else if key == Key::Char('h') || key == Key::Left {
        (v.collapsed_selected(), None)
    } else if key == Key::Char('r') {
        (v.with_status("Refreshing..."@, now_ms, 2000), Some(ClientView::RefreshAll))
    } else if key == Key::Char('a') {
        match v.selected_session() {
            Some(s) => if s.state == SessionState::WaitingForPermission {
                (
                    v.with_status("Approving..."@, now_ms, 3000),
                    Some(ClientView::Approve { session_id: s.id@ }),
                )
            } else {
                (
                    v.with_status(
                        "Nothing to approve (session not waiting for permission)"@,
                        now_ms,
                        3000,
                    ),
                    None,
                )
            },
            None => (v.with_status("No session selected"@, now_ms, 2000), None),
        }
    } else if key == Key::Enter {
        match v.selected_session() {
            Some(s) => (
                v.with_status("Preparing drop-in..."@, now_ms, 3000),
                Some(ClientView::DropIn { session_id: s.id@ }),
            ),
            None => (v, None),
        }
    } else if key == Key::Char('n') {
        (
            AppView {
                modal: Some(ModalView { entries: v.cache, selected: 0, is_complete: false }),
                ..v
            }.with_status("Loading recent directories..."@, now_ms, 3000),
            Some(ClientView::GetRecentDirs { limit: 10 }),
        )
    } else if key == Key::Char('?') {
        (v.with_status(help_text(), now_ms, 5000), None)
    } else {
        (v, None)
    }
}

/// The view of a request, where there is one.
pub open spec fn request_view(r: Option<ClientMessage>) -> Option<ClientView> {
    match r {
        Some(m) => Some(m@),
        None => None,
    }
}

/// Does what a key asks for while the list of recent directories is open.
pub fn handle_recent_dirs_key(app: &mut App, key: Key, ctrl: bool, now_ms: u64) -> (r: Option<
    ClientMessage,
>)
    ensures
        (final(app)@, request_view(r)) == modal_key_step(old(app)@, key, ctrl, now_ms),
{
    match key {
        Key::Esc => {
            app.close_recent_dirs_modal();
            None
        },
        Key::Char('c') if ctrl => {
            app.should_quit = true;
            assert(app@ =~= AppView { should_quit: true, ..old(app)@ });
            None
        },
        Key::Char('j') | Key::Down => {
            app.move_recent_dirs_down();
            None
        },
        Key::Char('k') | Key::Up => {
            app.move_recent_dirs_up();
            None
        },
        Key::Enter => {
            let entry = match app.selected_recent_dir() {
                Some(entry) => entry.clone(),
                None => {
                    return None;
                },
            };
            app.close_recent_dirs_modal();
            let text = concat2("Creating session in ", entry.directory.as_str());
            app.set_status(text, 4000, now_ms);
            let name = infer_name_from_directory(entry.directory.as_str());
            Some(
                ClientMessage::CreateSession {
                    host: entry.host,
                    directory: entry.directory,
                    name_hint: Some(name),
                },
            )
        },
        _ => None,
    }
}

/// Does what a key asks for; gives what is to be asked of the daemon.
pub fn handle_key(app: &mut App, key: Key, ctrl: bool, now_ms: u64) -> (r: Option<ClientMessage>)
    ensures
        (final(app)@, request_view(r)) == key_step(old(app)@, key, ctrl, now_ms),
{
    if app.recent_dirs_modal.is_some() {
        return handle_recent_dirs_key(app, key, ctrl, now_ms);
    }
    match key {
        Key::Char('q') => {
            app.should_quit = true;
            assert(app@ =~= AppView { should_quit: true, ..old(app)@ });
            None
        },
        Key::Char('c') if ctrl => {
            app.should_quit = true;
            assert(app@ =~= AppView { should_quit: true, ..old(app)@ });
            None
        },
        Key::Char('j') | Key::Down => {
            app.move_down();
            None
        },
        Key::Char('k') | Key::Up => {
            app.move_up();
            None
        },
        Key::Char('l') | Key::Right => {
            app.expand_selected();
            None
        },
        Key::Char('h') | Key::Left => {
            app.collapse_selected();
            None
        },
        Key::Char('r') => {
            app.set_status("Refreshing...".to_string(), 2000, now_ms);
            Some(ClientMessage::RefreshAll)
        },
        Key::Char('a') => {
            let waiting: Option<(String, bool)> = match app.selected_session() {
                Some(s) => Some((s.id.clone(), s.state == SessionState::WaitingForPermission)),
                None => None,
            };
            match waiting {
                Some((id, true)) => {
                    app.set_status("Approving...".to_string(), 3000, now_ms);
                    Some(ClientMessage::Approve { session_id: id })
                },
                Some((_, false)) => {
                    app.set_status(
                        "Nothing to approve (session not waiting for permission)".to_string(),
                        3000,
                        now_ms,
                    );
                    None
                },
                None => {
                    app.set_status("No session selected".to_string(), 2000, now_ms);
                    None
                },
            }
        },
        Key::Enter => {
            let id: Option<String> = match app.selected_session() {
                Some(s) => Some(s.id.clone()),
                None => None,
            };
            match id {
                Some(id) => {
                    app.set_status("Preparing drop-in...".to_string(), 3000, now_ms);
                    Some(ClientMessage::DropIn { session_id: id })
                },
                None => None,
            }
        },
        Key::Char('n') => {
            let request = app.open_recent_dirs_modal();
            app.set_status("Loading recent directories...".to_string(), 3000, now_ms);
            Some(request)
        },
        Key::Char('?') => {
            app.set_status(
                "j/k: navigate  ←/→: collapse/expand  n: new  a: approve  enter: drop-in  r: refresh  q: quit".to_string(),
                5000,
                now_ms,
            );
            None
        },
        _ => None,
    }
}

// ---------------------------------------------------------------------------
// Laws
// ---------------------------------------------------------------------------

/// A freshly started interface has its selection where it belongs.
pub proof fn law_fresh_selection_shown()
    ensures
        fresh_app().selection_shown(),
{
    let v = fresh_app();
    law_listed_once(v.sessions, v.expanded);
    if v.listed().len() > 0 {
        assert(v.listed()[0] < v.sessions.len());
    }
}

/// Whatever key is pressed, the selection stays on a listed session.
pub proof fn law_keys_keep_selection_shown(v: AppView, key: Key, ctrl: bool, now_ms: u64)
    requires
        v.sessions.len() <= usize::MAX,
        v.selection_shown(),
    ensures
        key_step(v, key, ctrl, now_ms).0.selection_shown(),
{
    let w = key_step(v, key, ctrl, now_ms).0;
    let list = v.listed();
    if v.modal is None && (key == Key::Char('j') || key == Key::Down || key == Key::Char('k')
        || key == Key::Up) {
        if list.len() > 0 {
            lemma_place(list, v.selected, 0);
            assert(list.contains(w.selected));
        }
    } else if v.modal is None && (key == Key::Char('l') || key == Key::Right) {
        if has_children(v.sessions, v.selected as int) {
            let grown = AppView {
                expanded: v.expanded.insert(v.sessions[v.selected as int].spec_key()),
                ..v
            };
            lemma_settled_is_shown(grown);
        } else {
            lemma_settled_is_shown(v);
        }
    } else if v.modal is None && (key == Key::Char('h') || key == Key::Left) {
        match v.selected_session() {
            Some(s) => {
                let own = AppView { expanded: v.expanded.remove(s.spec_key()), ..v };
                lemma_settled_is_shown(own);
                match parent_index(v.sessions, v.selected as int) {
                    Some(p) => {
                        let above = AppView {
                            expanded: v.expanded.remove(v.sessions[p as int].spec_key()),
                            selected: p,
                            ..v
                        };
                        lemma_settled_is_shown(above);
                    },
                    None => {},
                }
            },
            None => {},
        }
    }
}

proof fn lemma_place(list: Seq<usize>, x: usize, from: nat)
    ensures
        match place_from(list, x, from) {
            Some(p) => from <= p < list.len() && list[p as int] == x,
            None => forall|k: int| from <= k < list.len() ==> list[k] != x,
        },
    decreases list.len() - from,
{
    if from < list.len() && list[from as int] != x {
        lemma_place(list, x, from + 1);
    }
}

/// Whatever the daemon tells, the selection stays on a listed session.
pub proof fn law_messages_keep_selection_shown(v: AppView, msg: DaemonView, now_ms: u64)
    requires
        v.sessions.len() < usize::MAX,
        v.selection_shown(),
        match msg {
            DaemonView::StateSnapshot { sessions, .. } => sessions.len() <= usize::MAX,
            DaemonView::DaemonStatus { sessions, .. } => sessions.len() <= usize::MAX,
            _ => true,
        },
    ensures
        message_step(v, msg, now_ms).selection_shown(),
{
    match msg {
        DaemonView::StateSnapshot { sessions, hosts } => lemma_replaced_is_shown(
            v,
            sessions,
            hosts,
        ),
        DaemonView::DaemonStatus { sessions, hosts, .. } => lemma_replaced_is_shown(
            v,
            sessions,
            hosts,
        ),
        DaemonView::SessionUpdated { session } => {
            let key = session.spec_key();
            let sessions = v.updated(session).sessions;
            lemma_first_with_key(v.sessions, key, 0);
            let fresh = AppView {
                sessions,
                attention: if wants_bell(session.state) {
                    v.attention
                } else {
                    v.attention.remove(key)
                },
                expanded: v.expanded.intersect(expandable(sessions)),
                ..v
            };
            lemma_settled_is_shown(fresh);
        },
        _ => {},
    }
}

proof fn lemma_replaced_is_shown(v: AppView, sessions: Seq<SessionInfo>, hosts: Seq<HostStatus>)
    requires
        sessions.len() <= usize::MAX,
    ensures
        v.replaced(sessions, hosts).selection_shown(),
{
    let fresh = AppView {
        sessions,
        hosts,
        attention: v.attention.intersect(calling(sessions)),
        expanded: v.expanded.intersect(expandable(sessions)),
        ..v
    };
    lemma_settled_is_shown(fresh);
    lemma_settled_is_shown(AppView { selected: (sessions.len() - 1) as usize, ..fresh });
    if sessions.len() == 0 {
        let w = fresh.clamped();
        law_listed_once(w.sessions, w.expanded);
        if w.listed().len() > 0 {
            assert(w.listed()[0] < w.sessions.len());
        }
    }
    match v.selected_session() {
        Some(s) => match first_with_key(sessions, s.spec_key(), 0) {
            Some(i) => lemma_settled_is_shown(AppView { selected: i, ..fresh }),
            None => {},
        },
        None => {},
    }
}

/// A snapshot keeps the selection on the same session while that session is
/// there and listed.
pub proof fn law_snapshot_keeps_selection(
    v: AppView,
    sessions: Seq<SessionInfo>,
    hosts: Seq<HostStatus>,
    i: usize,
)
    requires
        sessions.len() <= usize::MAX,
        v.selected_session() is Some,
        first_with_key(sessions, v.selected_session()->0.spec_key(), 0) == Some(i),
        v.replaced(sessions, hosts).listed().contains(i),
    ensures
        v.replaced(sessions, hosts).selected_session() matches Some(s) && s.spec_key()
            == v.selected_session()->0.spec_key(),
{
    let key = v.selected_session()->0.spec_key();
    lemma_first_with_key(sessions, key, 0);
}

/// After a snapshot only sessions that call are marked, and only sessions that
/// have children are expanded.
pub proof fn law_snapshot_drops_stale_marks(
    v: AppView,
    sessions: Seq<SessionInfo>,
    hosts: Seq<HostStatus>,
)
    ensures
        v.replaced(sessions, hosts).sessions == sessions,
        v.replaced(sessions, hosts).attention.subset_of(calling(sessions)),
        v.replaced(sessions, hosts).attention.subset_of(v.attention),
        v.replaced(sessions, hosts).expanded.subset_of(expandable(sessions)),
        v.replaced(sessions, hosts).expanded.subset_of(v.expanded),
{
}

/// Up undoes down, and down undoes up, where there is a session to go to.
pub proof fn law_up_undoes_down(v: AppView, p: int)
    requires
        v.sessions.len() <= usize::MAX,
        0 <= p,
        p + 1 < v.listed().len(),
    ensures
        ({
            let upper = AppView { selected: v.listed()[p], ..v };
            let lower = AppView { selected: v.listed()[p + 1], ..v };
            &&& upper.moved_down().selected == lower.selected
            &&& lower.moved_up().selected == upper.selected
        }),
{
    let list = v.listed();
    law_listed_once(v.sessions, v.expanded);
    let upper = AppView { selected: list[p], ..v };
    let lower = AppView { selected: list[p + 1], ..v };
    assert(upper.listed() == list);
    assert(lower.listed() == list);
    lemma_place(list, list[p], 0);
    lemma_place(list, list[p + 1], 0);
}

/// Down selects the next listed session and up the one before; at the ends the
/// selection stays. The session that is then selected no longer calls, all others
/// do as before.
pub proof fn law_moves_by_one(v: AppView, p: int, other: Seq<char>)
    requires
        v.sessions.len() <= usize::MAX,
        0 <= p < v.listed().len(),
        v.listed()[p] == v.selected,
    ensures
        p + 1 < v.listed().len() ==> v.moved_down().selected == v.listed()[p + 1],
        p + 1 == v.listed().len() ==> v.moved_down().selected == v.selected,
        p > 0 ==> v.moved_up().selected == v.listed()[p - 1],
        p == 0 ==> v.moved_up().selected == v.selected,
        v.moved_down().selected_session() matches Some(s) ==> !v.moved_down().attention.contains(
            s.spec_key(),
        ) && (other != s.spec_key() ==> (v.moved_down().attention.contains(other)
            <==> v.attention.contains(other))),
        v.moved_up().selected_session() matches Some(s) ==> !v.moved_up().attention.contains(
            s.spec_key(),
        ) && (other != s.spec_key() ==> (v.moved_up().attention.contains(other)
            <==> v.attention.contains(other))),
        v.moved_down().sessions == v.sessions && v.moved_down().expanded == v.expanded,
        v.moved_up().sessions == v.sessions && v.moved_up().expanded == v.expanded,
{
    let list = v.listed();
    law_listed_once(v.sessions, v.expanded);
    lemma_place(list, v.selected, 0);
}

/// Right expands the selected session where it has children, and nothing else.
pub proof fn law_right_expands_the_selected(v: AppView, key: Seq<char>)
    requires
        v.selected < v.sessions.len(),
    ensures
        v.expanded_selected().expanded.contains(key) <==> v.expanded.contains(key) || (has_children(
            v.sessions,
            v.selected as int,
        ) && key == v.sessions[v.selected as int].spec_key()),
        v.expanded_selected().sessions == v.sessions,
        v.expanded_selected().attention == v.attention,
{
}

/// Left collapses the selected session where it is expanded and has children; else
/// it goes to the parent of the selected session and collapses that.
pub proof fn law_left_collapses_or_goes_to_parent(v: AppView, p: usize)
    requires
        v.sessions.len() <= usize::MAX,
        v.selected < v.sessions.len(),
    ensures
        ({
            let s = v.sessions[v.selected as int];
            let after = v.collapsed_selected();
            let open = has_children(v.sessions, v.selected as int) && v.expanded.contains(
                s.spec_key(),
            );
            &&& open ==> after.expanded == v.expanded.remove(s.spec_key()) && after.selected
                == v.selected
            &&& !open && parent_index(v.sessions, v.selected as int) == Some(p) ==> after.selected
                == p && after.expanded == v.expanded.remove(v.sessions[p as int].spec_key())
            &&& !open && parent_index(v.sessions, v.selected as int) is None ==> after == v
            &&& after.sessions == v.sessions
        }),
{
    let s = v.sessions[v.selected as int];
    if has_children(v.sessions, v.selected as int) && v.expanded.contains(s.spec_key()) {
        law_parentless_is_listed(v.sessions, v.expanded.remove(s.spec_key()), v.selected);
    } else if parent_index(v.sessions, v.selected as int) == Some(p) {
        law_parent_has_no_parent(v.sessions, v.selected as int, p);
        law_parentless_is_listed(
            v.sessions,
            v.expanded.remove(v.sessions[p as int].spec_key()),
            p,
        );
    }
}

/// A key finds the first session that has it, and none only where no session does.
pub proof fn law_first_session_of_a_key(s: Seq<SessionInfo>, key: Seq<char>, from: nat)
    requires
        s.len() <= usize::MAX,
    ensures
        match first_with_key(s, key, from) {
            Some(i) => from <= i < s.len() && session_key(s[i as int].host@, s[i as int].id@) == key
                && forall|k: int|
                from <= k < i ==> session_key((#[trigger] s[k]).host@, s[k].id@) != key,
            None => forall|k: int|
                from <= k < s.len() ==> session_key((#[trigger] s[k]).host@, s[k].id@) != key,
        },
    decreases s.len() - from,
{
    if from < s.len() && s[from as int].spec_key() != key {
        law_first_session_of_a_key(s, key, from + 1);
    }
}

/// News of a session replace what is known of it, or are added at the end where
/// nothing is; the other sessions stay. A session that no longer calls is no
/// longer marked, and news mark none.
pub proof fn law_news_touch_one_session(v: AppView, session: SessionInfo, other: Seq<char>)
    requires
        v.sessions.len() < usize::MAX,
    ensures
        ({
            let key = session.spec_key();
            let after = v.updated(session);
            &&& first_with_key(v.sessions, key, 0) matches Some(i) ==> after.sessions.len()
                == v.sessions.len() && after.sessions[i as int] == session
            &&& first_with_key(v.sessions, key, 0) is None ==> after.sessions.len()
                == v.sessions.len() + 1 && after.sessions.last() == session
            &&& forall|k: int|
                0 <= k < v.sessions.len() && first_with_key(v.sessions, key, 0) != Some(k as usize)
                    ==> #[trigger] after.sessions[k] == v.sessions[k]
            &&& other != key ==> (after.attention.contains(other) <==> v.attention.contains(other))
            &&& after.attention.contains(key) <==> v.attention.contains(key) && (session.state
                == SessionState::Idle || session.state == SessionState::WaitingForPermission
                || session.state == SessionState::WaitingForInput || session.state
                == SessionState::Error)
            &&& after.hosts == v.hosts
        }),
{
    law_first_session_of_a_key(v.sessions, session.spec_key(), 0);
}

/// A snapshot replaces all that is known of sessions and hosts. A mark stays if
/// and only if its session is there and idle, waits for permission or for input,
/// or failed.
pub proof fn law_snapshot_replaces_all(
    v: AppView,
    sessions: Seq<SessionInfo>,
    hosts: Seq<HostStatus>,
    key: Seq<char>,
)
    ensures
        ({
            let after = v.replaced(sessions, hosts);
            &&& after.sessions == sessions
            &&& after.hosts == hosts
            &&& after.attention.contains(key) <==> v.attention.contains(key) && exists|i: int|
                0 <= i < sessions.len() && #[trigger] sessions[i].spec_key() == key && (
                sessions[i].state == SessionState::Idle || sessions[i].state
                    == SessionState::WaitingForPermission || sessions[i].state
                    == SessionState::WaitingForInput || sessions[i].state == SessionState::Error)
            &&& after.expanded.contains(key) <==> v.expanded.contains(key) && exists|i: int|
                0 <= i < sessions.len() && #[trigger] sessions[i].spec_key() == key && has_children(
                    sessions,
                    i,
                )
        }),
{
    if exists|i: int|
        0 <= i < sessions.len() && #[trigger] sessions[i].spec_key() == key && (sessions[i].state
            == SessionState::Idle || sessions[i].state == SessionState::WaitingForPermission
            || sessions[i].state == SessionState::WaitingForInput || sessions[i].state
            == SessionState::Error) {
        let i = choose|i: int|
            0 <= i < sessions.len() && #[trigger] sessions[i].spec_key() == key && (
            sessions[i].state == SessionState::Idle || sessions[i].state
                == SessionState::WaitingForPermission || sessions[i].state
                == SessionState::WaitingForInput || sessions[i].state == SessionState::Error);
        assert(wants_bell(sessions[i].state) && sessions[i].spec_key() == key);
        assert(calling(sessions).contains(key));
    }
    if exists|i: int|
        0 <= i < sessions.len() && #[trigger] sessions[i].spec_key() == key && has_children(
            sessions,
            i,
        ) {
        assert(expandable(sessions).contains(key));
    }
}

/// A bell marks its session, unless that is the one selected, and no other.
pub proof fn law_bell_marks_its_session(v: AppView, id: Seq<char>, host: Seq<char>, key: Seq<char>)
    ensures
        v.rung(id, host).attention.contains(key) <==> v.attention.contains(key) || (key
            == session_key(host, id) && !(v.selected < v.sessions.len() && session_key(
            v.sessions[v.selected as int].host@,
            v.sessions[v.selected as int].id@,
        ) == key)),
        v.rung(id, host).sessions == v.sessions,
        v.rung(id, host).selected == v.selected,
{
}

/// What messages show: a bell for ten seconds with the ID and the reason, an error
/// for five, and the end of loading for two. What can be attached to ends the
/// program with it.
pub proof fn law_messages_are_shown(
    v: AppView,
    id: Seq<char>,
    host: Seq<char>,
    text: Seq<char>,
    entries: Seq<RecentDirEntry>,
    attach: AttachView,
    now_ms: u64,
)
    requires
        now_ms + 10_000 <= u64::MAX,
    ensures
        message_step(v, DaemonView::Bell { session_id: id, host, reason: text }, now_ms).status
            == Some(
            ("⚠ "@ + id + " needs attention ("@ + text + ")"@, (now_ms + 10_000) as u64),
        ),
        message_step(v, DaemonView::Error { message: text }, now_ms).status == Some(
            ("Error: "@ + text, (now_ms + 5_000) as u64),
        ),
        message_step(v, DaemonView::RecentDirs { entries, is_complete: true }, now_ms).status
            == Some(("Recent directories loaded"@, (now_ms + 2_000) as u64)),
        message_step(v, DaemonView::RecentDirs { entries, is_complete: false }, now_ms).status
            == v.status,
        message_step(v, DaemonView::AttachReady { attach }, now_ms).should_quit,
        message_step(v, DaemonView::AttachReady { attach }, now_ms).pending == Some(attach),
        message_step(v, DaemonView::Error { message: text }, now_ms).should_quit == v.should_quit,
{
}

/// Recent directories are kept for the next time; where they are being chosen
/// from, the choice stays where it is, or moves to the last one where there are
/// fewer.
pub proof fn law_choice_stays_among_the_directories(
    v: AppView,
    entries: Seq<RecentDirEntry>,
    is_complete: bool,
)
    requires
        entries.len() <= usize::MAX,
    ensures
        ({
            let after = v.with_recent_dirs(entries, is_complete);
            &&& after.cache == entries
            &&& v.modal is None <==> after.modal is None
            &&& after.modal matches Some(m) ==> m.entries == entries && m.is_complete
                == is_complete
            &&& v.modal is Some && v.modal->0.selected < entries.len() ==> after.modal->0.selected
                == v.modal->0.selected
            &&& v.modal is Some && 0 < entries.len() <= v.modal->0.selected
                ==> after.modal->0.selected == entries.len() - 1
            &&& v.modal is Some && entries.len() == 0 ==> after.modal->0.selected == 0
        }),
{
}

/// What keys ask of the daemon while no directory is being chosen: `r` a refresh,
/// `a` the approval of the selected session where that waits for permission, enter
/// the way into it, `n` ten recent directories, and all others nothing.
pub proof fn law_what_keys_ask_for(v: AppView, key: Key, ctrl: bool, now_ms: u64)
    requires
        v.modal is None,
    ensures
        ({
            let asked = key_step(v, key, ctrl, now_ms).1;
            let some = v.selected < v.sessions.len();
            let s = v.sessions[v.selected as int];
            &&& key == Key::Char('r') ==> asked == Some(ClientView::RefreshAll)
            &&& key == Key::Char('a') && some && s.state == SessionState::WaitingForPermission
                ==> asked == Some(ClientView::Approve { session_id: s.id@ })
            &&& key == Key::Char('a') && !(some && s.state == SessionState::WaitingForPermission)
                ==> asked is None
            &&& key == Key::Enter && some ==> asked == Some(ClientView::DropIn { session_id: s.id@ })
            &&& key == Key::Enter && !some ==> asked is None
            &&& key == Key::Char('n') ==> asked == Some(ClientView::GetRecentDirs { limit: 10 })
            &&& key != Key::Char('r') && key != Key::Char('a') && key != Key::Enter && key
                != Key::Char('n') ==> asked is None
        }),
{
}

/// The program ends by `q`, while no directory is being chosen, and by control and
/// `c` at any time; no other key ends it.
pub proof fn law_keys_that_quit(v: AppView, key: Key, ctrl: bool, now_ms: u64)
    requires
        !v.should_quit,
    ensures
        key_step(v, key, ctrl, now_ms).0.should_quit <==> (key == Key::Char('c') && ctrl) || (key
            == Key::Char('q') && v.modal is None),
{
}

/// Letters do what the arrows do: `j` and `k` go down and up, `l` and `h` expand
/// and collapse.
pub proof fn law_letters_and_arrows(v: AppView, ctrl: bool, now_ms: u64)
    ensures
        key_step(v, Key::Char('j'), ctrl, now_ms) == key_step(v, Key::Down, ctrl, now_ms),
        key_step(v, Key::Char('k'), ctrl, now_ms) == key_step(v, Key::Up, ctrl, now_ms),
        v.modal is None ==> key_step(v, Key::Char('l'), ctrl, now_ms) == key_step(
            v,
            Key::Right,
            ctrl,
            now_ms,
        ),
        v.modal is None ==> key_step(v, Key::Char('h'), ctrl, now_ms) == key_step(
            v,
            Key::Left,
            ctrl,
            now_ms,
        ),
        v.modal is None ==> key_step(v, Key::Down, ctrl, now_ms).0 == v.moved_down(),
        v.modal is None ==> key_step(v, Key::Up, ctrl, now_ms).0 == v.moved_up(),
        v.modal is None ==> key_step(v, Key::Right, ctrl, now_ms).0 == v.expanded_selected(),
        v.modal is None ==> key_step(v, Key::Left, ctrl, now_ms).0 == v.collapsed_selected(),
{
}

/// While a directory is being chosen, down and up move the choice by one and stop
/// at the ends, escape ends it without a request, and enter asks for a session in
/// the chosen directory of its host, named after the directory.
pub proof fn law_choosing_a_directory(v: AppView, m: ModalView, ctrl: bool, now_ms: u64)
    requires
        v.modal == Some(m),
        m.entries.len() <= usize::MAX,
    ensures
        ({
            let down = key_step(v, Key::Down, ctrl, now_ms);
            let up = key_step(v, Key::Up, ctrl, now_ms);
            let esc = key_step(v, Key::Esc, ctrl, now_ms);
            let enter = key_step(v, Key::Enter, ctrl, now_ms);
            &&& m.selected + 1 < m.entries.len() ==> down.0.modal->0.selected == m.selected + 1
            &&& m.selected + 1 == m.entries.len() ==> down.0.modal->0.selected == m.selected
            &&& 0 < m.selected < m.entries.len() ==> up.0.modal->0.selected == m.selected - 1
            &&& m.selected == 0 ==> up.0.modal->0.selected == 0
            &&& down.1 is None && up.1 is None && esc.1 is None
            &&& down.0.modal is Some && down.0.modal->0.entries == m.entries
            &&& up.0.modal is Some && up.0.modal->0.entries == m.entries
            &&& esc.0.modal is None
            &&& m.selected < m.entries.len() ==> enter.0.modal is None && (
            enter.1 matches Some(ClientView::CreateSession { host, directory, name_hint })
                && host == m.entries[m.selected as int].host@ && directory
                == m.entries[m.selected as int].directory@ && (match file_name(directory) {
                Some(name) => name_hint == Some(name),
                None => name_hint == Some("opencode"@),
            }))
            &&& m.selected >= m.entries.len() ==> enter == (v, None::<ClientView>)
        }),
{
}

/// Where the selection comes to rest: where it is, if that is listed; else at the
/// parent of the selected session, else at the first listed session.
pub proof fn law_where_the_selection_rests(v: AppView, p: usize)
    ensures
        v.listed().len() == 0 ==> v.settled().selected == 0,
        v.listed().contains(v.selected) ==> v.settled().selected == v.selected,
        v.listed().len() > 0 && !v.listed().contains(v.selected) && parent_index(
            v.sessions,
            v.selected as int,
        ) == Some(p) ==> v.settled().selected == p,
        v.listed().len() > 0 && !v.listed().contains(v.selected) && parent_index(
            v.sessions,
            v.selected as int,
        ) is None ==> v.settled().selected == v.listed()[0],
        v.settled().sessions == v.sessions && v.settled().expanded == v.expanded
            && v.settled().attention == v.attention && v.settled().modal == v.modal,
{
    if v.listed().contains(v.selected) {
        assert(v.listed().len() > 0);
    }
}

/// When the selected session is gone from a snapshot, the selection stays at its
/// place, or moves to the last session where there are fewer, and comes to rest
/// from there.
pub proof fn law_selection_survives_its_session(
    v: AppView,
    sessions: Seq<SessionInfo>,
    hosts: Seq<HostStatus>,
)
    requires
        0 < sessions.len() <= usize::MAX,
        v.selected < v.sessions.len(),
        first_with_key(sessions, v.sessions[v.selected as int].spec_key(), 0) is None,
    ensures
        ({
            let after = v.replaced(sessions, hosts);
            let at: usize = if v.selected < sessions.len() {
                v.selected
            } else {
                (sessions.len() - 1) as usize
            };
            &&& after.listed().contains(at) ==> after.selected == at
            &&& sessions[at as int].parent_id is None ==> after.selected == at
        }),
{
    let after = v.replaced(sessions, hosts);
    let at: usize = if v.selected < sessions.len() {
        v.selected
    } else {
        (sessions.len() - 1) as usize
    };
    if sessions[at as int].parent_id is None {
        law_parentless_is_listed(sessions, after.expanded, at);
    }
}

/// What is shown is shown for the given time.
pub proof fn law_shown_for_a_time(v: AppView, text: Seq<char>, now_ms: u64, millis: u64)
    ensures
        now_ms + millis <= u64::MAX ==> v.with_status(text, now_ms, millis).status == Some(
            (text, (now_ms + millis) as u64),
        ),
        now_ms + millis > u64::MAX ==> v.with_status(text, now_ms, millis).status == Some(
            (text, u64::MAX),
        ),
        v.with_status(text, now_ms, millis).sessions == v.sessions,
        v.with_status(text, now_ms, millis).selected == v.selected,
{
}

/// What keys show, and for how long, while no directory is being chosen.
pub proof fn law_what_keys_show(v: AppView, ctrl: bool, now_ms: u64)
    requires
        v.modal is None,
        now_ms + 5000 <= u64::MAX,
    ensures
        key_step(v, Key::Char('r'), ctrl, now_ms).0.status == Some(
            ("Refreshing..."@, (now_ms + 2000) as u64),
        ),
        v.selected >= v.sessions.len() ==> key_step(v, Key::Char('a'), ctrl, now_ms).0.status
            == Some(("No session selected"@, (now_ms + 2000) as u64)),
        v.selected < v.sessions.len() && v.sessions[v.selected as int].state
            == SessionState::WaitingForPermission ==> key_step(
            v,
            Key::Char('a'),
            ctrl,
            now_ms,
        ).0.status == Some(("Approving..."@, (now_ms + 3000) as u64)),
        v.selected < v.sessions.len() && v.sessions[v.selected as int].state
            != SessionState::WaitingForPermission ==> key_step(
            v,
            Key::Char('a'),
            ctrl,
            now_ms,
        ).0.status == Some(
            (
                "Nothing to approve (session not waiting for permission)"@,
                (now_ms + 3000) as u64,
            ),
        ),
        v.selected < v.sessions.len() ==> key_step(v, Key::Enter, ctrl, now_ms).0.status == Some(
            ("Preparing drop-in..."@, (now_ms + 3000) as u64),
        ),
        key_step(v, Key::Char('n'), ctrl, now_ms).0.status == Some(
            ("Loading recent directories..."@, (now_ms + 3000) as u64),
        ),
        key_step(v, Key::Char('n'), ctrl, now_ms).0.modal == Some(
            ModalView { entries: v.cache, selected: 0, is_complete: false },
        ),
        key_step(v, Key::Char('?'), ctrl, now_ms).0.status == Some(
            (help_text(), (now_ms + 5000) as u64),
        ),
{
}

/// A fresh program knows nothing and shows nothing.
pub proof fn law_fresh_program_is_empty()
    ensures
        fresh_app().sessions.len() == 0,
        fresh_app().hosts.len() == 0,
        fresh_app().selected == 0,
        !fresh_app().should_quit,
        !fresh_app().connected,
        fresh_app().status is None,
        fresh_app().pending is None,
        fresh_app().modal is None,
        fresh_app().cache.len() == 0,
        forall|k: Seq<char>| !(#[trigger] fresh_app().expanded.contains(k)),
        forall|k: Seq<char>| !(#[trigger] fresh_app().attention.contains(k)),
{
}

/// News of a session leave the selection where it is as long as that is listed,
/// and leave expanded what was expanded and still has children.
pub proof fn law_news_spare_the_selection(v: AppView, session: SessionInfo, key: Seq<char>)
    ensures
        ({
            let after = v.updated(session);
            &&& after.listed().contains(v.selected) ==> after.selected == v.selected
            &&& after.expanded.contains(key) <==> v.expanded.contains(key) && exists|i: int|
                0 <= i < after.sessions.len() && #[trigger] after.sessions[i].spec_key() == key
                    && has_children(after.sessions, i)
            &&& after.should_quit == v.should_quit
            &&& after.status == v.status
        }),
{
    let after = v.updated(session);
    if exists|i: int|
        0 <= i < after.sessions.len() && #[trigger] after.sessions[i].spec_key() == key
            && has_children(after.sessions, i) {
        assert(expandable(after.sessions).contains(key));
    }
}

} // verus!
