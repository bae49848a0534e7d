//! Making a session: a name is looked for that no session has, and a session is
//! made under it.

use vstd::prelude::*;
use vstd::string::*;

use crate::daemon::attach::{attach_command, attach_result, new_session_attach};
use crate::daemon::state::{recorded, CoreView, DaemonCore};
use crate::ipc::AttachSpec;
use crate::shell::{
    all_bare, escape_quotes, inside_quotes, lemma_reads_bare, lemma_reads_in_quotes,
    lemma_reads_quoted_word, lemma_reads_word, lemma_shell_read_concat, sanitize_name, sanitized,
    shell_read, shell_start, shell_words, word_of, CommandLine, CommandView,
};
use crate::text::{
    chars_of, concat3, concat4, concat5, decimal, law_decimal_denotes, law_last_piece,
    law_unsplit_text_is_one_piece, lemma_filter_push, non_empty, number_text, opt_text, path_parts,
    path_parts_of, pieces, push_text, str_eq, string_of, texts, the_char, trim, trim_white,
};

verus! {

// ---------------------------------------------------------------------------
// Names
// ---------------------------------------------------------------------------

/// The last part of a path, or `opencode` where it has none.
pub open spec fn basename(directory: Seq<char>) -> Seq<char> {
    let parts = path_parts(directory);
    if parts.len() > 0 {
        parts.last()
    } else {
        "opencode"@
    }
}

/// The last part of a path, or `opencode` where it has none.
fn directory_basename(directory: &str) -> (r: String)
    ensures
        r@ == basename(directory@),
{
    let chars = chars_of(directory);
    let parts = path_parts_of(&chars);
    let n: usize = parts.len();
    if n > 0 {
        assert(texts(parts@)[n - 1] == parts@[n - 1]@);
        string_of(&parts[n - 1])
    } else {
        "opencode".to_string()
    }
}

/// The name to begin with: the one that is wished for where it is not blank, else
/// that of the directory; with hyphens for what does not go into a name.
pub open spec fn base_name(directory: Seq<char>, hint: Option<Seq<char>>) -> Seq<char> {
    sanitized(
        match hint {
            Some(name) => if trim(name).len() > 0 {
                name
            } else {
                basename(directory)
            },
            None => basename(directory),
        },
        "opencode"@,
    )
}

/// The names that are tried, in their order: the one to begin with, then the same
/// with numbers from two on.
pub open spec fn candidate(base: Seq<char>, k: nat) -> Seq<char> {
    if k == 0 {
        base
    } else {
        base + "-"@ + decimal(k + 1)
    }
}

// ---------------------------------------------------------------------------
// Commands
// ---------------------------------------------------------------------------

/// The command here by which a name is looked up.
pub open spec fn local_check(name: Seq<char>) -> CommandView {
    CommandView { program: "tmux"@, args: seq!["has-session"@, "-t"@, name] }
}

/// The command here that makes a session.
pub open spec fn local_create(name: Seq<char>, directory: Seq<char>) -> CommandView {
    CommandView {
        program: "tmux"@,
        args: seq!["new-session"@, "-d"@, "-s"@, name, "-c"@, directory, "opencode"@],
    }
}

/// The command on another host by which a name is looked up.
pub open spec fn remote_check(name: Seq<char>) -> Seq<char> {
    "tmux has-session -t '"@ + inside_quotes(name)
        + "' >/dev/null 2>&1 && printf yes || true"@
}

/// The command on another host that makes a session.
pub open spec fn remote_create(name: Seq<char>, directory: Seq<char>) -> Seq<char> {
    "tmux new-session -d -s '"@ + inside_quotes(name) + "' -c '"@ + inside_quotes(directory)
        + "' opencode"@
}

// ---------------------------------------------------------------------------
// The steps
// ---------------------------------------------------------------------------

/// How far the making of a session is.
#[derive(Debug)]
pub enum CreateStage {
    /// The name is looked up.
    Checking,
    /// The session is made.
    Creating,
    /// The session is there.
    Created,
    /// There is an error, in words.
    Failed(String),
}

/// How far the making of a session is, as values.
#[verifier::ext_equal]
pub enum StageView {
    Checking,
    Creating,
    Created,
    Failed(Seq<char>),
}

/// The making of a session.
#[derive(Debug)]
pub struct CreatePlan {
    pub host: String,
    pub directory: String,
    pub base: String,
    pub name: String,
    /// The number that the next name gets.
    pub suffix: u64,
    pub stage: CreateStage,
}

/// The making of a session, as values.
#[verifier::ext_equal]
pub struct PlanView {
    pub host: Seq<char>,
    pub directory: Seq<char>,
    pub base: Seq<char>,
    pub name: Seq<char>,
    pub suffix: u64,
    pub stage: StageView,
}

impl View for CreatePlan {
    type V = PlanView;

    open spec fn view(&self) -> PlanView {
        PlanView {
            host: self.host@,
            directory: self.directory@,
            base: self.base@,
            name: self.name@,
            suffix: self.suffix,
            stage: match self.stage {
                CreateStage::Checking => StageView::Checking,
                CreateStage::Creating => StageView::Creating,
                CreateStage::Created => StageView::Created,
                CreateStage::Failed(e) => StageView::Failed(e@),
            },
        }
    }
}

/// What is done next.
#[derive(Debug)]
pub enum CreateAction {
    /// A command is run here.
    RunHere(CommandLine),
    /// A command is run on the host.
    RunThere(String),
    /// Nothing.
    Stop,
}

/// What is done next, as values.
#[verifier::ext_equal]
pub enum CreateActionView {
    RunHere(CommandView),
    RunThere(Seq<char>),
    Stop,
}

impl View for CreateAction {
    type V = CreateActionView;

    open spec fn view(&self) -> CreateActionView {
        match *self {
            CreateAction::RunHere(c) => CreateActionView::RunHere(c@),
            CreateAction::RunThere(c) => CreateActionView::RunThere(c@),
            CreateAction::Stop => CreateActionView::Stop,
        }
    }
}

/// What came of it.
#[derive(Debug)]
pub enum CreateEvent {
    /// The command here could not be run.
    NotRun,
    /// The command here was run, and succeeded or not.
    Ran(bool),
    /// The host could not be reached, in words.
    Unreachable(String),
    /// What the command on the host gave, or the error in words.
    Answered(Result<String, String>),
}

/// The beginning of the making of a session.
pub open spec fn create_start(
    host: Seq<char>,
    directory: Seq<char>,
    hint: Option<Seq<char>>,
) -> PlanView {
    PlanView {
        host,
        directory,
        base: base_name(directory, hint),
        name: base_name(directory, hint),
        suffix: 2,
        stage: StageView::Checking,
    }
}

/// What is done next.
pub open spec fn create_action(p: PlanView) -> CreateActionView {
    match p.stage {
        StageView::Checking => if p.host == "local"@ {
            CreateActionView::RunHere(local_check(p.name))
        } else {
            CreateActionView::RunThere(remote_check(p.name))
        },
        StageView::Creating => if p.host == "local"@ {
            CreateActionView::RunHere(local_create(p.name, p.directory))
        } else {
            CreateActionView::RunThere(remote_create(p.name, p.directory))
        },
        _ => CreateActionView::Stop,
    }
}

/// After a name was looked up: the next one where it is taken.
pub open spec fn name_checked(p: PlanView, taken: bool) -> PlanView {
    if taken {
        PlanView {
            name: p.base + "-"@ + decimal(p.suffix as nat),
            suffix: (p.suffix + 1) as u64,
            ..p
        }
    } else {
        PlanView { stage: StageView::Creating, ..p }
    }
}

/// The next step, by what came of the last one. What does not belong to a step
/// leaves it as it is.
pub open spec fn create_step(p: PlanView, event: CreateEvent) -> PlanView {
    match (p.stage, event) {
        (StageView::Checking, CreateEvent::NotRun) => PlanView {
            stage: StageView::Failed("Failed to check local tmux session '"@ + p.name + "'"@),
            ..p
        },
        (StageView::Checking, CreateEvent::Ran(success)) => name_checked(p, success),
        (StageView::Checking, CreateEvent::Unreachable(e)) => PlanView {
            stage: StageView::Failed(e@),
            ..p
        },
        (StageView::Checking, CreateEvent::Answered(Ok(output))) => name_checked(
            p,
            trim(output@) == "yes"@,
        ),
        (StageView::Checking, CreateEvent::Answered(Err(e))) => PlanView {
            stage: StageView::Failed(e@),
            ..p
        },
        (StageView::Creating, CreateEvent::NotRun) => PlanView {
            stage: StageView::Failed(
                "Failed to start tmux session '"@ + p.name + "': "@ + p.directory,
            ),
            ..p
        },
        (StageView::Creating, CreateEvent::Ran(true)) => PlanView {
            stage: StageView::Created,
            ..p
        },
        (StageView::Creating, CreateEvent::Ran(false)) => PlanView {
            stage: StageView::Failed(
                "tmux new-session failed for '"@ + p.name + "': "@ + p.directory,
            ),
            ..p
        },
        (StageView::Creating, CreateEvent::Unreachable(e)) => PlanView {
            stage: StageView::Failed(e@),
            ..p
        },
        (StageView::Creating, CreateEvent::Answered(Ok(_))) => PlanView {
            stage: StageView::Created,
            ..p
        },
        (StageView::Creating, CreateEvent::Answered(Err(_))) => PlanView {
            stage: StageView::Failed(
                "Failed to create remote session '"@ + p.name + "' on "@ + p.host,
            ),
            ..p
        },
        _ => p,
    }
}

impl CreatePlan {
    /// The beginning of the making of a session.
    pub fn start(host: &str, directory: &str, name_hint: Option<String>) -> (r: CreatePlan)
        ensures
            r@ == create_start(host@, directory@, opt_text(name_hint)),
    {
        let wish: String = match name_hint {
            Some(name) => {
                let chars = chars_of(name.as_str());
                if trim_white(&chars).len() > 0 {
                    name
                } else {
                    directory_basename(directory)
                }
            },
            None => directory_basename(directory),
        };
        let base = sanitize_name(wish.as_str(), "opencode");
        CreatePlan {
            host: host.to_string(),
            directory: directory.to_string(),
            name: base.clone(),
            base,
            suffix: 2,
            stage: CreateStage::Checking,
        }
    }

    /// What is done next.
    pub fn action(&self) -> (r: CreateAction)
        ensures
            r@ == create_action(self@),
    {
        let here = str_eq(self.host.as_str(), "local");
        match self.stage {
            CreateStage::Checking => {
                if here {
                    let mut args: Vec<String> = Vec::new();
                    push_text(&mut args, "has-session");
                    push_text(&mut args, "-t");
                    push_text(&mut args, self.name.as_str());
                    let c = CommandLine { program: "tmux".to_string(), args };
                    assert(c@.args =~= local_check(self.name@).args);
                    CreateAction::RunHere(c)
                } else {
                    CreateAction::RunThere(
                        concat3(
                            "tmux has-session -t '",
                            escape_quotes(self.name.as_str()).as_str(),
                            "' >/dev/null 2>&1 && printf yes || true",
                        ),
                    )
                }
            },
            CreateStage::Creating => {
                if here {
                    let mut args: Vec<String> = Vec::new();
                    push_text(&mut args, "new-session");
                    push_text(&mut args, "-d");
                    push_text(&mut args, "-s");
                    push_text(&mut args, self.name.as_str());
                    push_text(&mut args, "-c");
                    push_text(&mut args, self.directory.as_str());
                    push_text(&mut args, "opencode");
                    let c = CommandLine { program: "tmux".to_string(), args };
                    assert(c@.args =~= local_create(self.name@, self.directory@).args);
                    CreateAction::RunHere(c)
                } else {
                    CreateAction::RunThere(
                        concat5(
                            "tmux new-session -d -s '",
                            escape_quotes(self.name.as_str()).as_str(),
                            "' -c '",
                            escape_quotes(self.directory.as_str()).as_str(),
                            "' opencode",
                        ),
                    )
                }
            },
            _ => CreateAction::Stop,
        }
    }

    /// Goes on after a name was looked up.
    fn checked(&mut self, taken: bool)
        requires
            old(self).suffix < u64::MAX,
        ensures
            final(self)@ == name_checked(old(self)@, taken),
    {
        if taken {
            self.name = concat3(self.base.as_str(), "-", number_text(self.suffix).as_str());
            self.suffix = self.suffix + 1;
        } else {
            self.stage = CreateStage::Creating;
        }
    }

    /// Goes on by what came of the last step.
    pub fn step(&mut self, event: CreateEvent)
        requires
            old(self).suffix < u64::MAX,
        ensures
            final(self)@ == create_step(old(self)@, event),
    {
        match self.stage {
            CreateStage::Checking => match event {
                CreateEvent::NotRun => {
                    let e = concat3(
                        "Failed to check local tmux session '",
                        self.name.as_str(),
                        "'",
                    );
                    self.stage = CreateStage::Failed(e);
                },
                CreateEvent::Ran(success) => self.checked(success),
                CreateEvent::Unreachable(e) => {
                    self.stage = CreateStage::Failed(e);
                },
                CreateEvent::Answered(Ok(output)) => {
                    let chars = chars_of(output.as_str());
                    let trimmed = string_of(&trim_white(&chars));
                    self.checked(str_eq(trimmed.as_str(), "yes"));
                },
                CreateEvent::Answered(Err(e)) => {
                    self.stage = CreateStage::Failed(e);
                },
            },
            CreateStage::Creating => match event {
                CreateEvent::NotRun => {
                    let e = concat4(
                        "Failed to start tmux session '",
                        self.name.as_str(),
                        "': ",
                        self.directory.as_str(),
                    );
                    self.stage = CreateStage::Failed(e);
                },
                CreateEvent::Ran(success) => {
                    if success {
                        self.stage = CreateStage::Created;
                    } else {
                        let e = concat4(
                            "tmux new-session failed for '",
                            self.name.as_str(),
                            "': ",
                            self.directory.as_str(),
                        );
                        self.stage = CreateStage::Failed(e);
                    }
                },
                CreateEvent::Unreachable(e) => {
                    self.stage = CreateStage::Failed(e);
                },
                CreateEvent::Answered(Ok(_)) => {
                    self.stage = CreateStage::Created;
                },
                CreateEvent::Answered(Err(_)) => {
                    let e = concat4(
                        "Failed to create remote session '",
                        self.name.as_str(),
                        "' on ",
                        self.host.as_str(),
                    );
                    self.stage = CreateStage::Failed(e);
                },
            },
            _ => {},
        }
    }
}

impl DaemonCore {
    /// Takes in a session that was made: its directory is noted, and how a client
    /// gets in is given; another host is connected.
    pub fn create_session(
        &mut self,
        host: &String,
        directory: &String,
        name: &str,
        started_unix_ms: u64,
    ) -> (r: Result<AttachSpec, String>)
        ensures
            final(self)@ == (CoreView {
                recent: recorded(old(self)@.recent, *host, *directory, started_unix_ms),
                ..old(self)@
            }),
            attach_result(r) == new_session_attach(old(self)@.conns, host@, name@),
    {
        self.record_recent_dir(host, directory, started_unix_ms);
        self.attach_spec_for_new_session(host.as_str(), name)
    }
}

// ---------------------------------------------------------------------------
// Laws
// ---------------------------------------------------------------------------

/// No name is tried twice.
pub proof fn law_candidates_differ(base: Seq<char>, j: nat, k: nat)
    requires
        j != k,
    ensures
        candidate(base, j) != candidate(base, k),
{
    reveal_strlit("-");
    let n = base.len() as int;
    if j > 0 && k > 0 {
        law_decimal_denotes(j + 1);
        law_decimal_denotes(k + 1);
        assert(candidate(base, j).skip(n + 1) =~= decimal(j + 1));
        assert(candidate(base, k).skip(n + 1) =~= decimal(k + 1));
    } else {
        assert(candidate(base, j).len() != candidate(base, k).len()) by {
            law_decimal_denotes(j + 1);
            law_decimal_denotes(k + 1);
        }
    }
}

/// What an answer says of whether a name is taken.
pub open spec fn says_taken(event: CreateEvent, taken: bool) -> bool {
    match event {
        CreateEvent::Ran(success) => success == taken,
        CreateEvent::Answered(Ok(output)) => (trim(output@) == "yes"@) == taken,
        _ => false,
    }
}

/// The making of a session after answers.
pub open spec fn create_run(p: PlanView, events: Seq<CreateEvent>) -> PlanView
    decreases events.len(),
{
    if events.len() == 0 {
        p
    } else {
        create_step(create_run(p, events.drop_last()), events.last())
    }
}

/// Where the answers say that the first `k` names are taken and the next one is
/// not, the session is made under that one.
pub proof fn law_first_free_name(
    host: Seq<char>,
    directory: Seq<char>,
    hint: Option<Seq<char>>,
    events: Seq<CreateEvent>,
)
    requires
        0 < events.len() < u64::MAX - 2,
        forall|i: int|
            0 <= i < events.len() ==> says_taken(#[trigger] events[i], i < events.len() - 1),
    ensures
        create_run(create_start(host, directory, hint), events) == (PlanView {
            name: candidate(base_name(directory, hint), (events.len() - 1) as nat),
            suffix: (events.len() + 1) as u64,
            stage: StageView::Creating,
            ..create_start(host, directory, hint)
        }),
{
    let head = events.drop_last();
    assert forall|i: int| 0 <= i < head.len() implies says_taken(#[trigger] head[i], true) by {
        assert(head[i] == events[i]);
    }
    lemma_taken_names(host, directory, hint, head);
    assert(events.last() == events[events.len() - 1]);
}

proof fn lemma_taken_names(
    host: Seq<char>,
    directory: Seq<char>,
    hint: Option<Seq<char>>,
    events: Seq<CreateEvent>,
)
    requires
        events.len() < u64::MAX - 2,
        forall|i: int| 0 <= i < events.len() ==> says_taken(#[trigger] events[i], true),
    ensures
        create_run(create_start(host, directory, hint), events) == (PlanView {
            name: candidate(base_name(directory, hint), events.len()),
            suffix: (events.len() + 2) as u64,
            ..create_start(host, directory, hint)
        }),
    decreases events.len(),
{
    if events.len() > 0 {
        let head = events.drop_last();
        assert forall|i: int| 0 <= i < head.len() implies says_taken(#[trigger] head[i], true) by {
            assert(head[i] == events[i]);
        }
        lemma_taken_names(host, directory, hint, head);
        assert(events.last() == events[events.len() - 1]);
    }
}

/// A word, and the space behind it.
spec fn and_space(w: Seq<char>) -> Seq<char> {
    w + " "@
}

/// A text in single quotes.
spec fn in_quotes(s: Seq<char>) -> Seq<char> {
    "'"@ + inside_quotes(s) + "'"@
}

/// A shell on another host reads the command that makes a session as its words,
/// whatever the name and the directory hold.
pub proof fn law_create_command_reads_back(name: Seq<char>, directory: Seq<char>)
    ensures
        shell_words(remote_create(name, directory)) == Some(
            seq!["tmux"@, "new-session"@, "-d"@, "-s"@, name, "-c"@, directory, "opencode"@],
        ),
{
    reveal_strlit("tmux new-session -d -s '");
    reveal_strlit("' -c '");
    reveal_strlit("' opencode");
    reveal_strlit("tmux");
    reveal_strlit("new-session");
    reveal_strlit("-d");
    reveal_strlit("-s");
    reveal_strlit("-c");
    reveal_strlit("opencode");
    reveal_strlit(" ");
    reveal_strlit("'");
    let a = and_space("tmux"@);
    let b = and_space("new-session"@);
    let c = and_space("-d"@);
    let d = and_space("-s"@);
    let e = in_quotes(name) + " "@;
    let f = and_space("-c"@);
    let g = in_quotes(directory) + " "@;
    let h = "opencode"@;
    let st = shell_start();
    assert(remote_create(name, directory) =~= a + b + c + d + e + f + g + h);
    lemma_shell_read_concat(st, a, b);
    lemma_shell_read_concat(st, a + b, c);
    lemma_shell_read_concat(st, a + b + c, d);
    lemma_shell_read_concat(st, a + b + c + d, e);
    lemma_shell_read_concat(st, a + b + c + d + e, f);
    lemma_shell_read_concat(st, a + b + c + d + e + f, g);
    lemma_shell_read_concat(st, a + b + c + d + e + f + g, h);
    lemma_reads_word(st, "tmux"@);
    lemma_reads_word(shell_read(st, a), "new-session"@);
    lemma_reads_word(shell_read(st, a + b), "-d"@);
    lemma_reads_word(shell_read(st, a + b + c), "-s"@);
    lemma_reads_quoted_word(shell_read(st, a + b + c + d), name);
    lemma_reads_word(shell_read(st, a + b + c + d + e), "-c"@);
    lemma_reads_quoted_word(shell_read(st, a + b + c + d + e + f), directory);
    let last = shell_read(st, a + b + c + d + e + f + g);
    lemma_reads_bare(last, h);
    assert(word_of(last) + h =~= h);
    assert(last.words.push(h) =~= seq![
        "tmux"@,
        "new-session"@,
        "-d"@,
        "-s"@,
        name,
        "-c"@,
        directory,
        "opencode"@,
    ]);
}

/// A shell on another host reads the command that attaches to a place of tmux as
/// its words, whatever the place holds.
pub proof fn law_attach_command_reads_back(target: Seq<char>)
    ensures
        shell_words(attach_command(target)) == Some(seq!["tmux"@, "attach"@, "-t"@, target]),
{
    reveal_strlit("tmux attach -t '");
    reveal_strlit("attach");
    lemma_reads_three("attach"@, target);
    reveal_strlit("tmux");
    reveal_strlit("-t");
    reveal_strlit(" ");
    reveal_strlit("'");
    assert(attach_command(target) =~= and_space("tmux"@) + and_space("attach"@) + and_space("-t"@)
        + in_quotes(target));
}

/// The command by which a name is looked up on another host begins with a command
/// that a shell reads as its words, whatever the name holds; behind it stand what
/// drops its output and what tells whether it succeeded.
pub proof fn law_check_command_reads_back(name: Seq<char>)
    ensures
        exists|head: Seq<char>|
            remote_check(name) == head + " >/dev/null 2>&1 && printf yes || true"@
                && #[trigger] shell_words(head) == Some(
                seq!["tmux"@, "has-session"@, "-t"@, name],
            ),
{
    reveal_strlit("tmux has-session -t '");
    reveal_strlit("' >/dev/null 2>&1 && printf yes || true");
    reveal_strlit(" >/dev/null 2>&1 && printf yes || true");
    reveal_strlit("has-session");
    lemma_reads_three("has-session"@, name);
    reveal_strlit("tmux");
    reveal_strlit("-t");
    reveal_strlit(" ");
    reveal_strlit("'");
    let head = and_space("tmux"@) + and_space("has-session"@) + and_space("-t"@) + in_quotes(name);
    assert(remote_check(name) =~= head + " >/dev/null 2>&1 && printf yes || true"@);
    assert(shell_words(head) == Some(seq!["tmux"@, "has-session"@, "-t"@, name]));
}

proof fn lemma_reads_three(order: Seq<char>, target: Seq<char>)
    requires
        all_bare(order),
        order.len() > 0,
    ensures
        shell_words(
            and_space("tmux"@) + and_space(order) + and_space("-t"@) + in_quotes(target),
        ) == Some(seq!["tmux"@, order, "-t"@, target]),
{
    reveal_strlit("tmux");
    reveal_strlit("-t");
    let a = and_space("tmux"@);
    let b = and_space(order);
    let c = and_space("-t"@);
    let d = in_quotes(target);
    let st = shell_start();
    lemma_shell_read_concat(st, a, b);
    lemma_shell_read_concat(st, a + b, c);
    lemma_shell_read_concat(st, a + b + c, d);
    lemma_reads_word(st, "tmux"@);
    lemma_reads_word(shell_read(st, a), order);
    lemma_reads_word(shell_read(st, a + b), "-t"@);
    let last = shell_read(st, a + b + c);
    lemma_reads_in_quotes(last, target);
    assert(word_of(last) + target =~= target);
    assert(last.words.push(target) =~= seq!["tmux"@, order, "-t"@, target]);
}

/// A new session is named by the hint where that is not blank, else by the last
/// segment of its directory, and by the program where there is none.
pub proof fn law_what_names_a_session(dir: Seq<char>, name: Seq<char>, hint: Seq<char>)
    requires
        name.len() > 0,
        forall|i: int| 0 <= i < name.len() ==> #[trigger] name[i] != '/',
    ensures
        trim(hint).len() > 0 ==> base_name(dir, Some(hint)) == sanitized(hint, "opencode"@),
        base_name(dir + seq!['/'] + name, None) == sanitized(name, "opencode"@),
        trim(hint).len() == 0 ==> base_name(dir + seq!['/'] + name, Some(hint)) == sanitized(
            name,
            "opencode"@,
        ),
        basename("/"@) == "opencode"@,
{
    let sep = the_char('/');
    let none = Seq::<char>::empty();
    assert forall|i: int| 0 <= i < name.len() implies !sep(#[trigger] name[i]) by {}
    law_last_piece(dir, '/', name, sep);
    lemma_filter_push(pieces(dir, sep), non_empty(), name);
    reveal_strlit("/");
    law_last_piece(none, '/', none, sep);
    assert(none + seq!['/'] + none =~= "/"@);
    law_unsplit_text_is_one_piece(none, sep);
    lemma_filter_push(seq![none], non_empty(), none);
    lemma_filter_push(Seq::<Seq<char>>::empty(), non_empty(), none);
    assert(Seq::<Seq<char>>::empty().push(none) =~= seq![none]);
    assert(Seq::<Seq<char>>::empty().filter(non_empty()) =~= Seq::<Seq<char>>::empty()) by {
        reveal(Seq::filter);
    }
}

/// A session is created where tmux says so, and only once its name was found free;
/// whatever else is answered then is a failure that names the session.
pub proof fn law_outcome_of_creation(p: PlanView, event: CreateEvent)
    ensures
        ({
            let after = create_step(p, event);
            &&& after.host == p.host && after.directory == p.directory && after.base == p.base
            &&& p.stage is Creating ==> after.name == p.name
            &&& p.stage is Creating ==> (after.stage is Created <==> event == CreateEvent::Ran(true)
                || (event matches CreateEvent::Answered(Ok(_))))
            &&& p.stage is Creating && !(after.stage is Created) ==> after.stage is Failed
            &&& p.stage is Checking ==> !(after.stage is Created)
            &&& p.stage is Checking ==> (after.stage is Creating <==> says_taken(event, false))
            &&& p.stage is Checking ==> (after.stage is Checking <==> says_taken(event, true))
            &&& p.stage is Creating && event == CreateEvent::Ran(false) ==> after.stage
                == StageView::Failed(
                "tmux new-session failed for '"@ + p.name + "': "@ + p.directory,
            )
            &&& p.stage is Checking || p.stage is Creating ==> match event {
                CreateEvent::Unreachable(e) => after.stage == StageView::Failed(e@),
                _ => true,
            }
            &&& p.stage is Created || p.stage is Failed ==> after == p
        }),
{
}

/// A plan for this host runs commands here, any other one on its host; each is
/// about the name and, once that is free, the directory of the plan.
pub proof fn law_plan_runs_on_its_host(p: PlanView)
    ensures
        p.stage is Checking || p.stage is Creating ==> (create_action(p) is RunHere <==> p.host
            == "local"@) && (create_action(p) is RunThere <==> p.host != "local"@),
        p.stage is Created || p.stage is Failed ==> create_action(p) is Stop,
        p.stage is Checking && p.host == "local"@ ==> (create_action(
            p,
        ) matches CreateActionView::RunHere(c) && c.program == "tmux"@ && c.args =~= seq![
            "has-session"@,
            "-t"@,
            p.name,
        ]),
        p.stage is Creating && p.host == "local"@ ==> (create_action(
            p,
        ) matches CreateActionView::RunHere(c) && c.program == "tmux"@ && c.args =~= seq![
            "new-session"@,
            "-d"@,
            "-s"@,
            p.name,
            "-c"@,
            p.directory,
            "opencode"@,
        ]),
{
}

} // verus!
