//! Getting into a session: which commands are run, one after the other, and
//! what is reported where one of them fails.

use vstd::prelude::*;
use vstd::string::*;

use crate::ipc::{clone_strings, AttachSpec, AttachView};
use crate::shell::{
    command_line, quoted, sanitize_name, sanitized, shell_escape, shell_join, CommandLine,
    CommandView,
};
use crate::text::{
    concat2, concat3, concat5, decimal, law_parts_are_seen, number_text, opt_text, push_text,
    starts_with, strings, text_starts_with,
};

verus! {

// ---------------------------------------------------------------------------
// Plans
// ---------------------------------------------------------------------------

/// What is done where a command fails.
#[derive(Debug)]
pub enum OnFailure {
    /// The failure is reported.
    Report,
    /// Another command is run, and the failure is reported.
    CleanUp { command: CommandLine },
    /// After a note another command takes the place of the plan; a failure of
    /// that one is reported.
    Instead { note: String, command: CommandLine, failure: String },
}

/// What is done where a command fails, as values.
#[verifier::ext_equal]
pub enum OnFailureView {
    Report,
    CleanUp { command: CommandView },
    Instead { note: Seq<char>, command: CommandView, failure: Seq<char> },
}

impl View for OnFailure {
    type V = OnFailureView;

    open spec fn view(&self) -> OnFailureView {
        match *self {
            OnFailure::Report => OnFailureView::Report,
            OnFailure::CleanUp { command } => OnFailureView::CleanUp { command: command@ },
            OnFailure::Instead { note, command, failure } => OnFailureView::Instead {
                note: note@,
                command: command@,
                failure: failure@,
            },
        }
    }
}

/// One command of a plan.
#[derive(Debug)]
pub struct AttachStep {
    pub command: CommandLine,
    pub failure: String,
    pub on_failure: OnFailure,
}

/// One command of a plan as values.
#[verifier::ext_equal]
pub struct StepView {
    pub command: CommandView,
    pub failure: Seq<char>,
    pub on_failure: OnFailureView,
}

impl View for AttachStep {
    type V = StepView;

    open spec fn view(&self) -> StepView {
        StepView {
            command: self.command@,
            failure: self.failure@,
            on_failure: self.on_failure@,
        }
    }
}

/// The commands of a plan as values.
pub open spec fn steps_view(steps: Seq<AttachStep>) -> Seq<StepView> {
    Seq::new(steps.len(), |k: int| steps[k]@)
}

/// Where the run of a plan stands.
#[derive(Clone, Copy, Debug, PartialEq, Eq, Structural)]
pub enum AttachStage {
    /// The command of a step is to be run.
    Step(usize),
    /// What cleans up after a step is to be run.
    CleanUp(usize),
    /// What takes the place of the plan is to be run.
    Instead(usize),
    /// Everything worked.
    Done,
    /// A step failed.
    Failed(usize),
    /// What took the place of the plan failed.
    InsteadFailed(usize),
}

/// Where the run of a plan starts.
pub open spec fn first_stage(steps: Seq<StepView>) -> AttachStage {
    if steps.len() == 0 {
        AttachStage::Done
    } else {
        AttachStage::Step(0)
    }
}

/// Where the run of a plan goes on once a command has worked or failed.
pub open spec fn next_stage(steps: Seq<StepView>, stage: AttachStage, ok: bool) -> AttachStage {
    match stage {
        AttachStage::Step(i) => if ok {
            if i + 1 < steps.len() {
                AttachStage::Step((i + 1) as usize)
            } else {
                AttachStage::Done
            }
        } else {
            match steps[i as int].on_failure {
                OnFailureView::Report => AttachStage::Failed(i),
                OnFailureView::CleanUp { .. } => AttachStage::CleanUp(i),
                OnFailureView::Instead { .. } => AttachStage::Instead(i),
            }
        },
        AttachStage::CleanUp(i) => AttachStage::Failed(i),
        AttachStage::Instead(i) => if ok {
            AttachStage::Done
        } else {
            AttachStage::InsteadFailed(i)
        },
        _ => stage,
    }
}

/// Whether a stage belongs to a plan.
pub open spec fn valid_stage(steps: Seq<StepView>, stage: AttachStage) -> bool {
    match stage {
        AttachStage::Step(i) => i < steps.len(),
        AttachStage::CleanUp(i) => i < steps.len() && steps[i as int].on_failure is CleanUp,
        AttachStage::Instead(i) => i < steps.len() && steps[i as int].on_failure is Instead,
        AttachStage::Done => true,
        AttachStage::Failed(i) => i < steps.len(),
        AttachStage::InsteadFailed(i) => i < steps.len() && steps[i as int].on_failure is Instead,
    }
}

/// The command that a stage asks for, if it asks for one.
pub open spec fn stage_command(steps: Seq<StepView>, stage: AttachStage) -> Option<CommandView> {
    match stage {
        AttachStage::Step(i) => Some(steps[i as int].command),
        AttachStage::CleanUp(i) => match steps[i as int].on_failure {
            OnFailureView::CleanUp { command } => Some(command),
            _ => None,
        },
        AttachStage::Instead(i) => match steps[i as int].on_failure {
            OnFailureView::Instead { command, .. } => Some(command),
            _ => None,
        },
        _ => None,
    }
}

/// What is reported at the end of a run; nothing where everything worked.
pub open spec fn stage_report(steps: Seq<StepView>, stage: AttachStage) -> Option<Seq<char>> {
    match stage {
        AttachStage::Failed(i) => Some(steps[i as int].failure),
        AttachStage::InsteadFailed(i) => match steps[i as int].on_failure {
            OnFailureView::Instead { failure, .. } => Some(failure),
            _ => None,
        },
        _ => None,
    }
}

/// What is told before the command of a stage is run.
pub open spec fn stage_note(steps: Seq<StepView>, stage: AttachStage) -> Option<Seq<char>> {
    match stage {
        AttachStage::Instead(i) => match steps[i as int].on_failure {
            OnFailureView::Instead { note, .. } => Some(note),
            _ => None,
        },
        _ => None,
    }
}

/// The commands by which a session is got into.
#[derive(Debug)]
pub struct AttachPlan {
    pub steps: Vec<AttachStep>,
}

impl View for AttachPlan {
    type V = Seq<StepView>;

    open spec fn view(&self) -> Seq<StepView> {
        steps_view(self.steps@)
    }
}

impl AttachPlan {
    /// Where the run of the plan starts.
    pub fn start(&self) -> (r: AttachStage)
        ensures
            r == first_stage(self@),
            valid_stage(self@, r),
    {
        if self.steps.len() == 0 {
            AttachStage::Done
        } else {
            AttachStage::Step(0)
        }
    }

    /// Where the run of the plan goes on once a command has worked or failed.
    pub fn next(&self, stage: AttachStage, ok: bool) -> (r: AttachStage)
        requires
            valid_stage(self@, stage),
        ensures
            r == next_stage(self@, stage, ok),
            valid_stage(self@, r),
    {
        match stage {
            AttachStage::Step(i) => {
                assert(self@[i as int] == self.steps@[i as int]@);
                if ok {
                    if i < self.steps.len() - 1 {
                        AttachStage::Step(i + 1)
                    } else {
                        AttachStage::Done
                    }
                } else {
                    match self.steps[i].on_failure {
                        OnFailure::Report => AttachStage::Failed(i),
                        OnFailure::CleanUp { .. } => AttachStage::CleanUp(i),
                        OnFailure::Instead { .. } => AttachStage::Instead(i),
                    }
                }
            },
            AttachStage::CleanUp(i) => AttachStage::Failed(i),
            AttachStage::Instead(i) => if ok {
                AttachStage::Done
            } else {
                AttachStage::InsteadFailed(i)
            },
            AttachStage::Done => AttachStage::Done,
            AttachStage::Failed(i) => AttachStage::Failed(i),
            AttachStage::InsteadFailed(i) => AttachStage::InsteadFailed(i),
        }
    }

    /// The command that a stage asks for.
    pub fn command(&self, stage: AttachStage) -> (r: Option<&CommandLine>)
        requires
            valid_stage(self@, stage),
        ensures
            match r {
                Some(c) => stage_command(self@, stage) == Some(c@),
                None => stage_command(self@, stage) is None,
            },
    {
        match stage {
            AttachStage::Step(i) => {
                assert(self@[i as int] == self.steps@[i as int]@);
                Some(&self.steps[i].command)
            },
            AttachStage::CleanUp(i) => {
                assert(self@[i as int] == self.steps@[i as int]@);
                match &self.steps[i].on_failure {
                    OnFailure::CleanUp { command } => Some(command),
                    _ => None,
                }
            },
            AttachStage::Instead(i) => {
                assert(self@[i as int] == self.steps@[i as int]@);
                match &self.steps[i].on_failure {
                    OnFailure::Instead { note: _, command, failure: _ } => Some(command),
                    _ => None,
                }
            },
            _ => None,
        }
    }

    /// What is told before the command of a stage is run.
    pub fn note(&self, stage: AttachStage) -> (r: Option<&str>)
        requires
            valid_stage(self@, stage),
        ensures
            match r {
                Some(t) => stage_note(self@, stage) == Some(t@),
                None => stage_note(self@, stage) is None,
            },
    {
        match stage {
            AttachStage::Instead(i) => {
                assert(self@[i as int] == self.steps@[i as int]@);
                match &self.steps[i].on_failure {
                    OnFailure::Instead { note, command: _, failure: _ } => Some(note.as_str()),
                    _ => None,
                }
            },
            _ => None,
        }
    }

    /// What is reported at the end of a run.
    pub fn report(&self, stage: AttachStage) -> (r: Option<String>)
        requires
            valid_stage(self@, stage),
        ensures
            opt_text(r) == stage_report(self@, stage),
    {
        match stage {
            AttachStage::Failed(i) => {
                assert(self@[i as int] == self.steps@[i as int]@);
                Some(self.steps[i].failure.clone())
            },
            AttachStage::InsteadFailed(i) => {
                assert(self@[i as int] == self.steps@[i as int]@);
                match &self.steps[i].on_failure {
                    OnFailure::Instead { note: _, command: _, failure } => Some(failure.clone()),
                    _ => None,
                }
            },
            _ => None,
        }
    }
}

/// Where a run stands after commands that worked or failed.
pub open spec fn run_of(steps: Seq<StepView>, oks: Seq<bool>) -> AttachStage
    decreases oks.len(),
{
    if oks.len() == 0 {
        first_stage(steps)
    } else {
        next_stage(steps, run_of(steps, oks.drop_last()), oks.last())
    }
}

/// A run in which every command works goes through all steps in their order and
/// reports nothing.
pub proof fn law_run_without_failure(steps: Seq<StepView>, oks: Seq<bool>)
    requires
        steps.len() <= usize::MAX,
        oks.len() <= steps.len(),
        forall|k: int| 0 <= k < oks.len() ==> #[trigger] oks[k],
    ensures
        oks.len() < steps.len() ==> run_of(steps, oks) == AttachStage::Step(oks.len() as usize),
        oks.len() == steps.len() ==> run_of(steps, oks) == AttachStage::Done,
        stage_report(steps, run_of(steps, oks)) is None,
    decreases oks.len(),
{
    if oks.len() > 0 {
        assert forall|k: int| 0 <= k < oks.drop_last().len() implies #[trigger] oks.drop_last()[k] by {
            assert(oks[k]);
        }
        law_run_without_failure(steps, oks.drop_last());
        assert(oks[oks.len() - 1]);
    }
}

/// A run that ended stays where it is, whatever comes.
pub proof fn law_ended_run_stays(steps: Seq<StepView>, stage: AttachStage, ok: bool)
    requires
        stage_command(steps, stage) is None,
        valid_stage(steps, stage),
    ensures
        next_stage(steps, stage, ok) == stage,
{
}

// ---------------------------------------------------------------------------
// Targets in tmux
// ---------------------------------------------------------------------------

/// How tmux calls a session, a window of it or a pane of that.
pub open spec fn target_text(
    session: Seq<char>,
    window: Option<Seq<char>>,
    pane: Option<Seq<char>>,
) -> Seq<char> {
    match (window, pane) {
        (Some(w), Some(p)) => session + ":"@ + w + "."@ + p,
        (Some(w), None) => session + ":"@ + w,
        _ => session,
    }
}

/// How tmux calls a window: by its ID, or by its name within the session.
pub open spec fn window_text(session: Seq<char>, window: Seq<char>) -> Seq<char> {
    if starts_with(window, "@"@) {
        window
    } else {
        session + ":"@ + window
    }
}

/// How tmux calls a pane: by its ID, or by its number within the window.
pub open spec fn pane_text(
    session: Seq<char>,
    window: Option<Seq<char>>,
    pane: Seq<char>,
) -> Seq<char> {
    if starts_with(pane, "%"@) {
        pane
    } else {
        match window {
            Some(w) => session + ":"@ + w + "."@ + pane,
            None => session + ":."@ + pane,
        }
    }
}

/// How tmux calls a session, a window of it or a pane of that.
pub fn tmux_target(session: &str, window: Option<&str>, pane: Option<&str>) -> (r: String)
    ensures
        r@ == target_text(session@, slice_text(window), slice_text(pane)),
{
    match (window, pane) {
        (Some(w), Some(p)) => concat5(session, ":", w, ".", p),
        (Some(w), None) => concat3(session, ":", w),
        _ => session.to_string(),
    }
}

/// The text of a slice, if there is one.
pub open spec fn slice_text(s: Option<&str>) -> Option<Seq<char>> {
    match s {
        Some(t) => Some(t@),
        None => None,
    }
}

/// How tmux calls a window.
pub fn window_target(session: &str, window: &str) -> (r: String)
    ensures
        r@ == window_text(session@, window@),
{
    if text_starts_with(window, "@") {
        window.to_string()
    } else {
        concat3(session, ":", window)
    }
}

/// How tmux calls a pane.
pub fn pane_target(session: &str, window: Option<&str>, pane: &str) -> (r: String)
    ensures
        r@ == pane_text(session@, slice_text(window), pane@),
{
    if text_starts_with(pane, "%") {
        return pane.to_string();
    }
    match window {
        Some(w) => concat5(session, ":", w, ".", pane),
        None => concat3(session, ":.", pane),
    }
}

// ---------------------------------------------------------------------------
// Plans for tmux
// ---------------------------------------------------------------------------

/// A tmux command, on another server than the default one where a socket is
/// given.
pub open spec fn tmux_on(socket: Option<Seq<char>>, args: Seq<Seq<char>>) -> CommandView {
    CommandView {
        program: "tmux"@,
        args: match socket {
            Some(path) => seq!["-S"@, path] + args,
            None => args,
        },
    }
}

/// A step whose failure is reported.
pub open spec fn reported(command: CommandView, failure: Seq<char>) -> StepView {
    StepView { command, failure, on_failure: OnFailureView::Report }
}

/// The plan to get to a session of a tmux server: inside tmux the client is
/// switched; outside, window and pane are selected and the session is attached.
pub open spec fn tmux_plan(
    in_tmux: bool,
    socket: Option<Seq<char>>,
    session: Seq<char>,
    window: Option<Seq<char>>,
    pane: Option<Seq<char>>,
) -> Seq<StepView> {
    let target = target_text(session, window, pane);
    if in_tmux {
        seq![
            reported(
                tmux_on(socket, seq!["switch-client"@, "-t"@, target]),
                "tmux switch-client failed for "@ + target,
            ),
        ]
    } else {
        let first = match window {
            Some(w) => seq![
                reported(
                    tmux_on(socket, seq!["select-window"@, "-t"@, window_text(session, w)]),
                    "tmux select-window failed for "@ + window_text(session, w),
                ),
            ],
            None => Seq::empty(),
        };
        let second = match pane {
            Some(p) => seq![
                reported(
                    tmux_on(socket, seq!["select-pane"@, "-t"@, pane_text(session, window, p)]),
                    "tmux select-pane failed for "@ + pane_text(session, window, p),
                ),
            ],
            None => Seq::empty(),
        };
        first + second + seq![
            reported(
                tmux_on(socket, seq!["attach-session"@, "-t"@, session]),
                "tmux attach-session failed for "@ + target,
            ),
        ]
    }
}

/// A tmux command of three words.
fn tmux_command(socket: Option<&str>, a: &str, b: &str, c: &str) -> (r: CommandLine)
    ensures
        r@ == tmux_on(slice_text(socket), seq![a@, b@, c@]),
{
    let mut args: Vec<String> = Vec::new();
    match socket {
        Some(path) => {
            push_text(&mut args, "-S");
            push_text(&mut args, path);
        },
        None => {},
    }
    push_text(&mut args, a);
    push_text(&mut args, b);
    push_text(&mut args, c);
    let r = CommandLine { program: "tmux".to_string(), args };
    assert(r@.args =~= tmux_on(slice_text(socket), seq![a@, b@, c@]).args);
    r
}

/// Adds a step to a plan.
fn push_step(steps: &mut Vec<AttachStep>, step: AttachStep)
    ensures
        steps_view(final(steps)@) == steps_view(old(steps)@).push(step@),
{
    let ghost before = steps@;
    steps.push(step);
    assert(steps_view(steps@) =~= steps_view(before).push(step@));
}

/// The plan to get to a session of a tmux server.
pub fn execute_tmux_attach(
    in_tmux: bool,
    socket_path: Option<&str>,
    session: &str,
    window: Option<&str>,
    pane: Option<&str>,
) -> (r: AttachPlan)
    ensures
        r@ == tmux_plan(
            in_tmux,
            slice_text(socket_path),
            session@,
            slice_text(window),
            slice_text(pane),
        ),
{
    let target = tmux_target(session, window, pane);
    let mut steps: Vec<AttachStep> = Vec::new();
    assert(steps_view(steps@) =~= Seq::<StepView>::empty());
    if in_tmux {
        let step = AttachStep {
            command: tmux_command(socket_path, "switch-client", "-t", target.as_str()),
            failure: concat2("tmux switch-client failed for ", target.as_str()),
            on_failure: OnFailure::Report,
        };
        push_step(&mut steps, step);
    } else {
        match window {
            Some(w) => {
                let t = window_target(session, w);
                let step = AttachStep {
                    command: tmux_command(socket_path, "select-window", "-t", t.as_str()),
                    failure: concat2("tmux select-window failed for ", t.as_str()),
                    on_failure: OnFailure::Report,
                };
                push_step(&mut steps, step);
            },
            None => {},
        }
        match pane {
            Some(p) => {
                let t = pane_target(session, window, p);
                let step = AttachStep {
                    command: tmux_command(socket_path, "select-pane", "-t", t.as_str()),
                    failure: concat2("tmux select-pane failed for ", t.as_str()),
                    on_failure: OnFailure::Report,
                };
                push_step(&mut steps, step);
            },
            None => {},
        }
        let step = AttachStep {
            command: tmux_command(socket_path, "attach-session", "-t", session),
            failure: concat2("tmux attach-session failed for ", target.as_str()),
            on_failure: OnFailure::Report,
        };
        push_step(&mut steps, step);
    }
    let r = AttachPlan { steps };
    assert(r@ =~= tmux_plan(
        in_tmux,
        slice_text(socket_path),
        session@,
        slice_text(window),
        slice_text(pane),
    ));
    r
}

// ---------------------------------------------------------------------------
// Plans for programs
// ---------------------------------------------------------------------------

/// What is known of the path of this program.
#[derive(Debug)]
pub enum ExePath {
    Known(String),
    /// It could not be found out, with the reason.
    Unresolved(String),
    NotUnicode,
}

/// The plan to run a program in the terminal itself.
pub open spec fn direct_step(program: Seq<char>, args: Seq<Seq<char>>) -> StepView {
    reported(CommandView { program, args }, program + " failed"@)
}

/// A command after which a failure is shown for a while.
pub open spec fn wrapped_command(command: Seq<char>) -> Seq<char> {
    command
        + "; status=$?; if [ $status -ne 0 ]; then printf '\\nremote drop-in exited with status %s\\n' \"$status\"; sleep 5; fi; exit $status"@
}

/// A command after which a failure is shown for a while.
pub fn wrap_remote_command(command: &str) -> (r: String)
    ensures
        r@ == wrapped_command(command@),
{
    concat2(
        command,
        "; status=$?; if [ $status -ne 0 ]; then printf '\\nremote drop-in exited with status %s\\n' \"$status\"; sleep 5; fi; exit $status",
    )
}

/// The session of its own in which a program is run, by the number of this
/// process.
pub open spec fn wrapper_name(pid: u32) -> Seq<char> {
    "ocwatch-return-"@ + decimal(pid as nat)
}

/// A tmux command.
pub open spec fn tmux(args: Seq<Seq<char>>) -> CommandView {
    CommandView { program: "tmux"@, args }
}

/// A step after whose failure the session of its own is ended.
pub open spec fn ending(args: Seq<Seq<char>>, wrapper: Seq<char>, failure: Seq<char>) -> StepView {
    StepView {
        command: tmux(args),
        failure,
        on_failure: OnFailureView::CleanUp {
            command: tmux(seq!["kill-session"@, "-t"@, wrapper]),
        },
    }
}

/// The plan to run a program in a tmux session of its own, from which the user
/// comes back to this program: the session, without its prefix keys, a window
/// with the program, and the way into it. Without tmux the program is run in the
/// terminal itself.
pub open spec fn wrapper_plan(
    program: Seq<char>,
    args: Seq<Seq<char>>,
    window_name: Seq<char>,
    exe: Seq<char>,
    pid: u32,
) -> Seq<StepView> {
    let wrapper = wrapper_name(pid);
    let window = sanitized(window_name, "remote"@);
    let command = wrapped_command(command_line(seq![program] + args));
    seq![
        StepView {
            command: tmux(
                seq!["new-session"@, "-d"@, "-s"@, wrapper, "-n"@, "ocwatch"@, quoted(exe)],
            ),
            failure: Seq::empty(),
            on_failure: OnFailureView::Instead {
                note: "local tmux unavailable; running remote attach directly"@,
                command: CommandView { program, args },
                failure: program + " failed"@,
            },
        },
        ending(
            seq!["set-option"@, "-t"@, wrapper, "prefix"@, "None"@],
            wrapper,
            "tmux set-option prefix failed for "@ + wrapper,
        ),
        ending(
            seq!["set-option"@, "-t"@, wrapper, "prefix2"@, "None"@],
            wrapper,
            "tmux set-option prefix2 failed for "@ + wrapper,
        ),
        ending(
            seq!["new-window"@, "-t"@, wrapper, "-n"@, window, "sh"@, "-lc"@, command],
            wrapper,
            "tmux new-window failed for "@ + window,
        ),
        ending(
            seq!["attach-session"@, "-t"@, wrapper + ":"@ + window],
            wrapper,
            "tmux attach-session failed for "@ + wrapper,
        ),
    ]
}

/// The plan to run a program: in a new window inside tmux, in a session of its
/// own outside, and in the terminal itself where no window is asked for. There
/// is none where the path of this program is needed and unknown; then a report
/// takes its place.
pub open spec fn exec_plan(
    in_tmux: bool,
    program: Seq<char>,
    args: Seq<Seq<char>>,
    window_name: Option<Seq<char>>,
    exe: ExePath,
    pid: u32,
) -> Result<Seq<StepView>, Seq<char>> {
    match window_name {
        Some(name) => if in_tmux {
            Ok(
                seq![
                    reported(
                        tmux(
                            seq![
                                "new-window"@,
                                "-n"@,
                                name,
                                command_line(seq![program] + args),
                            ],
                        ),
                        "tmux new-window failed for "@ + name,
                    ),
                ],
            )
        } else {
            match exe {
                ExePath::Known(path) => Ok(wrapper_plan(program, args, name, path@, pid)),
                ExePath::Unresolved(reason) => Err(
                    "Failed to resolve current executable: "@ + reason@,
                ),
                ExePath::NotUnicode => Err("Current executable path is not valid UTF-8"@),
            }
        },
        None => Ok(seq![direct_step(program, args)]),
    }
}

/// The command that ends the session of its own.
fn kill_session(wrapper: &str) -> (r: CommandLine)
    ensures
        r@ == tmux(seq!["kill-session"@, "-t"@, wrapper@]),
{
    let mut args: Vec<String> = Vec::new();
    push_text(&mut args, "kill-session");
    push_text(&mut args, "-t");
    push_text(&mut args, wrapper);
    let r = CommandLine { program: "tmux".to_string(), args };
    assert(r@.args =~= seq!["kill-session"@, "-t"@, wrapper@]);
    r
}

/// The command that unsets an option of a session.
fn unset_option(wrapper: &str, option: &str) -> (r: CommandLine)
    ensures
        r@ == tmux(seq!["set-option"@, "-t"@, wrapper@, option@, "None"@]),
{
    let mut args: Vec<String> = Vec::new();
    push_text(&mut args, "set-option");
    push_text(&mut args, "-t");
    push_text(&mut args, wrapper);
    push_text(&mut args, option);
    push_text(&mut args, "None");
    let r = CommandLine { program: "tmux".to_string(), args };
    assert(r@.args =~= seq!["set-option"@, "-t"@, wrapper@, option@, "None"@]);
    r
}

/// A step after whose failure the session of its own is ended.
fn ending_step(command: CommandLine, wrapper: &str, failure: String) -> (r: AttachStep)
    ensures
        r@ == (StepView {
            command: command@,
            failure: failure@,
            on_failure: OnFailureView::CleanUp {
                command: tmux(seq!["kill-session"@, "-t"@, wrapper@]),
            },
        }),
{
    AttachStep {
        command,
        failure,
        on_failure: OnFailure::CleanUp { command: kill_session(wrapper) },
    }
}

/// The plan to run a program in a tmux session of its own.
pub fn execute_exec_attach_with_tmux_wrapper(
    program: &str,
    args: &Vec<String>,
    tmux_window_name: &str,
    exe: &str,
    pid: u32,
) -> (r: AttachPlan)
    ensures
        r@ == wrapper_plan(program@, strings(args@), tmux_window_name@, exe@, pid),
{
    let wrapper = concat2("ocwatch-return-", number_text(pid as u64).as_str());
    let window = sanitize_name(tmux_window_name, "remote");
    let command = wrap_remote_command(shell_join(program, args).as_str());
    let mut create: Vec<String> = Vec::new();
    push_text(&mut create, "new-session");
    push_text(&mut create, "-d");
    push_text(&mut create, "-s");
    push_text(&mut create, wrapper.as_str());
    push_text(&mut create, "-n");
    push_text(&mut create, "ocwatch");
    push_text(&mut create, shell_escape(exe).as_str());
    let mut steps: Vec<AttachStep> = Vec::new();
    assert(steps_view(steps@) =~= Seq::<StepView>::empty());
    let first = AttachStep {
        command: CommandLine { program: "tmux".to_string(), args: create },
        failure: String::new(),
        on_failure: OnFailure::Instead {
            note: "local tmux unavailable; running remote attach directly".to_string(),
            command: CommandLine { program: program.to_string(), args: clone_strings(args) },
            failure: concat2(program, " failed"),
        },
    };
    let ghost plan = wrapper_plan(program@, strings(args@), tmux_window_name@, exe@, pid);
    assert(first@.command.args =~= plan[0].command.args);
    assert(first@.failure =~= Seq::<char>::empty());
    push_step(&mut steps, first);
    push_step(
        &mut steps,
        ending_step(
            unset_option(wrapper.as_str(), "prefix"),
            wrapper.as_str(),
            concat2("tmux set-option prefix failed for ", wrapper.as_str()),
        ),
    );
    push_step(
        &mut steps,
        ending_step(
            unset_option(wrapper.as_str(), "prefix2"),
            wrapper.as_str(),
            concat2("tmux set-option prefix2 failed for ", wrapper.as_str()),
        ),
    );
    let mut open: Vec<String> = Vec::new();
    push_text(&mut open, "new-window");
    push_text(&mut open, "-t");
    push_text(&mut open, wrapper.as_str());
    push_text(&mut open, "-n");
    push_text(&mut open, window.as_str());
    push_text(&mut open, "sh");
    push_text(&mut open, "-lc");
    push_text(&mut open, command.as_str());
    assert(strings(open@) =~= plan[3].command.args);
    push_step(
        &mut steps,
        ending_step(
            CommandLine { program: "tmux".to_string(), args: open },
            wrapper.as_str(),
            concat2("tmux new-window failed for ", window.as_str()),
        ),
    );
    let mut attach: Vec<String> = Vec::new();
    push_text(&mut attach, "attach-session");
    push_text(&mut attach, "-t");
    push_text(&mut attach, concat3(wrapper.as_str(), ":", window.as_str()).as_str());
    assert(strings(attach@) =~= plan[4].command.args);
    push_step(
        &mut steps,
        ending_step(
            CommandLine { program: "tmux".to_string(), args: attach },
            wrapper.as_str(),
            concat2("tmux attach-session failed for ", wrapper.as_str()),
        ),
    );
    let r = AttachPlan { steps };
    assert(r@ =~= plan);
    r
}

/// The plan to run a program in the terminal itself.
fn execute_direct_attach(program: &str, args: &Vec<String>) -> (r: AttachPlan)
    ensures
        r@ == seq![direct_step(program@, strings(args@))],
{
    let step = AttachStep {
        command: CommandLine { program: program.to_string(), args: clone_strings(args) },
        failure: concat2(program, " failed"),
        on_failure: OnFailure::Report,
    };
    let mut steps: Vec<AttachStep> = Vec::new();
    assert(steps_view(steps@) =~= Seq::<StepView>::empty());
    push_step(&mut steps, step);
    let r = AttachPlan { steps };
    assert(r@ =~= seq![direct_step(program@, strings(args@))]);
    r
}

/// The view of a plan, or the report that takes its place.
pub open spec fn plan_view(r: Result<AttachPlan, String>) -> Result<Seq<StepView>, Seq<char>> {
    match r {
        Ok(plan) => Ok(plan@),
        Err(report) => Err(report@),
    }
}

/// The plan to run a program.
pub fn execute_exec_attach(
    in_tmux: bool,
    program: &str,
    args: &Vec<String>,
    tmux_window_name: Option<&str>,
    exe: &ExePath,
    pid: u32,
) -> (r: Result<AttachPlan, String>)
    ensures
        plan_view(r) == exec_plan(
            in_tmux,
            program@,
            strings(args@),
            slice_text(tmux_window_name),
            *exe,
            pid,
        ),
{
    match tmux_window_name {
        Some(name) => {
            if in_tmux {
                let mut open: Vec<String> = Vec::new();
                push_text(&mut open, "new-window");
                push_text(&mut open, "-n");
                push_text(&mut open, name);
                push_text(&mut open, shell_join(program, args).as_str());
                assert(strings(open@) =~= seq![
                    "new-window"@,
                    "-n"@,
                    name@,
                    command_line(seq![program@] + strings(args@)),
                ]);
                let step = AttachStep {
                    command: CommandLine { program: "tmux".to_string(), args: open },
                    failure: concat2("tmux new-window failed for ", name),
                    on_failure: OnFailure::Report,
                };
                let mut steps: Vec<AttachStep> = Vec::new();
                assert(steps_view(steps@) =~= Seq::<StepView>::empty());
                push_step(&mut steps, step);
                let plan = AttachPlan { steps };
                assert(plan@ =~= exec_plan(
                    in_tmux,
                    program@,
                    strings(args@),
                    slice_text(tmux_window_name),
                    *exe,
                    pid,
                )->Ok_0);
                Ok(plan)
            } else {
                match exe {
                    ExePath::Known(path) => Ok(
                        execute_exec_attach_with_tmux_wrapper(
                            program,
                            args,
                            name,
                            path.as_str(),
                            pid,
                        ),
                    ),
                    ExePath::Unresolved(reason) => Err(
                        concat2("Failed to resolve current executable: ", reason.as_str()),
                    ),
                    ExePath::NotUnicode => Err(
                        "Current executable path is not valid UTF-8".to_string(),
                    ),
                }
            }
        },
        None => Ok(execute_direct_attach(program, args)),
    }
}

/// A slice of a text, if there is one.
fn as_slice_opt(s: &Option<String>) -> (r: Option<&str>)
    ensures
        slice_text(r) == opt_text(*s),
{
    match s {
        Some(t) => Some(t.as_str()),
        None => None,
    }
}

/// The plan to get into a session.
pub open spec fn attach_plan(attach: AttachView, in_tmux: bool, exe: ExePath, pid: u32) -> Result<
    Seq<StepView>,
    Seq<char>,
> {
    match attach {
        AttachView::LocalTmux { session, window, pane } => Ok(
            tmux_plan(in_tmux, None, session, window, pane),
        ),
        AttachView::Exec { program, args, tmux_window_name } => exec_plan(
            in_tmux,
            program,
            args,
            tmux_window_name,
            exe,
            pid,
        ),
    }
}

/// The plan to get into a session.
pub fn execute_attach(attach: &AttachSpec, in_tmux: bool, exe: &ExePath, pid: u32) -> (r: Result<
    AttachPlan,
    String,
>)
    ensures
        plan_view(r) == attach_plan(attach@, in_tmux, *exe, pid),
{
    match attach {
        AttachSpec::LocalTmux { session, window, pane } => Ok(
            execute_tmux_attach(
                in_tmux,
                None,
                session.as_str(),
                as_slice_opt(window),
                as_slice_opt(pane),
            ),
        ),
        AttachSpec::Exec { program, args, tmux_window_name } => execute_exec_attach(
            in_tmux,
            program.as_str(),
            args,
            as_slice_opt(tmux_window_name),
            exe,
            pid,
        ),
    }
}

/// Once the session of its own exists, every failure ends it: the command that
/// cleans up is the one that kills it.
pub proof fn law_wrapper_leaves_nothing_behind(
    program: Seq<char>,
    args: Seq<Seq<char>>,
    window_name: Seq<char>,
    exe: Seq<char>,
    pid: u32,
    i: usize,
)
    requires
        0 < i < wrapper_plan(program, args, window_name, exe, pid).len(),
    ensures
        ({
            let plan = wrapper_plan(program, args, window_name, exe, pid);
            let failed = next_stage(plan, AttachStage::Step(i), false);
            &&& failed == AttachStage::CleanUp(i)
            &&& stage_command(plan, failed) == Some(
                tmux(seq!["kill-session"@, "-t"@, wrapper_name(pid)]),
            )
            &&& stage_report(plan, next_stage(plan, failed, false)) == Some(plan[i as int].failure)
            &&& stage_report(plan, next_stage(plan, failed, true)) == Some(plan[i as int].failure)
        }),
{
}

/// A target names its session, its window where that is known, and its pane where
/// both are; a window or a pane that is given by its ID stands for itself.
pub proof fn law_targets_by_name_or_id(
    session: Seq<char>,
    window: Seq<char>,
    pane: Seq<char>,
    id: Seq<char>,
)
    requires
        !starts_with(window, "@"@),
        !starts_with(pane, "%"@),
    ensures
        target_text(session, Some(window), Some(pane)) == session + ":"@ + window + "."@ + pane,
        target_text(session, Some(window), None) == session + ":"@ + window,
        target_text(session, None, Some(pane)) == session,
        target_text(session, None, None) == session,
        window_text(session, window) == session + ":"@ + window,
        window_text(session, "@"@ + id) == "@"@ + id,
        pane_text(session, Some(window), pane) == session + ":"@ + window + "."@ + pane,
        pane_text(session, None, pane) == session + ":."@ + pane,
        pane_text(session, Some(window), "%"@ + id) == "%"@ + id,
        pane_text(session, None, "%"@ + id) == "%"@ + id,
{
    law_parts_are_seen(Seq::empty(), "@"@, id);
    law_parts_are_seen(Seq::empty(), "%"@, id);
}

/// Inside tmux the client is switched to the target in one step. Outside, the
/// window and the pane are selected where they are known, in this order, and then
/// the session is attached to. Each failure is reported, and a socket goes before
/// all other words.
pub proof fn law_steps_into_tmux(
    socket: Option<Seq<char>>,
    session: Seq<char>,
    window: Option<Seq<char>>,
    pane: Option<Seq<char>>,
)
    ensures
        ({
            let inside = tmux_plan(true, socket, session, window, pane);
            let outside = tmux_plan(false, socket, session, window, pane);
            let lead: int = if socket is Some {
                2
            } else {
                0
            };
            &&& inside.len() == 1
            &&& inside[0].command.program == "tmux"@
            &&& inside[0].command.args.skip(lead) =~= seq![
                "switch-client"@,
                "-t"@,
                target_text(session, window, pane),
            ]
            &&& outside.len() == 1 + (if window is Some {
                1int
            } else {
                0
            }) + (if pane is Some {
                1int
            } else {
                0
            })
            &&& outside.last().command.args.skip(lead) =~= seq!["attach-session"@, "-t"@, session]
            &&& window matches Some(w) ==> outside[0].command.args.skip(lead) =~= seq![
                "select-window"@,
                "-t"@,
                window_text(session, w),
            ]
            &&& pane matches Some(p) ==> outside[outside.len() - 2].command.args.skip(lead)
                =~= seq!["select-pane"@, "-t"@, pane_text(session, window, p)]
            &&& forall|k: int|
                0 <= k < outside.len() ==> (#[trigger] outside[k]).on_failure is Report
                    && outside[k].command.program == "tmux"@
            &&& inside[0].on_failure is Report
            &&& socket matches Some(path) ==> inside[0].command.args[0] == "-S"@
                && inside[0].command.args[1] == path
            &&& socket matches Some(path) ==> forall|k: int|
                0 <= k < outside.len() ==> (#[trigger] outside[k]).command.args[0] == "-S"@
                    && outside[k].command.args[1] == path
        }),
{
}

/// What becomes of a run when a step succeeds or fails: success leads to the next
/// step, or to the end after the last; failure is reported, after cleaning up
/// where that is called for, or has another command run instead, whose own
/// success ends the run.
pub proof fn law_run_goes_on_or_ends(steps: Seq<StepView>, i: usize)
    requires
        i < steps.len() <= usize::MAX,
    ensures
        i + 1 < steps.len() ==> next_stage(steps, AttachStage::Step(i), true) == AttachStage::Step(
            (i + 1) as usize,
        ),
        i + 1 == steps.len() ==> next_stage(steps, AttachStage::Step(i), true) == AttachStage::Done,
        steps[i as int].on_failure is Report ==> next_stage(steps, AttachStage::Step(i), false)
            == AttachStage::Failed(i),
        steps[i as int].on_failure is CleanUp ==> next_stage(steps, AttachStage::Step(i), false)
            == AttachStage::CleanUp(i),
        steps[i as int].on_failure is Instead ==> next_stage(steps, AttachStage::Step(i), false)
            == AttachStage::Instead(i),
        next_stage(steps, AttachStage::CleanUp(i), true) == AttachStage::Failed(i),
        next_stage(steps, AttachStage::CleanUp(i), false) == AttachStage::Failed(i),
        next_stage(steps, AttachStage::Instead(i), true) == AttachStage::Done,
        next_stage(steps, AttachStage::Instead(i), false) == AttachStage::InsteadFailed(i),
{
}

/// A step runs its own command, cleaning up the command for that, and what runs
/// instead its command; the report of a failed run is that of the step that failed.
pub proof fn law_each_stage_has_its_command(steps: Seq<StepView>, i: usize)
    requires
        i < steps.len(),
    ensures
        stage_command(steps, AttachStage::Step(i)) == Some(steps[i as int].command),
        stage_command(steps, AttachStage::Done) is None,
        stage_command(steps, AttachStage::Failed(i)) is None,
        stage_command(steps, AttachStage::InsteadFailed(i)) is None,
        stage_report(steps, AttachStage::Failed(i)) == Some(steps[i as int].failure),
        stage_report(steps, AttachStage::Done) is None,
        stage_report(steps, AttachStage::Step(i)) is None,
        match steps[i as int].on_failure {
            OnFailureView::Report => true,
            OnFailureView::CleanUp { command } => stage_command(steps, AttachStage::CleanUp(i))
                == Some(command),
            OnFailureView::Instead { note, command, failure } => stage_command(
                steps,
                AttachStage::Instead(i),
            ) == Some(command) && stage_note(steps, AttachStage::Instead(i)) == Some(note)
                && stage_report(steps, AttachStage::InsteadFailed(i)) == Some(failure),
        },
{
}

/// How a program is run to attach with: directly where no window is named; inside
/// tmux in a new window of that name; outside in a session of its own, for which
/// the path of this program has to be known.
pub proof fn law_how_a_program_attaches(
    in_tmux: bool,
    program: Seq<char>,
    args: Seq<Seq<char>>,
    name: Seq<char>,
    exe: ExePath,
    pid: u32,
)
    ensures
        exec_plan(in_tmux, program, args, None, exe, pid) matches Ok(steps) && steps.len() == 1
            && steps[0].command.program == program && steps[0].command.args == args
            && steps[0].on_failure is Report,
        in_tmux ==> (exec_plan(in_tmux, program, args, Some(name), exe, pid) matches Ok(steps)
            && steps.len() == 1 && steps[0].command.program == "tmux"@ && steps[0].command.args
            =~= seq!["new-window"@, "-n"@, name, command_line(seq![program] + args)]),
        !in_tmux ==> (exec_plan(in_tmux, program, args, Some(name), exe, pid) is Err <==> !(exe
            is Known)),
        !in_tmux && exe is Known ==> exec_plan(in_tmux, program, args, Some(name), exe, pid)
            == Ok::<Seq<StepView>, Seq<char>>(
            wrapper_plan(program, args, name, exe->Known_0@, pid),
        ),
{
}

/// A session of its own is named after this process. It is started with this
/// program, takes no prefix keys, runs the command in a window of its own and is
/// attached to at that window; where it cannot be started, the command is run
/// directly instead, and every later failure ends it.
pub proof fn law_steps_of_an_own_session(
    program: Seq<char>,
    args: Seq<Seq<char>>,
    window_name: Seq<char>,
    exe: Seq<char>,
    pid: u32,
)
    ensures
        ({
            let steps = wrapper_plan(program, args, window_name, exe, pid);
            let own = "ocwatch-return-"@ + decimal(pid as nat);
            let window = sanitized(window_name, "remote"@);
            &&& steps.len() == 5
            &&& forall|k: int| 0 <= k < 5 ==> (#[trigger] steps[k]).command.program == "tmux"@
            &&& steps[0].command.args =~= seq![
                "new-session"@,
                "-d"@,
                "-s"@,
                own,
                "-n"@,
                "ocwatch"@,
                quoted(exe),
            ]
            &&& steps[0].on_failure matches OnFailureView::Instead { command, .. }
                && command.program == program && command.args == args
            &&& steps[1].command.args =~= seq!["set-option"@, "-t"@, own, "prefix"@, "None"@]
            &&& steps[2].command.args =~= seq!["set-option"@, "-t"@, own, "prefix2"@, "None"@]
            &&& steps[3].command.args =~= seq![
                "new-window"@,
                "-t"@,
                own,
                "-n"@,
                window,
                "sh"@,
                "-lc"@,
                wrapped_command(command_line(seq![program] + args)),
            ]
            &&& steps[4].command.args =~= seq!["attach-session"@, "-t"@, own + ":"@ + window]
            &&& forall|k: int|
                1 <= k < 5 ==> ((#[trigger] steps[k]).on_failure matches OnFailureView::CleanUp {
                    command,
                } && command.program == "tmux"@ && command.args =~= seq![
                    "kill-session"@,
                    "-t"@,
                    own,
                ])
            &&& starts_with(
                wrapped_command(command_line(seq![program] + args)),
                command_line(seq![program] + args) + "; status=$?; "@,
            )
        }),
{
    let line = command_line(seq![program] + args);
    let tail = "; status=$?; if [ $status -ne 0 ]; then printf '\\nremote drop-in exited with status %s\\n' \"$status\"; sleep 5; fi; exit $status"@;
    reveal_strlit("; status=$?; ");
    reveal_strlit(
        "; status=$?; if [ $status -ne 0 ]; then printf '\\nremote drop-in exited with status %s\\n' \"$status\"; sleep 5; fi; exit $status",
    );
    let head = line + "; status=$?; "@;
    assert(tail.take(13) =~= "; status=$?; "@);
    assert((line + tail).take(head.len() as int) =~= line + tail.take(13));
}

/// A place in tmux is gone to by the steps into tmux, without a socket; a program
/// is attached with as the program is.
pub proof fn law_plan_follows_what_is_attached_to(
    session: Seq<char>,
    window: Option<Seq<char>>,
    pane: Option<Seq<char>>,
    program: Seq<char>,
    args: Seq<Seq<char>>,
    name: Option<Seq<char>>,
    in_tmux: bool,
    exe: ExePath,
    pid: u32,
)
    ensures
        attach_plan(AttachView::LocalTmux { session, window, pane }, in_tmux, exe, pid) == Ok::<
            Seq<StepView>,
            Seq<char>,
        >(tmux_plan(in_tmux, None, session, window, pane)),
        attach_plan(
            AttachView::Exec { program, args, tmux_window_name: name },
            in_tmux,
            exe,
            pid,
        ) == exec_plan(in_tmux, program, args, name, exe, pid),
{
}

/// A failed step is reported with what it was about.
pub proof fn law_failures_name_their_target(
    socket: Option<Seq<char>>,
    session: Seq<char>,
    window: Option<Seq<char>>,
    pane: Option<Seq<char>>,
)
    ensures
        tmux_plan(true, socket, session, window, pane)[0].failure
            == "tmux switch-client failed for "@ + target_text(session, window, pane),
        tmux_plan(false, socket, session, window, pane).last().failure
            == "tmux attach-session failed for "@ + target_text(session, window, pane),
        window matches Some(w) ==> tmux_plan(false, socket, session, window, pane)[0].failure
            == "tmux select-window failed for "@ + window_text(session, w),
        pane matches Some(p) ==> ({
            let steps = tmux_plan(false, socket, session, window, pane);
            steps[steps.len() - 2].failure == "tmux select-pane failed for "@ + pane_text(
                session,
                window,
                p,
            )
        }),
{
}

} // verus!
