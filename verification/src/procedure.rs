//! What the updater does to the device, as data: procedures made of commands, and the
//! rules by which a procedure is carried out.

use vstd::prelude::*;
use vstd::string::*;

verus! {

/// One thing to do on the device.
#[derive(Debug, PartialEq, Eq)]
pub enum Command {
    /// Remove a file.
    RemoveFile(String),
    /// Remove a directory with all that is in it.
    RemoveDirAll(String),
    /// Create a directory and the directories above it.
    CreateDirAll(String),
    /// Create an empty file, or empty one that is there.
    CreateFile(String),
    /// Write bytes to a file.
    WriteBytes { path: String, data: Vec<u8> },
    /// Write text to a file, which is created if it is not there.
    WriteText { path: String, text: String },
    /// Run a program to its end, whatever its exit status.
    Run { program: String, args: Vec<String> },
    /// Run a program to its end; an exit status other than success is a failure.
    RunChecked { program: String, args: Vec<String> },
    /// Copy a directory with all that is in it.
    CopyTree { from: String, to: String },
    /// After a delay start a program, with additions to its environment; if it starts,
    /// end this process after another delay.
    Launch {
        program: String,
        args: Vec<String>,
        env: Vec<(String, String)>,
        delay_ms: u64,
        linger_ms: u64,
    },
}

/// The content of a `Command`.
pub ghost enum CommandView {
    RemoveFile(Seq<char>),
    RemoveDirAll(Seq<char>),
    CreateDirAll(Seq<char>),
    CreateFile(Seq<char>),
    WriteBytes { path: Seq<char>, data: Seq<u8> },
    WriteText { path: Seq<char>, text: Seq<char> },
    Run { program: Seq<char>, args: Seq<Seq<char>> },
    RunChecked { program: Seq<char>, args: Seq<Seq<char>> },
    CopyTree { from: Seq<char>, to: Seq<char> },
    Launch {
        program: Seq<char>,
        args: Seq<Seq<char>>,
        env: Seq<(Seq<char>, Seq<char>)>,
        delay_ms: u64,
        linger_ms: u64,
    },
}

impl DeepView for Command {
    type V = CommandView;

    open spec fn deep_view(&self) -> CommandView {
        match self {
            Command::RemoveFile(path) => CommandView::RemoveFile(path@),
            Command::RemoveDirAll(path) => CommandView::RemoveDirAll(path@),
            Command::CreateDirAll(path) => CommandView::CreateDirAll(path@),
            Command::CreateFile(path) => CommandView::CreateFile(path@),
            Command::WriteBytes { path, data } => CommandView::WriteBytes {
                path: path@,
                data: data@,
            },
            Command::WriteText { path, text } => CommandView::WriteText {
                path: path@,
                text: text@,
            },
            Command::Run { program, args } => CommandView::Run {
                program: program@,
                args: args.deep_view(),
            },
            Command::RunChecked { program, args } => CommandView::RunChecked {
                program: program@,
                args: args.deep_view(),
            },
            Command::CopyTree { from, to } => CommandView::CopyTree { from: from@, to: to@ },
            Command::Launch { program, args, env, delay_ms, linger_ms } => CommandView::Launch {
                program: program@,
                args: args.deep_view(),
                env: env.deep_view(),
                delay_ms: *delay_ms,
                linger_ms: *linger_ms,
            },
        }
    }
}

/// What the failure of a step means for its procedure.
#[derive(Debug, PartialEq, Eq)]
pub enum OnFailure {
    /// Nothing: the procedure goes on.
    Ignore,
    /// The procedure ends with an error: `before`, then the words of the failure, then,
    /// unless a program was run and reported the failure itself, `after`.
    Abort { before: String, after: String },
}

/// The content of an `OnFailure`.
pub ghost enum OnFailureView {
    Ignore,
    Abort { before: Seq<char>, after: Seq<char> },
}

impl DeepView for OnFailure {
    type V = OnFailureView;

    open spec fn deep_view(&self) -> OnFailureView {
        match self {
            OnFailure::Ignore => OnFailureView::Ignore,
            OnFailure::Abort { before, after } => OnFailureView::Abort {
                before: before@,
                after: after@,
            },
        }
    }
}

/// One step of a procedure.
#[derive(Debug, PartialEq, Eq)]
pub struct Step {
    /// The path without which the step is left out.
    pub guard: Option<String>,
    /// What the step does.
    pub command: Command,
    /// What its failure means.
    pub on_failure: OnFailure,
}

/// The content of a `Step`.
pub ghost struct StepView {
    pub guard: Option<Seq<char>>,
    pub command: CommandView,
    pub on_failure: OnFailureView,
}

impl DeepView for Step {
    type V = StepView;

    open spec fn deep_view(&self) -> StepView {
        StepView {
            guard: self.guard.deep_view(),
            command: self.command.deep_view(),
            on_failure: self.on_failure.deep_view(),
        }
    }
}

/// Steps to take in order, and steps to take if one of them ends the procedure.
#[derive(Debug, PartialEq, Eq)]
pub struct Procedure {
    /// The steps.
    pub steps: Vec<Step>,
    /// What to do after a failure that ends the procedure.
    pub cleanup: Vec<Step>,
}

/// The content of a `Procedure`.
pub ghost struct ProcedureView {
    pub steps: Seq<StepView>,
    pub cleanup: Seq<StepView>,
}

impl DeepView for Procedure {
    type V = ProcedureView;

    open spec fn deep_view(&self) -> ProcedureView {
        ProcedureView { steps: self.steps.deep_view(), cleanup: self.cleanup.deep_view() }
    }
}

/// A step whose failure does not matter.
pub open spec fn ignored_step(command: CommandView) -> StepView {
    StepView { guard: None, command, on_failure: OnFailureView::Ignore }
}

/// A step whose failure ends the procedure with an error that starts with `before`.
pub open spec fn needed_step(command: CommandView, before: Seq<char>) -> StepView {
    StepView {
        guard: None,
        command,
        on_failure: OnFailureView::Abort { before, after: Seq::empty() },
    }
}

/// The step, taken only where `path` exists.
pub open spec fn guarded(path: Seq<char>, step: StepView) -> StepView {
    StepView { guard: Some(path), ..step }
}

/// The steps with their failures ignored.
pub open spec fn ignoring(steps: Seq<StepView>) -> Seq<StepView> {
    steps.map_values(|s: StepView| StepView { on_failure: OnFailureView::Ignore, ..s })
}

/// A step whose failure does not matter.
pub fn ignored(command: Command) -> (r: Step)
    ensures
        r.deep_view() == ignored_step(command.deep_view()),
{
    Step { guard: None, command, on_failure: OnFailure::Ignore }
}

/// A step whose failure ends the procedure with an error that starts with `before`.
pub fn needed(command: Command, before: String) -> (r: Step)
    ensures
        r.deep_view() == needed_step(command.deep_view(), before@),
{
    Step { guard: None, command, on_failure: OnFailure::Abort { before, after: String::new() } }
}

/// The step, taken only where `path` exists.
pub fn when_exists(path: String, step: Step) -> (r: Step)
    ensures
        r.deep_view() == guarded(path@, step.deep_view()),
{
    Step { guard: Some(path), command: step.command, on_failure: step.on_failure }
}

/// The steps with their failures ignored.
pub fn ignore_failures(steps: Vec<Step>) -> (r: Vec<Step>)
    ensures
        r.deep_view() == ignoring(steps.deep_view()),
{
    let ghost all = steps.deep_view();
    let mut rest = steps;
    let mut r: Vec<Step> = Vec::new();
    while rest.len() > 0
        invariant
            rest.len() + r.len() == all.len(),
            rest.deep_view() == all.skip(r.len() as int),
            r.deep_view() == ignoring(all).take(r.len() as int),
        decreases rest.len(),
    {
        let ghost before = rest.deep_view();
        let step = rest.remove(0);
        proof {
            assert(step.deep_view() == before[0]);
            assert(rest.deep_view() =~= before.skip(1));
        }
        r.push(
            Step { guard: step.guard, command: step.command, on_failure: OnFailure::Ignore },
        );
        proof {
            assert(r.deep_view() =~= ignoring(all).take(r.len() as int));
            assert(rest.deep_view() =~= all.skip(r.len() as int));
        }
    }
    assert(ignoring(all).take(r.len() as int) =~= ignoring(all));
    r
}

/// What came back from the device.
#[derive(Debug, PartialEq, Eq)]
pub enum Event {
    /// Whether a path exists.
    Exists(bool),
    /// The command was done.
    Done,
    /// The command failed, in the words of the system.
    Failed(String),
    /// A program was run to its end.
    Exited { success: bool, stderr: String },
}

/// The content of an `Event`.
pub ghost enum EventView {
    Exists(bool),
    Done,
    Failed(Seq<char>),
    Exited { success: bool, stderr: Seq<char> },
}

impl DeepView for Event {
    type V = EventView;

    open spec fn deep_view(&self) -> EventView {
        match self {
            Event::Exists(b) => EventView::Exists(*b),
            Event::Done => EventView::Done,
            Event::Failed(e) => EventView::Failed(e@),
            Event::Exited { success, stderr } => EventView::Exited {
                success: *success,
                stderr: stderr@,
            },
        }
    }
}

/// What is to be done next.
#[derive(Debug, PartialEq, Eq)]
pub enum Action<'a> {
    /// Find out whether a path exists.
    Probe(&'a str),
    /// Carry out a command.
    Perform(&'a Command),
    /// Nothing more: the procedure has ended.
    Finished(Result<(), String>),
}

/// The content of an `Action`; a procedure that ended well has no failure.
pub ghost enum ActionView {
    Probe(Seq<char>),
    Perform(CommandView),
    Finished(Option<Seq<char>>),
}

impl<'a> DeepView for Action<'a> {
    type V = ActionView;

    open spec fn deep_view(&self) -> ActionView {
        match self {
            Action::Probe(path) => ActionView::Probe(path@),
            Action::Perform(command) => ActionView::Perform(command.deep_view()),
            Action::Finished(Ok(_)) => ActionView::Finished(None),
            Action::Finished(Err(e)) => ActionView::Finished(Some(e@)),
        }
    }
}

/// A procedure that is being carried out.
#[derive(Debug, PartialEq, Eq)]
pub struct Run {
    steps: Vec<Step>,
    cleanup: Vec<Step>,
    at: usize,
    probed: bool,
    failure: Option<String>,
}

/// Where a run stands.
pub ghost struct RunView {
    /// The steps that are still to be taken.
    pub todo: Seq<StepView>,
    /// What would be done after a failure.
    pub cleanup: Seq<StepView>,
    /// Whether the path that the next step needs is known to exist.
    pub probed: bool,
    /// The error that the procedure ends with.
    pub failure: Option<Seq<char>>,
}

/// The start of a procedure.
pub open spec fn start_of(procedure: ProcedureView) -> RunView {
    RunView {
        todo: procedure.steps,
        cleanup: procedure.cleanup,
        probed: false,
        failure: None,
    }
}

/// What a run does next.
pub open spec fn action_of(run: RunView) -> ActionView {
    if run.todo.len() == 0 {
        ActionView::Finished(run.failure)
    } else {
        match run.todo.first().guard {
            Some(path) => if run.probed {
                ActionView::Perform(run.todo.first().command)
            } else {
                ActionView::Probe(path)
            },
            None => ActionView::Perform(run.todo.first().command),
        }
    }
}

/// The error that a step ends its procedure with, when `event` comes back from it.
pub open spec fn error_of(step: StepView, event: EventView) -> Option<Seq<char>> {
    match step.on_failure {
        OnFailureView::Ignore => None,
        OnFailureView::Abort { before, after } => match event {
            EventView::Failed(e) => Some(before + e + after),
            EventView::Exited { success, stderr } => if !success
                && step.command is RunChecked {
                Some(before + stderr)
            } else {
                None
            },
            _ => None,
        },
    }
}

/// The run with its next step done with.
pub open spec fn past_step(run: RunView) -> RunView {
    RunView { todo: run.todo.drop_first(), probed: false, ..run }
}

/// Where a run stands once `event` has come back. After an error only the cleanup is
/// left to do, and what fails there is ignored.
pub open spec fn after_event(run: RunView, event: EventView) -> RunView {
    match action_of(run) {
        ActionView::Finished(_) => run,
        ActionView::Probe(_) => if event == EventView::Exists(true) {
            RunView { probed: true, ..run }
        } else {
            past_step(run)
        },
        ActionView::Perform(_) => match error_of(run.todo.first(), event) {
            Some(e) => if run.failure is None {
                RunView {
                    todo: run.cleanup,
                    cleanup: Seq::empty(),
                    probed: false,
                    failure: Some(e),
                }
            } else {
                past_step(run)
            },
            None => past_step(run),
        },
    }
}

impl Run {
    /// Where the run stands.
    pub closed spec fn position(&self) -> RunView {
        RunView {
            todo: self.steps.deep_view().skip(self.at as int),
            cleanup: self.cleanup.deep_view(),
            probed: self.probed,
            failure: self.failure.deep_view(),
        }
    }

    /// Whether the run is somewhere within its steps.
    #[verifier::type_invariant]
    closed spec fn well_formed(&self) -> bool {
        self.at <= self.steps.len()
    }

    /// Starts a procedure.
    pub fn new(procedure: Procedure) -> (r: Run)
        ensures
            r.position() == start_of(procedure.deep_view()),
    {
        let r = Run {
            steps: procedure.steps,
            cleanup: procedure.cleanup,
            at: 0,
            probed: false,
            failure: None,
        };
        assert(r.steps.deep_view().skip(0) =~= procedure.steps.deep_view());
        r
    }

    /// What is to be done next.
    pub fn action(&self) -> (r: Action<'_>)
        ensures
            r.deep_view() == action_of(self.position()),
    {
        proof {
            use_type_invariant(self);
        }
        if self.at == self.steps.len() {
            return match &self.failure {
                Some(e) => Action::Finished(Err(e.clone())),
                None => Action::Finished(Ok(())),
            };
        }
        let step = &self.steps[self.at];
        assert(self.position().todo.first() == step.deep_view());
        match &step.guard {
            Some(path) => if self.probed {
                Action::Perform(&step.command)
            } else {
                Action::Probe(path.as_str())
            },
            None => Action::Perform(&step.command),
        }
    }

    /// The run with its next step done with.
    fn past_this_step(self) -> (r: Run)
        requires
            self.position().todo.len() > 0,
        ensures
            r.position() == past_step(self.position()),
    {
        proof {
            use_type_invariant(&self);
        }
        let ghost before = self.position();
        let r = Run {
            steps: self.steps,
            cleanup: self.cleanup,
            at: self.at + 1,
            probed: false,
            failure: self.failure,
        };
        assert(r.position().todo =~= before.todo.drop_first());
        r
    }

    /// Takes in what came back from the last action.
    pub fn advance(self, event: Event) -> (r: Run)
        ensures
            r.position() == after_event(self.position(), event.deep_view()),
    {
        proof {
            use_type_invariant(&self);
        }
        if self.at == self.steps.len() {
            return self;
        }
        let step = &self.steps[self.at];
        assert(self.position().todo.first() == step.deep_view());
        let probing = step.guard.is_some() && !self.probed;
        if probing {
            return match event {
                Event::Exists(true) => Run {
                    steps: self.steps,
                    cleanup: self.cleanup,
                    at: self.at,
                    probed: true,
                    failure: self.failure,
                },
                _ => self.past_this_step(),
            };
        }
        let error = step_error(step, &event);
        if self.failure.is_none() && error.is_some() {
            let r = Run {
                steps: self.cleanup,
                cleanup: Vec::new(),
                at: 0,
                probed: false,
                failure: error,
            };
            assert(r.steps.deep_view().skip(0) =~= self.cleanup.deep_view());
            assert(r.cleanup.deep_view() =~= Seq::empty());
            return r;
        }
        self.past_this_step()
    }
}

/// The error that a step ends its procedure with, when `event` comes back from it.
fn step_error(step: &Step, event: &Event) -> (r: Option<String>)
    ensures
        r.deep_view() == error_of(step.deep_view(), event.deep_view()),
{
    match &step.on_failure {
        OnFailure::Ignore => None,
        OnFailure::Abort { before, after } => match event {
            Event::Failed(e) => {
                let mut text = before.clone();
                text.append(e.as_str());
                text.append(after.as_str());
                Some(text)
            },
            Event::Exited { success, stderr } => {
                let checked = matches!(step.command, Command::RunChecked { .. });
                if !*success && checked {
                    let mut text = before.clone();
                    text.append(stderr.as_str());
                    Some(text)
                } else {
                    None
                }
            },
            _ => None,
        },
    }
}

/// Where a run stands once all of `events` have come back, one after the other.
pub open spec fn after_events(run: RunView, events: Seq<EventView>) -> RunView
    decreases events.len(),
{
    if events.len() == 0 {
        run
    } else {
        after_event(after_events(run, events.drop_last()), events.last())
    }
}

/// The commands carried out while `events` come back, one for each command.
pub open spec fn performed(run: RunView, events: Seq<EventView>) -> Seq<CommandView>
    decreases events.len(),
{
    if events.len() == 0 {
        Seq::empty()
    } else {
        let before = performed(run, events.drop_last());
        match action_of(after_events(run, events.drop_last())) {
            ActionView::Perform(command) => before.push(command),
            _ => before,
        }
    }
}

/// Whether one of the steps does `command`.
pub open spec fn has_command(steps: Seq<StepView>, command: CommandView) -> bool {
    exists|i: int| 0 <= i < steps.len() && (#[trigger] steps[i]).command == command
}

/// Whether `part` is what is left of `steps` from some point on.
pub open spec fn is_rest_of(part: Seq<StepView>, steps: Seq<StepView>) -> bool {
    part.len() <= steps.len() && part == steps.skip(steps.len() - part.len())
}

/// At any time a run either has met no error and is somewhere in its steps, or has met
/// one and is somewhere in its cleanup.
pub proof fn run_is_in_steps_or_cleanup(procedure: ProcedureView, events: Seq<EventView>)
    ensures
        ({
            let run = after_events(start_of(procedure), events);
            &&& run.failure is None ==> is_rest_of(run.todo, procedure.steps) && run.cleanup
                == procedure.cleanup
            &&& run.failure is Some ==> is_rest_of(run.todo, procedure.cleanup)
                && run.cleanup.len() == 0
        }),
    decreases events.len(),
{
    let run = after_events(start_of(procedure), events);
    if events.len() == 0 {
        assert(procedure.steps.skip(0) =~= procedure.steps);
    } else {
        run_is_in_steps_or_cleanup(procedure, events.drop_last());
        let last = after_events(start_of(procedure), events.drop_last());
        if last.todo.len() > 0 {
            let all = if last.failure is None {
                procedure.steps
            } else {
                procedure.cleanup
            };
            assert(last.todo.drop_first() =~= all.skip(all.len() - last.todo.len() + 1));
        }
        assert(procedure.cleanup.skip(0) =~= procedure.cleanup);
    }
}

/// A run carries out nothing but the commands of its steps and of its cleanup.
pub proof fn only_planned_commands(procedure: ProcedureView, events: Seq<EventView>, i: int)
    requires
        0 <= i < performed(start_of(procedure), events).len(),
    ensures
        ({
            let command = performed(start_of(procedure), events)[i];
            has_command(procedure.steps, command) || has_command(procedure.cleanup, command)
        }),
    decreases events.len(),
{
    let before = events.drop_last();
    let done = performed(start_of(procedure), before);
    if i < done.len() {
        only_planned_commands(procedure, before, i);
    } else {
        run_is_in_steps_or_cleanup(procedure, before);
        let run = after_events(start_of(procedure), before);
        let all = if run.failure is None {
            procedure.steps
        } else {
            procedure.cleanup
        };
        assert(run.todo.first() == all[all.len() - run.todo.len()]);
    }
}

/// Whether among `events` one came back from the step number `k` of the procedure,
/// taken in its turn, and was no error.
pub open spec fn step_succeeded(
    procedure: ProcedureView,
    events: Seq<EventView>,
    k: int,
) -> bool {
    exists|i: int|
        #![trigger events[i]]
        0 <= i < events.len() && ({
            let run = after_events(start_of(procedure), events.take(i));
            &&& run.failure is None
            &&& run.todo == procedure.steps.skip(k)
            &&& action_of(run) == ActionView::Perform(procedure.steps[k].command)
            &&& error_of(procedure.steps[k], events[i]) is None
        })
}

proof fn lemma_step_succeeded_extends(
    procedure: ProcedureView,
    events: Seq<EventView>,
    k: int,
)
    requires
        events.len() > 0,
        step_succeeded(procedure, events.drop_last(), k),
    ensures
        step_succeeded(procedure, events, k),
{
    let before = events.drop_last();
    let i = choose|i: int|
        #![trigger before[i]]
        0 <= i < before.len() && ({
            let run = after_events(start_of(procedure), before.take(i));
            &&& run.failure is None
            &&& run.todo == procedure.steps.skip(k)
            &&& action_of(run) == ActionView::Perform(procedure.steps[k].command)
            &&& error_of(procedure.steps[k], before[i]) is None
        });
    assert(before.take(i) =~= events.take(i));
    assert(events[i] == before[i]);
}

/// Steps are taken in their order: while a run has met no error, every step before the
/// one it is at that needs no path to exist has been carried out, without an error. So
/// it is with all of them once the run has ended well.
pub proof fn steps_before_have_succeeded(
    procedure: ProcedureView,
    events: Seq<EventView>,
    k: int,
)
    requires
        after_events(start_of(procedure), events).failure is None,
        0 <= k < procedure.steps.len() - after_events(start_of(procedure), events).todo.len(),
        procedure.steps[k].guard is None,
    ensures
        step_succeeded(procedure, events, k),
    decreases events.len(),
{
    if events.len() > 0 {
        let before = events.drop_last();
        let run = after_events(start_of(procedure), before);
        assert(events.take(events.len() - 1) =~= before);
        run_is_in_steps_or_cleanup(procedure, before);
        if run.todo.len() > 0 && k == procedure.steps.len() - run.todo.len() {
            assert(run.todo == procedure.steps.skip(k));
            assert(run.todo.first() == procedure.steps[k]);
            let last = events.len() - 1;
            assert(events[last] == events.last());
        } else {
            steps_before_have_succeeded(procedure, before, k);
            lemma_step_succeeded_extends(procedure, events, k);
        }
    }
}

/// Whether one of the first `n` steps does `command`.
pub open spec fn has_command_before(steps: Seq<StepView>, n: int, command: CommandView) -> bool {
    exists|j: int| 0 <= j < n && j < steps.len() && (#[trigger] steps[j]).command == command
}

/// While a run has met no error, it has carried out commands only of the steps before
/// the one it is at.
pub proof fn only_steps_before_performed(
    procedure: ProcedureView,
    events: Seq<EventView>,
    i: int,
)
    requires
        after_events(start_of(procedure), events).failure is None,
        0 <= i < performed(start_of(procedure), events).len(),
    ensures
        has_command_before(
            procedure.steps,
            procedure.steps.len() - after_events(start_of(procedure), events).todo.len(),
            performed(start_of(procedure), events)[i],
        ),
    decreases events.len(),
{
    let before = events.drop_last();
    let run = after_events(start_of(procedure), before);
    let done = performed(start_of(procedure), before);
    run_is_in_steps_or_cleanup(procedure, before);
    if i < done.len() {
        only_steps_before_performed(procedure, before, i);
        let n = procedure.steps.len() - run.todo.len();
        let j = choose|j: int|
            0 <= j < n && j < procedure.steps.len() && (#[trigger] procedure.steps[j]).command
                == done[i];
        assert(procedure.steps[j].command == done[i]);
    } else {
        let k = procedure.steps.len() - run.todo.len();
        assert(run.todo.first() == procedure.steps[k]);
    }
}

/// Whether the step number `n` ends the procedure when it fails.
pub open spec fn matters(steps: Seq<StepView>, n: int) -> bool {
    0 <= n < steps.len() && steps[n].on_failure is Abort
}

/// A run that has met an error has carried out only commands of the steps up to one
/// whose failure matters, and of the cleanup.
pub proof fn nothing_after_failed_step(
    procedure: ProcedureView,
    events: Seq<EventView>,
    i: int,
)
    requires
        after_events(start_of(procedure), events).failure is Some,
        0 <= i < performed(start_of(procedure), events).len(),
    ensures
        ({
            let command = performed(start_of(procedure), events)[i];
            ||| has_command(procedure.cleanup, command)
            ||| exists|n: int| #[trigger]
                matters(procedure.steps, n) && has_command_before(
                    procedure.steps,
                    n + 1,
                    command,
                )
        }),
    decreases events.len(),
{
    assert(events.len() > 0);
    let before = events.drop_last();
    let run = after_events(start_of(procedure), before);
    let done = performed(start_of(procedure), before);
    let command = performed(start_of(procedure), events)[i];
    run_is_in_steps_or_cleanup(procedure, before);
    if run.failure is Some {
        if i < done.len() {
            nothing_after_failed_step(procedure, before, i);
        } else {
            let j = procedure.cleanup.len() - run.todo.len();
            assert(run.todo.first() == procedure.cleanup[j]);
        }
    } else {
        let n = procedure.steps.len() - run.todo.len();
        assert(run.todo.first() == procedure.steps[n]);
        assert(matters(procedure.steps, n));
        if i < done.len() {
            only_steps_before_performed(procedure, before, i);
            let j = choose|j: int|
                0 <= j < n && j < procedure.steps.len() && (#[trigger] procedure.steps[j]).command
                    == command;
            assert(procedure.steps[j].command == command);
        } else {
            assert(procedure.steps[n].command == command);
        }
        assert(has_command_before(procedure.steps, n + 1, command));
    }
}

/// Whether the error of the run came back from the step number `k` of the procedure,
/// taken in its turn, as the event number `i`.
pub open spec fn step_failed(
    procedure: ProcedureView,
    events: Seq<EventView>,
    k: int,
    i: int,
) -> bool {
    let run = after_events(start_of(procedure), events.take(i));
    &&& 0 <= k < procedure.steps.len()
    &&& 0 <= i < events.len()
    &&& run.failure is None
    &&& run.todo == procedure.steps.skip(k)
    &&& action_of(run) == ActionView::Perform(procedure.steps[k].command)
    &&& error_of(procedure.steps[k], events[i]) is Some
    &&& after_events(start_of(procedure), events).failure == error_of(
        procedure.steps[k],
        events[i],
    )
}

/// The error that a run ends with is that of the step that failed first of those whose
/// failure matters.
pub proof fn error_is_of_failed_step(procedure: ProcedureView, events: Seq<EventView>)
    requires
        after_events(start_of(procedure), events).failure is Some,
    ensures
        exists|k: int, i: int| step_failed(procedure, events, k, i),
    decreases events.len(),
{
    assert(events.len() > 0);
    let before = events.drop_last();
    let run = after_events(start_of(procedure), before);
    let last = events.len() - 1;
    assert(events.take(last) =~= before);
    if run.failure is None {
        run_is_in_steps_or_cleanup(procedure, before);
        let k = procedure.steps.len() - run.todo.len();
        assert(run.todo.first() == procedure.steps[k]);
        assert(step_failed(procedure, events, k, last));
    } else {
        error_is_of_failed_step(procedure, before);
        let (k, i) = choose|k: int, i: int| step_failed(procedure, before, k, i);
        assert(before.take(i) =~= events.take(i));
        assert(step_failed(procedure, events, k, i));
    }
}

/// Whether the run, after an error, came to the step number `k` of its cleanup before
/// the event number `i`.
pub open spec fn cleanup_reached(
    procedure: ProcedureView,
    events: Seq<EventView>,
    k: int,
    i: int,
) -> bool {
    let run = after_events(start_of(procedure), events.take(i));
    &&& 0 <= i < events.len()
    &&& run.failure is Some
    &&& run.todo == procedure.cleanup.skip(k)
    &&& !run.probed
}

/// After an error the cleanup is gone through from its start, step by step: a run that
/// has ended with an error has come to every step of it.
pub proof fn cleanup_is_gone_through(procedure: ProcedureView, events: Seq<EventView>, k: int)
    requires
        after_events(start_of(procedure), events).failure is Some,
        0 <= k < procedure.cleanup.len() - after_events(start_of(procedure), events).todo.len(),
    ensures
        exists|i: int| cleanup_reached(procedure, events, k, i),
    decreases events.len(),
{
    assert(events.len() > 0);
    let before = events.drop_last();
    let run = after_events(start_of(procedure), before);
    let last = events.len() - 1;
    assert(events.take(last) =~= before);
    run_is_in_steps_or_cleanup(procedure, before);
    assert(run.failure is Some);
    if k < procedure.cleanup.len() - run.todo.len() {
        cleanup_is_gone_through(procedure, before, k);
        let i = choose|i: int| cleanup_reached(procedure, before, k, i);
        assert(before.take(i) =~= events.take(i));
        assert(cleanup_reached(procedure, events, k, i));
    } else {
        assert(run.todo == procedure.cleanup.skip(k));
        if run.probed {
            lemma_probed_from_unprobed(procedure, before);
            let i = last - 1;
            assert(before.take(i) =~= events.take(i));
            assert(cleanup_reached(procedure, events, k, i));
        } else {
            assert(cleanup_reached(procedure, events, k, last));
        }
    }
}

proof fn lemma_probed_from_unprobed(procedure: ProcedureView, events: Seq<EventView>)
    requires
        after_events(start_of(procedure), events).probed,
    ensures
        events.len() > 0,
        ({
            let before = after_events(start_of(procedure), events.take(events.len() - 1));
            let after = after_events(start_of(procedure), events);
            &&& !before.probed
            &&& before.todo == after.todo
            &&& before.failure == after.failure
            &&& action_of(before) is Probe
        }),
{
    if events.len() > 0 {
        assert(events.take(events.len() - 1) =~= events.drop_last());
        lemma_finished_not_probed(procedure, events.drop_last());
    }
}

proof fn lemma_finished_not_probed(procedure: ProcedureView, events: Seq<EventView>)
    ensures
        ({
            let run = after_events(start_of(procedure), events);
            run.probed ==> run.todo.len() > 0
        }),
    decreases events.len(),
{
    if events.len() > 0 {
        lemma_finished_not_probed(procedure, events.drop_last());
    }
}

/// How much a run has still to do at most.
pub open spec fn work_left(run: RunView) -> int {
    2 * run.todo.len() + 2 * run.cleanup.len() - if run.probed && run.todo.len() > 0 {
        1int
    } else {
        0int
    }
}

/// Every run ends: after two events for each step and each cleanup step at the latest.
pub proof fn runs_end(procedure: ProcedureView, events: Seq<EventView>)
    requires
        events.len() >= 2 * procedure.steps.len() + 2 * procedure.cleanup.len(),
    ensures
        action_of(after_events(start_of(procedure), events)) is Finished,
{
    lemma_work_shrinks(start_of(procedure), events);
}

proof fn lemma_work_shrinks(run: RunView, events: Seq<EventView>)
    requires
        !run.probed,
    ensures
        ({
            let after = after_events(run, events);
            ||| after.todo.len() == 0
            ||| work_left(after) <= work_left(run) - events.len() && work_left(after) > 0
        }),
    decreases events.len(),
{
    if events.len() > 0 {
        lemma_work_shrinks(run, events.drop_last());
    }
}

/// A command shows in its view with all its parts.
pub proof fn commands_show_their_parts(command: Command)
    ensures
        match command {
            Command::RemoveFile(path) => command.deep_view() == CommandView::RemoveFile(path@),
            Command::RemoveDirAll(path) => command.deep_view() == CommandView::RemoveDirAll(path@),
            Command::CreateDirAll(path) => command.deep_view() == CommandView::CreateDirAll(path@),
            Command::CreateFile(path) => command.deep_view() == CommandView::CreateFile(path@),
            Command::WriteBytes { path, data } => command.deep_view() == (
            CommandView::WriteBytes { path: path@, data: data@ }),
            Command::WriteText { path, text } => command.deep_view() == (
            CommandView::WriteText { path: path@, text: text@ }),
            Command::Run { program, args } => command.deep_view() == (CommandView::Run {
                program: program@,
                args: Seq::new(args@.len(), |i: int| args@[i]@),
            }),
            Command::RunChecked { program, args } => command.deep_view() == (
            CommandView::RunChecked {
                program: program@,
                args: Seq::new(args@.len(), |i: int| args@[i]@),
            }),
            Command::CopyTree { from, to } => command.deep_view() == (CommandView::CopyTree {
                from: from@,
                to: to@,
            }),
            Command::Launch { program, args, env, delay_ms, linger_ms } => command.deep_view() == (
            CommandView::Launch {
                program: program@,
                args: Seq::new(args@.len(), |i: int| args@[i]@),
                env: Seq::new(env@.len(), |i: int| (env@[i].0@, env@[i].1@)),
                delay_ms,
                linger_ms,
            }),
        },
{
    match command {
        Command::Run { program, args } => {
            assert(args.deep_view() =~= Seq::new(args@.len(), |i: int| args@[i]@));
        },
        Command::RunChecked { program, args } => {
            assert(args.deep_view() =~= Seq::new(args@.len(), |i: int| args@[i]@));
        },
        Command::Launch { program, args, env, delay_ms, linger_ms } => {
            assert(args.deep_view() =~= Seq::new(args@.len(), |i: int| args@[i]@));
            assert(env.deep_view() =~= Seq::new(
                env@.len(),
                |i: int| (env@[i].0@, env@[i].1@),
            ));
        },
        _ => {},
    }
}

/// A step shows in its view with its path, its command and what its failure means; a
/// procedure with its steps in order.
pub proof fn procedures_show_their_steps(procedure: Procedure, step: Step)
    ensures
        procedure.deep_view().steps.len() == procedure.steps@.len(),
        procedure.deep_view().cleanup.len() == procedure.cleanup@.len(),
        forall|i: int|
            0 <= i < procedure.steps@.len() ==> #[trigger] procedure.deep_view().steps[i]
                == procedure.steps@[i].deep_view(),
        forall|i: int|
            0 <= i < procedure.cleanup@.len() ==> #[trigger] procedure.deep_view().cleanup[i]
                == procedure.cleanup@[i].deep_view(),
        step.deep_view().command == step.command.deep_view(),
        step.guard is None ==> step.deep_view().guard is None,
        step.guard is Some ==> step.deep_view().guard == Some(step.guard->0@),
        step.on_failure is Ignore ==> step.deep_view().on_failure is Ignore,
        step.on_failure is Abort ==> step.deep_view().on_failure == (OnFailureView::Abort {
            before: step.on_failure->before@,
            after: step.on_failure->after@,
        }),
{
}

/// What is asked for, and what comes back, show in their views unchanged.
pub proof fn actions_and_events_show_their_parts(action: Action<'_>, event: Event)
    ensures
        match action {
            Action::Probe(path) => action.deep_view() == ActionView::Probe(path@),
            Action::Perform(command) => action.deep_view() == ActionView::Perform(
                command.deep_view(),
            ),
            Action::Finished(Ok(_)) => action.deep_view() == ActionView::Finished(None),
            Action::Finished(Err(e)) => action.deep_view() == ActionView::Finished(Some(e@)),
        },
        match event {
            Event::Exists(there) => event.deep_view() == EventView::Exists(there),
            Event::Done => event.deep_view() == EventView::Done,
            Event::Failed(e) => event.deep_view() == EventView::Failed(e@),
            Event::Exited { success, stderr } => event.deep_view() == (EventView::Exited {
                success,
                stderr: stderr@,
            }),
        },
{
}

/// How steps are made: none needs a path unless it is guarded by it, a guard changes
/// nothing else, and only a needed step ends its procedure when it fails.
pub proof fn steps_are_made_of_their_parts(
    command: CommandView,
    before: Seq<char>,
    path: Seq<char>,
    step: StepView,
)
    ensures
        ignored_step(command).guard is None,
        ignored_step(command).command == command,
        ignored_step(command).on_failure is Ignore,
        needed_step(command, before).guard is None,
        needed_step(command, before).command == command,
        needed_step(command, before).on_failure == (OnFailureView::Abort {
            before,
            after: Seq::empty(),
        }),
        guarded(path, step).guard == Some(path),
        guarded(path, step).command == step.command,
        guarded(path, step).on_failure == step.on_failure,
{
}

/// Ignoring the failures of steps changes nothing else of them.
pub proof fn ignoring_keeps_the_rest(steps: Seq<StepView>, i: int)
    requires
        0 <= i < steps.len(),
    ensures
        ignoring(steps).len() == steps.len(),
        ignoring(steps)[i].guard == steps[i].guard,
        ignoring(steps)[i].command == steps[i].command,
        ignoring(steps)[i].on_failure is Ignore,
{
}

/// The words of an error: those of the step around those of the system, and for a program
/// that ran and failed, where its exit status counts, those of the step before its own.
pub proof fn errors_hold_the_words_of_the_failure(
    guard: Option<Seq<char>>,
    command: CommandView,
    before: Seq<char>,
    after: Seq<char>,
    words: Seq<char>,
    event: EventView,
)
    ensures
        ({
            let step = StepView {
                guard,
                command,
                on_failure: OnFailureView::Abort { before, after },
            };
            &&& error_of(step, EventView::Failed(words)) == Some(before + words + after)
            &&& command is RunChecked ==> error_of(
                step,
                EventView::Exited { success: false, stderr: words },
            ) == Some(before + words)
            &&& !(command is RunChecked) ==> error_of(
                step,
                EventView::Exited { success: false, stderr: words },
            ) is None
            &&& error_of(step, EventView::Exited { success: true, stderr: words }) is None
            &&& error_of(step, EventView::Done) is None
            &&& error_of(step, EventView::Exists(true)) is None
            &&& error_of(step, EventView::Exists(false)) is None
        }),
        error_of(StepView { guard, command, on_failure: OnFailureView::Ignore }, event) is None,
{
}

/// A procedure starts with all its steps to do, no path looked for and no error.
pub proof fn procedures_start_at_their_first_step(procedure: ProcedureView)
    ensures
        start_of(procedure).todo == procedure.steps,
        start_of(procedure).cleanup == procedure.cleanup,
        !start_of(procedure).probed,
        start_of(procedure).failure is None,
{
}

/// What a run with steps to do asks for: the command of the next step, and before it, if
/// the step needs a path, whether that is there. A run without steps ends, with its error
/// if it has met one.
pub proof fn next_step_is_asked_for(run: RunView, step: StepView, rest: Seq<StepView>)
    ensures
        run.todo.len() == 0 ==> action_of(run) == ActionView::Finished(run.failure),
        run.todo == seq![step] + rest ==> {
            &&& step.guard is None || run.probed ==> action_of(run) == ActionView::Perform(
                step.command,
            )
            &&& step.guard is Some && !run.probed ==> action_of(run) == ActionView::Probe(
                step.guard->0,
            )
        },
{
}

/// How a run goes on: a path that is there lets its step be carried out, one that is not
/// leaves the step out; a command without an error leads to the next step; the first
/// error leads to the cleanup, and an error there only to its next step; the end stays.
pub proof fn events_lead_on(
    run: RunView,
    step: StepView,
    rest: Seq<StepView>,
    event: EventView,
)
    ensures
        run.todo.len() == 0 ==> after_event(run, event) == run,
        run.todo == seq![step] + rest ==> {
            let after = after_event(run, event);
            let asks = step.guard is Some && !run.probed;
            &&& asks && event == EventView::Exists(true) ==> after == (RunView {
                todo: run.todo,
                cleanup: run.cleanup,
                probed: true,
                failure: run.failure,
            })
            &&& (asks && event != EventView::Exists(true)) || (!asks && (error_of(step, event)
                is None || run.failure is Some)) ==> after == (RunView {
                todo: rest,
                cleanup: run.cleanup,
                probed: false,
                failure: run.failure,
            })
            &&& !asks && error_of(step, event) is Some && run.failure is None ==> after == (
            RunView {
                todo: run.cleanup,
                cleanup: Seq::empty(),
                probed: false,
                failure: error_of(step, event),
            })
        },
{
    if run.todo == seq![step] + rest {
        assert(run.todo.first() == step);
        assert(run.todo.drop_first() =~= rest);
    }
}

} // verus!
