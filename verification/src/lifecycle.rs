//! What holds of an update from its upload to its confirmation.

use vstd::prelude::*;
use vstd::string::*;

use crate::package::{
    is_zip, on_trial, trial_meta_file, validation_of, MetaView, StagedPackage,
};
use crate::procedure::{
    action_of, after_events, cleanup_is_gone_through, cleanup_reached, has_command,
    has_command_before, ignoring, matters, nothing_after_failed_step, only_planned_commands,
    performed, run_is_in_steps_or_cleanup, start_of, step_succeeded, steps_before_have_succeeded,
    ActionView, CommandView, EventView, ProcedureView, RunView,
};
use crate::slot::{
    current_slot, directory_of, meta_file_of, named_slot_wins, slot_after, slot_directories_differ,
    OtaSlot, OTA_RUNTIME_DIR, OTA_STAGING_DIR, OTA_STATE_FILE, OTA_WWW_PATH,
};
use crate::state::{
    read_state, state_of, state_round_trip, state_text, OtaBootState, OtaRuntimeState,
};
use crate::update::{
    application_plan, cancellation_plan, chmod_below, confirmation_plan, extract_step,
    installation, launch_step, nothing, permission_steps, removal_steps, settling, stable_state,
    state_steps, trial_state, unpacking, PlanView,
};

verus! {

/// An update that is refused changes nothing on the device.
pub proof fn refused_update_does_nothing(
    pending: Result<Option<MetaView>, Seq<char>>,
    package: StagedPackage,
    current_version: Seq<char>,
    current: OtaSlot,
    restart_now: bool,
)
    ensures
        ({
            let plan = application_plan(pending, package, current_version, current, restart_now);
            plan.answer is Err ==> plan.procedure == nothing()
        }),
{
}

/// Only a pending update whose package is valid is installed, and then always.
pub proof fn installed_exactly_if_valid(
    pending: Result<Option<MetaView>, Seq<char>>,
    package: StagedPackage,
    current_version: Seq<char>,
    current: OtaSlot,
    restart_now: bool,
)
    ensures
        ({
            let plan = application_plan(pending, package, current_version, current, restart_now);
            &&& plan.answer is Ok <==> ({
                &&& pending is Ok
                &&& pending->Ok_0 is Some
                &&& validation_of(pending->Ok_0->0, package, current_version) is Ok
                &&& validation_of(pending->Ok_0->0, package, current_version)->Ok_0.valid
            })
            &&& plan.answer is Ok ==> plan.procedure == installation(current, restart_now)
        }),
{
}

/// The place of the copy among the steps of an installation.
pub open spec fn copy_place() -> int {
    1
}

/// The place of the record of the trial among the steps of an installation.
pub open spec fn record_place() -> int {
    6
}

proof fn lemma_paths_differ()
    ensures
        OTA_STAGING_DIR@ != OTA_WWW_PATH@,
        forall|slot: OtaSlot|
            directory_of(slot) is Some ==> #[trigger] directory_of(slot)->0 != OTA_STAGING_DIR@
                && directory_of(slot)->0 != OTA_WWW_PATH@,
{
    reveal_strlit("/tmp/ota_staging");
    reveal_strlit("/home/root/www");
    reveal_strlit("/home/root/ota/slots");
    reveal_strlit("/");
    reveal_strlit("slot-a");
    reveal_strlit("slot-b");
    slot_directories_differ();
    assert(OTA_STAGING_DIR@.len() == 16 && OTA_WWW_PATH@.len() == 14);
    assert forall|slot: OtaSlot|
        directory_of(slot) is Some implies #[trigger] directory_of(slot)->0 != OTA_STAGING_DIR@
        && directory_of(slot)->0 != OTA_WWW_PATH@ by {
        assert(directory_of(slot)->0.len() == 27);
    }
}

proof fn lemma_installation(current: OtaSlot, restart_now: bool)
    ensures
        ({
            let p = installation(current, restart_now);
            let dir = directory_of(slot_after(current))->0;
            &&& p.steps.len() == if restart_now {
                9int
            } else {
                8int
            }
            &&& p.steps[0].command == CommandView::RemoveDirAll(dir)
            &&& p.steps[1].command == (CommandView::CopyTree { from: OTA_STAGING_DIR@, to: dir })
            &&& p.steps[1].guard is None
            &&& p.steps[2].command is Run
            &&& p.steps[3].command is Run
            &&& p.steps[4].command is Run
            &&& p.steps[5].command == CommandView::CreateDirAll(OTA_RUNTIME_DIR@)
            &&& p.steps[5].guard is None
            &&& p.steps[6].command == (CommandView::WriteText {
                path: OTA_STATE_FILE@,
                text: state_text(trial_state(current)),
            })
            &&& p.steps[6].guard is None
            &&& p.steps[7].command == CommandView::RemoveDirAll(OTA_STAGING_DIR@)
            &&& p.steps[7].on_failure is Ignore
            &&& restart_now ==> p.steps[8] == launch_step(slot_after(current), current)
            &&& p.cleanup.len() == 1
            &&& p.cleanup[0].guard == Some(dir)
            &&& p.cleanup[0].command == CommandView::RemoveDirAll(dir)
        }),
{
    let target = slot_after(current);
    assert(ignoring(removal_steps(target)).len() == 1);
    assert(ignoring(removal_steps(target))[0].command == removal_steps(target)[0].command);
}

/// An installation, however it goes, never removes anything of the slot that runs.
pub proof fn installation_keeps_running_slot(
    current: OtaSlot,
    restart_now: bool,
    events: Seq<EventView>,
    i: int,
)
    requires
        0 <= i < performed(start_of(installation(current, restart_now)), events).len(),
    ensures
        !has_command(
            removal_steps(current),
            performed(start_of(installation(current, restart_now)), events)[i],
        ),
{
    let p = installation(current, restart_now);
    let command = performed(start_of(p), events)[i];
    lemma_installation(current, restart_now);
    lemma_paths_differ();
    slot_directories_differ();
    only_planned_commands(p, events, i);
    if has_command(removal_steps(current), command) {
        let j = choose|j: int|
            0 <= j < removal_steps(current).len() && (#[trigger] removal_steps(current)[j]).command
                == command;
        if has_command(p.steps, command) {
            let k = choose|k: int|
                0 <= k < p.steps.len() && (#[trigger] p.steps[k]).command == command;
            assert(k == 0 || k == 1 || k == 2 || k == 3 || k == 4 || k == 5 || k == 6 || k == 7
                || k == 8);
        } else {
            let k = choose|k: int|
                0 <= k < p.cleanup.len() && (#[trigger] p.cleanup[k]).command == command;
            assert(k == 0);
        }
    }
}

/// Whether a command sets the mode of the binary or of the frontend below `root`.
pub open spec fn sets_modes_below(root: Seq<char>, command: CommandView) -> bool {
    ||| command == (CommandView::Run {
        program: "chmod"@,
        args: seq!["755"@, root + "/udx710"@],
    })
    ||| command == chmod_below(root + "/www"@, "d"@, "755"@)
    ||| command == chmod_below(root + "/www"@, "f"@, "644"@)
}

proof fn lemma_permission_steps(root: Seq<char>, k: int)
    requires
        0 <= k < permission_steps(root).len(),
    ensures
        sets_modes_below(root, permission_steps(root)[k].command),
{
    assert(k == 0 || k == 1 || k == 2);
}

/// Whether a command is one that installing next to the slot `current` may take: to
/// empty the target slot, to fill it, to set modes in it, to record the trial, to drop
/// the staged package, and, if asked for, to restart.
pub open spec fn belongs_to_installation(
    current: OtaSlot,
    restart_now: bool,
    command: CommandView,
) -> bool {
    let target = slot_after(current);
    let dir = directory_of(target)->0;
    ||| command == CommandView::RemoveDirAll(dir)
    ||| command == (CommandView::CopyTree { from: OTA_STAGING_DIR@, to: dir })
    ||| sets_modes_below(dir, command)
    ||| command == CommandView::CreateDirAll(OTA_RUNTIME_DIR@)
    ||| command == (CommandView::WriteText {
        path: OTA_STATE_FILE@,
        text: state_text(trial_state(current)),
    })
    ||| command == CommandView::RemoveDirAll(OTA_STAGING_DIR@)
    ||| restart_now && command == launch_step(target, current).command
}

/// An installation, however it goes, touches nothing but the target slot, the record of
/// the trial and the staged package.
pub proof fn installation_touches_nothing_else(
    current: OtaSlot,
    restart_now: bool,
    events: Seq<EventView>,
    i: int,
)
    requires
        0 <= i < performed(start_of(installation(current, restart_now)), events).len(),
    ensures
        belongs_to_installation(
            current,
            restart_now,
            performed(start_of(installation(current, restart_now)), events)[i],
        ),
{
    let p = installation(current, restart_now);
    let command = performed(start_of(p), events)[i];
    let dir = directory_of(slot_after(current))->0;
    lemma_installation(current, restart_now);
    only_planned_commands(p, events, i);
    if has_command(p.steps, command) {
        let k = choose|k: int| 0 <= k < p.steps.len() && (#[trigger] p.steps[k]).command == command;
        if 2 <= k < 5 {
            assert(p.steps[k] == permission_steps(dir)[k - 2]);
            lemma_permission_steps(dir, k - 2);
        } else {
            assert(k == 0 || k == 1 || k == 5 || k == 6 || k == 7 || k == 8);
        }
    } else {
        let k = choose|k: int|
            0 <= k < p.cleanup.len() && (#[trigger] p.cleanup[k]).command == command;
        assert(k == 0);
    }
}

/// Where in the steps of an installation a run without an error stands, by what it does
/// next.
proof fn lemma_place(current: OtaSlot, restart_now: bool, events: Seq<EventView>)
    ensures
        ({
            let p = installation(current, restart_now);
            let run = after_events(start_of(p), events);
            let k = p.steps.len() - run.todo.len();
            &&& action_of(run) is Perform && run.failure is None ==> 0 <= k < p.steps.len()
                && action_of(run) == ActionView::Perform(p.steps[k].command)
            &&& action_of(run) is Perform && run.failure is Some ==> action_of(run)
                == ActionView::Perform(p.cleanup[0].command)
        }),
{
    let p = installation(current, restart_now);
    let run = after_events(start_of(p), events);
    lemma_installation(current, restart_now);
    run_is_in_steps_or_cleanup(p, events);
    if run.todo.len() > 0 {
        if run.failure is None {
            assert(run.todo.first() == p.steps[p.steps.len() - run.todo.len()]);
        } else {
            assert(run.todo.first() == p.cleanup[0]);
        }
    }
}

/// The trial is recorded only once the whole package has been copied into its slot.
pub proof fn trial_recorded_after_copy(
    current: OtaSlot,
    restart_now: bool,
    events: Seq<EventView>,
    text: Seq<char>,
)
    requires
        action_of(after_events(start_of(installation(current, restart_now)), events))
            == ActionView::Perform(CommandView::WriteText { path: OTA_STATE_FILE@, text }),
    ensures
        step_succeeded(installation(current, restart_now), events, copy_place()),
        installation(current, restart_now).steps[copy_place()].command == (CommandView::CopyTree {
            from: OTA_STAGING_DIR@,
            to: directory_of(slot_after(current))->0,
        }),
{
    let p = installation(current, restart_now);
    lemma_installation(current, restart_now);
    lemma_place(current, restart_now, events);
    let run = after_events(start_of(p), events);
    let k = p.steps.len() - run.todo.len();
    assert(k == 0 || k == 1 || k == 2 || k == 3 || k == 4 || k == 5 || k == 6 || k == 7 || k == 8);
    steps_before_have_succeeded(p, events, copy_place());
}

/// The staged package is dropped, and the restart ordered, only once the trial has been
/// recorded.
pub proof fn nothing_dropped_before_record(
    current: OtaSlot,
    restart_now: bool,
    events: Seq<EventView>,
)
    requires
        ({
            let action = action_of(
                after_events(start_of(installation(current, restart_now)), events),
            );
            ||| action == ActionView::Perform(CommandView::RemoveDirAll(OTA_STAGING_DIR@))
            ||| action == ActionView::Perform(launch_step(slot_after(current), current).command)
        }),
    ensures
        step_succeeded(installation(current, restart_now), events, record_place()),
        installation(current, restart_now).steps[record_place()].command == (
        CommandView::WriteText {
            path: OTA_STATE_FILE@,
            text: state_text(trial_state(current)),
        }),
{
    let p = installation(current, restart_now);
    lemma_installation(current, restart_now);
    lemma_paths_differ();
    lemma_place(current, restart_now, events);
    let run = after_events(start_of(p), events);
    let k = p.steps.len() - run.todo.len();
    assert(k == 0 || k == 1 || k == 2 || k == 3 || k == 4 || k == 5 || k == 6 || k == 7 || k == 8);
    steps_before_have_succeeded(p, events, record_place());
}

/// An installation that ends well has copied the package and recorded the trial.
pub proof fn finished_installation_is_recorded(
    current: OtaSlot,
    restart_now: bool,
    events: Seq<EventView>,
)
    requires
        action_of(after_events(start_of(installation(current, restart_now)), events))
            == ActionView::Finished(None),
    ensures
        step_succeeded(installation(current, restart_now), events, copy_place()),
        step_succeeded(installation(current, restart_now), events, record_place()),
{
    let p = installation(current, restart_now);
    lemma_installation(current, restart_now);
    steps_before_have_succeeded(p, events, copy_place());
    steps_before_have_succeeded(p, events, record_place());
}

/// An installation that ends with an error has looked whether the target slot has a
/// directory, and has then ordered its removal if there was one.
pub proof fn failed_installation_is_cleaned_up(
    current: OtaSlot,
    restart_now: bool,
    events: Seq<EventView>,
)
    requires
        action_of(after_events(start_of(installation(current, restart_now)), events)) is Finished,
        after_events(start_of(installation(current, restart_now)), events).failure is Some,
    ensures
        exists|i: int| #[trigger] target_cleaned(current, restart_now, events, i),
{
    let p = installation(current, restart_now);
    lemma_installation(current, restart_now);
    cleanup_is_gone_through(p, events, 0);
    let i = choose|i: int| cleanup_reached(p, events, 0, i);
    let run = after_events(start_of(p), events.take(i));
    assert(p.cleanup.skip(0) =~= p.cleanup);
    assert(run.todo.first() == p.cleanup[0]);
    let more = events.take(i + 1);
    assert(more.drop_last() =~= events.take(i));
    assert(more.last() == events[i]);
    if events[i] == EventView::Exists(true) && i + 1 == events.len() {
        assert(more =~= events);
        assert(after_events(start_of(p), events).todo == run.todo);
    }
    assert(target_cleaned(current, restart_now, events, i));
}

/// Whether the run looked for the directory of the target slot before the event number
/// `i`, and ordered its removal next if it was told that there is one.
pub open spec fn target_cleaned(
    current: OtaSlot,
    restart_now: bool,
    events: Seq<EventView>,
    i: int,
) -> bool {
    let p = installation(current, restart_now);
    let dir = directory_of(slot_after(current))->0;
    &&& 0 <= i < events.len()
    &&& after_events(start_of(p), events.take(i)).failure is Some
    &&& action_of(after_events(start_of(p), events.take(i))) == ActionView::Probe(dir)
    &&& events[i] == EventView::Exists(true) ==> i + 1 < events.len() && action_of(
        after_events(start_of(p), events.take(i + 1)),
    ) == ActionView::Perform(CommandView::RemoveDirAll(dir))
}

/// An installation that has met an error has kept the staged package, so that it can be
/// tried again.
pub proof fn failed_installation_keeps_package(
    current: OtaSlot,
    restart_now: bool,
    events: Seq<EventView>,
    i: int,
)
    requires
        after_events(start_of(installation(current, restart_now)), events).failure is Some,
        0 <= i < performed(start_of(installation(current, restart_now)), events).len(),
    ensures
        performed(start_of(installation(current, restart_now)), events)[i]
            != CommandView::RemoveDirAll(OTA_STAGING_DIR@),
{
    let p = installation(current, restart_now);
    let drop_staged = CommandView::RemoveDirAll(OTA_STAGING_DIR@);
    lemma_installation(current, restart_now);
    lemma_paths_differ();
    nothing_after_failed_step(p, events, i);
    if performed(start_of(p), events)[i] == drop_staged {
        assert(!has_command(p.cleanup, drop_staged));
        let n = choose|n: int| #[trigger]
            matters(p.steps, n) && has_command_before(p.steps, n + 1, drop_staged);
        assert(n < 7);
        let j = choose|j: int|
            0 <= j < n + 1 && j < p.steps.len() && (#[trigger] p.steps[j]).command == drop_staged;
        assert(j == 0 || j == 1 || j == 2 || j == 3 || j == 4 || j == 5 || j == 6);
    }
}

/// What an installation records is read back, after the next boot, as the trial of the
/// new slot with the slot that ran as its fallback.
pub proof fn recorded_trial_is_read_back(current: OtaSlot, restart_now: bool)
    ensures
        ({
            let command = installation(current, restart_now).steps[record_place()].command;
            read_state(Ok(command->text)) == Ok::<OtaRuntimeState, Seq<char>>(
                trial_state(current),
            )
        }),
{
    lemma_installation(current, restart_now);
    state_round_trip(trial_state(current));
}

/// If the new slot comes up, it becomes the only one: its trial is over, and the slot
/// it replaces is emptied, unless that is the legacy location.
pub proof fn new_slot_is_confirmed(current: OtaSlot)
    ensures
        confirmation_plan(Ok(trial_state(current)), slot_after(current)) == (PlanView {
            procedure: settling(
                if current == OtaSlot::Legacy {
                    None
                } else {
                    Some(current)
                },
                slot_after(current),
            ),
            answer: Ok::<bool, Seq<char>>(true),
        }),
{
}

/// If the fallback comes up instead, the update is dropped: its slot is emptied and the
/// device goes on with the slot it had.
pub proof fn failed_trial_is_dropped(current: OtaSlot)
    ensures
        confirmation_plan(Ok(trial_state(current)), current) == (PlanView {
            procedure: settling(Some(slot_after(current)), current),
            answer: Ok::<bool, Seq<char>>(true),
        }),
{
}

/// A boot from neither of the two slots of a trial leaves the trial as it is.
pub proof fn other_boot_decides_nothing(state: OtaRuntimeState, booted: OtaSlot)
    requires
        booted != state.active_slot,
        state.fallback_slot != Some(booted),
    ensures
        confirmation_plan(Ok(state), booted) == (PlanView {
            procedure: nothing(),
            answer: Ok::<bool, Seq<char>>(false),
        }),
{
}

/// Cancelling a trial sets the device back to the slot that ran before the update.
pub proof fn cancelled_trial_goes_back(current: OtaSlot)
    ensures
        ({
            let plan = cancellation_plan(Ok(trial_state(current)));
            &&& plan.answer == Ok::<(), Seq<char>>(())
            &&& plan.procedure.steps.skip(1) == state_steps(stable_state(current))
        }),
{
    let plan = cancellation_plan(Ok(trial_state(current)));
    assert(plan.procedure.steps.skip(1) =~= state_steps(stable_state(current)));
}

/// Once a trial has been decided, or cancelled, there is nothing left to decide: what
/// was recorded reads back as stable, a further confirmation does nothing, and a
/// further cancellation drops the staged package and does nothing else.
pub proof fn settled_stays_settled(slot: OtaSlot, booted: OtaSlot)
    ensures
        state_of(state_text(stable_state(slot))) == stable_state(slot),
        confirmation_plan(Ok(stable_state(slot)), booted) == (PlanView {
            procedure: nothing(),
            answer: Ok::<bool, Seq<char>>(false),
        }),
        cancellation_plan(Ok(stable_state(slot))).answer == Ok::<(), Seq<char>>(()),
        cancellation_plan(Ok(stable_state(slot))).procedure.steps.len() == 1,
        cancellation_plan(Ok(stable_state(slot))).procedure.steps[0].command
            == CommandView::RemoveDirAll(OTA_STAGING_DIR@),
{
    state_round_trip(stable_state(slot));
}

/// An update on trial counts as pending and is described by the metadata in its slot;
/// once it has been decided it does not count any more.
pub proof fn trial_is_pending_until_settled(current: OtaSlot)
    ensures
        on_trial(Ok(trial_state(current))),
        trial_meta_file(Ok(trial_state(current))) == meta_file_of(slot_after(current)),
        trial_meta_file(Ok(trial_state(current))) is Some,
        !on_trial(Ok(stable_state(current))),
        trial_meta_file(Ok(stable_state(current))) is None,
{
}

/// No state that is recorded has its active slot as its own fallback.
pub proof fn recorded_fallback_is_another_slot(current: OtaSlot)
    ensures
        trial_state(current).fallback_slot != Some(trial_state(current).active_slot),
        stable_state(current).fallback_slot != Some(stable_state(current).active_slot),
{
}

/// A confirmation never removes anything of the slot that runs, unless that is an update
/// slot on trial that is recorded as its own fallback.
pub proof fn confirmation_keeps_running_slot(
    state: OtaRuntimeState,
    current: OtaSlot,
    events: Seq<EventView>,
    i: int,
)
    requires
        !(state.boot_state == OtaBootState::Trial && state.active_slot == current
            && state.fallback_slot == Some(current) && current != OtaSlot::Legacy),
        0 <= i < performed(
            start_of(confirmation_plan(Ok(state), current).procedure),
            events,
        ).len(),
    ensures
        !has_command(
            removal_steps(current),
            performed(start_of(confirmation_plan(Ok(state), current).procedure), events)[i],
        ),
{
    let p = confirmation_plan(Ok(state), current).procedure;
    let command = performed(start_of(p), events)[i];
    only_planned_commands(p, events, i);
    let removed = if state.active_slot == current {
        if state.fallback_slot == Some(OtaSlot::Legacy) {
            None
        } else {
            state.fallback_slot
        }
    } else {
        Some(state.active_slot)
    };
    assert(p == settling(removed, current));
    assert(removed != Some(current));
    let k = choose|k: int| 0 <= k < p.steps.len() && (#[trigger] p.steps[k]).command == command;
    lemma_paths_differ();
    slot_directories_differ();
    if has_command(removal_steps(current), command) {
        let j = choose|j: int|
            0 <= j < removal_steps(current).len() && (#[trigger] removal_steps(current)[j]).command
                == command;
        let first = if removed is Some {
            ignoring(removal_steps(removed->0))
        } else {
            Seq::empty()
        };
        if k < first.len() {
            assert(p.steps[k] == first[k]);
            assert(first[k].command == removal_steps(removed->0)[k].command);
        } else {
            assert(p.steps[k] == state_steps(stable_state(current))[k - first.len()]);
        }
    }
}

/// Whether two runs are at the same command.
spec fn at_same_command(a: RunView, b: RunView) -> bool {
    &&& a.probed == b.probed
    &&& a.todo.len() == b.todo.len()
    &&& a.todo.len() <= 1
    &&& a.todo.len() == 1 ==> a.todo[0].guard == b.todo[0].guard && a.todo[0].command
        == b.todo[0].command
    &&& a.cleanup.len() == 0
    &&& b.cleanup.len() == 0
}

/// Emptying a slot without regard to failures carries out the same commands as
/// emptying it with regard to them.
pub proof fn ignoring_removal_does_the_same(slot: OtaSlot, events: Seq<EventView>)
    ensures
        performed(
            start_of(ProcedureView { steps: ignoring(removal_steps(slot)), cleanup: Seq::empty() }),
            events,
        ) == performed(
            start_of(ProcedureView { steps: removal_steps(slot), cleanup: Seq::empty() }),
            events,
        ),
{
    if directory_of(slot) is None {
        assert(ignoring(removal_steps(slot)) =~= removal_steps(slot));
    } else {
        lemma_same_commands(slot, events);
    }
}

proof fn lemma_same_commands(slot: OtaSlot, events: Seq<EventView>)
    requires
        directory_of(slot) is Some,
    ensures
        ({
            let a = start_of(
                ProcedureView { steps: ignoring(removal_steps(slot)), cleanup: Seq::empty() },
            );
            let b = start_of(ProcedureView { steps: removal_steps(slot), cleanup: Seq::empty() });
            &&& at_same_command(after_events(a, events), after_events(b, events))
            &&& performed(a, events) == performed(b, events)
        }),
    decreases events.len(),
{
    if events.len() > 0 {
        lemma_same_commands(slot, events.drop_last());
    }
}

/// An uploaded archive is unpacked only once all of it has been written to an empty
/// file in the staging directory.
pub proof fn unpacked_after_written(data: Seq<u8>, events: Seq<EventView>)
    requires
        ({
            let action = action_of(after_events(start_of(unpacking(data)), events));
            action is Perform && action->Perform_0 is RunChecked
        }),
    ensures
        step_succeeded(unpacking(data), events, 1),
        unpacking(data).steps[1].command == CommandView::CreateDirAll(OTA_STAGING_DIR@),
        step_succeeded(unpacking(data), events, 2),
        unpacking(data).steps[2].command is CreateFile,
        step_succeeded(unpacking(data), events, 3),
        unpacking(data).steps[3].command == (CommandView::WriteBytes {
            path: unpacking(data).steps[2].command->CreateFile_0,
            data,
        }),
{
    let p = unpacking(data);
    let run = after_events(start_of(p), events);
    run_is_in_steps_or_cleanup(p, events);
    let k = p.steps.len() - run.todo.len();
    assert(run.todo.first() == p.steps[k]);
    assert(p.steps.len() == 9);
    assert(k == 0 || k == 1 || k == 2 || k == 3 || k == 4 || k == 5 || k == 6 || k == 7 || k == 8);
    steps_before_have_succeeded(p, events, 1);
    steps_before_have_succeeded(p, events, 2);
    steps_before_have_succeeded(p, events, 3);
}

/// An upload that ends well has been unpacked.
pub proof fn finished_upload_is_unpacked(data: Seq<u8>, events: Seq<EventView>)
    requires
        action_of(after_events(start_of(unpacking(data)), events)) == ActionView::Finished(None),
    ensures
        step_succeeded(unpacking(data), events, 4),
        unpacking(data).steps[4].command is RunChecked,
{
    let p = unpacking(data);
    assert(p.steps.len() == 9);
    steps_before_have_succeeded(p, events, 4);
}

/// Whether `path` lies in the directory `dir`, at any depth.
pub open spec fn lies_in(dir: Seq<char>, path: Seq<char>) -> bool {
    (dir + "/"@).is_prefix_of(path)
}

/// Whether a command is one that unpacking an upload may take: to empty and create the
/// staging directory, to create, write and remove the archive in it, to unpack that
/// archive into it, and to set modes in it.
pub open spec fn belongs_to_unpacking(data: Seq<u8>, command: CommandView) -> bool {
    match command {
        CommandView::RemoveDirAll(path) => path == OTA_STAGING_DIR@,
        CommandView::CreateDirAll(path) => path == OTA_STAGING_DIR@,
        CommandView::CreateFile(path) => lies_in(OTA_STAGING_DIR@, path),
        CommandView::WriteBytes { path, data: written } => lies_in(OTA_STAGING_DIR@, path)
            && written == data,
        CommandView::RemoveFile(path) => lies_in(OTA_STAGING_DIR@, path),
        CommandView::RunChecked { program, args } => args.len() == 4 && lies_in(
            OTA_STAGING_DIR@,
            args[1],
        ) && args[3] == OTA_STAGING_DIR@ && command == extract_step(is_zip(data), args[1]).command,
        CommandView::Run { program, args } => sets_modes_below(OTA_STAGING_DIR@, command),
        _ => false,
    }
}

/// Unpacking an upload, however it goes, touches nothing but the staging directory.
pub proof fn unpacking_stays_in_staging(data: Seq<u8>, events: Seq<EventView>, i: int)
    requires
        0 <= i < performed(start_of(unpacking(data)), events).len(),
    ensures
        belongs_to_unpacking(data, performed(start_of(unpacking(data)), events)[i]),
{
    let p = unpacking(data);
    let command = performed(start_of(p), events)[i];
    only_planned_commands(p, events, i);
    let k = choose|k: int| 0 <= k < p.steps.len() && (#[trigger] p.steps[k]).command == command;
    assert(p.steps.len() == 9);
    let archive = p.steps[2].command->CreateFile_0;
    reveal_strlit("/tmp/ota_staging");
    reveal_strlit("/");
    assert(OTA_STAGING_DIR@.last() == 'g');
    assert(lies_in(OTA_STAGING_DIR@, archive));
    if k >= 6 {
        assert(p.steps[k] == permission_steps(OTA_STAGING_DIR@)[k - 6]);
        lemma_permission_steps(OTA_STAGING_DIR@, k - 6);
    } else {
        assert(k == 0 || k == 1 || k == 2 || k == 3 || k == 4 || k == 5);
    }
}

/// A binary that is started by a restart knows that it runs from the new slot, whatever
/// the path of its program.
pub proof fn restart_comes_up_in_new_slot(
    current: OtaSlot,
    program: Option<Seq<Option<Seq<char>>>>,
)
    ensures
        ({
            let command = launch_step(slot_after(current), current).command;
            &&& command->Launch_env[0].0 == "UDX710_ACTIVE_SLOT"@
            &&& current_slot(Some(command->Launch_env[0].1), program) == slot_after(current)
        }),
{
    named_slot_wins(slot_after(current), program);
}

} // verus!
