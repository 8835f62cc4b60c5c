//! What the operations do to the device, in plain paths, programs and texts.

use vstd::prelude::*;
use vstd::string::*;

use crate::package::{
    refused_package_is_explained, validation_of, zip_by_first_four_bytes, MetaView, OtaMeta,
    StagedPackage,
};
use crate::procedure::{
    guarded, ignored_step, ignoring, needed_step, CommandView, OnFailureView,
};
use crate::slot::{
    builds_lie_in_their_slots, joined_path, slot_after, OtaSlot, OTA_STAGING_DIR,
};
use crate::state::{state_text, with_error_text, OtaBootState, OtaRuntimeState};
use crate::update::{
    application_plan, cancellation_plan, confirmation_plan, installation, pending_view,
    permission_steps, plan_view, removal_steps, settling, stable_state, state_steps,
    text_plan_view, trial_state, unpacking, Plan,
};

verus! {

/// Permissions are set below any root in the same way: the binary is made executable, and
/// only its failure counts; directories of the frontend can be entered, its files read.
pub proof fn permissions_are_set_below_root(root: Seq<char>)
    ensures
        permission_steps(root) == seq![
            guarded(
                root + "/udx710"@,
                needed_step(
                    CommandView::Run { program: "chmod"@, args: seq!["755"@, root + "/udx710"@] },
                    "Failed to chmod binary "@ + (root + "/udx710"@) + ": "@,
                ),
            ),
            guarded(
                root + "/www"@,
                ignored_step(
                    CommandView::Run {
                        program: "find"@,
                        args: seq![
                            root + "/www"@,
                            "-type"@,
                            "d"@,
                            "-exec"@,
                            "chmod"@,
                            "755"@,
                            "{}"@,
                            "+"@,
                        ],
                    },
                ),
            ),
            guarded(
                root + "/www"@,
                ignored_step(
                    CommandView::Run {
                        program: "find"@,
                        args: seq![
                            root + "/www"@,
                            "-type"@,
                            "f"@,
                            "-exec"@,
                            "chmod"@,
                            "644"@,
                            "{}"@,
                            "+"@,
                        ],
                    },
                ),
            ),
        ],
{
}

/// Emptying an update slot removes its directory, if that is there; emptying the legacy
/// location removes its binary and its frontend.
pub proof fn slots_are_emptied_where_they_lie(slot: OtaSlot)
    ensures
        slot == OtaSlot::Legacy ==> removal_steps(slot) == seq![
            ignored_step(CommandView::RemoveFile("/home/root/udx710"@)),
            ignored_step(CommandView::RemoveDirAll("/home/root/www"@)),
        ],
        slot != OtaSlot::Legacy ==> {
            let dir = if slot == OtaSlot::SlotA {
                "/home/root/ota/slots/slot-a"@
            } else {
                "/home/root/ota/slots/slot-b"@
            };
            removal_steps(slot) == seq![
                guarded(
                    dir,
                    needed_step(
                        CommandView::RemoveDirAll(dir),
                        "Failed to remove slot directory "@ + dir + ": "@,
                    ),
                ),
            ]
        },
{
    builds_lie_in_their_slots(slot);
}

/// A state is recorded in full, in the state file, below a directory that is made sure of
/// first; both count.
pub proof fn states_are_recorded_in_full(state: OtaRuntimeState)
    ensures
        state_steps(state) == seq![
            needed_step(
                CommandView::CreateDirAll("/home/root/ota"@),
                "Failed to create OTA runtime directory: "@,
            ),
            needed_step(
                CommandView::WriteText {
                    path: "/home/root/ota/state.env"@,
                    text: state_text(state),
                },
                "Failed to write OTA state file: "@,
            ),
        ],
{
}

/// The states that operations record: a trial of the other slot with the running one to
/// fall back to, and a slot that is settled.
pub proof fn recorded_states(slot: OtaSlot)
    ensures
        trial_state(slot) == (OtaRuntimeState {
            active_slot: if slot == OtaSlot::SlotA {
                OtaSlot::SlotB
            } else {
                OtaSlot::SlotA
            },
            fallback_slot: Some(slot),
            boot_state: OtaBootState::Trial,
            trial_attempts: 0,
        }),
        stable_state(slot) == (OtaRuntimeState {
            active_slot: slot,
            fallback_slot: None,
            boot_state: OtaBootState::Stable,
            trial_attempts: 0,
        }),
{
}

/// An upload that starts with the bytes of a ZIP archive is unpacked by `unzip`, whatever
/// follows them.
pub proof fn zip_uploads_are_unzipped(rest: Seq<u8>)
    ensures
        ({
            let steps = unpacking(seq![0x50u8, 0x4bu8, 0x03u8, 0x04u8] + rest).steps;
            &&& steps.len() > 4
            &&& steps[4].command == (CommandView::RunChecked {
                program: "unzip"@,
                args: seq![
                    "-o"@,
                    "/tmp/ota_staging/update.zip"@,
                    "-d"@,
                    "/tmp/ota_staging"@,
                ],
            })
            &&& forall|i: int|
                0 <= i < steps.len() && (#[trigger] steps[i]).command is RunChecked ==> i == 4
        }),
{
    let data = seq![0x50u8, 0x4bu8, 0x03u8, 0x04u8] + rest;
    zip_by_first_four_bytes(data);
    lemma_archive_paths();
    let steps = unpacking(data).steps;
    assert(steps.len() == 9);
    assert forall|i: int|
        0 <= i < steps.len() && (#[trigger] steps[i]).command is RunChecked implies i == 4 by {
        assert(i == 0 || i == 1 || i == 2 || i == 3 || i == 4 || i == 5 || i == 6 || i == 7 || i
            == 8);
    }
}

/// An upload that does not start with the bytes of a ZIP archive is unpacked by `tar`,
/// whatever it holds.
pub proof fn other_uploads_are_untarred(data: Seq<u8>)
    requires
        data.len() < 4 || data[0] != 0x50 || data[1] != 0x4b || data[2] != 0x03 || data[3] != 0x04,
    ensures
        ({
            let steps = unpacking(data).steps;
            &&& steps.len() > 4
            &&& steps[4].command == (CommandView::RunChecked {
                program: "tar"@,
                args: seq![
                    "-xzf"@,
                    "/tmp/ota_staging/update.tar.gz"@,
                    "-C"@,
                    "/tmp/ota_staging"@,
                ],
            })
            &&& forall|i: int|
                0 <= i < steps.len() && (#[trigger] steps[i]).command is RunChecked ==> i == 4
        }),
{
    zip_by_first_four_bytes(data);
    lemma_archive_paths();
    let steps = unpacking(data).steps;
    assert(steps.len() == 9);
    assert forall|i: int|
        0 <= i < steps.len() && (#[trigger] steps[i]).command is RunChecked implies i == 4 by {
        assert(i == 0 || i == 1 || i == 2 || i == 3 || i == 4 || i == 5 || i == 6 || i == 7 || i
            == 8);
    }
}

proof fn lemma_archive_paths()
    ensures
        joined_path(OTA_STAGING_DIR@, "update.zip"@)
            == "/tmp/ota_staging/update.zip"@,
        joined_path(OTA_STAGING_DIR@, "update.tar.gz"@)
            == "/tmp/ota_staging/update.tar.gz"@,
{
    reveal_strlit("/tmp/ota_staging");
    reveal_strlit("/");
    reveal_strlit("update.zip");
    reveal_strlit("update.tar.gz");
    reveal_strlit("/tmp/ota_staging/update.zip");
    reveal_strlit("/tmp/ota_staging/update.tar.gz");
    assert(OTA_STAGING_DIR@.last() == 'g');
    assert("/tmp/ota_staging"@ + "/"@ + "update.zip"@ =~= "/tmp/ota_staging/update.zip"@);
    assert("/tmp/ota_staging"@ + "/"@ + "update.tar.gz"@ =~= "/tmp/ota_staging/update.tar.gz"@);
}

/// Every upload goes the same way: the staging directory is emptied and created, the
/// archive is written there as it came, unpacked and removed, and the permissions of what
/// came out are set. Nothing is undone on a failure.
pub proof fn uploads_are_unpacked_in_order(data: Seq<u8>)
    ensures
        ({
            let steps = unpacking(data).steps;
            let zip = data.len() >= 4 && data[0] == 0x50 && data[1] == 0x4b && data[2] == 0x03
                && data[3] == 0x04;
            let archive = if zip {
                "/tmp/ota_staging/update.zip"@
            } else {
                "/tmp/ota_staging/update.tar.gz"@
            };
            &&& unpacking(data).cleanup.len() == 0
            &&& steps.len() == 9
            &&& steps[0] == ignored_step(CommandView::RemoveDirAll("/tmp/ota_staging"@))
            &&& steps[1] == needed_step(
                CommandView::CreateDirAll("/tmp/ota_staging"@),
                "Failed to create staging dir: "@,
            )
            &&& steps[2] == needed_step(
                CommandView::CreateFile(archive),
                if zip {
                    "Failed to create zip file: "@
                } else {
                    "Failed to create tar file: "@
                },
            )
            &&& steps[3] == needed_step(
                CommandView::WriteBytes { path: archive, data },
                if zip {
                    "Failed to write zip file: "@
                } else {
                    "Failed to write tar file: "@
                },
            )
            &&& steps[4].guard is None
            &&& steps[4].on_failure == if zip {
                OnFailureView::Abort {
                    before: "Failed to extract zip: "@,
                    after: ". Make sure 'unzip' is installed."@,
                }
            } else {
                OnFailureView::Abort { before: "Failed to extract tar: "@, after: Seq::empty() }
            }
            &&& steps[5] == ignored_step(CommandView::RemoveFile(archive))
            &&& steps.skip(6) == permission_steps("/tmp/ota_staging"@)
        }),
{
    zip_by_first_four_bytes(data);
    lemma_archive_paths();
    let steps = unpacking(data).steps;
    assert(steps.len() == 9);
    assert(steps.skip(6) =~= permission_steps("/tmp/ota_staging"@));
}

/// An installation in full, for every slot that may run: the other update slot is emptied
/// and filled, the permissions there are set, the trial is recorded, the staged package
/// goes, and, if asked for, the new binary is started. If something that counts fails,
/// the slot is emptied again.
pub proof fn updates_are_installed_in_order(current: OtaSlot, restart_now: bool)
    ensures
        ({
            let p = installation(current, restart_now);
            let dir = if current == OtaSlot::SlotA {
                "/home/root/ota/slots/slot-b"@
            } else {
                "/home/root/ota/slots/slot-a"@
            };
            &&& p.steps.len() == if restart_now {
                9int
            } else {
                8int
            }
            &&& p.steps[0] == guarded(dir, ignored_step(CommandView::RemoveDirAll(dir)))
            &&& p.steps[1] == needed_step(
                CommandView::CopyTree { from: "/tmp/ota_staging"@, to: dir },
                Seq::empty(),
            )
            &&& p.steps.subrange(2, 5) == permission_steps(dir)
            &&& p.steps.subrange(5, 7) == state_steps(
                OtaRuntimeState {
                    active_slot: if current == OtaSlot::SlotA {
                        OtaSlot::SlotB
                    } else {
                        OtaSlot::SlotA
                    },
                    fallback_slot: Some(current),
                    boot_state: OtaBootState::Trial,
                    trial_attempts: 0,
                },
            )
            &&& p.steps[7] == ignored_step(CommandView::RemoveDirAll("/tmp/ota_staging"@))
            &&& restart_now ==> p.steps[8] == ignored_step(
                CommandView::Launch {
                    program: dir + "/udx710"@,
                    args: seq!["-p"@, "80"@],
                    env: seq![
                        (
                            "UDX710_ACTIVE_SLOT"@,
                            if current == OtaSlot::SlotA {
                                "slot-b"@
                            } else {
                                "slot-a"@
                            },
                        ),
                        (
                            "UDX710_FALLBACK_SLOT"@,
                            match current {
                                OtaSlot::Legacy => "legacy"@,
                                OtaSlot::SlotA => "slot-a"@,
                                OtaSlot::SlotB => "slot-b"@,
                            },
                        ),
                        ("UDX710_OTA_STATE_FILE"@, "/home/root/ota/state.env"@),
                    ],
                    delay_ms: 1000,
                    linger_ms: 200,
                },
            )
            &&& p.cleanup == seq![
                guarded(
                    dir,
                    needed_step(
                        CommandView::RemoveDirAll(dir),
                        "Failed to remove slot directory "@ + dir + ": "@,
                    ),
                ),
            ]
        }),
{
    let p = installation(current, restart_now);
    let target = slot_after(current);
    builds_lie_in_their_slots(target);
    slots_are_emptied_where_they_lie(target);
    let dir = if current == OtaSlot::SlotA {
        "/home/root/ota/slots/slot-b"@
    } else {
        "/home/root/ota/slots/slot-a"@
    };
    assert(ignoring(removal_steps(target)).len() == 1);
    assert(ignoring(removal_steps(target))[0] == guarded(
        dir,
        ignored_step(CommandView::RemoveDirAll(dir)),
    ));
    assert(p.steps.subrange(2, 5) =~= permission_steps(dir));
    assert(p.steps.subrange(5, 7) =~= state_steps(trial_state(current)));
}

/// What a restart starts lies in the directory that the same installation copies the
/// package to, and is told the slot of that directory; it is started last, and only if
/// asked for.
pub proof fn restart_starts_what_was_copied(current: OtaSlot, restart_now: bool, i: int, j: int)
    requires
        0 <= i < installation(current, restart_now).steps.len(),
        0 <= j < installation(current, restart_now).steps.len(),
        installation(current, restart_now).steps[i].command is CopyTree,
        installation(current, restart_now).steps[j].command is Launch,
    ensures
        ({
            let steps = installation(current, restart_now).steps;
            let copied = steps[i].command;
            let started = steps[j].command;
            &&& restart_now
            &&& j == steps.len() - 1
            &&& started->Launch_program == copied->CopyTree_to + "/udx710"@
            &&& copied->CopyTree_from == "/tmp/ota_staging"@
            &&& started->Launch_env.len() == 3
            &&& started->Launch_env[0].0 == "UDX710_ACTIVE_SLOT"@
            &&& copied->CopyTree_to == "/home/root/ota/slots/"@ + started->Launch_env[0].1
            &&& started->Launch_env[0].1 != started->Launch_env[1].1
        }),
{
    let p = installation(current, restart_now);
    updates_are_installed_in_order(current, restart_now);
    let target = slot_after(current);
    builds_lie_in_their_slots(target);
    reveal_strlit("legacy");
    reveal_strlit("slot-a");
    reveal_strlit("slot-b");
    assert("slot-a"@[5] == 'a' && "slot-b"@[5] == 'b' && "legacy"@[5] == 'y');
    assert(p.steps[2] == p.steps.subrange(2, 5)[0]);
    assert(p.steps[3] == p.steps.subrange(2, 5)[1]);
    assert(p.steps[4] == p.steps.subrange(2, 5)[2]);
    assert(p.steps[5] == p.steps.subrange(5, 7)[0]);
    assert(p.steps[6] == p.steps.subrange(5, 7)[1]);
    assert(i == 0 || i == 1 || i == 2 || i == 3 || i == 4 || i == 5 || i == 6 || i == 7 || i == 8);
    assert(j == 0 || j == 1 || j == 2 || j == 3 || j == 4 || j == 5 || j == 6 || j == 7 || j == 8);
}

/// A restart is ordered exactly if it is asked for.
pub proof fn restart_only_if_asked_for(current: OtaSlot, restart_now: bool)
    ensures
        restart_now <==> exists|j: int|
            0 <= j < installation(current, restart_now).steps.len() && (
            #[trigger] installation(current, restart_now).steps[j]).command is Launch,
{
    let steps = installation(current, restart_now).steps;
    updates_are_installed_in_order(current, restart_now);
    if restart_now {
        assert(steps[8].command is Launch);
    } else {
        assert forall|j: int| 0 <= j < steps.len() implies !((#[trigger] steps[j]).command
            is Launch) by {
            assert(steps[2] == steps.subrange(2, 5)[0]);
            assert(steps[3] == steps.subrange(2, 5)[1]);
            assert(steps[4] == steps.subrange(2, 5)[2]);
            assert(steps[5] == steps.subrange(5, 7)[0]);
            assert(steps[6] == steps.subrange(5, 7)[1]);
            assert(j == 0 || j == 1 || j == 2 || j == 3 || j == 4 || j == 5 || j == 6 || j == 7);
        }
    }
}

/// A pending update is installed, and the answer names its version and its slot, exactly
/// if its package is valid; else nothing is done, and the answer is the reason.
pub proof fn updates_are_applied_or_refused(
    meta: MetaView,
    package: StagedPackage,
    current_version: Seq<char>,
    current: OtaSlot,
    restart_now: bool,
    e: Seq<char>,
)
    ensures
        ({
            let plan = application_plan(
                Ok(Some(meta)),
                package,
                current_version,
                current,
                restart_now,
            );
            let validation = validation_of(meta, package, current_version);
            &&& validation is Ok && validation->Ok_0.valid ==> {
                &&& plan.procedure == installation(current, restart_now)
                &&& plan.answer == Ok::<Seq<char>, Seq<char>>(
                    "Update to version "@ + meta.version + " staged in "@ + if current
                        == OtaSlot::SlotA {
                        "slot-b"@
                    } else {
                        "slot-a"@
                    },
                )
            }
            &&& validation is Ok && !validation->Ok_0.valid ==> {
                &&& plan.procedure.steps.len() == 0
                &&& plan.procedure.cleanup.len() == 0
                &&& validation->Ok_0.error is Some
                &&& plan.answer == Err::<Seq<char>, Seq<char>>(validation->Ok_0.error->0)
            }
            &&& validation is Err ==> {
                &&& plan.procedure.steps.len() == 0
                &&& plan.procedure.cleanup.len() == 0
                &&& plan.answer == Err::<Seq<char>, Seq<char>>(validation->Err_0)
            }
        }),
        ({
            let none = application_plan(Ok(None), package, current_version, current, restart_now);
            &&& none.procedure.steps.len() == 0
            &&& none.procedure.cleanup.len() == 0
            &&& none.answer == Err::<Seq<char>, Seq<char>>("No pending update"@)
        }),
        ({
            let failed = application_plan(Err(e), package, current_version, current, restart_now);
            &&& failed.procedure.steps.len() == 0
            &&& failed.procedure.cleanup.len() == 0
            &&& failed.answer == Err::<Seq<char>, Seq<char>>(e)
        }),
{
    refused_package_is_explained(meta, package, current_version);
}

proof fn lemma_settling(removed: Option<OtaSlot>, current: OtaSlot)
    ensures
        settling(removed, current).cleanup.len() == 0,
        removed is None ==> settling(removed, current).steps == state_steps(stable_state(current)),
        removed == Some(OtaSlot::Legacy) ==> {
            let steps = settling(removed, current).steps;
            &&& steps.len() == 4
            &&& steps[0] == ignored_step(CommandView::RemoveFile("/home/root/udx710"@))
            &&& steps[1] == ignored_step(CommandView::RemoveDirAll("/home/root/www"@))
            &&& steps.skip(2) == state_steps(stable_state(current))
        },
        removed is Some && removed != Some(OtaSlot::Legacy) ==> {
            let dir = if removed == Some(OtaSlot::SlotA) {
                "/home/root/ota/slots/slot-a"@
            } else {
                "/home/root/ota/slots/slot-b"@
            };
            let steps = settling(removed, current).steps;
            &&& steps.len() == 3
            &&& steps[0] == guarded(dir, ignored_step(CommandView::RemoveDirAll(dir)))
            &&& steps.skip(1) == state_steps(stable_state(current))
        },
{
    let steps = settling(removed, current).steps;
    match removed {
        None => {
            assert(steps =~= state_steps(stable_state(current)));
        },
        Some(slot) => {
            slots_are_emptied_where_they_lie(slot);
            let first = ignoring(removal_steps(slot));
            assert(first.len() == removal_steps(slot).len());
            assert(steps.skip(first.len() as int) =~= state_steps(stable_state(current)));
            assert(steps[0] == first[0]);
            if slot == OtaSlot::Legacy {
                assert(steps[1] == first[1]);
            }
        },
    }
}

/// When the slot on trial has come up, the directory of the slot before it is removed
/// first, if that slot has one; then the trial is recorded as over. Nothing else is done,
/// whatever else the state says.
pub proof fn confirming_removes_previous_slot(
    current: OtaSlot,
    previous: Option<OtaSlot>,
    trial_attempts: u8,
)
    ensures
        ({
            let plan = confirmation_plan(
                Ok(
                    OtaRuntimeState {
                        active_slot: current,
                        fallback_slot: previous,
                        boot_state: OtaBootState::Trial,
                        trial_attempts,
                    },
                ),
                current,
            );
            let steps = plan.procedure.steps;
            let settled = state_steps(
                OtaRuntimeState {
                    active_slot: current,
                    fallback_slot: None,
                    boot_state: OtaBootState::Stable,
                    trial_attempts: 0,
                },
            );
            let a = "/home/root/ota/slots/slot-a"@;
            let b = "/home/root/ota/slots/slot-b"@;
            &&& plan.answer == Ok::<bool, Seq<char>>(true)
            &&& plan.procedure.cleanup.len() == 0
            &&& previous == Some(OtaSlot::SlotA) ==> steps.len() == 3 && steps[0] == guarded(
                a,
                ignored_step(CommandView::RemoveDirAll(a)),
            ) && steps.skip(1) == settled
            &&& previous == Some(OtaSlot::SlotB) ==> steps.len() == 3 && steps[0] == guarded(
                b,
                ignored_step(CommandView::RemoveDirAll(b)),
            ) && steps.skip(1) == settled
            &&& previous is None || previous == Some(OtaSlot::Legacy) ==> steps == settled
        }),
{
    lemma_settling(previous, current);
    lemma_settling(None, current);
}

/// When the fallback has come up instead, the build on trial is removed first; then the
/// fallback is recorded as the slot that runs. Nothing else is done, whatever else the
/// state says.
pub proof fn falling_back_removes_failed_slot(
    current: OtaSlot,
    failed: OtaSlot,
    trial_attempts: u8,
)
    requires
        failed != current,
    ensures
        ({
            let plan = confirmation_plan(
                Ok(
                    OtaRuntimeState {
                        active_slot: failed,
                        fallback_slot: Some(current),
                        boot_state: OtaBootState::Trial,
                        trial_attempts,
                    },
                ),
                current,
            );
            let steps = plan.procedure.steps;
            let settled = state_steps(
                OtaRuntimeState {
                    active_slot: current,
                    fallback_slot: None,
                    boot_state: OtaBootState::Stable,
                    trial_attempts: 0,
                },
            );
            let a = "/home/root/ota/slots/slot-a"@;
            let b = "/home/root/ota/slots/slot-b"@;
            &&& plan.answer == Ok::<bool, Seq<char>>(true)
            &&& plan.procedure.cleanup.len() == 0
            &&& failed == OtaSlot::SlotA ==> steps.len() == 3 && steps[0] == guarded(
                a,
                ignored_step(CommandView::RemoveDirAll(a)),
            ) && steps.skip(1) == settled
            &&& failed == OtaSlot::SlotB ==> steps.len() == 3 && steps[0] == guarded(
                b,
                ignored_step(CommandView::RemoveDirAll(b)),
            ) && steps.skip(1) == settled
            &&& failed == OtaSlot::Legacy ==> steps.len() == 4 && steps[0] == ignored_step(
                CommandView::RemoveFile("/home/root/udx710"@),
            ) && steps[1] == ignored_step(CommandView::RemoveDirAll("/home/root/www"@))
                && steps.skip(2) == settled
        }),
{
    lemma_settling(Some(failed), current);
}

/// After an update both outcomes of its trial remove the slot that lost: the first command
/// is to remove the directory that this slot has.
pub proof fn the_losing_slot_is_removed(current: OtaSlot)
    ensures
        ({
            let won = confirmation_plan(Ok(trial_state(current)), slot_after(current));
            let lost = confirmation_plan(Ok(trial_state(current)), current);
            &&& current == OtaSlot::SlotA ==> {
                &&& won.procedure.steps[0].command == CommandView::RemoveDirAll(
                    "/home/root/ota/slots/slot-a"@,
                )
                &&& lost.procedure.steps[0].command == CommandView::RemoveDirAll(
                    "/home/root/ota/slots/slot-b"@,
                )
            }
            &&& current == OtaSlot::SlotB ==> {
                &&& won.procedure.steps[0].command == CommandView::RemoveDirAll(
                    "/home/root/ota/slots/slot-b"@,
                )
                &&& lost.procedure.steps[0].command == CommandView::RemoveDirAll(
                    "/home/root/ota/slots/slot-a"@,
                )
            }
            &&& current == OtaSlot::Legacy ==> {
                &&& won.procedure.steps.len() == 2
                &&& lost.procedure.steps[0].command == CommandView::RemoveDirAll(
                    "/home/root/ota/slots/slot-a"@,
                )
            }
        }),
{
    confirming_removes_previous_slot(slot_after(current), Some(current), 0);
    falling_back_removes_failed_slot(current, slot_after(current), 0);
}

/// A boot settles nothing where nothing is on trial, where neither slot of the trial has
/// come up, or where the state is unknown.
pub proof fn other_boots_do_nothing(state: OtaRuntimeState, booted: OtaSlot, e: Seq<char>)
    ensures
        state.boot_state == OtaBootState::Stable || (booted != state.active_slot
            && state.fallback_slot != Some(booted)) ==> {
            let plan = confirmation_plan(Ok(state), booted);
            &&& plan.procedure.steps.len() == 0
            &&& plan.procedure.cleanup.len() == 0
            &&& plan.answer == Ok::<bool, Seq<char>>(false)
        },
        confirmation_plan(Err(e), booted).procedure.steps.len() == 0,
        confirmation_plan(Err(e), booted).procedure.cleanup.len() == 0,
        confirmation_plan(Err(e), booted).answer == Err::<bool, Seq<char>>(e),
{
}

/// Cancelling removes the staged package first, whatever is known of the state, and sets a
/// device with an update on trial back to its fallback, or to the legacy location if there
/// is none.
pub proof fn cancelling_drops_package_and_trial(state: OtaRuntimeState, e: Seq<char>)
    ensures
        ({
            let plan = cancellation_plan(Ok(state));
            let steps = plan.procedure.steps;
            &&& plan.answer == Ok::<(), Seq<char>>(())
            &&& plan.procedure.cleanup.len() == 0
            &&& steps.len() > 0
            &&& steps[0] == ignored_step(CommandView::RemoveDirAll("/tmp/ota_staging"@))
            &&& state.boot_state == OtaBootState::Stable ==> steps.len() == 1
            &&& state.boot_state == OtaBootState::Trial ==> steps.skip(1) == state_steps(
                OtaRuntimeState {
                    active_slot: if state.fallback_slot is Some {
                        state.fallback_slot->0
                    } else {
                        OtaSlot::Legacy
                    },
                    fallback_slot: None,
                    boot_state: OtaBootState::Stable,
                    trial_attempts: 0,
                },
            )
        }),
        ({
            let plan = cancellation_plan(Err(e));
            let steps = plan.procedure.steps;
            &&& plan.answer == Err::<(), Seq<char>>(e)
            &&& plan.procedure.cleanup.len() == 0
            &&& steps.len() == 1
            &&& steps[0] == ignored_step(CommandView::RemoveDirAll("/tmp/ota_staging"@))
        }),
{
    let steps = cancellation_plan(Ok(state)).procedure.steps;
    if state.boot_state == OtaBootState::Trial {
        let back = stable_state(
            match state.fallback_slot {
                Some(slot) => slot,
                None => OtaSlot::Legacy,
            },
        );
        assert(steps.skip(1) =~= state_steps(back));
    }
}

/// A plan shows in its view with its procedure and its answer, and what is known before it
/// is made with its values and errors.
pub proof fn plans_show_their_parts<T>(
    plan: Plan<T>,
    text_plan: Plan<String>,
    pending: Result<Option<OtaMeta>, String>,
    state: Result<OtaRuntimeState, String>,
)
    ensures
        plan_view(plan).procedure == plan.procedure.deep_view(),
        plan.answer is Ok ==> plan_view(plan).answer == Ok::<T, Seq<char>>(plan.answer->Ok_0),
        plan.answer is Err ==> plan_view(plan).answer == Err::<T, Seq<char>>(
            plan.answer->Err_0@,
        ),
        text_plan_view(text_plan).procedure == text_plan.procedure.deep_view(),
        text_plan.answer is Ok ==> text_plan_view(text_plan).answer == Ok::<
            Seq<char>,
            Seq<char>,
        >(text_plan.answer->Ok_0@),
        text_plan.answer is Err ==> text_plan_view(text_plan).answer == Err::<
            Seq<char>,
            Seq<char>,
        >(text_plan.answer->Err_0@),
        pending == Ok::<Option<OtaMeta>, String>(None) ==> pending_view(pending) == Ok::<
            Option<MetaView>,
            Seq<char>,
        >(None),
        pending is Ok && pending->Ok_0 is Some ==> pending_view(pending) == Ok::<
            Option<MetaView>,
            Seq<char>,
        >(Some(pending->Ok_0->0@)),
        pending is Err ==> pending_view(pending) == Err::<Option<MetaView>, Seq<char>>(
            pending->Err_0@,
        ),
        state is Ok ==> with_error_text(state) == Ok::<OtaRuntimeState, Seq<char>>(state->Ok_0),
        state is Err ==> with_error_text(state) == Err::<OtaRuntimeState, Seq<char>>(
            state->Err_0@,
        ),
{
}

} // verus!
