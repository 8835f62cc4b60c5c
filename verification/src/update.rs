//! The update operations: unpacking an upload, installing an update on trial,
//! confirming or undoing it.

use vstd::prelude::*;
use vstd::string::*;

use crate::package::{
    answers_unpacked, detect_zip_format, finish_ota_upload, is_zip, validate_ota_package,
    validation_of, MetaRead, MetaView, OtaMeta, OtaUploadResponse, StagedPackage,
};
use crate::procedure::{
    guarded, ignore_failures, ignored, ignored_step, ignoring, needed, needed_step, when_exists,
    Command, CommandView, OnFailure, OnFailureView, Procedure, ProcedureView, Step, StepView,
};
use crate::slot::{
    binary_of, directory_of, join_path, joined_path, name_of, next_slot, slot_after,
    slot_binary_path, slot_directory, slot_name, OtaSlot, OTA_BINARY_PATH, OTA_PORT,
    OTA_RUNTIME_DIR, OTA_STAGING_DIR, OTA_STATE_FILE, OTA_WWW_PATH,
};
use crate::state::{
    runtime_state_text, state_text, with_error_text, OtaBootState, OtaRuntimeState,
};
use crate::text::{concat, concat3};

verus! {

/// How long a restart waits before the new binary is started.
pub const LAUNCH_DELAY_MS: u64 = 1000;

/// How long this process stays once the new binary has been started.
pub const LAUNCH_LINGER_MS: u64 = 200;

/// A command that sets the mode of everything of one kind below a directory.
pub open spec fn chmod_below(root: Seq<char>, kind: Seq<char>, mode: Seq<char>) -> CommandView {
    CommandView::Run {
        program: "find"@,
        args: seq![root, "-type"@, kind, "-exec"@, "chmod"@, mode, "{}"@, "+"@],
    }
}

/// The steps that set the permissions of a build below `root`.
pub open spec fn permission_steps(root: Seq<char>) -> Seq<StepView> {
    let binary = root + "/udx710"@;
    let www = root + "/www"@;
    seq![
        guarded(
            binary,
            needed_step(
                CommandView::Run { program: "chmod"@, args: seq!["755"@, binary] },
                "Failed to chmod binary "@ + binary + ": "@,
            ),
        ),
        guarded(www, ignored_step(chmod_below(www, "d"@, "755"@))),
        guarded(www, ignored_step(chmod_below(www, "f"@, "644"@))),
    ]
}

/// The steps that remove the build in a slot.
pub open spec fn removal_steps(slot: OtaSlot) -> Seq<StepView> {
    match directory_of(slot) {
        None => seq![
            ignored_step(CommandView::RemoveFile(OTA_BINARY_PATH@)),
            ignored_step(CommandView::RemoveDirAll(OTA_WWW_PATH@)),
        ],
        Some(dir) => seq![
            guarded(
                dir,
                needed_step(
                    CommandView::RemoveDirAll(dir),
                    "Failed to remove slot directory "@ + dir + ": "@,
                ),
            ),
        ],
    }
}

/// The steps that record a state.
pub open spec fn state_steps(state: OtaRuntimeState) -> Seq<StepView> {
    seq![
        needed_step(
            CommandView::CreateDirAll(OTA_RUNTIME_DIR@),
            "Failed to create OTA runtime directory: "@,
        ),
        needed_step(
            CommandView::WriteText { path: OTA_STATE_FILE@, text: state_text(state) },
            "Failed to write OTA state file: "@,
        ),
    ]
}

/// A command that sets the mode of everything of one kind below a directory.
fn chmod_all_below(root: &str, kind: &str, mode: &str) -> (r: Command)
    ensures
        r.deep_view() == chmod_below(root@, kind@, mode@),
{
    let args: Vec<String> = vec![
        root.to_string(),
        "-type".to_string(),
        kind.to_string(),
        "-exec".to_string(),
        "chmod".to_string(),
        mode.to_string(),
        "{}".to_string(),
        "+".to_string(),
    ];
    assert(args.deep_view() =~= seq![
        root@,
        "-type"@,
        kind@,
        "-exec"@,
        "chmod"@,
        mode@,
        "{}"@,
        "+"@,
    ]);
    Command::Run { program: "find".to_string(), args }
}

/// The steps that set the permissions of a build below `root`.
pub fn fix_file_permissions(root: &str) -> (r: Vec<Step>)
    ensures
        r.deep_view() == permission_steps(root@),
{
    let binary = concat(root, "/udx710");
    let www = concat(root, "/www");
    let args: Vec<String> = vec!["755".to_string(), binary.clone()];
    assert(args.deep_view() =~= seq!["755"@, binary@]);
    let chmod = needed(
        Command::Run { program: "chmod".to_string(), args },
        concat3("Failed to chmod binary ", binary.as_str(), ": "),
    );
    let dirs = ignored(chmod_all_below(www.as_str(), "d", "755"));
    let files = ignored(chmod_all_below(www.as_str(), "f", "644"));
    let r = vec![
        when_exists(binary, chmod),
        when_exists(www.clone(), dirs),
        when_exists(www, files),
    ];
    assert(r.deep_view() =~= permission_steps(root@));
    r
}

/// The steps that remove the build in a slot.
pub fn remove_slot_artifacts(slot: OtaSlot) -> (r: Vec<Step>)
    ensures
        r.deep_view() == removal_steps(slot),
{
    match slot_directory(slot) {
        None => {
            let r = vec![
                ignored(Command::RemoveFile(OTA_BINARY_PATH.to_string())),
                ignored(Command::RemoveDirAll(OTA_WWW_PATH.to_string())),
            ];
            assert(r.deep_view() =~= removal_steps(slot));
            r
        },
        Some(dir) => {
            let remove = needed(
                Command::RemoveDirAll(dir.clone()),
                concat3("Failed to remove slot directory ", dir.as_str(), ": "),
            );
            let r = vec![when_exists(dir, remove)];
            assert(r.deep_view() =~= removal_steps(slot));
            r
        },
    }
}

/// The steps that record a state.
pub fn write_runtime_state(state: &OtaRuntimeState) -> (r: Vec<Step>)
    ensures
        r.deep_view() == state_steps(*state),
{
    let r = vec![
        needed(
            Command::CreateDirAll(OTA_RUNTIME_DIR.to_string()),
            "Failed to create OTA runtime directory: ".to_string(),
        ),
        needed(
            Command::WriteText {
                path: OTA_STATE_FILE.to_string(),
                text: runtime_state_text(state),
            },
            "Failed to write OTA state file: ".to_string(),
        ),
    ];
    assert(r.deep_view() =~= state_steps(*state));
    r
}

/// What an operation comes to: a procedure, and the answer once it has ended well. A
/// procedure that ends with an error gives that error as the answer.
#[derive(Debug, PartialEq, Eq)]
pub struct Plan<T> {
    /// What to do.
    pub procedure: Procedure,
    /// What to answer.
    pub answer: Result<T, String>,
}

/// The content of a `Plan`.
pub ghost struct PlanView<T> {
    pub procedure: ProcedureView,
    pub answer: Result<T, Seq<char>>,
}

/// The content of a plan whose answer is a plain value.
pub open spec fn plan_view<T>(plan: Plan<T>) -> PlanView<T> {
    PlanView {
        procedure: plan.procedure.deep_view(),
        answer: match plan.answer {
            Ok(v) => Ok(v),
            Err(e) => Err(e@),
        },
    }
}

/// The content of a plan whose answer is a text.
pub open spec fn text_plan_view(plan: Plan<String>) -> PlanView<Seq<char>> {
    PlanView {
        procedure: plan.procedure.deep_view(),
        answer: match plan.answer {
            Ok(v) => Ok(v@),
            Err(e) => Err(e@),
        },
    }
}

/// The answer of an operation, by how its procedure has ended.
pub fn conclude<T>(ended: Result<(), String>, answer: Result<T, String>) -> (r: Result<T, String>)
    ensures
        r == (match ended {
            Ok(_) => answer,
            Err(e) => Err(e),
        }),
{
    match ended {
        Ok(_) => answer,
        Err(e) => Err(e),
    }
}

/// A procedure without any steps.
pub open spec fn nothing() -> ProcedureView {
    ProcedureView { steps: Seq::empty(), cleanup: Seq::empty() }
}

/// The plan that does nothing and answers with an error.
pub open spec fn refusal<T>(e: Seq<char>) -> PlanView<T> {
    PlanView { procedure: nothing(), answer: Err(e) }
}

/// A procedure without any steps.
fn no_steps() -> (r: Procedure)
    ensures
        r.deep_view() == nothing(),
{
    let r = Procedure { steps: Vec::new(), cleanup: Vec::new() };
    assert(r.steps.deep_view() =~= Seq::empty());
    assert(r.cleanup.deep_view() =~= Seq::empty());
    r
}

/// The steps one after the other.
fn chain(first: Vec<Step>, second: Vec<Step>) -> (r: Vec<Step>)
    ensures
        r.deep_view() == first.deep_view() + second.deep_view(),
{
    let mut r = first;
    let mut more = second;
    r.append(&mut more);
    assert(r.deep_view() =~= first.deep_view() + second.deep_view());
    r
}

/// The procedure that does the steps and has nothing to clean up.
fn without_cleanup(steps: Vec<Step>) -> (r: Procedure)
    ensures
        r.deep_view() == (ProcedureView { steps: steps.deep_view(), cleanup: Seq::empty() }),
{
    let r = Procedure { steps, cleanup: Vec::new() };
    assert(r.cleanup.deep_view() =~= Seq::empty());
    r
}

/// The step that unpacks an archive into the staging directory.
pub open spec fn extract_step(zip: bool, archive: Seq<char>) -> StepView {
    if zip {
        StepView {
            guard: None,
            command: CommandView::RunChecked {
                program: "unzip"@,
                args: seq!["-o"@, archive, "-d"@, OTA_STAGING_DIR@],
            },
            on_failure: OnFailureView::Abort {
                before: "Failed to extract zip: "@,
                after: ". Make sure 'unzip' is installed."@,
            },
        }
    } else {
        needed_step(
            CommandView::RunChecked {
                program: "tar"@,
                args: seq!["-xzf"@, archive, "-C"@, OTA_STAGING_DIR@],
            },
            "Failed to extract tar: "@,
        )
    }
}

/// The procedure that puts an uploaded archive into an emptied staging directory,
/// unpacks it there, and sets the permissions of what came out.
pub open spec fn unpacking(data: Seq<u8>) -> ProcedureView {
    let zip = is_zip(data);
    let archive = joined_path(
        OTA_STAGING_DIR@,
        if zip {
            "update.zip"@
        } else {
            "update.tar.gz"@
        },
    );
    ProcedureView {
        steps: seq![
            ignored_step(CommandView::RemoveDirAll(OTA_STAGING_DIR@)),
            needed_step(
                CommandView::CreateDirAll(OTA_STAGING_DIR@),
                "Failed to create staging dir: "@,
            ),
            needed_step(
                CommandView::CreateFile(archive),
                if zip {
                    "Failed to create zip file: "@
                } else {
                    "Failed to create tar file: "@
                },
            ),
            needed_step(
                CommandView::WriteBytes { path: archive, data },
                if zip {
                    "Failed to write zip file: "@
                } else {
                    "Failed to write tar file: "@
                },
            ),
            extract_step(zip, archive),
            ignored_step(CommandView::RemoveFile(archive)),
        ] + permission_steps(OTA_STAGING_DIR@),
        cleanup: Seq::empty(),
    }
}

/// The step that unpacks an archive into the staging directory.
fn extract(zip: bool, archive: &str) -> (r: Step)
    ensures
        r.deep_view() == extract_step(zip, archive@),
{
    if zip {
        let args: Vec<String> = vec![
            "-o".to_string(),
            archive.to_string(),
            "-d".to_string(),
            OTA_STAGING_DIR.to_string(),
        ];
        assert(args.deep_view() =~= seq!["-o"@, archive@, "-d"@, OTA_STAGING_DIR@]);
        Step {
            guard: None,
            command: Command::RunChecked { program: "unzip".to_string(), args },
            on_failure: OnFailure::Abort {
                before: "Failed to extract zip: ".to_string(),
                after: ". Make sure 'unzip' is installed.".to_string(),
            },
        }
    } else {
        let args: Vec<String> = vec![
            "-xzf".to_string(),
            archive.to_string(),
            "-C".to_string(),
            OTA_STAGING_DIR.to_string(),
        ];
        assert(args.deep_view() =~= seq!["-xzf"@, archive@, "-C"@, OTA_STAGING_DIR@]);
        needed(
            Command::RunChecked { program: "tar".to_string(), args },
            "Failed to extract tar: ".to_string(),
        )
    }
}

/// The procedure that unpacks an uploaded package into the staging directory.
///
/// Once it has ended, `answer_upload` answers the upload.
pub fn handle_ota_upload(data: Vec<u8>) -> (r: Procedure)
    ensures
        r.deep_view() == unpacking(data@),
{
    let ghost bytes = data@;
    let zip = detect_zip_format(data.as_slice());
    let archive = join_path(
        OTA_STAGING_DIR,
        if zip {
            "update.zip"
        } else {
            "update.tar.gz"
        },
    );
    let create_failed: &'static str = if zip {
        "Failed to create zip file: "
    } else {
        "Failed to create tar file: "
    };
    let write_failed: &'static str = if zip {
        "Failed to write zip file: "
    } else {
        "Failed to write tar file: "
    };
    let unpack = vec![
        ignored(Command::RemoveDirAll(OTA_STAGING_DIR.to_string())),
        needed(
            Command::CreateDirAll(OTA_STAGING_DIR.to_string()),
            "Failed to create staging dir: ".to_string(),
        ),
        needed(Command::CreateFile(archive.clone()), create_failed.to_string()),
        needed(
            Command::WriteBytes { path: archive.clone(), data },
            write_failed.to_string(),
        ),
        extract(zip, archive.as_str()),
        ignored(Command::RemoveFile(archive)),
    ];
    let r = without_cleanup(chain(unpack, fix_file_permissions(OTA_STAGING_DIR)));
    assert(r.deep_view().steps =~= unpacking(bytes).steps);
    r
}

/// The answer to an upload, by how its unpacking has ended: a failure of the unpacking is
/// the answer itself, and else the package that came out is looked at.
///
/// `read` is what reading the metadata of the unpacked package gave, `package` the rest
/// of it; neither counts if the unpacking has failed.
pub fn answer_upload(
    ended: Result<(), String>,
    read: MetaRead,
    package: &StagedPackage,
    current_version: &str,
) -> (r: Result<OtaUploadResponse, String>)
    ensures
        match ended {
            Err(e) => r == Err::<OtaUploadResponse, String>(e),
            Ok(_) => answers_unpacked(read, *package, current_version@, r),
        },
{
    match ended {
        Err(e) => Err(e),
        Ok(_) => finish_ota_upload(read, package, current_version),
    }
}

/// The state of a device that has an update on trial next to the slot `current`.
pub open spec fn trial_state(current: OtaSlot) -> OtaRuntimeState {
    OtaRuntimeState {
        active_slot: slot_after(current),
        fallback_slot: Some(current),
        boot_state: OtaBootState::Trial,
        trial_attempts: 0,
    }
}

/// The state of a device that runs `slot` and has nothing on trial.
pub open spec fn stable_state(slot: OtaSlot) -> OtaRuntimeState {
    OtaRuntimeState {
        active_slot: slot,
        fallback_slot: None,
        boot_state: OtaBootState::Stable,
        trial_attempts: 0,
    }
}

/// The step that restarts into the slot `target`.
pub open spec fn launch_step(target: OtaSlot, fallback: OtaSlot) -> StepView {
    ignored_step(
        CommandView::Launch {
            program: binary_of(target),
            args: seq!["-p"@, OTA_PORT@],
            env: seq![
                ("UDX710_ACTIVE_SLOT"@, name_of(target)),
                ("UDX710_FALLBACK_SLOT"@, name_of(fallback)),
                ("UDX710_OTA_STATE_FILE"@, OTA_STATE_FILE@),
            ],
            delay_ms: LAUNCH_DELAY_MS,
            linger_ms: LAUNCH_LINGER_MS,
        },
    )
}

/// The procedure that installs the staged package next to the slot `current`: empty the
/// target slot, copy the package there, set its permissions, record the trial, drop the
/// staged package, and restart if asked to. A failure on the way empties the target
/// slot again.
pub open spec fn installation(current: OtaSlot, restart_now: bool) -> ProcedureView {
    let target = slot_after(current);
    let dir = directory_of(target)->0;
    ProcedureView {
        steps: ignoring(removal_steps(target)) + seq![
            needed_step(
                CommandView::CopyTree { from: OTA_STAGING_DIR@, to: dir },
                Seq::empty(),
            ),
        ] + permission_steps(dir) + state_steps(trial_state(current)) + seq![
            ignored_step(CommandView::RemoveDirAll(OTA_STAGING_DIR@)),
        ] + if restart_now {
            seq![launch_step(target, current)]
        } else {
            Seq::empty()
        },
        cleanup: removal_steps(target),
    }
}

/// The plan that installs a valid package.
pub open spec fn installation_plan(
    version: Seq<char>,
    current: OtaSlot,
    restart_now: bool,
) -> PlanView<Seq<char>> {
    PlanView {
        procedure: installation(current, restart_now),
        answer: Ok(
            "Update to version "@ + version + " staged in "@ + name_of(slot_after(current)),
        ),
    }
}

/// The plan for a request to apply the pending update.
pub open spec fn application_plan(
    pending: Result<Option<MetaView>, Seq<char>>,
    package: StagedPackage,
    current_version: Seq<char>,
    current: OtaSlot,
    restart_now: bool,
) -> PlanView<Seq<char>> {
    match pending {
        Err(e) => refusal(e),
        Ok(None) => refusal("No pending update"@),
        Ok(Some(meta)) => match validation_of(meta, package, current_version) {
            Err(e) => refusal(e),
            Ok(v) => if v.valid {
                installation_plan(meta.version, current, restart_now)
            } else {
                refusal(
                    match v.error {
                        Some(e) => e,
                        None => "OTA package validation failed"@,
                    },
                )
            },
        },
    }
}

/// The plan that does nothing and answers with an error.
fn refuse<T>(e: String) -> (r: Plan<T>)
    ensures
        r.procedure.deep_view() == nothing(),
        r.answer == Err::<T, String>(e),
{
    Plan { procedure: no_steps(), answer: Err(e) }
}

/// The step that restarts into the slot `target`.
fn launch(target: OtaSlot, fallback: OtaSlot) -> (r: Step)
    ensures
        r.deep_view() == launch_step(target, fallback),
{
    let args: Vec<String> = vec!["-p".to_string(), OTA_PORT.to_string()];
    assert(args.deep_view() =~= seq!["-p"@, OTA_PORT@]);
    let env: Vec<(String, String)> = vec![
        ("UDX710_ACTIVE_SLOT".to_string(), slot_name(target).to_string()),
        ("UDX710_FALLBACK_SLOT".to_string(), slot_name(fallback).to_string()),
        ("UDX710_OTA_STATE_FILE".to_string(), OTA_STATE_FILE.to_string()),
    ];
    assert(env.deep_view() =~= seq![
        ("UDX710_ACTIVE_SLOT"@, name_of(target)),
        ("UDX710_FALLBACK_SLOT"@, name_of(fallback)),
        ("UDX710_OTA_STATE_FILE"@, OTA_STATE_FILE@),
    ]);
    ignored(
        Command::Launch {
            program: slot_binary_path(target),
            args,
            env,
            delay_ms: LAUNCH_DELAY_MS,
            linger_ms: LAUNCH_LINGER_MS,
        },
    )
}

/// The plan that installs a valid package of the given version.
pub fn install_update(version: &str, current_slot: OtaSlot, restart_now: bool) -> (r: Plan<String>)
    ensures
        text_plan_view(r) == installation_plan(version@, current_slot, restart_now),
{
    let target = next_slot(current_slot);
    let dir = match slot_directory(target) {
        Some(dir) => dir,
        None => {
            return refuse("Failed to resolve target slot directory".to_string());
        },
    };
    let ghost d = dir@;
    let clear = ignore_failures(remove_slot_artifacts(target));
    let permissions = fix_file_permissions(dir.as_str());
    let copy = vec![
        needed(
            Command::CopyTree { from: OTA_STAGING_DIR.to_string(), to: dir },
            String::new(),
        ),
    ];
    let record = write_runtime_state(
        &OtaRuntimeState {
            active_slot: target,
            fallback_slot: Some(current_slot),
            boot_state: OtaBootState::Trial,
            trial_attempts: 0,
        },
    );
    let mut end = vec![ignored(Command::RemoveDirAll(OTA_STAGING_DIR.to_string()))];
    if restart_now {
        end.push(launch(target, current_slot));
    }
    assert(copy.deep_view() =~= seq![
        needed_step(CommandView::CopyTree { from: OTA_STAGING_DIR@, to: d }, Seq::empty()),
    ]);
    let steps = chain(chain(chain(chain(clear, copy), permissions), record), end);
    assert(steps.deep_view() =~= installation(current_slot, restart_now).steps);
    let mut message = concat3("Update to version ", version, " staged in ");
    message.append(slot_name(target));
    Plan {
        procedure: Procedure { steps, cleanup: remove_slot_artifacts(target) },
        answer: Ok(message),
    }
}

/// What is pending, as a value.
pub open spec fn pending_view(pending: Result<Option<OtaMeta>, String>) -> Result<
    Option<MetaView>,
    Seq<char>,
> {
    match pending {
        Ok(Some(meta)) => Ok(Some(meta@)),
        Ok(None) => Ok(None),
        Err(e) => Err(e@),
    }
}

/// The plan for a request to apply the pending update.
pub fn apply_ota_update(
    pending: Result<Option<OtaMeta>, String>,
    package: &StagedPackage,
    current_version: &str,
    current_slot: OtaSlot,
    restart_now: bool,
) -> (r: Plan<String>)
    ensures
        text_plan_view(r) == application_plan(
            pending_view(pending),
            *package,
            current_version@,
            current_slot,
            restart_now,
        ),
{
    let meta = match pending {
        Ok(Some(meta)) => meta,
        Ok(None) => {
            return refuse("No pending update".to_string());
        },
        Err(e) => {
            return refuse(e);
        },
    };
    let validation = match validate_ota_package(&meta, package, current_version) {
        Ok(validation) => validation,
        Err(e) => {
            return refuse(e);
        },
    };
    if !validation.valid {
        return match validation.error {
            Some(e) => refuse(e),
            None => refuse("OTA package validation failed".to_string()),
        };
    }
    install_update(meta.version.as_str(), current_slot, restart_now)
}

/// The procedure that removes the build in the slot `removed`, if there is one, and
/// records that the device runs `current` with nothing on trial.
pub open spec fn settling(removed: Option<OtaSlot>, current: OtaSlot) -> ProcedureView {
    ProcedureView {
        steps: (match removed {
            Some(slot) => ignoring(removal_steps(slot)),
            None => Seq::empty(),
        }) + state_steps(stable_state(current)),
        cleanup: Seq::empty(),
    }
}

/// The plan after a boot: if an update is on trial and its slot has come up, it is
/// confirmed and the previous slot is emptied, unless that is the legacy location; if
/// the fallback has come up instead, the update is dropped. The answer is whether
/// either was the case.
pub open spec fn confirmation_plan(
    state: Result<OtaRuntimeState, Seq<char>>,
    current: OtaSlot,
) -> PlanView<bool> {
    match state {
        Err(e) => refusal(e),
        Ok(s) => if s.boot_state != OtaBootState::Trial {
            PlanView { procedure: nothing(), answer: Ok(false) }
        } else if s.active_slot == current {
            PlanView {
                procedure: settling(
                    if s.fallback_slot == Some(OtaSlot::Legacy) {
                        None
                    } else {
                        s.fallback_slot
                    },
                    current,
                ),
                answer: Ok(true),
            }
        } else if s.fallback_slot == Some(current) {
            PlanView { procedure: settling(Some(s.active_slot), current), answer: Ok(true) }
        } else {
            PlanView { procedure: nothing(), answer: Ok(false) }
        },
    }
}

/// The procedure that removes the build in the slot `removed`, if there is one, and
/// records that the device runs `current` with nothing on trial.
fn settle(removed: Option<OtaSlot>, current: OtaSlot) -> (r: Procedure)
    ensures
        r.deep_view() == settling(removed, current),
{
    let first: Vec<Step> = match removed {
        Some(slot) => ignore_failures(remove_slot_artifacts(slot)),
        None => Vec::new(),
    };
    let record = write_runtime_state(
        &OtaRuntimeState {
            active_slot: current,
            fallback_slot: None,
            boot_state: OtaBootState::Stable,
            trial_attempts: 0,
        },
    );
    assert(removed is None ==> first.deep_view() =~= Seq::empty());
    without_cleanup(chain(first, record))
}

/// The plan after a boot, by the recorded state and the slot that runs.
pub fn confirm_boot_if_pending(
    state: Result<OtaRuntimeState, String>,
    current_slot: OtaSlot,
) -> (r: Plan<bool>)
    ensures
        plan_view(r) == confirmation_plan(with_error_text(state), current_slot),
{
    let s = match state {
        Ok(s) => s,
        Err(e) => {
            return refuse(e);
        },
    };
    if !matches!(s.boot_state, OtaBootState::Trial) {
        return Plan { procedure: no_steps(), answer: Ok(false) };
    }
    if current_slot == s.active_slot {
        let previous = match s.fallback_slot {
            Some(OtaSlot::Legacy) => None,
            other => other,
        };
        return Plan { procedure: settle(previous, current_slot), answer: Ok(true) };
    }
    if let Some(fallback) = s.fallback_slot {
        if current_slot == fallback {
            return Plan {
                procedure: settle(Some(s.active_slot), current_slot),
                answer: Ok(true),
            };
        }
    }
    Plan { procedure: no_steps(), answer: Ok(false) }
}

/// The plan that drops the pending update: the staged package goes, and a device with
/// an update on trial is set back to the slot it came from.
pub open spec fn cancellation_plan(state: Result<OtaRuntimeState, Seq<char>>) -> PlanView<()> {
    let drop_staged = seq![ignored_step(CommandView::RemoveDirAll(OTA_STAGING_DIR@))];
    PlanView {
        procedure: ProcedureView {
            steps: match state {
                Ok(s) => if s.boot_state == OtaBootState::Trial {
                    drop_staged + state_steps(
                        stable_state(
                            match s.fallback_slot {
                                Some(slot) => slot,
                                None => OtaSlot::Legacy,
                            },
                        ),
                    )
                } else {
                    drop_staged
                },
                Err(_) => drop_staged,
            },
            cleanup: Seq::empty(),
        },
        answer: match state {
            Ok(_) => Ok(()),
            Err(e) => Err(e),
        },
    }
}

/// The plan that drops the pending update, by the recorded state.
pub fn cancel_pending_update(state: Result<OtaRuntimeState, String>) -> (r: Plan<()>)
    ensures
        plan_view(r) == cancellation_plan(with_error_text(state)),
{
    let drop_staged = vec![ignored(Command::RemoveDirAll(OTA_STAGING_DIR.to_string()))];
    assert(drop_staged.deep_view() =~= seq![
        ignored_step(CommandView::RemoveDirAll(OTA_STAGING_DIR@)),
    ]);
    match state {
        Err(e) => Plan { procedure: without_cleanup(drop_staged), answer: Err(e) },
        Ok(s) => {
            if matches!(s.boot_state, OtaBootState::Trial) {
                let reverted_slot = match s.fallback_slot {
                    Some(slot) => slot,
                    None => OtaSlot::Legacy,
                };
                let record = write_runtime_state(
                    &OtaRuntimeState {
                        active_slot: reverted_slot,
                        fallback_slot: None,
                        boot_state: OtaBootState::Stable,
                        trial_attempts: 0,
                    },
                );
                Plan { procedure: without_cleanup(chain(drop_staged, record)), answer: Ok(()) }
            } else {
                Plan { procedure: without_cleanup(drop_staged), answer: Ok(()) }
            }
        },
    }
}

} // verus!
