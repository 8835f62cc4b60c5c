use udx710_ota::digest::{md5_text, DirItem};
use udx710_ota::package::{MetaRead, OtaMeta, StagedPackage};
use udx710_ota::procedure::{Action, Command, Event, Procedure, Run};
use udx710_ota::slot::OtaSlot;
use udx710_ota::state::{parse_runtime_state, OtaBootState, OtaRuntimeState};
use udx710_ota::update::{
    answer_upload, apply_ota_update, cancel_pending_update, conclude, confirm_boot_if_pending,
    fix_file_permissions, handle_ota_upload, install_update, remove_slot_artifacts,
    write_runtime_state,
};

const SLOT_A: &str = "/home/root/ota/slots/slot-a";
const SLOT_B: &str = "/home/root/ota/slots/slot-b";
const STAGING: &str = "/tmp/ota_staging";
const STATE_FILE: &str = "/home/root/ota/state.env";

fn in_words(command: &Command) -> String {
    match command {
        Command::RemoveFile(path) => format!("rm {}", path),
        Command::RemoveDirAll(path) => format!("rm -r {}", path),
        Command::CreateDirAll(path) => format!("mkdir -p {}", path),
        Command::CreateFile(path) => format!("create {}", path),
        Command::WriteBytes { path, data } => format!("write {} {}", data.len(), path),
        Command::WriteText { path, .. } => format!("write {}", path),
        Command::Run { program, args } => format!("{} {}", program, args.join(" ")),
        Command::RunChecked { program, args } => format!("! {} {}", program, args.join(" ")),
        Command::CopyTree { from, to } => format!("cp -r {} {}", from, to),
        Command::Launch { program, args, .. } => format!("launch {} {}", program, args.join(" ")),
    }
}

/// Carries out `procedure` on a device where every path exists and every command is
/// done but the one that reads `broken`.
fn carry_out(procedure: Procedure, broken: &str) -> (Vec<String>, Result<(), String>) {
    let mut run = Run::new(procedure);
    let mut done = Vec::new();
    loop {
        let event = match run.action() {
            Action::Probe(_) => Event::Exists(true),
            Action::Perform(command) => {
                let words = in_words(command);
                let event = if words == broken {
                    Event::Failed("broken".to_string())
                } else {
                    Event::Done
                };
                done.push(words);
                event
            }
            Action::Finished(result) => return (done, result),
        };
        run = run.advance(event);
    }
}

fn recorded(procedure: &Procedure) -> Option<OtaRuntimeState> {
    procedure.steps.iter().find_map(|step| match &step.command {
        Command::WriteText { path, text } if path == STATE_FILE => Some(parse_runtime_state(text)),
        _ => None,
    })
}

fn trial(active: OtaSlot, fallback: Option<OtaSlot>) -> OtaRuntimeState {
    OtaRuntimeState {
        active_slot: active,
        fallback_slot: fallback,
        boot_state: OtaBootState::Trial,
        trial_attempts: 0,
    }
}

fn stable(active: OtaSlot) -> OtaRuntimeState {
    OtaRuntimeState {
        active_slot: active,
        fallback_slot: None,
        boot_state: OtaBootState::Stable,
        trial_attempts: 0,
    }
}

fn package() -> StagedPackage {
    StagedPackage {
        binary: Some(Ok(b"binary".to_vec())),
        www: Some(Ok(vec![DirItem::File {
            path: "/tmp/ota_staging/www/index.html".to_string(),
            contents: Ok(b"page".to_vec()),
        }])),
    }
}

fn meta() -> OtaMeta {
    OtaMeta {
        version: "1.2.3".to_string(),
        binary_md5: md5_text(b"binary"),
        frontend_md5: md5_text(format!("{}\n", md5_text(b"page")).as_bytes()),
        arch: "aarch64-unknown-linux-musl".to_string(),
    }
}

fn permissions(root: &str) -> Vec<String> {
    vec![
        format!("chmod 755 {}/udx710", root),
        format!("find {}/www -type d -exec chmod 755 {{}} +", root),
        format!("find {}/www -type f -exec chmod 644 {{}} +", root),
    ]
}

#[test]
fn permissions_are_set_where_there_is_something() {
    let steps = fix_file_permissions("/r");
    assert_eq!(
        steps.iter().map(|s| in_words(&s.command)).collect::<Vec<_>>(),
        permissions("/r")
    );
    let guards: Vec<_> = steps.iter().map(|s| s.guard.as_deref()).collect();
    assert_eq!(
        guards,
        [Some("/r/udx710"), Some("/r/www"), Some("/r/www")]
    );
    let procedure = Procedure {
        steps,
        cleanup: vec![],
    };
    let (_, result) = carry_out(procedure, "chmod 755 /r/udx710");
    assert_eq!(
        result,
        Err("Failed to chmod binary /r/udx710: broken".to_string())
    );
}

#[test]
fn slots_are_emptied() {
    let legacy = Procedure {
        steps: remove_slot_artifacts(OtaSlot::Legacy),
        cleanup: vec![],
    };
    let (done, result) = carry_out(legacy, "rm /home/root/udx710");
    assert_eq!(done, ["rm /home/root/udx710", "rm -r /home/root/www"]);
    assert_eq!(result, Ok(()));
    let slot = Procedure {
        steps: remove_slot_artifacts(OtaSlot::SlotB),
        cleanup: vec![],
    };
    assert_eq!(slot.steps[0].guard.as_deref(), Some(SLOT_B));
    let (done, result) = carry_out(slot, &format!("rm -r {}", SLOT_B));
    assert_eq!(done, [format!("rm -r {}", SLOT_B)]);
    assert_eq!(
        result,
        Err(format!("Failed to remove slot directory {}: broken", SLOT_B))
    );
}

#[test]
fn states_are_recorded() {
    let state = trial(OtaSlot::SlotA, Some(OtaSlot::Legacy));
    let procedure = || Procedure {
        steps: write_runtime_state(&state),
        cleanup: vec![],
    };
    assert_eq!(recorded(&procedure()), Some(state));
    let (done, result) = carry_out(procedure(), "");
    assert_eq!(done, ["mkdir -p /home/root/ota", "write /home/root/ota/state.env"]);
    assert_eq!(result, Ok(()));
    assert_eq!(
        carry_out(procedure(), "mkdir -p /home/root/ota").1,
        Err("Failed to create OTA runtime directory: broken".to_string())
    );
    assert_eq!(
        carry_out(procedure(), "write /home/root/ota/state.env").1,
        Err("Failed to write OTA state file: broken".to_string())
    );
}

#[test]
fn a_zip_archive_is_unpacked() {
    let data = vec![0x50, 0x4b, 0x03, 0x04, 0x05];
    let (done, result) = carry_out(handle_ota_upload(data.clone()), "");
    let mut expected: Vec<String> = [
        "rm -r /tmp/ota_staging",
        "mkdir -p /tmp/ota_staging",
        "create /tmp/ota_staging/update.zip",
        "write 5 /tmp/ota_staging/update.zip",
        "! unzip -o /tmp/ota_staging/update.zip -d /tmp/ota_staging",
        "rm /tmp/ota_staging/update.zip",
    ]
    .iter()
    .map(|s| s.to_string())
    .collect();
    expected.extend(permissions(STAGING));
    assert_eq!(done, expected);
    assert_eq!(result, Ok(()));
    for (broken, error) in [
        (1, "Failed to create staging dir: broken"),
        (2, "Failed to create zip file: broken"),
        (3, "Failed to write zip file: broken"),
        (4, "Failed to extract zip: broken. Make sure 'unzip' is installed."),
    ] {
        let (done, result) = carry_out(handle_ota_upload(data.clone()), &expected[broken]);
        assert_eq!(done, expected[..=broken]);
        assert_eq!(result, Err(error.to_string()));
    }
}

#[test]
fn a_tar_archive_is_unpacked() {
    let data = vec![0x1f, 0x8b];
    let (done, result) = carry_out(handle_ota_upload(data.clone()), "");
    assert_eq!(result, Ok(()));
    assert_eq!(
        done[2..6],
        [
            "create /tmp/ota_staging/update.tar.gz",
            "write 2 /tmp/ota_staging/update.tar.gz",
            "! tar -xzf /tmp/ota_staging/update.tar.gz -C /tmp/ota_staging",
            "rm /tmp/ota_staging/update.tar.gz",
        ]
    );
    for (broken, error) in [
        (2, "Failed to create tar file: broken"),
        (3, "Failed to write tar file: broken"),
        (4, "Failed to extract tar: broken"),
    ] {
        let (_, result) = carry_out(handle_ota_upload(data.clone()), &done[broken]);
        assert_eq!(result, Err(error.to_string()));
    }
}

#[test]
fn an_upload_stays_in_the_staging_directory() {
    for data in [vec![0x50, 0x4b, 0x03, 0x04], vec![]] {
        for words in carry_out(handle_ota_upload(data), "").0 {
            assert!(words
                .split(' ')
                .filter(|word| word.starts_with('/'))
                .all(|word| word == STAGING || word.starts_with("/tmp/ota_staging/")));
        }
    }
}

#[test]
fn an_installation_touches_nothing_else() {
    for words in carry_out(install_update("2", OtaSlot::SlotB, true).procedure, "").0 {
        assert!(words.split(' ').filter(|word| word.starts_with('/')).all(|word| {
            word.starts_with(SLOT_A) || [STAGING, STATE_FILE, "/home/root/ota"].contains(&word)
        }));
    }
}

#[test]
fn an_upload_is_answered() {
    let read = || MetaRead::Parsed(meta());
    let answer = answer_upload(Ok(()), read(), &package(), "1.0").unwrap();
    assert_eq!(answer.meta, meta());
    assert!(answer.validation.valid && answer.validation.is_newer);
    assert_eq!(
        answer_upload(Err("Failed to extract tar: bad".to_string()), read(), &package(), "1.0"),
        Err("Failed to extract tar: bad".to_string())
    );
    assert_eq!(
        answer_upload(Ok(()), MetaRead::Missing, &package(), "1.0"),
        Err("meta.json not found in OTA package".to_string())
    );
    assert_eq!(
        answer_upload(Ok(()), MetaRead::Invalid("EOF".to_string()), &package(), "1.0"),
        Err("Invalid meta.json: EOF".to_string())
    );
}

#[test]
fn the_archive_is_written_as_it_came() {
    let procedure = handle_ota_upload(vec![1, 2, 3]);
    assert!(procedure
        .steps
        .iter()
        .any(|s| matches!(&s.command, Command::WriteBytes { data, .. } if data == &[1, 2, 3])));
}

#[test]
fn a_valid_update_is_installed() {
    let plan = apply_ota_update(Ok(Some(meta())), &package(), "1.0", OtaSlot::SlotA, false);
    assert_eq!(
        plan.answer,
        Ok("Update to version 1.2.3 staged in slot-b".to_string())
    );
    assert_eq!(
        recorded(&plan.procedure),
        Some(trial(OtaSlot::SlotB, Some(OtaSlot::SlotA)))
    );
    let (done, result) = carry_out(plan.procedure, "");
    let mut expected = vec![
        format!("rm -r {}", SLOT_B),
        format!("cp -r {} {}", STAGING, SLOT_B),
    ];
    expected.extend(permissions(SLOT_B));
    expected.push("mkdir -p /home/root/ota".to_string());
    expected.push("write /home/root/ota/state.env".to_string());
    expected.push("rm -r /tmp/ota_staging".to_string());
    assert_eq!(done, expected);
    assert_eq!(result, Ok(()));
}

#[test]
fn the_restart_starts_the_new_slot() {
    let plan = install_update("2", OtaSlot::Legacy, true);
    assert_eq!(
        plan.procedure.steps.last().map(|s| &s.command),
        Some(&Command::Launch {
            program: "/home/root/ota/slots/slot-a/udx710".to_string(),
            args: vec!["-p".to_string(), "80".to_string()],
            env: vec![
                ("UDX710_ACTIVE_SLOT".to_string(), "slot-a".to_string()),
                ("UDX710_FALLBACK_SLOT".to_string(), "legacy".to_string()),
                ("UDX710_OTA_STATE_FILE".to_string(), STATE_FILE.to_string()),
            ],
            delay_ms: 1000,
            linger_ms: 200,
        })
    );
    let without = install_update("2", OtaSlot::Legacy, false);
    assert_eq!(without.procedure.steps.len() + 1, plan.procedure.steps.len());
    assert_eq!(without.answer, plan.answer);
}

#[test]
fn a_failed_installation_is_undone() {
    let emptied = format!("rm -r {}", SLOT_A);
    let copied = format!("cp -r {} {}", STAGING, SLOT_A);
    let plan = || install_update("2", OtaSlot::SlotB, true).procedure;
    assert_eq!(carry_out(plan(), &emptied).1, Ok(()));
    let (done, result) = carry_out(plan(), &copied);
    assert_eq!(done, [emptied.clone(), copied, emptied.clone()]);
    assert_eq!(result, Err("broken".to_string()));
    for (broken, error) in [
        (
            format!("chmod 755 {}/udx710", SLOT_A),
            format!("Failed to chmod binary {}/udx710: broken", SLOT_A),
        ),
        (
            "mkdir -p /home/root/ota".to_string(),
            "Failed to create OTA runtime directory: broken".to_string(),
        ),
        (
            "write /home/root/ota/state.env".to_string(),
            "Failed to write OTA state file: broken".to_string(),
        ),
    ] {
        let (done, result) = carry_out(plan(), &broken);
        assert_eq!(done.last(), Some(&emptied));
        assert!(!done.contains(&"rm -r /tmp/ota_staging".to_string()));
        assert!(!done.iter().any(|words| words.starts_with("launch")));
        assert_eq!(result, Err(error));
    }
    let (done, result) = carry_out(plan(), "rm -r /tmp/ota_staging");
    assert!(done.last().unwrap().starts_with("launch"));
    assert_eq!(result, Ok(()));
}

#[test]
fn a_refused_update_does_nothing() {
    let mut other = meta();
    other.arch = "x86".to_string();
    let missing = StagedPackage {
        binary: None,
        www: None,
    };
    let unreadable = StagedPackage {
        binary: Some(Ok(vec![])),
        www: Some(Err("denied".to_string())),
    };
    for (pending, package, error) in [
        (Ok(None), package(), "No pending update"),
        (Err("unknown".to_string()), package(), "unknown"),
        (
            Ok(Some(other)),
            package(),
            "Arch mismatch: expected=aarch64-unknown-linux-musl, actual=x86",
        ),
        (Ok(Some(meta())), missing, "Binary file not found in package"),
        (
            Ok(Some(meta())),
            unreadable,
            "Failed to read directory /tmp/ota_staging/www: denied",
        ),
    ] {
        let plan = apply_ota_update(pending, &package, "1.0", OtaSlot::Legacy, true);
        assert_eq!(plan.answer, Err(error.to_string()));
        assert!(plan.procedure.steps.is_empty() && plan.procedure.cleanup.is_empty());
    }
}

#[test]
fn older_packages_can_be_installed() {
    let plan = apply_ota_update(Ok(Some(meta())), &package(), "9.9", OtaSlot::Legacy, false);
    assert!(plan.answer.is_ok());
}

#[test]
fn a_new_slot_that_comes_up_is_confirmed() {
    let state = trial(OtaSlot::SlotB, Some(OtaSlot::SlotA));
    let plan = confirm_boot_if_pending(Ok(state), OtaSlot::SlotB);
    assert_eq!(plan.answer, Ok(true));
    assert_eq!(recorded(&plan.procedure), Some(stable(OtaSlot::SlotB)));
    let (done, result) = carry_out(plan.procedure, &format!("rm -r {}", SLOT_A));
    assert_eq!(
        done,
        [
            format!("rm -r {}", SLOT_A),
            "mkdir -p /home/root/ota".to_string(),
            "write /home/root/ota/state.env".to_string(),
        ]
    );
    assert_eq!(result, Ok(()));
}

#[test]
fn the_legacy_build_is_kept() {
    for fallback in [Some(OtaSlot::Legacy), None] {
        let plan = confirm_boot_if_pending(Ok(trial(OtaSlot::SlotA, fallback)), OtaSlot::SlotA);
        assert_eq!(plan.answer, Ok(true));
        assert_eq!(recorded(&plan.procedure), Some(stable(OtaSlot::SlotA)));
        assert_eq!(plan.procedure.steps.len(), 2);
    }
}

#[test]
fn a_failed_trial_is_dropped() {
    let state = trial(OtaSlot::SlotA, Some(OtaSlot::Legacy));
    let plan = confirm_boot_if_pending(Ok(state), OtaSlot::Legacy);
    assert_eq!(plan.answer, Ok(true));
    assert_eq!(recorded(&plan.procedure), Some(stable(OtaSlot::Legacy)));
    let (done, _) = carry_out(plan.procedure, "");
    assert_eq!(done[0], format!("rm -r {}", SLOT_A));
}

#[test]
fn nothing_to_confirm() {
    for (state, booted) in [
        (stable(OtaSlot::SlotA), OtaSlot::SlotA),
        (trial(OtaSlot::SlotA, Some(OtaSlot::SlotB)), OtaSlot::Legacy),
        (trial(OtaSlot::SlotA, None), OtaSlot::SlotB),
    ] {
        let plan = confirm_boot_if_pending(Ok(state), booted);
        assert_eq!(plan.answer, Ok(false));
        assert!(plan.procedure.steps.is_empty());
    }
    let plan = confirm_boot_if_pending(Err("unknown".to_string()), OtaSlot::SlotA);
    assert_eq!(plan.answer, Err("unknown".to_string()));
    assert!(plan.procedure.steps.is_empty());
}

#[test]
fn a_cancelled_trial_goes_back() {
    for (fallback, back) in [
        (Some(OtaSlot::SlotB), OtaSlot::SlotB),
        (Some(OtaSlot::Legacy), OtaSlot::Legacy),
        (None, OtaSlot::Legacy),
    ] {
        let plan = cancel_pending_update(Ok(trial(OtaSlot::SlotA, fallback)));
        assert_eq!(plan.answer, Ok(()));
        assert_eq!(recorded(&plan.procedure), Some(stable(back)));
        let (done, result) = carry_out(plan.procedure, "rm -r /tmp/ota_staging");
        assert_eq!(
            done,
            [
                "rm -r /tmp/ota_staging",
                "mkdir -p /home/root/ota",
                "write /home/root/ota/state.env",
            ]
        );
        assert_eq!(result, Ok(()));
    }
}

#[test]
fn cancelling_without_a_trial_drops_the_package() {
    let plan = cancel_pending_update(Ok(stable(OtaSlot::SlotA)));
    assert_eq!(plan.answer, Ok(()));
    assert_eq!(carry_out(plan.procedure, "").0, ["rm -r /tmp/ota_staging"]);
    let plan = cancel_pending_update(Err("unknown".to_string()));
    assert_eq!(plan.answer, Err("unknown".to_string()));
    assert_eq!(carry_out(plan.procedure, "").0, ["rm -r /tmp/ota_staging"]);
}

#[test]
fn the_answer_of_an_operation() {
    assert_eq!(conclude(Ok(()), Ok(1)), Ok(1));
    assert_eq!(
        conclude::<u8>(Ok(()), Err("answer".to_string())),
        Err("answer".to_string())
    );
    assert_eq!(conclude(Err("end".to_string()), Ok(1)), Err("end".to_string()));
}

#[test]
fn a_whole_update() {
    let installed = install_update("2", OtaSlot::SlotA, true);
    let state = recorded(&installed.procedure).unwrap();
    let confirmed = confirm_boot_if_pending(Ok(state), OtaSlot::SlotB);
    let state = recorded(&confirmed.procedure).unwrap();
    assert_eq!(state, stable(OtaSlot::SlotB));
    let again = confirm_boot_if_pending(Ok(state), OtaSlot::SlotB);
    assert_eq!(again.answer, Ok(false));
    let next = install_update("3", OtaSlot::SlotB, false);
    assert_eq!(
        recorded(&next.procedure),
        Some(trial(OtaSlot::SlotA, Some(OtaSlot::SlotB)))
    );
}
