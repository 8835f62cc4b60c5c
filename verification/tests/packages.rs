use udx710_ota::digest::{DirItem, FileFailure};
use udx710_ota::package::{
    check_package, detect_zip_format, finish_ota_upload, get_current_commit, get_ota_status,
    read_pending_meta, read_runtime_pending_meta, staged_binary_path, staged_meta_path,
    staged_www_path, validate_ota_package, MetaRead, OtaMeta, OtaValidation, StagedPackage,
};
use udx710_ota::slot::OtaSlot;
use udx710_ota::state::{default_runtime_state, OtaBootState, OtaRuntimeState};

const MD5_ABC: &str = "900150983cd24fb0d6963f7d28e17f72";
const MD5_WWW: &str = "dae06fcbf624f2106ffa716e8d4c8809";
const ARCH: &str = "aarch64-unknown-linux-musl";

fn meta(version: &str, binary: &str, frontend: &str, arch: &str) -> OtaMeta {
    OtaMeta {
        version: version.to_string(),
        binary_md5: binary.to_string(),
        frontend_md5: frontend.to_string(),
        arch: arch.to_string(),
    }
}

fn www() -> Option<Result<Vec<DirItem>, String>> {
    Some(Ok(vec![DirItem::File {
        path: "/tmp/ota_staging/www/index.html".to_string(),
        contents: Ok(b"abc".to_vec()),
    }]))
}

fn package() -> StagedPackage {
    StagedPackage {
        binary: Some(Ok(b"abc".to_vec())),
        www: www(),
    }
}

fn trial(active_slot: OtaSlot) -> OtaRuntimeState {
    OtaRuntimeState {
        active_slot,
        fallback_slot: None,
        boot_state: OtaBootState::Trial,
        trial_attempts: 0,
    }
}

#[test]
fn a_matching_package_is_valid() {
    let www_md5 = udx710_ota::digest::md5_text(format!("{}\n", MD5_ABC).as_bytes());
    let m = meta("1.1.0", MD5_ABC, &www_md5, ARCH);
    assert_eq!(
        validate_ota_package(&m, &package(), "1.0.9"),
        Ok(OtaValidation {
            valid: true,
            is_newer: true,
            binary_md5_match: true,
            frontend_md5_match: true,
            arch_match: true,
            error: None,
        })
    );
    assert!(!validate_ota_package(&m, &package(), "1.1.0").unwrap().is_newer);
    assert!(validate_ota_package(&m, &package(), "2.0").unwrap().valid);
}

#[test]
fn versions_count_for_nothing_else() {
    let mut old = validate_ota_package(&meta("0.1", "x", MD5_WWW, "x86"), &package(), "2").unwrap();
    let new = validate_ota_package(&meta("3", "x", MD5_WWW, "x86"), &package(), "2").unwrap();
    assert!(!old.is_newer && new.is_newer);
    old.is_newer = true;
    assert_eq!(old, new);
}

#[test]
fn everything_that_does_not_match_is_told() {
    let m = meta("1.0", "b", "f", "x86");
    assert_eq!(
        check_package(&m, "B", "F", "1.0"),
        OtaValidation {
            valid: false,
            is_newer: false,
            binary_md5_match: false,
            frontend_md5_match: false,
            arch_match: false,
            error: Some(
                "Binary MD5 mismatch: expected=b, actual=B; Frontend MD5 mismatch: expected=f, actual=F; Arch mismatch: expected=aarch64-unknown-linux-musl, actual=x86"
                    .to_string()
            ),
        }
    );
    let one = check_package(&meta("1.0", "b", "f", ARCH), "b", "F", "1.0");
    assert_eq!(
        one.error,
        Some("Frontend MD5 mismatch: expected=f, actual=F".to_string())
    );
    assert!(!one.valid && one.binary_md5_match && one.arch_match);
}

#[test]
fn digests_are_those_of_the_package() {
    let m = meta("1.0", "x", "y", ARCH);
    let error = validate_ota_package(&m, &package(), "1.0").unwrap().error.unwrap();
    let www_md5 = udx710_ota::digest::md5_text(format!("{}\n", MD5_ABC).as_bytes());
    assert_eq!(
        error,
        format!(
            "Binary MD5 mismatch: expected=x, actual={}; Frontend MD5 mismatch: expected=y, actual={}",
            MD5_ABC, www_md5
        )
    );
    assert_eq!(www_md5, MD5_WWW);
}

#[test]
fn incomplete_packages() {
    let m = meta("9.0", MD5_ABC, "f", ARCH);
    let no_binary = StagedPackage {
        binary: None,
        www: None,
    };
    let v = validate_ota_package(&m, &no_binary, "1.0").unwrap();
    assert_eq!(v.error, Some("Binary file not found in package".to_string()));
    assert!(!v.valid && !v.is_newer && !v.binary_md5_match && !v.arch_match);
    let no_www = StagedPackage {
        binary: Some(Err(FileFailure::Open("gone".to_string()))),
        www: None,
    };
    let v = validate_ota_package(&m, &no_www, "1.0").unwrap();
    assert_eq!(
        v.error,
        Some("Frontend directory not found in package".to_string())
    );
}

#[test]
fn unreadable_packages() {
    let m = meta("9.0", MD5_ABC, "f", ARCH);
    let broken = StagedPackage {
        binary: Some(Err(FileFailure::Open("gone".to_string()))),
        www: Some(Err("denied".to_string())),
    };
    assert_eq!(
        validate_ota_package(&m, &broken, "1.0"),
        Err("Failed to open file /tmp/ota_staging/udx710: gone".to_string())
    );
    let broken = StagedPackage {
        binary: Some(Ok(vec![])),
        www: Some(Err("denied".to_string())),
    };
    assert_eq!(
        validate_ota_package(&m, &broken, "1.0"),
        Err("Failed to read directory /tmp/ota_staging/www: denied".to_string())
    );
}

#[test]
fn staged_paths() {
    assert_eq!(staged_binary_path(), "/tmp/ota_staging/udx710");
    assert_eq!(staged_www_path(), "/tmp/ota_staging/www");
    assert_eq!(staged_meta_path(), "/tmp/ota_staging/meta.json");
}

#[test]
fn answers_to_an_upload() {
    assert_eq!(
        finish_ota_upload(MetaRead::Missing, &package(), "1.0"),
        Err("meta.json not found in OTA package".to_string())
    );
    assert_eq!(
        finish_ota_upload(MetaRead::Invalid("EOF".to_string()), &package(), "1.0"),
        Err("Invalid meta.json: EOF".to_string())
    );
    let m = meta("1.0", MD5_ABC, MD5_WWW, ARCH);
    let response = finish_ota_upload(MetaRead::Parsed(m), &package(), "0.9").unwrap();
    assert_eq!(response.meta, meta("1.0", MD5_ABC, MD5_WWW, ARCH));
    assert!(response.validation.valid && response.validation.is_newer);
}

#[test]
fn zip_archives_start_with_their_magic() {
    assert!(detect_zip_format(&[0x50, 0x4b, 0x03, 0x04]));
    assert!(detect_zip_format(&[0x50, 0x4b, 0x03, 0x04, 0xff]));
    assert!(!detect_zip_format(&[0x50, 0x4b, 0x03]));
    assert!(!detect_zip_format(&[0x50, 0x4b, 0x05, 0x06]));
    assert!(!detect_zip_format(&[0x1f, 0x8b, 0x08, 0x00]));
    assert!(!detect_zip_format(&[]));
}

#[test]
fn staged_metadata_comes_first() {
    let state = Ok(trial(OtaSlot::SlotA));
    let pending = read_pending_meta(
        Some(meta("2", "", "", "")),
        &state,
        Some(meta("1", "", "", "")),
    );
    assert_eq!(pending, Ok(Some(meta("2", "", "", ""))));
    let pending = read_pending_meta(None, &state, Some(meta("1", "", "", "")));
    assert_eq!(pending, Ok(Some(meta("1", "", "", ""))));
    assert_eq!(read_pending_meta(None, &state, None), Ok(None));
}

#[test]
fn metadata_of_a_slot_counts_only_on_trial() {
    let stable = Ok(default_runtime_state());
    assert_eq!(read_runtime_pending_meta(&stable), None);
    assert_eq!(
        read_pending_meta(None, &stable, Some(meta("1", "", "", ""))),
        Ok(None)
    );
    assert_eq!(read_runtime_pending_meta(&Err("e".to_string())), None);
    assert_eq!(read_runtime_pending_meta(&Ok(trial(OtaSlot::Legacy))), None);
    assert_eq!(
        read_runtime_pending_meta(&Ok(trial(OtaSlot::SlotB))),
        Some("/home/root/ota/slots/slot-b/meta.json".to_string())
    );
}

#[test]
fn commits() {
    assert_eq!(get_current_commit(Some("abc123")), "abc123");
    assert_eq!(get_current_commit(None), "unknown");
}

#[test]
fn status_of_the_device() {
    let idle = get_ota_status("1.0", None, Ok(None), Ok(default_runtime_state()));
    assert_eq!(idle.current_version, "1.0");
    assert_eq!(idle.current_commit, "unknown");
    assert!(!idle.pending_update);
    assert_eq!(idle.pending_meta, None);
    let staged = get_ota_status(
        "1.0",
        Some("c"),
        Ok(Some(meta("2", "", "", ""))),
        Ok(default_runtime_state()),
    );
    assert_eq!(staged.current_commit, "c");
    assert!(staged.pending_update);
    assert_eq!(staged.pending_meta, Some(meta("2", "", "", "")));
    assert!(get_ota_status("1.0", None, Ok(None), Ok(trial(OtaSlot::SlotA))).pending_update);
    let unknown = get_ota_status("1.0", None, Err("e".to_string()), Err("e".to_string()));
    assert!(!unknown.pending_update);
    assert_eq!(unknown.pending_meta, None);
}
