//! Update packages: their metadata, their validation, and what is reported of them.

use vstd::prelude::*;
use vstd::string::*;

use crate::digest::{
    calculate_directory_md5, calculate_file_md5, directory_md5, file_md5, DirItem, FileFailure,
};
use crate::slot::{
    builds_lie_in_their_slots, join_path, joined_path, meta_file_of, slot_meta_path, OtaSlot,
    OTA_STAGING_DIR,
};
use crate::state::{default_runtime_state, OtaBootState, OtaRuntimeState};
use crate::text::{concat, concat3, join, joined, joined_one_by_one, same_text};
use crate::version::{
    compare_versions, equal_numbers_are_not_newer, first_difference_decides, is_newer,
    version_numbers, version_round_trip, version_text,
};

verus! {

/// The architecture that a package has to be built for.
pub const OTA_ARCH: &'static str = "aarch64-unknown-linux-musl";

/// What a package says of itself.
#[derive(Debug, PartialEq, Eq)]
pub struct OtaMeta {
    /// The version of the build.
    pub version: String,
    /// The digest of the binary.
    pub binary_md5: String,
    /// The digest of the frontend directory.
    pub frontend_md5: String,
    /// The architecture of the binary.
    pub arch: String,
}

/// The texts of an `OtaMeta`.
pub ghost struct MetaView {
    pub version: Seq<char>,
    pub binary_md5: Seq<char>,
    pub frontend_md5: Seq<char>,
    pub arch: Seq<char>,
}

impl View for OtaMeta {
    type V = MetaView;

    open spec fn view(&self) -> MetaView {
        MetaView {
            version: self.version@,
            binary_md5: self.binary_md5@,
            frontend_md5: self.frontend_md5@,
            arch: self.arch@,
        }
    }
}

/// The verdict on a package.
#[derive(Debug, PartialEq, Eq)]
pub struct OtaValidation {
    /// Whether the package can be installed.
    pub valid: bool,
    /// Whether its version is newer than the one that runs.
    pub is_newer: bool,
    /// Whether the binary has the digest that the metadata gives.
    pub binary_md5_match: bool,
    /// Whether the frontend has the digest that the metadata gives.
    pub frontend_md5_match: bool,
    /// Whether the package is built for this architecture.
    pub arch_match: bool,
    /// What is wrong with the package.
    pub error: Option<String>,
}

/// The content of an `OtaValidation`.
pub ghost struct ValidationView {
    pub valid: bool,
    pub is_newer: bool,
    pub binary_md5_match: bool,
    pub frontend_md5_match: bool,
    pub arch_match: bool,
    pub error: Option<Seq<char>>,
}

impl View for OtaValidation {
    type V = ValidationView;

    open spec fn view(&self) -> ValidationView {
        ValidationView {
            valid: self.valid,
            is_newer: self.is_newer,
            binary_md5_match: self.binary_md5_match,
            frontend_md5_match: self.frontend_md5_match,
            arch_match: self.arch_match,
            error: self.error.deep_view(),
        }
    }
}

/// What an accepted upload is answered with.
#[derive(Debug, PartialEq, Eq)]
pub struct OtaUploadResponse {
    /// The metadata of the package.
    pub meta: OtaMeta,
    /// The verdict on the package.
    pub validation: OtaValidation,
}

/// The update status of the device.
#[derive(Debug, PartialEq, Eq)]
pub struct OtaStatusResponse {
    /// The version that runs.
    pub current_version: String,
    /// The commit that the running version was built from.
    pub current_commit: String,
    /// Whether an update is staged or on trial.
    pub pending_update: bool,
    /// The metadata of that update.
    pub pending_meta: Option<OtaMeta>,
}

/// What the staging directory holds.
#[derive(Debug, PartialEq, Eq)]
pub struct StagedPackage {
    /// The binary, if there is one.
    pub binary: Option<Result<Vec<u8>, FileFailure>>,
    /// The listing of the frontend directory, if there is one.
    pub www: Option<Result<Vec<DirItem>, String>>,
}

/// The verdict on a package of which a part is missing.
pub open spec fn incomplete(error: Seq<char>) -> ValidationView {
    ValidationView {
        valid: false,
        is_newer: false,
        binary_md5_match: false,
        frontend_md5_match: false,
        arch_match: false,
        error: Some(error),
    }
}

/// A list with `text` in it if `present`, and else nothing.
pub open spec fn note_if(present: bool, text: Seq<char>) -> Seq<Seq<char>> {
    if present {
        seq![text]
    } else {
        Seq::empty()
    }
}

/// What does not match between the metadata and the digests of the package.
pub open spec fn mismatches(
    meta: MetaView,
    binary_md5: Seq<char>,
    frontend_md5: Seq<char>,
) -> Seq<Seq<char>> {
    note_if(
        binary_md5 != meta.binary_md5,
        "Binary MD5 mismatch: expected="@ + meta.binary_md5 + ", actual="@ + binary_md5,
    ) + note_if(
        frontend_md5 != meta.frontend_md5,
        "Frontend MD5 mismatch: expected="@ + meta.frontend_md5 + ", actual="@ + frontend_md5,
    ) + note_if(
        meta.arch != OTA_ARCH@,
        "Arch mismatch: expected=aarch64-unknown-linux-musl, actual="@ + meta.arch,
    )
}

/// The verdict on a complete package, by its digests.
pub open spec fn verdict(
    meta: MetaView,
    binary_md5: Seq<char>,
    frontend_md5: Seq<char>,
    current_version: Seq<char>,
) -> ValidationView {
    let wrong = mismatches(meta, binary_md5, frontend_md5);
    ValidationView {
        valid: wrong.len() == 0,
        is_newer: is_newer(version_numbers(meta.version), version_numbers(current_version)),
        binary_md5_match: binary_md5 == meta.binary_md5,
        frontend_md5_match: frontend_md5 == meta.frontend_md5,
        arch_match: meta.arch == OTA_ARCH@,
        error: if wrong.len() == 0 {
            None
        } else {
            Some(joined(wrong, "; "@))
        },
    }
}

/// The verdict on a staged package, or why it could not be looked at.
pub open spec fn validation_of(
    meta: MetaView,
    package: StagedPackage,
    current_version: Seq<char>,
) -> Result<ValidationView, Seq<char>> {
    match (package.binary, package.www) {
        (None, _) => Ok(incomplete("Binary file not found in package"@)),
        (_, None) => Ok(incomplete("Frontend directory not found in package"@)),
        (Some(binary), Some(www)) => match (
            file_md5(joined_path(OTA_STAGING_DIR@, "udx710"@), binary),
            directory_md5(joined_path(OTA_STAGING_DIR@, "www"@), www),
        ) {
            (Err(e), _) => Err(e),
            (_, Err(e)) => Err(e),
            (Ok(b), Ok(f)) => Ok(verdict(meta, b, f, current_version)),
        },
    }
}

/// The path of the binary of a staged package.
pub fn staged_binary_path() -> (r: String)
    ensures
        r@ == joined_path(OTA_STAGING_DIR@, "udx710"@),
{
    join_path(OTA_STAGING_DIR, "udx710")
}

/// The path of the frontend directory of a staged package.
pub fn staged_www_path() -> (r: String)
    ensures
        r@ == joined_path(OTA_STAGING_DIR@, "www"@),
{
    join_path(OTA_STAGING_DIR, "www")
}

/// The path of the metadata of a staged package.
pub fn staged_meta_path() -> (r: String)
    ensures
        r@ == joined_path(OTA_STAGING_DIR@, "meta.json"@),
{
    join_path(OTA_STAGING_DIR, "meta.json")
}

/// The verdict on a package of which a part is missing.
fn incomplete_package(error: &str) -> (r: OtaValidation)
    ensures
        r@ == incomplete(error@),
{
    OtaValidation {
        valid: false,
        is_newer: false,
        binary_md5_match: false,
        frontend_md5_match: false,
        arch_match: false,
        error: Some(error.to_string()),
    }
}

/// What is said of a digest that does not match.
fn digest_mismatch(what: &str, expected: &str, actual: &str) -> (r: String)
    ensures
        r@ == what@ + expected@ + ", actual="@ + actual@,
{
    let mut text = concat3(what, expected, ", actual=");
    text.append(actual);
    text
}

/// The verdict on a complete package, by its digests.
pub fn check_package(
    meta: &OtaMeta,
    binary_md5: &str,
    frontend_md5: &str,
    current_version: &str,
) -> (r: OtaValidation)
    ensures
        r@ == verdict(meta@, binary_md5@, frontend_md5@, current_version@),
{
    let binary_md5_match = same_text(binary_md5, meta.binary_md5.as_str());
    let frontend_md5_match = same_text(frontend_md5, meta.frontend_md5.as_str());
    let arch_match = same_text(meta.arch.as_str(), OTA_ARCH);
    let is_newer = compare_versions(meta.version.as_str(), current_version);
    let valid = binary_md5_match && frontend_md5_match && arch_match;
    let ghost wrong = mismatches(meta@, binary_md5@, frontend_md5@);
    let error = if !valid {
        let mut errors: Vec<String> = Vec::new();
        if !binary_md5_match {
            errors.push(
                digest_mismatch(
                    "Binary MD5 mismatch: expected=",
                    meta.binary_md5.as_str(),
                    binary_md5,
                ),
            );
        }
        if !frontend_md5_match {
            errors.push(
                digest_mismatch(
                    "Frontend MD5 mismatch: expected=",
                    meta.frontend_md5.as_str(),
                    frontend_md5,
                ),
            );
        }
        if !arch_match {
            errors.push(
                concat(
                    "Arch mismatch: expected=aarch64-unknown-linux-musl, actual=",
                    meta.arch.as_str(),
                ),
            );
        }
        assert(errors.deep_view() =~= wrong);
        Some(join(&errors, "; "))
    } else {
        None
    };
    OtaValidation { valid, is_newer, binary_md5_match, frontend_md5_match, arch_match, error }
}

/// A result with its verdict and its error as values.
pub open spec fn validation_result(r: Result<OtaValidation, String>) -> Result<
    ValidationView,
    Seq<char>,
> {
    match r {
        Ok(v) => Ok(v@),
        Err(e) => Err(e@),
    }
}

/// The verdict on a staged package.
pub fn validate_ota_package(
    meta: &OtaMeta,
    package: &StagedPackage,
    current_version: &str,
) -> (r: Result<OtaValidation, String>)
    ensures
        validation_result(r) == validation_of(meta@, *package, current_version@),
        match validation_of(meta@, *package, current_version@) {
            Ok(v) => r is Ok && r->Ok_0@ == v,
            Err(e) => r is Err && r->Err_0@ == e,
        },
{
    let binary = match &package.binary {
        Some(binary) => binary,
        None => {
            return Ok(incomplete_package("Binary file not found in package"));
        },
    };
    let www = match &package.www {
        Some(www) => www,
        None => {
            return Ok(incomplete_package("Frontend directory not found in package"));
        },
    };
    let binary_md5 = match calculate_file_md5(staged_binary_path().as_str(), binary) {
        Ok(md5) => md5,
        Err(e) => {
            return Err(e);
        },
    };
    let frontend_md5 = match calculate_directory_md5(staged_www_path().as_str(), www) {
        Ok(md5) => md5,
        Err(e) => {
            return Err(e);
        },
    };
    Ok(check_package(meta, binary_md5.as_str(), frontend_md5.as_str(), current_version))
}

/// What reading and parsing the metadata of a package gave.
#[derive(Debug, PartialEq, Eq)]
pub enum MetaRead {
    /// The file could not be read.
    Missing,
    /// The file does not hold metadata, in the words of the parser.
    Invalid(String),
    /// The metadata.
    Parsed(OtaMeta),
}

/// Whether `r` is the answer to an upload whose package has been unpacked: its metadata
/// and the verdict on it, or why there is none.
pub open spec fn answers_unpacked(
    read: MetaRead,
    package: StagedPackage,
    current_version: Seq<char>,
    r: Result<OtaUploadResponse, String>,
) -> bool {
    match read {
        MetaRead::Missing => r is Err && r->Err_0@ == "meta.json not found in OTA package"@,
        MetaRead::Invalid(e) => r is Err && r->Err_0@ == "Invalid meta.json: "@ + e@,
        MetaRead::Parsed(meta) => match validation_of(meta@, package, current_version) {
            Ok(v) => r is Ok && r->Ok_0.meta == meta && r->Ok_0.validation@ == v,
            Err(e) => r is Err && r->Err_0@ == e,
        },
    }
}

/// Answers an upload whose package has been unpacked into the staging directory.
pub fn finish_ota_upload(read: MetaRead, package: &StagedPackage, current_version: &str) -> (r:
    Result<OtaUploadResponse, String>)
    ensures
        answers_unpacked(read, *package, current_version@, r),
{
    match read {
        MetaRead::Missing => Err("meta.json not found in OTA package".to_string()),
        MetaRead::Invalid(e) => Err(concat("Invalid meta.json: ", e.as_str())),
        MetaRead::Parsed(meta) => match validate_ota_package(&meta, package, current_version) {
            Ok(validation) => Ok(OtaUploadResponse { meta, validation }),
            Err(e) => Err(e),
        },
    }
}

/// Whether `data` starts with the bytes that every ZIP archive starts with.
pub open spec fn is_zip(data: Seq<u8>) -> bool {
    data.len() >= 4 && data.take(4) == seq![0x50u8, 0x4bu8, 0x03u8, 0x04u8]
}

/// Whether `data` is a ZIP archive, by its first bytes.
pub fn detect_zip_format(data: &[u8]) -> (r: bool)
    ensures
        r == is_zip(data@),
{
    if data.len() < 4 {
        return false;
    }
    let r = data[0] == 0x50 && data[1] == 0x4b && data[2] == 0x03 && data[3] == 0x04;
    proof {
        let magic = seq![0x50u8, 0x4bu8, 0x03u8, 0x04u8];
        if r {
            assert(data@.take(4) =~= magic);
        } else if data@.take(4) == magic {
            assert(data@[0] == data@.take(4)[0]);
            assert(data@[1] == data@.take(4)[1]);
            assert(data@[2] == data@.take(4)[2]);
            assert(data@[3] == data@.take(4)[3]);
        }
    }
    r
}

/// The metadata file to look into for an update that is on trial: that of the active
/// slot, if the state is known and says so.
pub open spec fn trial_meta_file(state: Result<OtaRuntimeState, String>) -> Option<Seq<char>> {
    match state {
        Ok(s) => if s.boot_state == OtaBootState::Trial {
            meta_file_of(s.active_slot)
        } else {
            None
        },
        Err(_) => None,
    }
}

/// The path of the metadata of the update that is on trial.
pub fn read_runtime_pending_meta(state: &Result<OtaRuntimeState, String>) -> (r: Option<String>)
    ensures
        r.deep_view() == trial_meta_file(*state),
{
    match state {
        Ok(s) => match s.boot_state {
            OtaBootState::Trial => slot_meta_path(s.active_slot),
            OtaBootState::Stable => None,
        },
        Err(_) => None,
    }
}

/// The metadata of the pending update: that of the staged package, else that of the
/// update on trial.
///
/// `staged` is what the staging directory holds, `on_trial` what the file that
/// `read_runtime_pending_meta` names for `state` holds.
pub fn read_pending_meta(
    staged: Option<OtaMeta>,
    state: &Result<OtaRuntimeState, String>,
    on_trial: Option<OtaMeta>,
) -> (r: Result<Option<OtaMeta>, String>)
    ensures
        r == Ok::<Option<OtaMeta>, String>(
            if staged is Some {
                staged
            } else if trial_meta_file(*state) is Some {
                on_trial
            } else {
                None
            },
        ),
{
    if staged.is_some() {
        return Ok(staged);
    }
    match read_runtime_pending_meta(state) {
        Some(_) => Ok(on_trial),
        None => Ok(None),
    }
}

/// The name of the commit that a build was made from.
pub open spec fn commit_name(commit: Option<Seq<char>>) -> Seq<char> {
    match commit {
        Some(c) => c,
        None => "unknown"@,
    }
}

/// The commit that the running version was built from, by what the build recorded.
pub fn get_current_commit(commit: Option<&str>) -> (r: String)
    ensures
        r@ == commit_name(commit.deep_view()),
{
    match commit {
        Some(c) => c.to_string(),
        None => "unknown".to_string(),
    }
}

/// Whether the state is known and says that an update is on trial.
pub open spec fn on_trial(state: Result<OtaRuntimeState, String>) -> bool {
    state is Ok && state->Ok_0.boot_state == OtaBootState::Trial
}

/// The update status of the device. What could not be read counts as no update.
pub fn get_ota_status(
    current_version: &str,
    commit: Option<&str>,
    pending: Result<Option<OtaMeta>, String>,
    state: Result<OtaRuntimeState, String>,
) -> (r: OtaStatusResponse)
    ensures
        r.current_version@ == current_version@,
        r.current_commit@ == commit_name(commit.deep_view()),
        r.pending_meta == (match pending {
            Ok(meta) => meta,
            Err(_) => None,
        }),
        r.pending_update == (r.pending_meta is Some || on_trial(state)),
{
    let pending_meta = match pending {
        Ok(meta) => meta,
        Err(_) => None,
    };
    let runtime_state = match state {
        Ok(s) => s,
        Err(_) => default_runtime_state(),
    };
    let pending_update = pending_meta.is_some() || matches!(
        runtime_state.boot_state,
        OtaBootState::Trial
    );
    OtaStatusResponse {
        current_version: current_version.to_string(),
        current_commit: get_current_commit(commit),
        pending_update,
        pending_meta,
    }
}

/// A package is valid exactly if both digests and the architecture match; then, and
/// only then, there is nothing to complain about.
pub proof fn valid_means_all_match(
    meta: MetaView,
    binary_md5: Seq<char>,
    frontend_md5: Seq<char>,
    current_version: Seq<char>,
)
    ensures
        ({
            let v = verdict(meta, binary_md5, frontend_md5, current_version);
            &&& v.valid == (v.binary_md5_match && v.frontend_md5_match && v.arch_match)
            &&& v.valid == (v.error is None)
        }),
{
}

/// The verdict on a staged package says why: it has nothing to complain about exactly if
/// the package is valid, and then everything matches.
pub proof fn refused_package_is_explained(
    meta: MetaView,
    package: StagedPackage,
    current_version: Seq<char>,
)
    ensures
        validation_of(meta, package, current_version) matches Ok(v) ==> {
            &&& v.valid == (v.binary_md5_match && v.frontend_md5_match && v.arch_match)
            &&& v.valid == (v.error is None)
        },
{
}

/// A staged package that is valid has its binary and its frontend, and they have the
/// digests that the metadata gives.
pub proof fn valid_package_is_complete(
    meta: MetaView,
    package: StagedPackage,
    current_version: Seq<char>,
)
    requires
        validation_of(meta, package, current_version) is Ok,
        validation_of(meta, package, current_version)->Ok_0.valid,
    ensures
        package.binary is Some,
        package.www is Some,
        file_md5(joined_path(OTA_STAGING_DIR@, "udx710"@), package.binary->0) == Ok::<
            Seq<char>,
            Seq<char>,
        >(meta.binary_md5),
        directory_md5(joined_path(OTA_STAGING_DIR@, "www"@), package.www->0) == Ok::<
            Seq<char>,
            Seq<char>,
        >(meta.frontend_md5),
        meta.arch == OTA_ARCH@,
{
}

/// The result of a validation with what it says of versions left out.
pub open spec fn apart_from_newer(r: Result<ValidationView, Seq<char>>) -> Result<
    ValidationView,
    Seq<char>,
> {
    match r {
        Ok(v) => Ok(ValidationView { is_newer: false, ..v }),
        Err(e) => Err(e),
    }
}

/// Versions count for nothing but whether a package is newer: neither its version nor
/// the one that runs has a part in the rest of its validation, so that an older package
/// is accepted as well.
pub proof fn validation_ignores_versions(
    meta: MetaView,
    other_version: Seq<char>,
    package: StagedPackage,
    current_version: Seq<char>,
    other_current_version: Seq<char>,
)
    ensures
        apart_from_newer(validation_of(meta, package, current_version)) == apart_from_newer(
            validation_of(
                MetaView { version: other_version, ..meta },
                package,
                other_current_version,
            ),
        ),
{
}

/// The parts of a verdict show in its view unchanged.
pub proof fn verdict_shows_its_parts(validation: OtaValidation)
    ensures
        validation@.valid == validation.valid,
        validation@.is_newer == validation.is_newer,
        validation@.binary_md5_match == validation.binary_md5_match,
        validation@.frontend_md5_match == validation.frontend_md5_match,
        validation@.arch_match == validation.arch_match,
        validation.error is None ==> validation@.error is None,
        validation.error is Some ==> validation@.error == Some(validation.error->0@),
{
}

/// What is compared in a package: the digests with those of the metadata, and the
/// architecture with that of the device, each for itself.
pub proof fn each_part_is_compared(
    meta: MetaView,
    binary_md5: Seq<char>,
    frontend_md5: Seq<char>,
    current_version: Seq<char>,
)
    ensures
        ({
            let v = verdict(meta, binary_md5, frontend_md5, current_version);
            &&& v.binary_md5_match <==> binary_md5 == meta.binary_md5
            &&& v.frontend_md5_match <==> frontend_md5 == meta.frontend_md5
            &&& v.arch_match <==> meta.arch == "aarch64-unknown-linux-musl"@
            &&& v.valid <==> binary_md5 == meta.binary_md5 && frontend_md5 == meta.frontend_md5
                && meta.arch == "aarch64-unknown-linux-musl"@
        }),
{
}

/// The error of a package names all that does not match, and nothing else: the binary,
/// then the frontend, then the architecture.
pub proof fn error_names_all_mismatches(
    meta: MetaView,
    binary_md5: Seq<char>,
    frontend_md5: Seq<char>,
    current_version: Seq<char>,
)
    ensures
        ({
            let error = verdict(meta, binary_md5, frontend_md5, current_version).error;
            let b = binary_md5 == meta.binary_md5;
            let f = frontend_md5 == meta.frontend_md5;
            let a = meta.arch == "aarch64-unknown-linux-musl"@;
            let binary = "Binary MD5 mismatch: expected="@ + meta.binary_md5 + ", actual="@
                + binary_md5;
            let frontend = "Frontend MD5 mismatch: expected="@ + meta.frontend_md5 + ", actual="@
                + frontend_md5;
            let arch = "Arch mismatch: expected=aarch64-unknown-linux-musl, actual="@ + meta.arch;
            &&& b && f && a ==> error is None
            &&& !b && f && a ==> error == Some(binary)
            &&& b && !f && a ==> error == Some(frontend)
            &&& b && f && !a ==> error == Some(arch)
            &&& !b && !f && a ==> error == Some(binary + "; "@ + frontend)
            &&& !b && f && !a ==> error == Some(binary + "; "@ + arch)
            &&& b && !f && !a ==> error == Some(frontend + "; "@ + arch)
            &&& !b && !f && !a ==> error == Some(binary + "; "@ + frontend + "; "@ + arch)
        }),
{
    let b = binary_md5 == meta.binary_md5;
    let f = frontend_md5 == meta.frontend_md5;
    let a = meta.arch == OTA_ARCH@;
    let binary = "Binary MD5 mismatch: expected="@ + meta.binary_md5 + ", actual="@ + binary_md5;
    let frontend = "Frontend MD5 mismatch: expected="@ + meta.frontend_md5 + ", actual="@
        + frontend_md5;
    let arch = "Arch mismatch: expected=aarch64-unknown-linux-musl, actual="@ + meta.arch;
    let wrong = mismatches(meta, binary_md5, frontend_md5);
    let none = Seq::<Seq<char>>::empty();
    joined_one_by_one(none, binary, "; "@);
    joined_one_by_one(none, frontend, "; "@);
    joined_one_by_one(none, arch, "; "@);
    joined_one_by_one(seq![binary], frontend, "; "@);
    joined_one_by_one(seq![binary], arch, "; "@);
    joined_one_by_one(seq![frontend], arch, "; "@);
    joined_one_by_one(seq![binary].push(frontend), arch, "; "@);
    if !b && f && a {
        assert(wrong =~= seq![binary]);
    }
    if b && !f && a {
        assert(wrong =~= seq![frontend]);
    }
    if b && f && !a {
        assert(wrong =~= seq![arch]);
    }
    if !b && !f && a {
        assert(wrong =~= seq![binary].push(frontend));
    }
    if !b && f && !a {
        assert(wrong =~= seq![binary].push(arch));
    }
    if b && !f && !a {
        assert(wrong =~= seq![frontend].push(arch));
    }
    if !b && !f && !a {
        assert(wrong =~= seq![binary].push(frontend).push(arch));
    }
}

/// A package without its binary or without its frontend is refused as incomplete, and
/// nothing else of it is looked at.
pub proof fn incomplete_packages_are_refused(
    meta: MetaView,
    package: StagedPackage,
    current_version: Seq<char>,
)
    requires
        package.binary is None || package.www is None,
    ensures
        validation_of(meta, package, current_version) == Ok::<ValidationView, Seq<char>>(
            ValidationView {
                valid: false,
                is_newer: false,
                binary_md5_match: false,
                frontend_md5_match: false,
                arch_match: false,
                error: Some(
                    if package.binary is None {
                        "Binary file not found in package"@
                    } else {
                        "Frontend directory not found in package"@
                    },
                ),
            },
        ),
{
}

/// A complete package is judged by the digests of what it holds; what cannot be read, the
/// binary before the frontend, takes the place of the verdict.
pub proof fn complete_packages_are_judged(
    meta: MetaView,
    package: StagedPackage,
    current_version: Seq<char>,
)
    requires
        package.binary is Some,
        package.www is Some,
    ensures
        ({
            let binary = file_md5("/tmp/ota_staging/udx710"@, package.binary->0);
            let www = directory_md5("/tmp/ota_staging/www"@, package.www->0);
            let r = validation_of(meta, package, current_version);
            &&& binary is Err ==> r is Err && r->Err_0 == binary->Err_0
            &&& binary is Ok && www is Err ==> r is Err && r->Err_0 == www->Err_0
            &&& binary is Ok && www is Ok ==> r is Ok && r->Ok_0 == verdict(
                meta,
                binary->Ok_0,
                www->Ok_0,
                current_version,
            )
        }),
{
    reveal_strlit("/tmp/ota_staging");
    reveal_strlit("/tmp/ota_staging/udx710");
    reveal_strlit("/tmp/ota_staging/www");
    reveal_strlit("/");
    reveal_strlit("udx710");
    reveal_strlit("www");
    assert(OTA_STAGING_DIR@.last() == 'g');
    assert(joined_path(OTA_STAGING_DIR@, "udx710"@) =~= "/tmp/ota_staging/udx710"@);
    assert(joined_path(OTA_STAGING_DIR@, "www"@) =~= "/tmp/ota_staging/www"@);
}

/// A package that gets a verdict is newer exactly if the first number in which its version
/// differs from the one that runs is greater, with zeros for numbers that are not written.
pub proof fn newer_by_first_difference(
    meta: MetaView,
    package: StagedPackage,
    current_version: Seq<char>,
    i: int,
)
    requires
        package.binary is Some,
        package.www is Some,
        validation_of(meta, package, current_version) is Ok,
        0 <= i,
        ({
            let a = version_numbers(meta.version);
            let b = version_numbers(current_version);
            forall|j: int|
                #![trigger a[j]]
                #![trigger b[j]]
                0 <= j < i ==> (if j < a.len() {
                    a[j]
                } else {
                    0
                }) == (if j < b.len() {
                    b[j]
                } else {
                    0
                })
        }),
    ensures
        ({
            let a = version_numbers(meta.version);
            let b = version_numbers(current_version);
            let here = if i < a.len() {
                a[i]
            } else {
                0
            };
            let there = if i < b.len() {
                b[i]
            } else {
                0
            };
            let newer = validation_of(meta, package, current_version)->Ok_0.is_newer;
            &&& here > there ==> newer
            &&& here < there ==> !newer
            &&& here == there && i >= a.len() && i >= b.len() ==> !newer
        }),
{
    let a = version_numbers(meta.version);
    let b = version_numbers(current_version);
    let here = if i < a.len() {
        a[i]
    } else {
        0
    };
    let there = if i < b.len() {
        b[i]
    } else {
        0
    };
    if here > there {
        first_difference_decides(a, b, i);
    } else if here < there {
        first_difference_decides(b, a, i);
    } else if i >= a.len() && i >= b.len() {
        equal_numbers_are_not_newer(a, b);
    }
}

/// For versions that are written from numbers, of any count and size, those numbers decide
/// whether a package is newer.
pub proof fn newer_by_written_numbers(
    meta: MetaView,
    package: StagedPackage,
    numbers: Seq<nat>,
    current: Seq<nat>,
)
    requires
        package.binary is Some,
        package.www is Some,
        meta.version == version_text(numbers),
        validation_of(meta, package, version_text(current)) is Ok,
    ensures
        validation_of(meta, package, version_text(current))->Ok_0.is_newer == is_newer(
            numbers,
            current,
        ),
{
    version_round_trip(numbers);
    version_round_trip(current);
}

/// An archive is taken for a ZIP by its first four bytes, whatever follows them and
/// however long it is.
pub proof fn zip_by_first_four_bytes(data: Seq<u8>)
    ensures
        is_zip(data) <==> data.len() >= 4 && data[0] == 0x50 && data[1] == 0x4b && data[2] == 0x03
            && data[3] == 0x04,
{
    let magic = seq![0x50u8, 0x4bu8, 0x03u8, 0x04u8];
    if data.len() >= 4 {
        if data[0] == 0x50 && data[1] == 0x4b && data[2] == 0x03 && data[3] == 0x04 {
            assert(data.take(4) =~= magic);
        } else if data.take(4) == magic {
            assert(data.take(4)[0] == data[0]);
            assert(data.take(4)[1] == data[1]);
            assert(data.take(4)[2] == data[2]);
            assert(data.take(4)[3] == data[3]);
        }
    }
}

/// An update is on trial exactly if the state is known and says so, and then its metadata
/// is looked for in the slot that is active, whatever else the state says.
pub proof fn trial_is_described_by_its_slot(state: OtaRuntimeState, e: String)
    ensures
        on_trial(Ok(state)) <==> state.boot_state == OtaBootState::Trial,
        !on_trial(Err(e)),
        trial_meta_file(Err(e)) is None,
        state.boot_state == OtaBootState::Stable ==> trial_meta_file(Ok(state)) is None,
        state.boot_state == OtaBootState::Trial ==> match state.active_slot {
            OtaSlot::Legacy => trial_meta_file(Ok(state)) is None,
            OtaSlot::SlotA => trial_meta_file(Ok(state)) == Some(
                "/home/root/ota/slots/slot-a/meta.json"@,
            ),
            OtaSlot::SlotB => trial_meta_file(Ok(state)) == Some(
                "/home/root/ota/slots/slot-b/meta.json"@,
            ),
        },
{
    reveal_strlit("/home/root/ota/slots/slot-a");
    reveal_strlit("/home/root/ota/slots/slot-b");
    reveal_strlit("/meta.json");
    reveal_strlit("/home/root/ota/slots/slot-a/meta.json");
    reveal_strlit("/home/root/ota/slots/slot-b/meta.json");
    builds_lie_in_their_slots(state.active_slot);
    assert("/home/root/ota/slots/slot-a"@ + "/meta.json"@
        =~= "/home/root/ota/slots/slot-a/meta.json"@);
    assert("/home/root/ota/slots/slot-b"@ + "/meta.json"@
        =~= "/home/root/ota/slots/slot-b/meta.json"@);
}

/// The commit is named as the build recorded it, and is unknown only if it did not.
pub proof fn commit_is_as_recorded(commit: Seq<char>)
    ensures
        commit_name(Some(commit)) == commit,
        commit_name(None) == "unknown"@,
{
}

/// An upload is answered by what became of its package: its metadata as it was read with
/// the verdict on it, or the error that stands for what is missing.
pub proof fn uploads_are_answered_by_their_package(
    read: MetaRead,
    package: StagedPackage,
    current_version: Seq<char>,
    r: Result<OtaUploadResponse, String>,
)
    requires
        answers_unpacked(read, package, current_version, r),
    ensures
        read is Missing ==> r is Err && r->Err_0@ == "meta.json not found in OTA package"@,
        read is Invalid ==> r is Err && r->Err_0@ == "Invalid meta.json: "@ + read->Invalid_0@,
        read is Parsed ==> {
            let v = validation_of(read->Parsed_0@, package, current_version);
            &&& v is Ok ==> r is Ok && r->Ok_0.meta == read->Parsed_0 && r->Ok_0.validation@
                == v->Ok_0
            &&& v is Err ==> r is Err && r->Err_0@ == v->Err_0
        },
{
}

/// The parts of metadata show in its view unchanged.
pub proof fn metadata_shows_its_parts(meta: OtaMeta)
    ensures
        meta@.version == meta.version@,
        meta@.binary_md5 == meta.binary_md5@,
        meta@.frontend_md5 == meta.frontend_md5@,
        meta@.arch == meta.arch@,
{
}

} // verus!
