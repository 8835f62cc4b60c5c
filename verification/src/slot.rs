//! The places a build can run from: the legacy location and the two update slots.

use vstd::prelude::*;
use vstd::string::*;

use crate::text::{
    concat, is_trimmed, lemma_split_first, lemma_split_single, same_text, split_at_each, trim,
    trimmed, trimmed_keeps,
};

verus! {

/// Where the runtime state of the updater lives.
pub const OTA_RUNTIME_DIR: &'static str = "/home/root/ota";

/// The directory that holds the update slots.
pub const OTA_SLOT_ROOT: &'static str = "/home/root/ota/slots";

/// The file that records the runtime state.
pub const OTA_STATE_FILE: &'static str = "/home/root/ota/state.env";

/// Where an uploaded package is unpacked.
pub const OTA_STAGING_DIR: &'static str = "/tmp/ota_staging";

/// The binary outside any slot.
pub const OTA_BINARY_PATH: &'static str = "/home/root/udx710";

/// The frontend outside any slot.
pub const OTA_WWW_PATH: &'static str = "/home/root/www";

/// The port a restarted binary listens on.
pub const OTA_PORT: &'static str = "80";

/// The name of the first update slot.
pub const OTA_SLOT_A: &'static str = "slot-a";

/// The name of the second update slot.
pub const OTA_SLOT_B: &'static str = "slot-b";

/// A place a build can run from.
#[derive(Debug, Clone, Copy, PartialEq, Eq, Structural)]
pub enum OtaSlot {
    /// The location outside any slot.
    Legacy,
    /// The first update slot.
    SlotA,
    /// The second update slot.
    SlotB,
}

/// The name of a slot.
pub open spec fn name_of(slot: OtaSlot) -> Seq<char> {
    match slot {
        OtaSlot::Legacy => "legacy"@,
        OtaSlot::SlotA => OTA_SLOT_A@,
        OtaSlot::SlotB => OTA_SLOT_B@,
    }
}

/// The slot that a text names, with white space around the name allowed.
pub open spec fn slot_named(text: Seq<char>) -> Option<OtaSlot> {
    if trimmed(text) == "legacy"@ {
        Some(OtaSlot::Legacy)
    } else if trimmed(text) == OTA_SLOT_A@ {
        Some(OtaSlot::SlotA)
    } else if trimmed(text) == OTA_SLOT_B@ {
        Some(OtaSlot::SlotB)
    } else {
        None
    }
}

/// The path of the entry `name` of the directory `base`, for a name without a slash.
pub open spec fn joined_path(base: Seq<char>, name: Seq<char>) -> Seq<char> {
    if base.len() == 0 || base.last() == '/' {
        base + name
    } else {
        base + "/"@ + name
    }
}

/// The directory of an update slot; the legacy location has none.
pub open spec fn directory_of(slot: OtaSlot) -> Option<Seq<char>> {
    match slot {
        OtaSlot::Legacy => None,
        OtaSlot::SlotA => Some(joined_path(OTA_SLOT_ROOT@, OTA_SLOT_A@)),
        OtaSlot::SlotB => Some(joined_path(OTA_SLOT_ROOT@, OTA_SLOT_B@)),
    }
}

/// The path of the binary that a slot runs.
pub open spec fn binary_of(slot: OtaSlot) -> Seq<char> {
    match directory_of(slot) {
        None => OTA_BINARY_PATH@,
        Some(dir) => joined_path(dir, "udx710"@),
    }
}

/// The path of the package metadata that a slot keeps.
pub open spec fn meta_file_of(slot: OtaSlot) -> Option<Seq<char>> {
    match directory_of(slot) {
        None => None,
        Some(dir) => Some(joined_path(dir, "meta.json"@)),
    }
}

/// The slot that an update is put into while `slot` runs.
pub open spec fn slot_after(slot: OtaSlot) -> OtaSlot {
    match slot {
        OtaSlot::SlotA => OtaSlot::SlotB,
        _ => OtaSlot::SlotA,
    }
}

/// The components of the path of the slot directory.
pub open spec fn slot_root_components() -> Seq<Seq<char>> {
    seq!["/"@, "home"@, "root"@, "ota"@, "slots"@]
}

/// The slot that a program runs from, by the components of the program's path.
///
/// A component is `None` where it is not valid Unicode.
pub open spec fn slot_of_program(components: Seq<Option<Seq<char>>>) -> Option<OtaSlot> {
    let root = slot_root_components();
    if components.len() > root.len() && (forall|i: int|
        0 <= i < root.len() ==> #[trigger] components[i] == Some(root[i])) {
        match components[root.len() as int] {
            Some(name) => slot_named(name),
            None => None,
        }
    } else {
        None
    }
}

/// The slot that the current process runs from: the one that its environment
/// names, else the one that its program lies in, else the legacy location.
pub open spec fn current_slot(
    active_slot_var: Option<Seq<char>>,
    program: Option<Seq<Option<Seq<char>>>>,
) -> OtaSlot {
    let by_name = match active_slot_var {
        Some(name) => slot_named(name),
        None => None,
    };
    let by_program = match program {
        Some(components) => slot_of_program(components),
        None => None,
    };
    match (by_name, by_program) {
        (Some(slot), _) => slot,
        (None, Some(slot)) => slot,
        (None, None) => OtaSlot::Legacy,
    }
}

/// The name of a slot.
pub fn slot_name(slot: OtaSlot) -> (r: &'static str)
    ensures
        r@ == name_of(slot),
{
    match slot {
        OtaSlot::Legacy => "legacy",
        OtaSlot::SlotA => OTA_SLOT_A,
        OtaSlot::SlotB => OTA_SLOT_B,
    }
}

/// The slot that a text names, with white space around the name allowed.
pub fn slot_from_name(value: &str) -> (r: Option<OtaSlot>)
    ensures
        r == slot_named(value@),
{
    let name = trim(value);
    if same_text(name, "legacy") {
        Some(OtaSlot::Legacy)
    } else if same_text(name, OTA_SLOT_A) {
        Some(OtaSlot::SlotA)
    } else if same_text(name, OTA_SLOT_B) {
        Some(OtaSlot::SlotB)
    } else {
        None
    }
}

/// The path of the entry `name` of the directory `base`, for a name without a slash.
pub fn join_path(base: &str, name: &str) -> (r: String)
    ensures
        r@ == joined_path(base@, name@),
{
    let n = base.unicode_len();
    if n == 0 || base.get_char(n - 1) == '/' {
        concat(base, name)
    } else {
        let mut r = concat(base, "/");
        r.append(name);
        r
    }
}

/// The directory of an update slot.
pub fn slot_directory(slot: OtaSlot) -> (r: Option<String>)
    ensures
        r.deep_view() == directory_of(slot),
{
    match slot {
        OtaSlot::Legacy => None,
        OtaSlot::SlotA => Some(join_path(OTA_SLOT_ROOT, OTA_SLOT_A)),
        OtaSlot::SlotB => Some(join_path(OTA_SLOT_ROOT, OTA_SLOT_B)),
    }
}

/// The path of the binary that a slot runs.
pub fn slot_binary_path(slot: OtaSlot) -> (r: String)
    ensures
        r@ == binary_of(slot),
{
    match slot_directory(slot) {
        None => OTA_BINARY_PATH.to_string(),
        Some(dir) => join_path(dir.as_str(), "udx710"),
    }
}

/// The path of the package metadata that a slot keeps.
pub fn slot_meta_path(slot: OtaSlot) -> (r: Option<String>)
    ensures
        r.deep_view() == meta_file_of(slot),
{
    match slot_directory(slot) {
        None => None,
        Some(dir) => Some(join_path(dir.as_str(), "meta.json")),
    }
}

/// The slot that an update is put into while `current_slot` runs.
pub fn next_slot(current_slot: OtaSlot) -> (r: OtaSlot)
    ensures
        r == slot_after(current_slot),
{
    match current_slot {
        OtaSlot::Legacy | OtaSlot::SlotB => OtaSlot::SlotA,
        OtaSlot::SlotA => OtaSlot::SlotB,
    }
}

/// The slot that a program runs from, by the components of the program's path.
fn program_slot(components: &Vec<Option<String>>) -> (r: Option<OtaSlot>)
    ensures
        r == slot_of_program(components.deep_view()),
{
    let root: [&'static str; 5] = ["/", "home", "root", "ota", "slots"];
    let ghost all = components.deep_view();
    proof {
        assert(root.deep_view() =~= slot_root_components());
    }
    if components.len() <= 5 {
        return None;
    }
    let mut i: usize = 0;
    while i < 5
        invariant
            i <= 5 < components.len(),
            all == components.deep_view(),
            root.deep_view() == slot_root_components(),
            forall|j: int| 0 <= j < i ==> #[trigger] all[j] == Some(slot_root_components()[j]),
        decreases 5 - i,
    {
        assert(slot_root_components()[i as int] == root[i as int]@);
        assert(all[i as int] == components[i as int].deep_view());
        match &components[i] {
            Some(name) => {
                if !same_text(name.as_str(), root[i]) {
                    return None;
                }
            },
            None => {
                return None;
            },
        }
        i = i + 1;
    }
    assert(all[5] == components[5].deep_view());
    match &components[5] {
        Some(name) => slot_from_name(name.as_str()),
        None => None,
    }
}

/// The slot that the current process runs from.
///
/// `active_slot_var` is the value of the environment variable `UDX710_ACTIVE_SLOT`,
/// `program` the components of the path of the running program, each `None` where
/// it is not valid Unicode.
pub fn detect_current_slot(
    active_slot_var: Option<&str>,
    program: Option<&Vec<Option<String>>>,
) -> (r: OtaSlot)
    ensures
        r == current_slot(active_slot_var.deep_view(), program.deep_view()),
{
    if let Some(name) = active_slot_var {
        if let Some(slot) = slot_from_name(name) {
            return slot;
        }
    }
    if let Some(components) = program {
        if let Some(slot) = program_slot(components) {
            return slot;
        }
    }
    OtaSlot::Legacy
}

/// A slot is read back from its name.
pub proof fn slot_name_round_trip(slot: OtaSlot)
    ensures
        slot_named(name_of(slot)) == Some(slot),
        is_trimmed(name_of(slot)),
{
    reveal_strlit("legacy");
    reveal_strlit("slot-a");
    reveal_strlit("slot-b");
    assert(OTA_SLOT_A@[5] == 'a' && OTA_SLOT_B@[5] == 'b');
    assert("legacy"@[0] == 'l' && OTA_SLOT_A@[0] == 's' && OTA_SLOT_B@[0] == 's');
    assert("legacy"@[5] == 'y');
    trimmed_keeps(name_of(slot));
}

/// An update never goes into the slot that runs, nor outside the update slots, and
/// two updates in a row from an update slot come back to it.
pub proof fn next_slot_is_another_update_slot(slot: OtaSlot)
    ensures
        slot_after(slot) != slot,
        slot_after(slot) != OtaSlot::Legacy,
        directory_of(slot_after(slot)) is Some,
        slot != OtaSlot::Legacy ==> slot_after(slot_after(slot)) == slot,
{
}

/// The two update slots have different directories, both inside the slot directory.
pub proof fn slot_directories_differ()
    ensures
        directory_of(OtaSlot::SlotA) == Some(OTA_SLOT_ROOT@ + "/"@ + OTA_SLOT_A@),
        directory_of(OtaSlot::SlotB) == Some(OTA_SLOT_ROOT@ + "/"@ + OTA_SLOT_B@),
        directory_of(OtaSlot::SlotA) != directory_of(OtaSlot::SlotB),
{
    reveal_strlit("/home/root/ota/slots");
    reveal_strlit("/");
    reveal_strlit("slot-a");
    reveal_strlit("slot-b");
    assert(OTA_SLOT_ROOT@.last() == 's');
    let a = directory_of(OtaSlot::SlotA)->0;
    let b = directory_of(OtaSlot::SlotB)->0;
    assert(a.last() == OTA_SLOT_A@[5]);
    assert(b.last() == OTA_SLOT_B@[5]);
}

/// The path of the slot directory has exactly the components that detection looks
/// for: the root, then the parts between the slashes after it.
pub proof fn slot_root_is_its_components()
    ensures
        split_at_each(OTA_SLOT_ROOT@, '/') == seq![""@] + slot_root_components().drop_first(),
{
    reveal_strlit("/home/root/ota/slots");
    reveal_strlit("");
    reveal_strlit("home");
    reveal_strlit("root");
    reveal_strlit("ota");
    reveal_strlit("slots");
    let sep = seq!['/'];
    let rest4 = "slots"@;
    let rest3 = "ota"@ + sep + rest4;
    let rest2 = "root"@ + sep + rest3;
    let rest1 = "home"@ + sep + rest2;
    assert(OTA_SLOT_ROOT@ =~= ""@ + sep + rest1);
    lemma_split_first(""@, rest1, '/');
    lemma_split_first("home"@, rest2, '/');
    lemma_split_first("root"@, rest3, '/');
    lemma_split_first("ota"@, rest4, '/');
    lemma_split_single(rest4, '/');
    assert(split_at_each(OTA_SLOT_ROOT@, '/') =~= seq![""@]
        + slot_root_components().drop_first());
}

/// A program that lies anywhere below the directory of a slot runs from that slot,
/// unless the environment names another.
pub proof fn program_below_slot_is_detected(
    active_slot_var: Option<Seq<char>>,
    slot: OtaSlot,
    below: Seq<Option<Seq<char>>>,
)
    requires
        active_slot_var is Some ==> slot_named(active_slot_var->0) is None,
    ensures
        current_slot(
            active_slot_var,
            Some(
                slot_root_components().map_values(|c: Seq<char>| Some(c)) + seq![
                    Some(name_of(slot)),
                ] + below,
            ),
        ) == slot,
{
    slot_name_round_trip(slot);
    let root = slot_root_components();
    let components = root.map_values(|c: Seq<char>| Some(c)) + seq![Some(name_of(slot))] + below;
    assert forall|i: int| 0 <= i < root.len() implies #[trigger] components[i] == Some(
        root[i],
    ) by {}
    assert(components[root.len() as int] == Some(name_of(slot)));
}

/// The slot that the environment names wins over the program's path.
pub proof fn named_slot_wins(slot: OtaSlot, program: Option<Seq<Option<Seq<char>>>>)
    ensures
        current_slot(Some(name_of(slot)), program) == slot,
{
    slot_name_round_trip(slot);
}

/// The binary of an update slot lies below the directory of the slot: its path has the
/// components of the slot directory, then the name of the slot, then the binary.
pub proof fn slot_binary_lies_in_slot(slot: OtaSlot)
    requires
        slot != OtaSlot::Legacy,
    ensures
        split_at_each(binary_of(slot), '/') == seq![""@] + slot_root_components().drop_first()
            + seq![name_of(slot), "udx710"@],
{
    reveal_strlit("/home/root/ota/slots");
    reveal_strlit("/");
    reveal_strlit("");
    reveal_strlit("home");
    reveal_strlit("root");
    reveal_strlit("ota");
    reveal_strlit("slots");
    reveal_strlit("slot-a");
    reveal_strlit("slot-b");
    reveal_strlit("udx710");
    slot_directories_differ();
    let sep = seq!['/'];
    let rest5 = "udx710"@;
    let rest4 = name_of(slot) + sep + rest5;
    let rest3 = "slots"@ + sep + rest4;
    let rest2 = "ota"@ + sep + rest3;
    let rest1 = "root"@ + sep + rest2;
    let rest0 = "home"@ + sep + rest1;
    let dir = directory_of(slot)->0;
    assert(dir.last() == name_of(slot).last());
    assert(OTA_SLOT_ROOT@ =~= ""@ + sep + "home"@ + sep + "root"@ + sep + "ota"@ + sep + "slots"@);
    assert(binary_of(slot) =~= ""@ + sep + rest0);
    lemma_split_first(""@, rest0, '/');
    lemma_split_first("home"@, rest1, '/');
    lemma_split_first("root"@, rest2, '/');
    lemma_split_first("ota"@, rest3, '/');
    lemma_split_first("slots"@, rest4, '/');
    lemma_split_first(name_of(slot), rest5, '/');
    lemma_split_single(rest5, '/');
    assert(split_at_each(binary_of(slot), '/') =~= seq![""@] + slot_root_components().drop_first()
        + seq![name_of(slot), "udx710"@]);
}

/// The entry of a directory stands behind a slash, of which there is only one.
pub proof fn entries_stand_behind_one_slash(base: Seq<char>, name: Seq<char>)
    ensures
        base.len() > 0 && base[base.len() - 1] != '/' ==> joined_path(base, name) == base + seq![
            '/',
        ] + name,
        base.len() > 0 && base[base.len() - 1] == '/' ==> joined_path(base, name) == base + name,
        base.len() == 0 ==> joined_path(base, name) == name,
{
    reveal_strlit("/");
    assert("/"@ =~= seq!['/']);
    assert(base.len() == 0 ==> base + name =~= name);
}

/// Where the parts of a build lie: below the directory of its slot, and below the home
/// directory for the legacy location, which keeps no metadata.
pub proof fn builds_lie_in_their_slots(slot: OtaSlot)
    ensures
        slot == OtaSlot::Legacy ==> {
            &&& directory_of(slot) is None
            &&& meta_file_of(slot) is None
            &&& binary_of(slot) == "/home/root/udx710"@
        },
        slot != OtaSlot::Legacy ==> {
            let dir = if slot == OtaSlot::SlotA {
                "/home/root/ota/slots/slot-a"@
            } else {
                "/home/root/ota/slots/slot-b"@
            };
            &&& directory_of(slot) == Some(dir)
            &&& meta_file_of(slot) == Some(dir + "/meta.json"@)
            &&& binary_of(slot) == dir + "/udx710"@
            &&& dir == "/home/root/ota/slots/"@ + name_of(slot)
        },
{
    reveal_strlit("/home/root/ota/slots");
    reveal_strlit("/home/root/ota/slots/");
    reveal_strlit("/home/root/ota/slots/slot-a");
    reveal_strlit("/home/root/ota/slots/slot-b");
    reveal_strlit("/");
    reveal_strlit("slot-a");
    reveal_strlit("slot-b");
    reveal_strlit("udx710");
    reveal_strlit("/udx710");
    reveal_strlit("meta.json");
    reveal_strlit("/meta.json");
    slot_directories_differ();
    if slot != OtaSlot::Legacy {
        let dir = directory_of(slot)->0;
        assert(dir =~= if slot == OtaSlot::SlotA {
            "/home/root/ota/slots/slot-a"@
        } else {
            "/home/root/ota/slots/slot-b"@
        });
        assert(dir[26] != '/');
        assert("/"@ + "udx710"@ =~= "/udx710"@);
        assert("/"@ + "meta.json"@ =~= "/meta.json"@);
        assert(binary_of(slot) =~= dir + "/udx710"@);
        assert(meta_file_of(slot)->0 =~= dir + "/meta.json"@);
        assert(dir =~= "/home/root/ota/slots/"@ + name_of(slot));
    }
}

/// A text names a slot exactly if it is the name of the slot, but for white space around.
pub proof fn named_exactly_by_its_name(text: Seq<char>)
    ensures
        slot_named(text) == Some(OtaSlot::Legacy) <==> trimmed(text) == "legacy"@,
        slot_named(text) == Some(OtaSlot::SlotA) <==> trimmed(text) == "slot-a"@,
        slot_named(text) == Some(OtaSlot::SlotB) <==> trimmed(text) == "slot-b"@,
{
    reveal_strlit("legacy");
    reveal_strlit("slot-a");
    reveal_strlit("slot-b");
    assert("slot-a"@[5] == 'a' && "slot-b"@[5] == 'b');
    assert("legacy"@[0] == 'l' && "slot-a"@[0] == 's' && "slot-b"@[0] == 's');
}

/// Whatever text names a slot in the environment, with white space around it or not,
/// decides; the program's path has no say.
pub proof fn environment_decides(
    text: Seq<char>,
    slot: OtaSlot,
    program: Option<Seq<Option<Seq<char>>>>,
)
    requires
        slot_named(text) == Some(slot),
    ensures
        current_slot(Some(text), program) == slot,
{
}

/// Where the environment names no slot, the component of the program's path behind the
/// slot directory decides, whatever follows it.
pub proof fn program_decides(
    active_slot_var: Option<Seq<char>>,
    program: Seq<Option<Seq<char>>>,
    text: Seq<char>,
    slot: OtaSlot,
)
    requires
        active_slot_var is None || slot_named(active_slot_var->0) is None,
        program.len() > 5,
        program[0] == Some("/"@),
        program[1] == Some("home"@),
        program[2] == Some("root"@),
        program[3] == Some("ota"@),
        program[4] == Some("slots"@),
        program[5] == Some(text),
        slot_named(text) == Some(slot),
    ensures
        current_slot(active_slot_var, Some(program)) == slot,
{
    let root = slot_root_components();
    assert forall|i: int| 0 <= i < root.len() implies #[trigger] program[i] == Some(root[i]) by {
        assert(i == 0 || i == 1 || i == 2 || i == 3 || i == 4);
    }
}

/// Where neither the environment nor the program's path names a slot, the legacy location
/// runs.
pub proof fn legacy_runs_otherwise(
    active_slot_var: Option<Seq<char>>,
    program: Option<Seq<Option<Seq<char>>>>,
)
    requires
        active_slot_var is None || slot_named(active_slot_var->0) is None,
        ({
            let p = program->0;
            ||| program is None
            ||| p.len() <= 5
            ||| p[0] != Some("/"@)
            ||| p[1] != Some("home"@)
            ||| p[2] != Some("root"@)
            ||| p[3] != Some("ota"@)
            ||| p[4] != Some("slots"@)
            ||| p[5] is None
            ||| slot_named(p[5]->0) is None
        }),
    ensures
        current_slot(active_slot_var, program) == OtaSlot::Legacy,
{
    if program is Some {
        let p = program->0;
        let root = slot_root_components();
        if p.len() > 5 && (forall|i: int| 0 <= i < root.len() ==> #[trigger] p[i] == Some(root[i])) {
            assert(p[0] == Some(root[0]));
            assert(p[1] == Some(root[1]));
            assert(p[2] == Some(root[2]));
            assert(p[3] == Some(root[3]));
            assert(p[4] == Some(root[4]));
        }
    }
}

} // verus!
