use udx710_ota::slot::{
    detect_current_slot, join_path, next_slot, slot_binary_path, slot_directory, slot_from_name,
    slot_meta_path, slot_name, OtaSlot,
};

fn program(path: &[&str]) -> Vec<Option<String>> {
    path.iter().map(|c| Some(c.to_string())).collect()
}

#[test]
fn names_are_read_back() {
    for slot in [OtaSlot::Legacy, OtaSlot::SlotA, OtaSlot::SlotB] {
        assert_eq!(slot_from_name(slot_name(slot)), Some(slot));
    }
    assert_eq!(slot_name(OtaSlot::Legacy), "legacy");
    assert_eq!(slot_name(OtaSlot::SlotA), "slot-a");
    assert_eq!(slot_name(OtaSlot::SlotB), "slot-b");
}

#[test]
fn names_may_have_white_space_around() {
    assert_eq!(slot_from_name(" slot-b\r\n"), Some(OtaSlot::SlotB));
    assert_eq!(slot_from_name("\u{3000}legacy\u{a0}"), Some(OtaSlot::Legacy));
    assert_eq!(slot_from_name("slot - a"), None);
    assert_eq!(slot_from_name("Slot-A"), None);
    assert_eq!(slot_from_name(""), None);
}

#[test]
fn updates_alternate() {
    assert_eq!(next_slot(OtaSlot::Legacy), OtaSlot::SlotA);
    assert_eq!(next_slot(OtaSlot::SlotA), OtaSlot::SlotB);
    assert_eq!(next_slot(OtaSlot::SlotB), OtaSlot::SlotA);
}

#[test]
fn paths_of_slots() {
    assert_eq!(slot_directory(OtaSlot::Legacy), None);
    assert_eq!(
        slot_directory(OtaSlot::SlotA),
        Some("/home/root/ota/slots/slot-a".to_string())
    );
    assert_eq!(
        slot_directory(OtaSlot::SlotB),
        Some("/home/root/ota/slots/slot-b".to_string())
    );
    assert_eq!(slot_binary_path(OtaSlot::Legacy), "/home/root/udx710");
    assert_eq!(
        slot_binary_path(OtaSlot::SlotB),
        "/home/root/ota/slots/slot-b/udx710"
    );
    assert_eq!(slot_meta_path(OtaSlot::Legacy), None);
    assert_eq!(
        slot_meta_path(OtaSlot::SlotA),
        Some("/home/root/ota/slots/slot-a/meta.json".to_string())
    );
}

#[test]
fn joining_agrees_with_paths() {
    for base in ["", "/", "/a", "/a/", "a/b"] {
        assert_eq!(
            join_path(base, "name"),
            std::path::Path::new(base).join("name").to_str().unwrap()
        );
    }
}

#[test]
fn environment_names_the_slot() {
    let exe = program(&["/", "home", "root", "ota", "slots", "slot-b", "udx710"]);
    assert_eq!(
        detect_current_slot(Some("slot-a"), Some(&exe)),
        OtaSlot::SlotA
    );
    assert_eq!(
        detect_current_slot(Some("legacy"), Some(&exe)),
        OtaSlot::Legacy
    );
}

#[test]
fn program_tells_the_slot() {
    let exe = program(&["/", "home", "root", "ota", "slots", "slot-b", "udx710"]);
    assert_eq!(detect_current_slot(None, Some(&exe)), OtaSlot::SlotB);
    assert_eq!(
        detect_current_slot(Some("nonsense"), Some(&exe)),
        OtaSlot::SlotB
    );
    let mut broken = exe;
    broken.push(None);
    assert_eq!(detect_current_slot(None, Some(&broken)), OtaSlot::SlotB);
}

#[test]
fn anything_else_is_legacy() {
    assert_eq!(detect_current_slot(None, None), OtaSlot::Legacy);
    let elsewhere = program(&["/", "home", "root", "udx710"]);
    assert_eq!(detect_current_slot(None, Some(&elsewhere)), OtaSlot::Legacy);
    let near = program(&["/", "home", "root", "ota", "slotz", "slot-b", "udx710"]);
    assert_eq!(detect_current_slot(None, Some(&near)), OtaSlot::Legacy);
    let root_only = program(&["/", "home", "root", "ota", "slots"]);
    assert_eq!(detect_current_slot(None, Some(&root_only)), OtaSlot::Legacy);
    let mut unnamed = root_only;
    unnamed.push(None);
    assert_eq!(detect_current_slot(None, Some(&unnamed)), OtaSlot::Legacy);
}
