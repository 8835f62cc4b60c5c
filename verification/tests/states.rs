use udx710_ota::slot::OtaSlot;
use udx710_ota::state::{
    default_runtime_state, parse_runtime_state, read_runtime_state, runtime_state_text,
    OtaBootState, OtaRuntimeState, ReadFailure,
};

fn state(
    active_slot: OtaSlot,
    fallback_slot: Option<OtaSlot>,
    boot_state: OtaBootState,
    trial_attempts: u8,
) -> OtaRuntimeState {
    OtaRuntimeState {
        active_slot,
        fallback_slot,
        boot_state,
        trial_attempts,
    }
}

#[test]
fn states_are_read_back() {
    let slots = [OtaSlot::Legacy, OtaSlot::SlotA, OtaSlot::SlotB];
    for active in slots {
        for fallback in [None, Some(slots[0]), Some(slots[1]), Some(slots[2])] {
            for boot in [OtaBootState::Stable, OtaBootState::Trial] {
                for attempts in [0, 1, 9, 10, 99, 100, 255] {
                    let s = state(active, fallback, boot, attempts);
                    assert_eq!(parse_runtime_state(&runtime_state_text(&s)), s);
                }
            }
        }
    }
}

#[test]
fn text_of_a_trial() {
    let s = state(OtaSlot::SlotB, Some(OtaSlot::SlotA), OtaBootState::Trial, 12);
    assert_eq!(
        runtime_state_text(&s),
        "ACTIVE_SLOT=slot-b\nBOOT_STATE=trial\nPENDING_SLOT=slot-b\nFALLBACK_SLOT=slot-a\nTRIAL_ATTEMPTS=12\n"
    );
}

#[test]
fn text_of_a_stable_state() {
    assert_eq!(
        runtime_state_text(&default_runtime_state()),
        "ACTIVE_SLOT=legacy\nBOOT_STATE=stable\nPENDING_SLOT=\nFALLBACK_SLOT=\nTRIAL_ATTEMPTS=0\n"
    );
}

#[test]
fn empty_content_is_the_default() {
    let expected = state(OtaSlot::Legacy, None, OtaBootState::Stable, 0);
    assert_eq!(default_runtime_state(), expected);
    assert_eq!(parse_runtime_state(""), expected);
    assert_eq!(parse_runtime_state("\n\n"), expected);
}

#[test]
fn comments_and_white_space_do_not_count() {
    let content = "# ACTIVE_SLOT=slot-b\r\n  ACTIVE_SLOT =  slot-a \r\n\tBOOT_STATE= trial\r\nnonsense\n=x\nTRIAL_ATTEMPTS=\t+7\n";
    assert_eq!(
        parse_runtime_state(content),
        state(OtaSlot::SlotA, None, OtaBootState::Trial, 7)
    );
}

#[test]
fn last_line_counts() {
    let content = "ACTIVE_SLOT=slot-a\nFALLBACK_SLOT=slot-a\nACTIVE_SLOT=slot-b\nFALLBACK_SLOT=";
    assert_eq!(
        parse_runtime_state(content),
        state(OtaSlot::SlotB, None, OtaBootState::Stable, 0)
    );
}

#[test]
fn malformed_values_take_the_default() {
    let content = "ACTIVE_SLOT=slot-c\nFALLBACK_SLOT=slot-a=b\nBOOT_STATE=Trial\nTRIAL_ATTEMPTS=256\n";
    assert_eq!(parse_runtime_state(content), default_runtime_state());
}

#[test]
fn a_value_may_hold_an_equals_sign() {
    assert_eq!(
        parse_runtime_state("ACTIVE_SLOT==slot-a\n"),
        default_runtime_state()
    );
}

#[test]
fn reading_the_state_file() {
    let s = state(OtaSlot::SlotA, Some(OtaSlot::Legacy), OtaBootState::Trial, 0);
    assert_eq!(read_runtime_state(Ok(runtime_state_text(&s))), Ok(s));
    assert_eq!(
        read_runtime_state(Err(ReadFailure::NotFound)),
        Ok(default_runtime_state())
    );
    assert_eq!(
        read_runtime_state(Err(ReadFailure::Other("permission denied".to_string()))),
        Err("Failed to read OTA state file: permission denied".to_string())
    );
}
