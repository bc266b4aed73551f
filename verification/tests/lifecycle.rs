use tls_cell::lifecycle::slot_action;
use tls_cell::lifecycle::SlotAction;

#[test]
fn first_touch_initializes() {
    assert_eq!(slot_action(false), SlotAction::Initialize);
}

#[test]
fn later_touches_reuse_the_slot() {
    assert_eq!(slot_action(true), SlotAction::Reuse);
}
