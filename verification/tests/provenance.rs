use slipcase_desktop::provenance::{
    arrived_from_elsewhere, carries_a_mark, carry, this_application_wrote, Mark,
};

const FROM_SAFARI: &[u8] = b"0083;6a8dbb61;Safari;B8AC643B-5609-41D4-A666-ACC147704C79";
const FROM_US: &[u8] = b"0082;6a8dc724;slipcase-desktop;";

#[test]
fn a_copy_the_platform_marked_first_is_not_a_failure() {
    let refused: Result<Mark, String> = Err("not permitted".to_owned());
    assert_eq!(carry(refused, true), Ok(Mark::AlreadyMarked));
}

#[test]
fn a_copy_with_no_mark_at_all_is_still_a_failure() {
    let refused: Result<Mark, String> = Err("not permitted".to_owned());
    assert_eq!(carry(refused, false), Err("not permitted".to_owned()));
}

#[test]
fn what_was_carried_is_reported_as_it_was() {
    for mark in [Mark::Carried, Mark::Noted, Mark::Silent] {
        for marked in [false, true] {
            assert_eq!(carry(Ok::<Mark, String>(mark), marked), Ok(mark));
        }
    }
}

#[test]
fn a_mark_this_application_wrote_is_not_provenance() {
    let us: &[u8] = b"slipcase-desktop";
    assert!(this_application_wrote(FROM_US, Some(us)));
    assert!(!arrived_from_elsewhere(Some(FROM_US), Some(us)));
}

#[test]
fn a_mark_anything_else_wrote_still_is() {
    let us: &[u8] = b"slipcase-desktop";
    assert!(!this_application_wrote(FROM_SAFARI, Some(us)));
    assert!(arrived_from_elsewhere(Some(FROM_SAFARI), Some(us)));
}

#[test]
fn a_mark_that_cannot_be_read_is_reported() {
    let us: &[u8] = b"slipcase-desktop";
    assert!(arrived_from_elsewhere(Some(b"0082"), Some(us)));
    assert!(arrived_from_elsewhere(Some(b"0082;6a8dc724"), Some(us)));
    assert!(arrived_from_elsewhere(Some(FROM_US), None));
}

#[test]
fn the_agent_is_the_third_field_and_only_that() {
    let us: &[u8] = b"slipcase-desktop";
    assert!(this_application_wrote(b"0082;6a8dc724;slipcase-desktop", Some(us)));
    assert!(!this_application_wrote(b"0082;6a8dc724;slipcase-desktop-x;", Some(us)));
    assert!(!this_application_wrote(b"slipcase-desktop;;;", Some(us)));
    assert!(this_application_wrote(b";;", Some(b"")));
}

#[test]
fn no_mark_is_no_provenance_and_gates_nothing() {
    let us: &[u8] = b"slipcase-desktop";
    assert!(!arrived_from_elsewhere(None, Some(us)));
    assert!(!carries_a_mark(None));
    assert!(carries_a_mark(Some(FROM_US)));
}
