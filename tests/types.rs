use jogre::common::{Id, UnsignedInt};
use jogre::events::{Event, StateChange};
use jogre::object::{default_is_ascending, ObjectState};

#[test]
fn state_change_carries_its_type_name() {
    let change = StateChange {
        changed: vec![(Id("a1".to_string()), vec![("Mailbox".to_string(), ObjectState("s9".to_string()))])],
    };
    let built = change.into_event();
    assert_eq!(built.type_, "StateChange");
    assert_eq!(built.inner.changed.len(), 1);
    assert_eq!(built.inner.changed[0].1[0].1, ObjectState("s9".to_string()));
}

#[test]
fn comparators_sort_ascending_by_default() {
    assert!(default_is_ascending());
}

#[test]
fn unsigned_int_from_u64() {
    assert_eq!(UnsignedInt::from(7u64), UnsignedInt(7));
}
