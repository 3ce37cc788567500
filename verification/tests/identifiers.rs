//! Identifier construction and slot naming.

use vm_state::types::{Slot, Snapshot, State};

#[test]
fn valid_state_names_round_trip() {
    for name in ["web", "db-main", "a", "x.y", "state with spaces", "img_2"] {
        let st = State::new(name).expect("valid name refused");
        assert_eq!(st.name(), name);
    }
}

#[test]
fn invalid_state_names_are_refused() {
    assert_eq!(
        State::new("").unwrap_err(),
        "State name cannot be empty".to_string()
    );
    for name in ["a/b", "a@b", "/", "@", "pool/data", "web@v1"] {
        assert_eq!(
            State::new(name).unwrap_err(),
            "State name cannot contain '/' or '@'".to_string()
        );
    }
}

#[test]
fn valid_snapshot_names_round_trip() {
    for name in ["v1", "before-upgrade", "2024-01-01"] {
        let sn = Snapshot::new(name).expect("valid name refused");
        assert_eq!(sn.name(), name);
    }
}

#[test]
fn invalid_snapshot_names_are_refused() {
    assert_eq!(
        Snapshot::new("").unwrap_err(),
        "Snapshot name cannot be empty".to_string()
    );
    assert_eq!(
        Snapshot::new("a/b").unwrap_err(),
        "Snapshot name cannot contain '/' or '@'".to_string()
    );
    assert_eq!(
        Snapshot::new("a@b").unwrap_err(),
        "Snapshot name cannot contain '/' or '@'".to_string()
    );
}

#[test]
fn state_equality_is_by_name() {
    let a = State::new("web").unwrap();
    let b = State::new("web").unwrap();
    let c = State::new("db").unwrap();
    assert!(a == b);
    assert!(a != c);
    assert_eq!(a.clone().name(), "web");
}

#[test]
fn slot_names_and_addresses() {
    assert_eq!(Slot::Slot1.as_str(), "slot1");
    assert_eq!(Slot::Slot5.as_str(), "slot5");
    assert_eq!(Slot::Slot1.ip(), "10.1.0.2");
    assert_eq!(Slot::Slot2.ip(), "10.2.0.2");
    assert_eq!(Slot::Slot3.ip(), "10.3.0.2");
    assert_eq!(Slot::Slot4.ip(), "10.4.0.2");
    assert_eq!(Slot::Slot5.ip(), "10.5.0.2");
    assert_eq!(Slot::Slot3.service_name(), "microvm@slot3.service");
}

#[test]
fn slot_parsing_ignores_ascii_case() {
    assert_eq!(Slot::from_name("slot1"), Some(Slot::Slot1));
    assert_eq!(Slot::from_name("SLOT2"), Some(Slot::Slot2));
    assert_eq!(Slot::from_name("Slot3"), Some(Slot::Slot3));
    assert_eq!(Slot::from_name("sLoT4"), Some(Slot::Slot4));
    assert_eq!(Slot::from_name("slot5"), Some(Slot::Slot5));
    assert_eq!(Slot::from_name("slot6"), None);
    assert_eq!(Slot::from_name("slot"), None);
    assert_eq!(Slot::from_name(""), None);
    assert_eq!(Slot::from_name("slot11"), None);
}

#[test]
fn all_slots_in_order() {
    let all = Slot::all();
    assert_eq!(
        all,
        vec![Slot::Slot1, Slot::Slot2, Slot::Slot3, Slot::Slot4, Slot::Slot5]
    );
}

#[test]
fn default_state_is_self_named() {
    let st = State::of_slot(Slot::Slot4);
    assert_eq!(st.name(), "slot4");
}
