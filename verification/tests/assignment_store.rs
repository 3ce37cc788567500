//! The assignment table's resolution and binding rules.

use vm_state::assignments::AssignmentTable;
use vm_state::types::{Slot, State};

#[test]
fn unbound_slots_resolve_to_their_own_name() {
    let t = AssignmentTable::new();
    assert_eq!(t.resolve(Slot::Slot1).name(), "slot1");
    assert_eq!(t.resolve(Slot::Slot2).name(), "slot2");
    assert_eq!(t.resolve(Slot::Slot3).name(), "slot3");
    assert_eq!(t.resolve(Slot::Slot4).name(), "slot4");
    assert_eq!(t.resolve(Slot::Slot5).name(), "slot5");
}

#[test]
fn binding_replaces_and_leaves_others() {
    let mut t = AssignmentTable::new();
    let web = State::new("web").unwrap();
    let db = State::new("db").unwrap();
    t.bind(Slot::Slot2, &web);
    assert_eq!(t.resolve(Slot::Slot2).name(), "web");
    assert_eq!(t.resolve(Slot::Slot1).name(), "slot1");
    t.bind(Slot::Slot2, &db);
    assert_eq!(t.resolve(Slot::Slot2).name(), "db");
}

#[test]
fn all_resolved_covers_every_slot_in_order() {
    let mut t = AssignmentTable::new();
    let web = State::new("web").unwrap();
    t.bind(Slot::Slot4, &web);
    let all = t.all_resolved();
    assert_eq!(all.len(), 5);
    assert_eq!(all[0].0, Slot::Slot1);
    assert_eq!(all[0].1.name(), "slot1");
    assert_eq!(all[3].0, Slot::Slot4);
    assert_eq!(all[3].1.name(), "web");
    assert_eq!(all[4].1.name(), "slot5");
}

#[test]
fn from_pairs_takes_the_last_binding_per_slot() {
    let web = State::new("web").unwrap();
    let db = State::new("db").unwrap();
    let pairs = vec![
        (Slot::Slot1, web.clone()),
        (Slot::Slot2, db.clone()),
        (Slot::Slot1, db.clone()),
    ];
    let t = AssignmentTable::from_pairs(&pairs);
    assert_eq!(t.resolve(Slot::Slot1).name(), "db");
    assert_eq!(t.resolve(Slot::Slot2).name(), "db");
    assert_eq!(t.resolve(Slot::Slot3).name(), "slot3");
}

#[test]
fn explicit_bindings_round_trip() {
    let mut t = AssignmentTable::new();
    let web = State::new("web").unwrap();
    let db = State::new("db").unwrap();
    t.bind(Slot::Slot1, &web);
    t.bind(Slot::Slot5, &db);
    let saved = t.bound();
    assert_eq!(saved.len(), 2);
    let rebuilt = AssignmentTable::from_pairs(&saved);
    for slot in Slot::all() {
        assert_eq!(rebuilt.resolve(slot).name(), t.resolve(slot).name());
    }
}
