//! Lifecycle controller scenarios over an observed system view.

use vm_state::backend::{LocalZfsBackend, LocalZfsConfig};
use vm_state::controller::{Action, ImageStatus, SystemView};
use vm_state::error::Error;
use vm_state::types::{Slot, Snapshot, State};

fn backend() -> LocalZfsBackend {
    LocalZfsBackend::with_config_checked(LocalZfsConfig::default(), true).unwrap()
}

#[test]
fn construction_without_privileges_is_refused() {
    let r = LocalZfsBackend::with_config_checked(LocalZfsConfig::default(), false);
    assert!(matches!(r, Err(Error::PermissionDenied)));
}

#[test]
fn default_configuration_paths() {
    let b = backend();
    let web = State::new("web").unwrap();
    assert_eq!(b.base_dataset(), "microvms/storage/states");
    assert_eq!(b.dataset_path(&web), "microvms/storage/states/web");
    assert_eq!(b.state_dir(&web), "/var/lib/microvms/states/web");
    assert_eq!(b.slot_dir(Slot::Slot2), "/var/lib/microvms/slot2");
    assert_eq!(b.slot_data_img(Slot::Slot2), "/var/lib/microvms/slot2/data.img");
    assert_eq!(b.state_data_img(&web), "/var/lib/microvms/states/web/data.img");
}

#[test]
fn slots_default_to_self_named_states() {
    // the scenario: before any assignment file exists, slot1 resolves to a
    // state named slot1
    let sys = SystemView::new();
    assert_eq!(sys.get_slot_state(Slot::Slot1).name(), "slot1");
    assert_eq!(sys.get_slot_state(Slot::Slot5).name(), "slot5");
    let infos = sys.list_slots();
    assert_eq!(infos.len(), 5);
    assert_eq!(infos[0].assigned_state.name(), "slot1");
    assert!(!infos[0].running);
}

#[test]
fn create_twice_fails_with_already_exists() {
    let b = backend();
    let mut sys = SystemView::new();
    let web = State::new("web").unwrap();
    let plan = b.create_state(&mut sys, &web).expect("first create refused");
    assert_eq!(plan.len(), 2);
    match &plan[0] {
        Action::ZfsCreate { dataset, mountpoint } => {
            assert_eq!(dataset, "microvms/storage/states/web");
            assert_eq!(mountpoint, "/var/lib/microvms/states/web");
        },
        other => panic!("unexpected action {:?}", other),
    }
    match &plan[1] {
        Action::SetOwnership { path } => assert_eq!(path, "/var/lib/microvms/states/web"),
        other => panic!("unexpected action {:?}", other),
    }
    let again = b.create_state(&mut sys, &web);
    match again {
        Err(Error::StateAlreadyExists(st)) => assert_eq!(st.name(), "web"),
        other => panic!("expected StateAlreadyExists, got {:?}", other),
    }
}

#[test]
fn delete_without_create_fails_with_not_found() {
    let b = backend();
    let mut sys = SystemView::new();
    let web = State::new("web").unwrap();
    match b.delete_state(&mut sys, &web) {
        Err(Error::StateNotFound(st)) => assert_eq!(st.name(), "web"),
        other => panic!("expected StateNotFound, got {:?}", other),
    }
}

#[test]
fn assign_updates_resolution_until_the_next_assign() {
    let b = backend();
    let mut sys = SystemView::new();
    let web = State::new("web").unwrap();
    let db = State::new("db").unwrap();
    b.assign(&mut sys, Slot::Slot2, &web, ImageStatus::Missing);
    assert_eq!(sys.get_slot_state(Slot::Slot2).name(), "web");
    // queries and other operations keep the resolution
    let _ = b.create_state(&mut sys, &db);
    let _ = b.snapshot(&mut sys, Slot::Slot2, &Snapshot::new("v1").unwrap());
    assert_eq!(sys.get_slot_state(Slot::Slot2).name(), "web");
    // the next assign replaces it
    b.assign(&mut sys, Slot::Slot2, &db, ImageStatus::SymbolicLink);
    assert_eq!(sys.get_slot_state(Slot::Slot2).name(), "db");
    // other slots are untouched
    assert_eq!(sys.get_slot_state(Slot::Slot1).name(), "slot1");
}

#[test]
fn assign_plan_rebinds_the_image() {
    let b = backend();
    let mut sys = SystemView::new();
    let web = State::new("web").unwrap();
    let plan = b.assign(&mut sys, Slot::Slot1, &web, ImageStatus::RegularFile);
    // create (2) + save + dir (2) + rename aside + symlink
    assert_eq!(plan.len(), 7);
    assert!(matches!(&plan[2], Action::SaveAssignments));
    match &plan[5] {
        Action::RenameFile { from, to } => {
            assert_eq!(from, "/var/lib/microvms/slot1/data.img");
            assert_eq!(to, "/var/lib/microvms/slot1/data.img.backup");
        },
        other => panic!("unexpected action {:?}", other),
    }
    match &plan[6] {
        Action::Symlink { target, link } => {
            assert_eq!(target, "/var/lib/microvms/states/web/data.img");
            assert_eq!(link, "/var/lib/microvms/slot1/data.img");
        },
        other => panic!("unexpected action {:?}", other),
    }
}

#[test]
fn delete_fails_while_in_use_and_succeeds_after() {
    let b = backend();
    let mut sys = SystemView::new();
    let web = State::new("web").unwrap();
    b.create_state(&mut sys, &web).unwrap();
    b.assign(&mut sys, Slot::Slot3, &web, ImageStatus::Missing);
    b.snapshot(&mut sys, Slot::Slot3, &Snapshot::new("v1").unwrap()).unwrap();
    match b.delete_state(&mut sys, &web) {
        Err(Error::StateInUse { state, slot }) => {
            assert_eq!(state.name(), "web");
            assert_eq!(slot, Slot::Slot3);
        },
        other => panic!("expected StateInUse, got {:?}", other),
    }
    // rebind the slot elsewhere; the delete then removes the state and its
    // snapshots
    let db = State::new("db").unwrap();
    b.assign(&mut sys, Slot::Slot3, &db, ImageStatus::SymbolicLink);
    let plan = b.delete_state(&mut sys, &web).expect("delete still refused");
    assert_eq!(plan.len(), 2);
    match &plan[0] {
        Action::ZfsDestroy { target } => {
            assert_eq!(target, "microvms/storage/states/web@v1")
        },
        other => panic!("unexpected action {:?}", other),
    }
    match &plan[1] {
        Action::ZfsDestroy { target } => assert_eq!(target, "microvms/storage/states/web"),
        other => panic!("unexpected action {:?}", other),
    }
    assert!(!sys.state_exists(&web));
    match b.delete_state(&mut sys, &web) {
        Err(Error::StateNotFound(_)) => {},
        other => panic!("expected StateNotFound, got {:?}", other),
    }
}

#[test]
fn clone_requires_source_and_fresh_destination() {
    let b = backend();
    let mut sys = SystemView::new();
    let web = State::new("web").unwrap();
    let copy = State::new("copy").unwrap();
    match b.clone_state(&mut sys, &web, &copy) {
        Err(Error::StateNotFound(st)) => assert_eq!(st.name(), "web"),
        other => panic!("expected StateNotFound, got {:?}", other),
    }
    b.create_state(&mut sys, &web).unwrap();
    let plan = b.clone_state(&mut sys, &web, &copy).expect("clone refused");
    assert_eq!(plan.len(), 4);
    match &plan[0] {
        Action::ZfsSnapshot { target } => {
            assert_eq!(target, "microvms/storage/states/web@clone-for-copy")
        },
        other => panic!("unexpected action {:?}", other),
    }
    match &plan[1] {
        Action::ZfsClone { snapshot, dataset, mountpoint } => {
            assert_eq!(snapshot, "microvms/storage/states/web@clone-for-copy");
            assert_eq!(dataset, "microvms/storage/states/copy");
            assert_eq!(mountpoint, "/var/lib/microvms/states/copy");
        },
        other => panic!("unexpected action {:?}", other),
    }
    match &plan[2] {
        Action::ZfsPromote { dataset } => assert_eq!(dataset, "microvms/storage/states/copy"),
        other => panic!("unexpected action {:?}", other),
    }
    match b.clone_state(&mut sys, &web, &copy) {
        Err(Error::StateAlreadyExists(st)) => assert_eq!(st.name(), "copy"),
        other => panic!("expected StateAlreadyExists, got {:?}", other),
    }
    // the promoted clone is independent: deleting the source afterwards
    // works and leaves the copy
    b.delete_state(&mut sys, &web).expect("source undeletable after clone");
    assert!(sys.state_exists(&copy));
    assert!(!sys.state_exists(&web));
}

#[test]
fn snapshot_names_the_resolved_state() {
    let b = backend();
    let mut sys = SystemView::new();
    let web = State::new("web").unwrap();
    b.create_state(&mut sys, &web).unwrap();
    b.assign(&mut sys, Slot::Slot1, &web, ImageStatus::Missing);
    let plan = b.snapshot(&mut sys, Slot::Slot1, &Snapshot::new("v1").unwrap()).unwrap();
    assert_eq!(plan.len(), 1);
    match &plan[0] {
        Action::ZfsSnapshot { target } => {
            assert_eq!(target, "microvms/storage/states/web@v1")
        },
        other => panic!("unexpected action {:?}", other),
    }
    // a slot resolving to a missing state cannot be snapshotted
    match b.snapshot(&mut sys, Slot::Slot4, &Snapshot::new("v1").unwrap()) {
        Err(Error::StateNotFound(st)) => assert_eq!(st.name(), "slot4"),
        other => panic!("expected StateNotFound, got {:?}", other),
    }
}

#[test]
fn restore_requires_the_snapshot_and_a_fresh_state() {
    let b = backend();
    let mut sys = SystemView::new();
    let web = State::new("web").unwrap();
    let snap = Snapshot::new("v1").unwrap();
    let restored = State::new("restored").unwrap();
    match b.restore_snapshot(&mut sys, &snap, &restored) {
        Err(Error::SnapshotNotFound(name)) => assert_eq!(name, "v1"),
        other => panic!("expected SnapshotNotFound, got {:?}", other),
    }
    b.create_state(&mut sys, &web).unwrap();
    b.assign(&mut sys, Slot::Slot1, &web, ImageStatus::Missing);
    b.snapshot(&mut sys, Slot::Slot1, &snap).unwrap();
    match b.restore_snapshot(&mut sys, &snap, &web) {
        Err(Error::StateAlreadyExists(st)) => assert_eq!(st.name(), "web"),
        other => panic!("expected StateAlreadyExists, got {:?}", other),
    }
    let plan = b.restore_snapshot(&mut sys, &snap, &restored).expect("restore refused");
    assert_eq!(plan.len(), 3);
    match &plan[0] {
        Action::ZfsClone { snapshot, dataset, mountpoint } => {
            assert_eq!(snapshot, "microvms/storage/states/web@v1");
            assert_eq!(dataset, "microvms/storage/states/restored");
            assert_eq!(mountpoint, "/var/lib/microvms/states/restored");
        },
        other => panic!("unexpected action {:?}", other),
    }
    assert!(sys.state_exists(&restored));
}

#[test]
fn migrate_stops_rebinds_and_restarts() {
    // the scenario: migrating a state to a running slot stops it, rebinds,
    // and starts it again; afterwards the slot resolves to the state and
    // runs
    let b = backend();
    let mut sys = SystemView::new();
    let web = State::new("web").unwrap();
    b.create_state(&mut sys, &web).unwrap();
    let start_plan = b.start_slot(&mut sys, Slot::Slot2);
    assert!(matches!(&start_plan[0], Action::ServiceStart(Slot::Slot2)));
    assert!(sys.is_slot_running(Slot::Slot2));
    let plan = b.migrate(&mut sys, &web, Slot::Slot2, ImageStatus::SymbolicLink);
    assert!(matches!(&plan[0], Action::ServiceStop(Slot::Slot2)));
    assert!(matches!(&plan[1], Action::SettleWait));
    assert!(matches!(&plan[plan.len() - 1], Action::ServiceStart(Slot::Slot2)));
    assert_eq!(sys.get_slot_state(Slot::Slot2).name(), "web");
    assert!(sys.is_slot_running(Slot::Slot2));
}

#[test]
fn migrate_of_a_stopped_slot_does_not_stop_first() {
    let b = backend();
    let mut sys = SystemView::new();
    let web = State::new("web").unwrap();
    let plan = b.migrate(&mut sys, &web, Slot::Slot5, ImageStatus::Missing);
    assert!(!matches!(&plan[0], Action::ServiceStop(_)));
    assert!(matches!(&plan[plan.len() - 1], Action::ServiceStart(Slot::Slot5)));
    assert!(sys.is_slot_running(Slot::Slot5));
    assert_eq!(sys.get_slot_state(Slot::Slot5).name(), "web");
    assert!(sys.state_exists(&web));
}

#[test]
fn stop_marks_the_slot_stopped() {
    let b = backend();
    let mut sys = SystemView::new();
    b.start_slot(&mut sys, Slot::Slot1);
    assert!(sys.is_slot_running(Slot::Slot1));
    let plan = b.stop_slot(&mut sys, Slot::Slot1);
    assert!(matches!(&plan[0], Action::ServiceStop(Slot::Slot1)));
    assert!(!sys.is_slot_running(Slot::Slot1));
}
