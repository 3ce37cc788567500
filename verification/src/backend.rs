//! The local ZFS backend: its configuration, the naming scheme that maps
//! states and slots to datasets, directories and image paths, and the
//! privilege precondition for constructing it.

use vstd::prelude::*;
use crate::error::Error;
use crate::types::{Slot, SlotInfo, Snapshot, SnapshotInfo, State, StateInfo};

verus! {

/// The management API over a storage backend: queries, state management,
/// snapshots, and slot assignment and control. A runner around the library
/// implements it against the live storage engine and service supervisor.
pub trait VmStateBackend {
    /// List all slots with their assigned states and running status.
    fn list_slots(&self) -> Result<Vec<SlotInfo>, Error>;

    /// List all available states.
    fn list_states(&self) -> Result<Vec<StateInfo>, Error>;

    /// List all snapshots.
    fn list_snapshots(&self) -> Result<Vec<SnapshotInfo>, Error>;

    /// Get the state assigned to a slot.
    fn get_slot_state(&self, slot: Slot) -> Result<State, Error>;

    /// Check if a slot is running.
    fn is_slot_running(&self, slot: Slot) -> Result<bool, Error>;

    /// Check if a state exists.
    fn state_exists(&self, state: &State) -> Result<bool, Error>;

    /// Create a new empty state.
    fn create_state(&self, state: &State) -> Result<(), Error>;

    /// Delete a state (must not be assigned to any slot).
    fn delete_state(&self, state: &State) -> Result<(), Error>;

    /// Clone a state to a new name.
    fn clone_state(&self, source: &State, destination: &State) -> Result<(), Error>;

    /// Create a snapshot of a slot's current state.
    fn snapshot(&self, slot: Slot, snapshot_name: &Snapshot) -> Result<(), Error>;

    /// Restore a snapshot to a new state.
    fn restore_snapshot(&self, snapshot_name: &Snapshot, new_state: &State) -> Result<(), Error>;

    /// Assign a state to a slot (does not restart the slot).
    fn assign(&self, slot: Slot, state: &State) -> Result<(), Error>;

    /// Migrate a state to a slot (stops slot, assigns, starts slot).
    fn migrate(&self, state: &State, slot: Slot) -> Result<(), Error>;

    /// Start a slot.
    fn start_slot(&self, slot: Slot) -> Result<(), Error>;

    /// Stop a slot.
    fn stop_slot(&self, slot: Slot) -> Result<(), Error>;

    /// Restart a slot.
    fn restart_slot(&self, slot: Slot) -> Result<(), Error>;
}

/// Configuration for the local ZFS backend.
#[derive(Debug)]
pub struct LocalZfsConfig {
    /// Path to the states directory.
    pub states_dir: String,
    /// Path to the slot directories.
    pub microvms_dir: String,
    /// Path to the persisted assignments file.
    pub assignments_file: String,
    /// Storage pool name.
    pub zfs_pool: String,
    /// Dataset path under the pool that holds all states.
    pub zfs_dataset: String,
}

/// The mathematical content of a [`LocalZfsConfig`].
pub struct LocalZfsConfigV {
    pub states_dir: Seq<char>,
    pub microvms_dir: Seq<char>,
    pub assignments_file: Seq<char>,
    pub zfs_pool: Seq<char>,
    pub zfs_dataset: Seq<char>,
}

impl View for LocalZfsConfig {
    type V = LocalZfsConfigV;

    open spec fn view(&self) -> LocalZfsConfigV {
        LocalZfsConfigV {
            states_dir: self.states_dir@,
            microvms_dir: self.microvms_dir@,
            assignments_file: self.assignments_file@,
            zfs_pool: self.zfs_pool@,
            zfs_dataset: self.zfs_dataset@,
        }
    }
}

impl Clone for LocalZfsConfig {
    fn clone(&self) -> (r: Self)
        ensures
            r@ == self@,
    {
        LocalZfsConfig {
            states_dir: self.states_dir.clone(),
            microvms_dir: self.microvms_dir.clone(),
            assignments_file: self.assignments_file.clone(),
            zfs_pool: self.zfs_pool.clone(),
            zfs_dataset: self.zfs_dataset.clone(),
        }
    }
}

impl Default for LocalZfsConfig {
    /// The reference deployment's paths and pool layout.
    fn default() -> (r: Self)
        ensures
            r@.states_dir == "/var/lib/microvms/states"@,
            r@.microvms_dir == "/var/lib/microvms"@,
            r@.assignments_file == "/etc/vm-state-assignments.json"@,
            r@.zfs_pool == "microvms"@,
            r@.zfs_dataset == "storage/states"@,
    {
        LocalZfsConfig {
            states_dir: String::from_str("/var/lib/microvms/states"),
            microvms_dir: String::from_str("/var/lib/microvms"),
            assignments_file: String::from_str("/etc/vm-state-assignments.json"),
            zfs_pool: String::from_str("microvms"),
            zfs_dataset: String::from_str("storage/states"),
        }
    }
}

/// Whether the process runs with the superuser's effective user id.
///
/// Relies on nix::unistd::geteuid, which reads the effective user id, and
/// nix::unistd::Uid::is_root, which compares it against the superuser's.
/// The result depends on the process environment, so nothing is promised
/// of it.
#[verifier::external_body]
fn effective_uid_is_root() -> bool {
    nix::unistd::geteuid().is_root()
}

/// The local ZFS backend: plans dataset, filesystem and service actions
/// for the lifecycle operations under its configured naming scheme.
#[derive(Debug)]
pub struct LocalZfsBackend {
    /// The backend's paths and pool layout.
    pub config: LocalZfsConfig,
}

impl LocalZfsBackend {
    /// Create a backend with default configuration. Requires elevated
    /// privileges; fails with a permission error otherwise, before any
    /// external command is issued.
    pub fn new() -> (r: Result<Self, Error>)
        ensures
            r matches Ok(b) ==> b.config@.states_dir == "/var/lib/microvms/states"@
                && b.config@.microvms_dir == "/var/lib/microvms"@ && b.config@.assignments_file
                == "/etc/vm-state-assignments.json"@ && b.config@.zfs_pool == "microvms"@
                && b.config@.zfs_dataset == "storage/states"@,
            r matches Err(e) ==> e is PermissionDenied,
    {
        Self::with_config(LocalZfsConfig::default())
    }

    /// Create a backend with the given configuration. Requires elevated
    /// privileges; fails with a permission error otherwise, before any
    /// external command is issued.
    pub fn with_config(config: LocalZfsConfig) -> (r: Result<Self, Error>)
        ensures
            r matches Ok(b) ==> b.config@ == config@,
            r matches Err(e) ==> e is PermissionDenied,
    {
        let privileged = effective_uid_is_root();
        Self::with_config_checked(config, privileged)
    }

    /// Create a backend with the given configuration and an explicit
    /// privilege flag: succeeds exactly when the flag is set.
    pub fn with_config_checked(config: LocalZfsConfig, privileged: bool) -> (r: Result<Self, Error>)
        ensures
            r is Ok <==> privileged,
            r matches Ok(b) ==> b.config@ == config@,
            r matches Err(e) ==> e is PermissionDenied,
    {
        if !privileged {
            return Err(Error::PermissionDenied);
        }
        Ok(LocalZfsBackend { config })
    }

    /// The dataset that holds all states: `<pool>/<dataset path>`.
    pub open spec fn base_dataset_spec(&self) -> Seq<char> {
        self.config@.zfs_pool + "/"@ + self.config@.zfs_dataset
    }

    /// Get the base dataset path (parent of all states).
    pub fn base_dataset(&self) -> (r: String)
        ensures
            r@ == self.base_dataset_spec(),
    {
        let mut r = self.config.zfs_pool.clone();
        r.append("/");
        r.append(self.config.zfs_dataset.as_str());
        proof {
            assert(r@ =~= self.base_dataset_spec());
        }
        r
    }

    /// The dataset of a state: `<pool>/<dataset path>/<state name>`.
    pub open spec fn dataset_path_spec(&self, name: Seq<char>) -> Seq<char> {
        self.base_dataset_spec() + "/"@ + name
    }

    /// Get the full dataset path for a state.
    pub fn dataset_path(&self, state: &State) -> (r: String)
        ensures
            r@ == self.dataset_path_spec(state@),
    {
        let mut r = self.base_dataset();
        r.append("/");
        r.append(state.name());
        proof {
            assert(r@ =~= self.dataset_path_spec(state@));
        }
        r
    }

    /// The mount directory of a state: `<states dir>/<state name>`.
    pub open spec fn state_dir_spec(&self, name: Seq<char>) -> Seq<char> {
        self.config@.states_dir + "/"@ + name
    }

    /// Get the state directory path.
    pub fn state_dir(&self, state: &State) -> (r: String)
        ensures
            r@ == self.state_dir_spec(state@),
    {
        let mut r = self.config.states_dir.clone();
        r.append("/");
        r.append(state.name());
        proof {
            assert(r@ =~= self.state_dir_spec(state@));
        }
        r
    }

    /// The directory of a slot: `<microvms dir>/<slot>`.
    pub open spec fn slot_dir_spec(&self, slot: Slot) -> Seq<char> {
        self.config@.microvms_dir + "/"@ + slot.name_spec()
    }

    /// Get the slot directory path.
    pub fn slot_dir(&self, slot: Slot) -> (r: String)
        ensures
            r@ == self.slot_dir_spec(slot),
    {
        let mut r = self.config.microvms_dir.clone();
        r.append("/");
        r.append(slot.as_str());
        proof {
            assert(r@ =~= self.slot_dir_spec(slot));
        }
        r
    }

    /// The disk image path of a slot: `<slot dir>/data.img`.
    pub open spec fn slot_data_img_spec(&self, slot: Slot) -> Seq<char> {
        self.slot_dir_spec(slot) + "/data.img"@
    }

    /// Get the disk image path for a slot.
    pub fn slot_data_img(&self, slot: Slot) -> (r: String)
        ensures
            r@ == self.slot_data_img_spec(slot),
    {
        let mut r = self.slot_dir(slot);
        r.append("/data.img");
        proof {
            assert(r@ =~= self.slot_data_img_spec(slot));
        }
        r
    }

    /// The disk image path of a state: `<state dir>/data.img`.
    pub open spec fn state_data_img_spec(&self, name: Seq<char>) -> Seq<char> {
        self.state_dir_spec(name) + "/data.img"@
    }

    /// Get the disk image path for a state.
    pub fn state_data_img(&self, state: &State) -> (r: String)
        ensures
            r@ == self.state_data_img_spec(state@),
    {
        let mut r = self.state_dir(state);
        r.append("/data.img");
        proof {
            assert(r@ =~= self.state_data_img_spec(state@));
        }
        r
    }

    /// The composite key of a snapshot: `<dataset of state>@<snapshot>`.
    pub open spec fn snapshot_key_spec(&self, name: Seq<char>, snap: Seq<char>) -> Seq<char> {
        self.dataset_path_spec(name) + "@"@ + snap
    }

    /// Get the composite key addressing a snapshot of a state.
    pub fn snapshot_key(&self, state: &State, snap_name: &str) -> (r: String)
        ensures
            r@ == self.snapshot_key_spec(state@, snap_name@),
    {
        let mut r = self.dataset_path(state);
        r.append("@");
        r.append(snap_name);
        proof {
            assert(r@ =~= self.snapshot_key_spec(state@, snap_name@));
        }
        r
    }

    /// The name of the throwaway snapshot a clone is taken from:
    /// `clone-for-<destination>`.
    pub open spec fn clone_marker_spec(dst: Seq<char>) -> Seq<char> {
        "clone-for-"@ + dst
    }

    /// Get the throwaway snapshot name used to clone into a destination.
    pub fn clone_marker(dst: &State) -> (r: String)
        ensures
            r@ == Self::clone_marker_spec(dst@),
    {
        let mut r = String::from_str("clone-for-");
        r.append(dst.name());
        r
    }
}

} // verus!
