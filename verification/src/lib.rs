//! Lifecycle controller for virtual-machine execution slots bound to
//! snapshot-able, copy-on-write storage states.
//!
//! The library is the verified core: identifier types, the slot-to-state
//! assignment table, the parsers for the storage engine's tabular output,
//! and the lifecycle controller that turns an observed system view plus an
//! operation into an exact sequence of engine actions together with the
//! abstract effect of those actions. A thin unverified shell executes the
//! actions against the real storage engine and service supervisor.

pub mod assignments;
pub mod backend;
pub mod controller;
pub mod error;
pub mod laws;
pub mod listing;
pub mod size;
pub mod types;

pub use backend::{LocalZfsBackend, LocalZfsConfig, VmStateBackend};
pub use error::Error;
pub use types::{Slot, SlotInfo, Snapshot, SnapshotInfo, State, StateInfo};
