//! The error taxonomy of the lifecycle controller.
//!
//! Every error is terminal for the operation in which it occurs and carries
//! enough context (entity names, offending command and its diagnostic text)
//! for the caller to act on. I/O and serialization failures of the shell
//! around the library are carried as their rendered text.

use vstd::prelude::*;
use crate::types::{Slot, State};

verus! {

/// Errors that can occur during state and slot lifecycle operations.
#[derive(Debug)]
pub enum Error {
    /// A state with this name already exists.
    StateAlreadyExists(State),
    /// No state with this name exists.
    StateNotFound(State),
    /// The state is currently resolved by a slot and cannot be deleted.
    StateInUse { state: State, slot: Slot },
    /// No snapshot with this name exists on any state.
    SnapshotNotFound(String),
    /// The slot's service is currently running.
    SlotRunning(Slot),
    /// A storage-engine failure, with its diagnostic text.
    Zfs(String),
    /// A service-supervisor failure, with its diagnostic text.
    Systemd(String),
    /// An I/O failure, with its rendered text.
    Io(String),
    /// Malformed persisted data, with the decoder's rendered text.
    Json(String),
    /// An external command exited with failure.
    CommandFailed { command: String, stderr: String },
    /// The controller was constructed without elevated privileges.
    PermissionDenied,
    /// Any other failure, with its rendered text.
    Other(String),
}

} // verus!
