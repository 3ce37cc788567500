//! The lifecycle controller.
//!
//! Every operation works on an observed view of the system — which states
//! and snapshots the storage engine reports, the assignment table, and
//! which slots run — and yields the exact sequence of engine, filesystem
//! and service actions to perform, while advancing the view to the state
//! the actions produce when they all succeed. The shell around the library
//! gathers the view by querying the live system, runs the planned actions
//! in order, and stops at the first failure; the view is rebuilt from live
//! queries before every operation, so nothing here is a cache.

use vstd::prelude::*;
use crate::assignments::{resolve_in, AssignmentTable};
use crate::backend::LocalZfsBackend;
use crate::error::Error;
use crate::listing::snapshot_info_views;
use crate::types::{Slot, SlotInfo, Snapshot, SnapshotInfo, SnapshotInfoV, State};

verus! {

/// One action against the storage engine, the filesystem, the persisted
/// assignments, or the service supervisor.
#[derive(Debug)]
pub enum Action {
    /// Create a dataset mounted at the given directory.
    ZfsCreate { dataset: String, mountpoint: String },
    /// Destroy a dataset or a snapshot named by its composite key.
    ZfsDestroy { target: String },
    /// Take the snapshot named by the composite key.
    ZfsSnapshot { target: String },
    /// Clone the snapshot into a new dataset mounted at the directory.
    ZfsClone { snapshot: String, dataset: String, mountpoint: String },
    /// Promote a cloned dataset out of its origin's snapshot lineage.
    ZfsPromote { dataset: String },
    /// Give a state directory the service user's ownership and mode.
    SetOwnership { path: String },
    /// Give a slot directory the service user's ownership.
    OwnDir { path: String },
    /// Create the directory and its parents if missing.
    EnsureDir { path: String },
    /// Remove a file.
    RemoveFile { path: String },
    /// Rename a file aside, never deleting it.
    RenameFile { from: String, to: String },
    /// Install a symbolic link at `link` pointing to `target`.
    Symlink { target: String, link: String },
    /// Persist the assignment table in full.
    SaveAssignments,
    /// Start the slot's service unit.
    ServiceStart(Slot),
    /// Stop the slot's service unit.
    ServiceStop(Slot),
    /// Restart the slot's service unit.
    ServiceRestart(Slot),
    /// Wait the fixed settle interval after stopping a slot, a heuristic
    /// delay for the previous VM process to release its storage handles.
    SettleWait,
}

/// What the slot's disk image path currently holds, as observed by the
/// shell before planning an assignment.
#[derive(Clone, Copy, PartialEq, Eq, Structural, Debug)]
pub enum ImageStatus {
    /// The path is a symbolic link (an earlier assignment's indirection).
    SymbolicLink,
    /// The path is a directly stored image, not yet captured in a state.
    RegularFile,
    /// Nothing is at the path.
    Missing,
}

/// The observed state of the system an operation works on.
#[derive(Debug)]
pub struct SystemView {
    /// The states the storage engine reports, in listing order.
    pub states: Vec<State>,
    /// The snapshots the storage engine reports, in listing order.
    pub snapshots: Vec<SnapshotInfo>,
    /// The assignment table.
    pub assignments: AssignmentTable,
    /// The slots whose service currently runs.
    pub running: Vec<Slot>,
}

/// The mathematical content of a [`SystemView`]: state names, snapshot
/// pairs of owning state and snapshot name, the binding map, and the
/// running slots.
#[verifier::ext_equal]
pub struct SysV {
    pub states: Seq<Seq<char>>,
    pub snaps: Seq<(Seq<char>, Seq<char>)>,
    pub assign: Map<Slot, Seq<char>>,
    pub running: Seq<Slot>,
}

/// The pairs of owning state and snapshot name of a snapshot listing.
pub open spec fn snap_pairs(v: Seq<SnapshotInfoV>) -> Seq<(Seq<char>, Seq<char>)> {
    v.map_values(|si: SnapshotInfoV| (si.state, si.snapshot))
}

impl View for SystemView {
    type V = SysV;

    open spec fn view(&self) -> SysV {
        SysV {
            states: self.states@.map_values(|st: State| st@),
            snaps: snap_pairs(snapshot_info_views(self.snapshots@)),
            assign: self.assignments@,
            running: self.running@,
        }
    }
}

/// Whether a state of this name exists.
pub open spec fn has_state(v: SysV, s: Seq<char>) -> bool {
    v.states.contains(s)
}

/// Whether the slot's service runs.
pub open spec fn slot_running(v: SysV, slot: Slot) -> bool {
    v.running.contains(slot)
}

/// The first slot in canonical order that resolves to the state, if any.
pub open spec fn first_user(v: SysV, s: Seq<char>) -> Option<Slot> {
    if resolve_in(v.assign, Slot::Slot1) == s {
        Some(Slot::Slot1)
    } else if resolve_in(v.assign, Slot::Slot2) == s {
        Some(Slot::Slot2)
    } else if resolve_in(v.assign, Slot::Slot3) == s {
        Some(Slot::Slot3)
    } else if resolve_in(v.assign, Slot::Slot4) == s {
        Some(Slot::Slot4)
    } else if resolve_in(v.assign, Slot::Slot5) == s {
        Some(Slot::Slot5)
    } else {
        None
    }
}

/// Creating a state is allowed exactly when no state of that name exists.
pub open spec fn create_ok(v: SysV, s: Seq<char>) -> bool {
    !has_state(v, s)
}

/// After creating a state, it exists; nothing else changes.
pub open spec fn create_next(v: SysV, s: Seq<char>) -> SysV {
    SysV { states: v.states.push(s), ..v }
}

/// The state names with one name removed.
pub open spec fn names_without(names: Seq<Seq<char>>, s: Seq<char>) -> Seq<Seq<char>>
    decreases names.len(),
{
    if names.len() == 0 {
        Seq::<Seq<char>>::empty()
    } else {
        let rest = names_without(names.drop_last(), s);
        if names.last() == s {
            rest
        } else {
            rest.push(names.last())
        }
    }
}

/// The snapshot pairs with every snapshot of one state removed.
pub open spec fn pairs_without(ps: Seq<(Seq<char>, Seq<char>)>, s: Seq<char>) -> Seq<
    (Seq<char>, Seq<char>),
>
    decreases ps.len(),
{
    if ps.len() == 0 {
        Seq::<(Seq<char>, Seq<char>)>::empty()
    } else {
        let rest = pairs_without(ps.drop_last(), s);
        if ps.last().0 == s {
            rest
        } else {
            rest.push(ps.last())
        }
    }
}

/// The composite keys of the snapshots of one state, in listing order:
/// what deleting the state destroys before the state itself.
pub open spec fn destroy_targets(snaps: Seq<SnapshotInfoV>, s: Seq<char>) -> Seq<Seq<char>>
    decreases snaps.len(),
{
    if snaps.len() == 0 {
        Seq::<Seq<char>>::empty()
    } else {
        let rest = destroy_targets(snaps.drop_last(), s);
        if snaps.last().state == s {
            rest.push(snaps.last().full_name)
        } else {
            rest
        }
    }
}

/// Deleting a state is allowed exactly when it exists and no slot
/// currently resolves to it.
pub open spec fn delete_ok(v: SysV, s: Seq<char>) -> bool {
    has_state(v, s) && first_user(v, s) is None
}

/// After deleting a state, it and all its snapshots are gone; nothing
/// else changes.
pub open spec fn delete_next(v: SysV, s: Seq<char>) -> SysV {
    SysV { states: names_without(v.states, s), snaps: pairs_without(v.snaps, s), ..v }
}

/// Cloning is allowed exactly when the source exists and the destination
/// does not.
pub open spec fn clone_ok(v: SysV, src: Seq<char>, dst: Seq<char>) -> bool {
    has_state(v, src) && !has_state(v, dst)
}

/// After cloning, the destination exists as a state of its own; the
/// throwaway snapshot the clone was taken from belongs to the promoted
/// clone's lineage and is not part of the snapshot catalogue.
pub open spec fn clone_next(v: SysV, dst: Seq<char>) -> SysV {
    SysV { states: v.states.push(dst), ..v }
}

/// Snapshotting a slot is allowed exactly when its resolved state exists.
pub open spec fn snapshot_ok(v: SysV, slot: Slot) -> bool {
    has_state(v, resolve_in(v.assign, slot))
}

/// After snapshotting, the resolved state owns one more snapshot.
pub open spec fn snapshot_next(v: SysV, slot: Slot, name: Seq<char>) -> SysV {
    SysV { snaps: v.snaps.push((resolve_in(v.assign, slot), name)), ..v }
}

/// Whether a snapshot of this name exists on any state.
pub open spec fn has_snapshot_named(v: SysV, name: Seq<char>) -> bool {
    exists|i: int| 0 <= i < v.snaps.len() && v.snaps[i].1 == name
}

/// The first snapshot record in listing order whose snapshot name
/// matches, if any: the one a restore clones from.
pub open spec fn first_snap_match(snaps: Seq<SnapshotInfoV>, name: Seq<char>) -> Option<
    SnapshotInfoV,
>
    decreases snaps.len(),
{
    if snaps.len() == 0 {
        None
    } else if snaps[0].snapshot == name {
        Some(snaps[0])
    } else {
        first_snap_match(snaps.drop_first(), name)
    }
}

/// The first match is the record at the first matching position.
proof fn lemma_first_match_at(snaps: Seq<SnapshotInfoV>, name: Seq<char>, i: int)
    requires
        0 <= i < snaps.len(),
        snaps[i].snapshot == name,
        forall|j: int| 0 <= j < i ==> snaps[j].snapshot != name,
    ensures
        first_snap_match(snaps, name) == Some(snaps[i]),
    decreases i,
{
    if i > 0 {
        let t = snaps.drop_first();
        assert(forall|j: int| 0 <= j < i - 1 ==> t[j] == snaps[j + 1]);
        lemma_first_match_at(t, name, i - 1);
    }
}

/// Where no record matches, there is no first match.
proof fn lemma_no_snap_match(snaps: Seq<SnapshotInfoV>, name: Seq<char>)
    requires
        forall|j: int| 0 <= j < snaps.len() ==> snaps[j].snapshot != name,
    ensures
        first_snap_match(snaps, name) is None,
    decreases snaps.len(),
{
    if snaps.len() > 0 {
        let t = snaps.drop_first();
        assert(forall|j: int| 0 <= j < t.len() ==> t[j] == snaps[j + 1]);
        lemma_no_snap_match(t, name);
    }
}

/// Restoring is allowed exactly when the new state is absent and a
/// snapshot of the name exists on some state.
pub open spec fn restore_ok(v: SysV, name: Seq<char>, new_state: Seq<char>) -> bool {
    !has_state(v, new_state) && has_snapshot_named(v, name)
}

/// After restoring, the new state exists; the snapshot stays.
pub open spec fn restore_next(v: SysV, new_state: Seq<char>) -> SysV {
    SysV { states: v.states.push(new_state), ..v }
}

/// After assigning, the state exists (created if it was absent) and the
/// slot resolves to it; every other binding stays.
pub open spec fn assign_next(v: SysV, slot: Slot, s: Seq<char>) -> SysV {
    SysV {
        states: if has_state(v, s) {
            v.states
        } else {
            v.states.push(s)
        },
        assign: v.assign.insert(slot, s),
        ..v
    }
}

/// The running slots with one slot removed.
pub open spec fn slots_without(slots: Seq<Slot>, slot: Slot) -> Seq<Slot>
    decreases slots.len(),
{
    if slots.len() == 0 {
        Seq::<Slot>::empty()
    } else {
        let rest = slots_without(slots.drop_last(), slot);
        if slots.last() == slot {
            rest
        } else {
            rest.push(slots.last())
        }
    }
}

/// After starting a slot, it runs; nothing else changes.
pub open spec fn start_next(v: SysV, slot: Slot) -> SysV {
    SysV {
        running: if v.running.contains(slot) {
            v.running
        } else {
            v.running.push(slot)
        },
        ..v
    }
}

/// After stopping a slot, it no longer runs; nothing else changes.
pub open spec fn stop_next(v: SysV, slot: Slot) -> SysV {
    SysV { running: slots_without(v.running, slot), ..v }
}

/// After migrating, the slot is bound to the state (created if absent)
/// and runs; it was stopped first where it ran.
pub open spec fn migrate_next(v: SysV, s: Seq<char>, slot: Slot) -> SysV {
    let stopped = if slot_running(v, slot) {
        stop_next(v, slot)
    } else {
        v
    };
    start_next(assign_next(stopped, slot, s), slot)
}

impl SystemView {
    /// A view of an empty system: no states, no snapshots, no bindings,
    /// nothing running.
    pub fn new() -> (r: SystemView)
        ensures
            r@.states == Seq::<Seq<char>>::empty(),
            r@.snaps == Seq::<(Seq<char>, Seq<char>)>::empty(),
            r@.assign == Map::<Slot, Seq<char>>::empty(),
            r@.running == Seq::<Slot>::empty(),
    {
        let r = SystemView {
            states: Vec::new(),
            snapshots: Vec::new(),
            assignments: AssignmentTable::new(),
            running: Vec::new(),
        };
        proof {
            assert(r@.states =~= Seq::<Seq<char>>::empty());
            assert(r@.snaps =~= Seq::<(Seq<char>, Seq<char>)>::empty());
        }
        r
    }

    /// Whether a state of this name exists in the view.
    pub fn state_exists(&self, state: &State) -> (r: bool)
        ensures
            r == has_state(self@, state@),
    {
        let mut i: usize = 0;
        while i < self.states.len()
            invariant
                i <= self.states@.len(),
                forall|j: int| 0 <= j < i ==> self.states@[j]@ != state@,
            decreases self.states@.len() - i,
        {
            if self.states[i] == *state {
                proof {
                    assert(self@.states[i as int] == state@);
                }
                return true;
            }
            i += 1;
        }
        proof {
            assert forall|j: int| 0 <= j < self@.states.len() implies self@.states[j] != state@ by {
                assert(self@.states[j] == self.states@[j]@);
            }
        }
        false
    }

    /// The state the slot currently resolves to.
    pub fn get_slot_state(&self, slot: Slot) -> (r: State)
        ensures
            r@ == resolve_in(self@.assign, slot),
    {
        self.assignments.resolve(slot)
    }

    /// Whether the slot's service runs in the view.
    pub fn is_slot_running(&self, slot: Slot) -> (r: bool)
        ensures
            r == slot_running(self@, slot),
    {
        let mut i: usize = 0;
        while i < self.running.len()
            invariant
                i <= self.running@.len(),
                forall|j: int| 0 <= j < i ==> self.running@[j] != slot,
            decreases self.running@.len() - i,
        {
            if self.running[i] == slot {
                return true;
            }
            i += 1;
        }
        false
    }

    /// Every slot with its resolved state and running flag, in canonical
    /// order.
    pub fn list_slots(&self) -> (r: Vec<SlotInfo>)
        ensures
            r@.len() == Slot::all_spec().len(),
            forall|i: int|
                0 <= i < r@.len() ==> r@[i]@.slot == Slot::all_spec()[i] && r@[i]@.assigned_state
                    == resolve_in(self@.assign, Slot::all_spec()[i]) && r@[i]@.running
                    == slot_running(self@, Slot::all_spec()[i]),
    {
        let slots = Slot::all();
        let mut r: Vec<SlotInfo> = Vec::new();
        let mut i: usize = 0;
        while i < slots.len()
            invariant
                i <= slots@.len(),
                slots@ == Slot::all_spec(),
                r@.len() == i,
                forall|j: int|
                    0 <= j < i ==> r@[j]@.slot == Slot::all_spec()[j] && r@[j]@.assigned_state
                        == resolve_in(self@.assign, Slot::all_spec()[j]) && r@[j]@.running
                        == slot_running(self@, Slot::all_spec()[j]),
            decreases slots@.len() - i,
        {
            let slot = slots[i];
            let info = SlotInfo {
                slot,
                assigned_state: self.get_slot_state(slot),
                running: self.is_slot_running(slot),
            };
            r.push(info);
            i += 1;
        }
        r
    }

    /// The first slot in canonical order that resolves to the state, if
    /// any: the witness that makes a delete refuse.
    pub fn find_user(&self, state: &State) -> (r: Option<Slot>)
        ensures
            r == first_user(self@, state@),
    {
        if self.assignments.resolve(Slot::Slot1) == *state {
            Some(Slot::Slot1)
        } else if self.assignments.resolve(Slot::Slot2) == *state {
            Some(Slot::Slot2)
        } else if self.assignments.resolve(Slot::Slot3) == *state {
            Some(Slot::Slot3)
        } else if self.assignments.resolve(Slot::Slot4) == *state {
            Some(Slot::Slot4)
        } else if self.assignments.resolve(Slot::Slot5) == *state {
            Some(Slot::Slot5)
        } else {
            None
        }
    }
}

impl LocalZfsBackend {
    /// The command sequence that creates a state: create the dataset at
    /// its mount directory, then set the directory's ownership.
    pub open spec fn is_create_plan(&self, s: Seq<char>, plan: Seq<Action>) -> bool {
        &&& plan.len() == 2
        &&& (plan[0] matches Action::ZfsCreate { dataset, mountpoint } && dataset@
            == self.dataset_path_spec(s) && mountpoint@ == self.state_dir_spec(s))
        &&& (plan[1] matches Action::SetOwnership { path } && path@ == self.state_dir_spec(s))
    }

    /// Create a new empty state.
    ///
    /// Succeeds exactly when no state of the name exists, advancing the
    /// view by the new state and planning its creation; fails with
    /// `StateAlreadyExists` otherwise, leaving the view unchanged.
    pub fn create_state(&self, sys: &mut SystemView, state: &State) -> (r: Result<
        Vec<Action>,
        Error,
    >)
        ensures
            r is Ok <==> create_ok(old(sys)@, state@),
            (r matches Err(e) ==> final(sys)@ == old(sys)@ && (e matches Error::StateAlreadyExists(
                st,
            ) && st@ == state@)),
            (r matches Ok(plan) ==> final(sys)@ == create_next(old(sys)@, state@)
                && self.is_create_plan(state@, plan@)),
    {
        if sys.state_exists(state) {
            return Err(Error::StateAlreadyExists(state.clone()));
        }
        let dataset = self.dataset_path(state);
        let mountpoint = self.state_dir(state);
        let mountpoint2 = mountpoint.clone();
        sys.states.push(state.clone());
        let mut plan: Vec<Action> = Vec::new();
        plan.push(Action::ZfsCreate { dataset, mountpoint });
        plan.push(Action::SetOwnership { path: mountpoint2 });
        proof {
            assert(sys@.states =~= old(sys)@.states.push(state@));
            assert(sys@ =~= create_next(old(sys)@, state@));
        }
        Ok(plan)
    }

    /// The command sequence that clones a source state to a destination:
    /// snapshot the source with the throwaway marker, clone that snapshot
    /// to the destination's dataset and mount directory, promote the clone
    /// out of the source's lineage, then set ownership.
    pub open spec fn is_clone_plan(&self, src: Seq<char>, dst: Seq<char>, plan: Seq<Action>) -> bool {
        let marker = LocalZfsBackend::clone_marker_spec(dst);
        &&& plan.len() == 4
        &&& (plan[0] matches Action::ZfsSnapshot { target } && target@ == self.snapshot_key_spec(
            src,
            marker,
        ))
        &&& (plan[1] matches Action::ZfsClone { snapshot, dataset, mountpoint } && snapshot@
            == self.snapshot_key_spec(src, marker) && dataset@ == self.dataset_path_spec(dst)
            && mountpoint@ == self.state_dir_spec(dst))
        &&& (plan[2] matches Action::ZfsPromote { dataset } && dataset@ == self.dataset_path_spec(
            dst,
        ))
        &&& (plan[3] matches Action::SetOwnership { path } && path@ == self.state_dir_spec(dst))
    }

    /// Clone a state to a new name.
    ///
    /// Succeeds exactly when the source exists and the destination does
    /// not; the promoted clone is independent of the source. Fails with
    /// `StateNotFound` for a missing source (checked first) and
    /// `StateAlreadyExists` for a present destination, leaving the view
    /// unchanged.
    pub fn clone_state(&self, sys: &mut SystemView, source: &State, destination: &State) -> (r:
        Result<Vec<Action>, Error>)
        ensures
            r is Ok <==> clone_ok(old(sys)@, source@, destination@),
            (r matches Err(e) ==> final(sys)@ == old(sys)@ && if !has_state(old(sys)@, source@) {
                e matches Error::StateNotFound(st) && st@ == source@
            } else {
                e matches Error::StateAlreadyExists(st) && st@ == destination@
            }),
            (r matches Ok(plan) ==> final(sys)@ == clone_next(old(sys)@, destination@)
                && self.is_clone_plan(source@, destination@, plan@)),
    {
        if !sys.state_exists(source) {
            return Err(Error::StateNotFound(source.clone()));
        }
        if sys.state_exists(destination) {
            return Err(Error::StateAlreadyExists(destination.clone()));
        }
        let marker = LocalZfsBackend::clone_marker(destination);
        let clone_snap = self.snapshot_key(source, marker.as_str());
        let clone_snap2 = clone_snap.clone();
        let dst_dataset = self.dataset_path(destination);
        let dst_dataset2 = dst_dataset.clone();
        let dst_mountpoint = self.state_dir(destination);
        let dst_mountpoint2 = dst_mountpoint.clone();
        sys.states.push(destination.clone());
        let mut plan: Vec<Action> = Vec::new();
        plan.push(Action::ZfsSnapshot { target: clone_snap });
        plan.push(
            Action::ZfsClone {
                snapshot: clone_snap2,
                dataset: dst_dataset,
                mountpoint: dst_mountpoint,
            },
        );
        plan.push(Action::ZfsPromote { dataset: dst_dataset2 });
        plan.push(Action::SetOwnership { path: dst_mountpoint2 });
        proof {
            assert(sys@.states =~= old(sys)@.states.push(destination@));
            assert(sys@ =~= clone_next(old(sys)@, destination@));
        }
        Ok(plan)
    }

    /// Create a named snapshot of the slot's resolved state.
    ///
    /// Succeeds exactly when the resolved state exists, planning one
    /// snapshot command on its composite key; fails with `StateNotFound`
    /// naming the resolved state otherwise, leaving the view unchanged.
    pub fn snapshot(&self, sys: &mut SystemView, slot: Slot, snapshot_name: &Snapshot) -> (r:
        Result<Vec<Action>, Error>)
        ensures
            r is Ok <==> snapshot_ok(old(sys)@, slot),
            (r matches Err(e) ==> final(sys)@ == old(sys)@ && (e matches Error::StateNotFound(st)
                && st@ == resolve_in(old(sys)@.assign, slot))),
            (r matches Ok(plan) ==> final(sys)@ == snapshot_next(old(sys)@, slot, snapshot_name@)
                && plan@.len() == 1 && (plan@[0] matches Action::ZfsSnapshot { target } && target@
                == self.snapshot_key_spec(resolve_in(old(sys)@.assign, slot), snapshot_name@))),
    {
        let state = sys.get_slot_state(slot);
        if !sys.state_exists(&state) {
            return Err(Error::StateNotFound(state));
        }
        let key = self.snapshot_key(&state, snapshot_name.name());
        // a fresh snapshot occupies no space of its own yet
        let info = SnapshotInfo {
            state,
            snapshot: snapshot_name.clone(),
            full_name: key.clone(),
            used_bytes: 0,
        };
        sys.snapshots.push(info);
        let mut plan: Vec<Action> = Vec::new();
        plan.push(Action::ZfsSnapshot { target: key });
        proof {
            assert(snapshot_info_views(sys.snapshots@) =~= snapshot_info_views(
                old(sys).snapshots@,
            ).push(sys.snapshots@.last()@));
            assert(sys@.snaps =~= old(sys)@.snaps.push(
                (resolve_in(old(sys)@.assign, slot), snapshot_name@),
            ));
            assert(sys@ =~= snapshot_next(old(sys)@, slot, snapshot_name@));
        }
        Ok(plan)
    }

    /// Plan one start command and mark the slot running in the view.
    pub fn start_slot(&self, sys: &mut SystemView, slot: Slot) -> (r: Vec<Action>)
        ensures
            final(sys)@ == start_next(old(sys)@, slot),
            r@.len() == 1 && r@[0] == Action::ServiceStart(slot),
    {
        if !sys.is_slot_running(slot) {
            sys.running.push(slot);
        }
        proof {
            assert(sys@ =~= start_next(old(sys)@, slot));
        }
        let mut plan: Vec<Action> = Vec::new();
        plan.push(Action::ServiceStart(slot));
        plan
    }

    /// Plan one stop command and mark the slot stopped in the view.
    pub fn stop_slot(&self, sys: &mut SystemView, slot: Slot) -> (r: Vec<Action>)
        ensures
            final(sys)@ == stop_next(old(sys)@, slot),
            r@.len() == 1 && r@[0] == Action::ServiceStop(slot),
    {
        let mut kept: Vec<Slot> = Vec::new();
        let mut i: usize = 0;
        proof {
            assert(kept@ =~= slots_without(sys.running@.subrange(0, 0), slot));
        }
        while i < sys.running.len()
            invariant
                i <= sys.running@.len(),
                kept@ == slots_without(sys.running@.subrange(0, i as int), slot),
        decreases sys.running@.len() - i,
        {
            proof {
                assert(sys.running@.subrange(0, i + 1).drop_last() =~= sys.running@.subrange(
                    0,
                    i as int,
                ));
                assert(sys.running@.subrange(0, i + 1).last() == sys.running@[i as int]);
            }
            if sys.running[i] != slot {
                kept.push(sys.running[i]);
            }
            i += 1;
        }
        proof {
            assert(sys.running@.subrange(0, sys.running@.len() as int) =~= sys.running@);
        }
        sys.running = kept;
        proof {
            assert(sys@ =~= stop_next(old(sys)@, slot));
        }
        let mut plan: Vec<Action> = Vec::new();
        plan.push(Action::ServiceStop(slot));
        plan
    }

    /// Delete a state and, before it, all its snapshots.
    ///
    /// Succeeds exactly when the state exists and no slot currently
    /// resolves to it; the plan destroys each of its snapshots in listing
    /// order, then the dataset. Fails with `StateNotFound` for a missing
    /// state and `StateInUse` naming the first resolving slot otherwise,
    /// leaving the view unchanged.
    pub fn delete_state(&self, sys: &mut SystemView, state: &State) -> (r: Result<
        Vec<Action>,
        Error,
    >)
        ensures
            r is Ok <==> delete_ok(old(sys)@, state@),
            (r matches Err(e) ==> final(sys)@ == old(sys)@ && if !has_state(old(sys)@, state@) {
                e matches Error::StateNotFound(st) && st@ == state@
            } else {
                e matches Error::StateInUse { state: st, slot } && st@ == state@ && first_user(
                    old(sys)@,
                    state@,
                ) == Some(slot)
            }),
            (r matches Ok(plan) ==> final(sys)@ == delete_next(old(sys)@, state@) && plan@.len()
                == destroy_targets(snapshot_info_views(old(sys).snapshots@), state@).len() + 1 && (
            forall|m: int|
                0 <= m < plan@.len() - 1 ==> ((#[trigger] plan@[m]) matches Action::ZfsDestroy { target }
                    && target@ == destroy_targets(
                    snapshot_info_views(old(sys).snapshots@),
                    state@,
                )[m])) && (plan@.last() matches Action::ZfsDestroy { target } && target@
                == self.dataset_path_spec(state@))),
    {
        if !sys.state_exists(state) {
            return Err(Error::StateNotFound(state.clone()));
        }
        match sys.find_user(state) {
            Some(slot) => {
                return Err(Error::StateInUse { state: state.clone(), slot });
            },
            None => {},
        }
        let ghost osv = snapshot_info_views(sys.snapshots@);
        let mut plan: Vec<Action> = Vec::new();
        let mut kept: Vec<SnapshotInfo> = Vec::new();
        let mut i: usize = 0;
        proof {
            assert(destroy_targets(osv.subrange(0, 0), state@) =~~= Seq::<Seq<char>>::empty());
            assert(snap_pairs(snapshot_info_views(kept@)) =~~= pairs_without(
                snap_pairs(osv.subrange(0, 0)),
                state@,
            ));
        }
        while i < sys.snapshots.len()
            invariant
                i <= sys.snapshots@.len(),
                osv == snapshot_info_views(sys.snapshots@),
                plan@.len() == destroy_targets(osv.subrange(0, i as int), state@).len(),
                forall|m: int|
                    0 <= m < plan@.len() ==> ((#[trigger] plan@[m]) matches Action::ZfsDestroy { target }
                        && target@ == destroy_targets(osv.subrange(0, i as int), state@)[m]),
                snap_pairs(snapshot_info_views(kept@)) == pairs_without(
                    snap_pairs(osv.subrange(0, i as int)),
                    state@,
                ),
            decreases sys.snapshots@.len() - i,
        {
            proof {
                assert(osv.subrange(0, i + 1).drop_last() =~= osv.subrange(0, i as int));
                assert(osv.subrange(0, i + 1).last() == osv[i as int]);
                assert(osv[i as int] == sys.snapshots@[i as int]@);
                let pfx1 = snap_pairs(osv.subrange(0, i + 1));
                assert(pfx1.drop_last() =~= snap_pairs(osv.subrange(0, i as int)));
                assert(pfx1.last() == (osv[i as int].state, osv[i as int].snapshot));
            }
            if sys.snapshots[i].state == *state {
                plan.push(Action::ZfsDestroy { target: sys.snapshots[i].full_name.clone() });
            } else {
                kept.push(sys.snapshots[i].clone());
                proof {
                    assert(snap_pairs(snapshot_info_views(kept@)) =~~= snap_pairs(
                        snapshot_info_views(kept@.drop_last()),
                    ).push((kept@.last()@.state, kept@.last()@.snapshot)));
                }
            }
            i += 1;
        }
        proof {
            assert(osv.subrange(0, osv.len() as int) =~= osv);
        }
        sys.snapshots = kept;
        let mut kept_states: Vec<State> = Vec::new();
        let mut j: usize = 0;
        let ghost onames = old(sys)@.states;
        proof {
            assert(onames == sys.states@.map_values(|st: State| st@));
            assert(kept_states@.map_values(|st: State| st@) =~~= names_without(
                onames.subrange(0, 0),
                state@,
            ));
        }
        while j < sys.states.len()
            invariant
                j <= sys.states@.len(),
                onames == sys.states@.map_values(|st: State| st@),
                kept_states@.map_values(|st: State| st@) == names_without(
                    onames.subrange(0, j as int),
                    state@,
                ),
            decreases sys.states@.len() - j,
        {
            proof {
                assert(onames.subrange(0, j + 1).drop_last() =~= onames.subrange(0, j as int));
                assert(onames.subrange(0, j + 1).last() == onames[j as int]);
                assert(onames[j as int] == sys.states@[j as int]@);
            }
            if !(sys.states[j] == *state) {
                kept_states.push(sys.states[j].clone());
                proof {
                    assert(kept_states@.map_values(|st: State| st@) =~~= kept_states@.drop_last()
                        .map_values(|st: State| st@).push(kept_states@.last()@));
                }
            }
            j += 1;
        }
        proof {
            assert(onames.subrange(0, onames.len() as int) =~= onames);
        }
        sys.states = kept_states;
        plan.push(Action::ZfsDestroy { target: self.dataset_path(state) });
        proof {
            assert(sys@ =~= delete_next(old(sys)@, state@));
        }
        Ok(plan)
    }

    /// The command sequence that restores a snapshot into a new state:
    /// clone the snapshot's composite key to the new dataset and mount
    /// directory, promote, then set ownership.
    pub open spec fn is_restore_plan(&self, full_name: Seq<char>, dst: Seq<char>, plan: Seq<Action>) -> bool {
        &&& plan.len() == 3
        &&& (plan[0] matches Action::ZfsClone { snapshot, dataset, mountpoint } && snapshot@
            == full_name && dataset@ == self.dataset_path_spec(dst) && mountpoint@
            == self.state_dir_spec(dst))
        &&& (plan[1] matches Action::ZfsPromote { dataset } && dataset@ == self.dataset_path_spec(
            dst,
        ))
        &&& (plan[2] matches Action::SetOwnership { path } && path@ == self.state_dir_spec(dst))
    }

    /// Restore the first listed snapshot of the given name to a new state.
    ///
    /// Succeeds exactly when the new state is absent and a snapshot of the
    /// name exists on some state. Fails with `StateAlreadyExists` for a
    /// present new state (checked first) and `SnapshotNotFound` where no
    /// state carries a snapshot of the name, leaving the view unchanged.
    pub fn restore_snapshot(
        &self,
        sys: &mut SystemView,
        snapshot_name: &Snapshot,
        new_state: &State,
    ) -> (r: Result<Vec<Action>, Error>)
        ensures
            r is Ok <==> restore_ok(old(sys)@, snapshot_name@, new_state@),
            (r matches Err(e) ==> final(sys)@ == old(sys)@ && if has_state(old(sys)@, new_state@) {
                e matches Error::StateAlreadyExists(st) && st@ == new_state@
            } else {
                e matches Error::SnapshotNotFound(m) && m@ == snapshot_name@
            }),
            (r matches Ok(plan) ==> final(sys)@ == restore_next(old(sys)@, new_state@)
                && self.is_restore_plan(
                first_snap_match(
                    snapshot_info_views(old(sys).snapshots@),
                    snapshot_name@,
                ).unwrap().full_name,
                new_state@,
                plan@,
            )),
    {
        if sys.state_exists(new_state) {
            return Err(Error::StateAlreadyExists(new_state.clone()));
        }
        let ghost osv = snapshot_info_views(sys.snapshots@);
        let mut found: Option<usize> = None;
        let mut i: usize = 0;
        while i < sys.snapshots.len()
            invariant
                i <= sys.snapshots@.len(),
                osv == snapshot_info_views(sys.snapshots@),
                found is None ==> forall|j: int| 0 <= j < i ==> osv[j].snapshot != snapshot_name@,
                found matches Some(k) ==> k < i && osv[k as int].snapshot == snapshot_name@ && (
                forall|j: int| 0 <= j < k ==> osv[j].snapshot != snapshot_name@),
            decreases sys.snapshots@.len() - i,
        {
            if found.is_none() && sys.snapshots[i].snapshot == *snapshot_name {
                found = Some(i);
            }
            i += 1;
        }
        match found {
            Some(k) => {
                proof {
                    lemma_first_match_at(osv, snapshot_name@, k as int);
                    assert(has_snapshot_named(old(sys)@, snapshot_name@)) by {
                        assert(old(sys)@.snaps[k as int].1 == snapshot_name@);
                    }
                }
                let full_name = sys.snapshots[k].full_name.clone();
                let dst_dataset = self.dataset_path(new_state);
                let dst_dataset2 = dst_dataset.clone();
                let dst_mountpoint = self.state_dir(new_state);
                let dst_mountpoint2 = dst_mountpoint.clone();
                sys.states.push(new_state.clone());
                let mut plan: Vec<Action> = Vec::new();
                plan.push(
                    Action::ZfsClone {
                        snapshot: full_name,
                        dataset: dst_dataset,
                        mountpoint: dst_mountpoint,
                    },
                );
                plan.push(Action::ZfsPromote { dataset: dst_dataset2 });
                plan.push(Action::SetOwnership { path: dst_mountpoint2 });
                proof {
                    assert(sys@.states =~= old(sys)@.states.push(new_state@));
                    assert(sys@ =~= restore_next(old(sys)@, new_state@));
                }
                Ok(plan)
            },
            None => {
                proof {
                    lemma_no_snap_match(osv, snapshot_name@);
                    assert(!has_snapshot_named(old(sys)@, snapshot_name@)) by {
                        if has_snapshot_named(old(sys)@, snapshot_name@) {
                            let w = choose|w: int|
                                0 <= w < old(sys)@.snaps.len() && old(sys)@.snaps[w].1
                                    == snapshot_name@;
                            assert(osv[w].snapshot == snapshot_name@);
                        }
                    }
                }
                Err(Error::SnapshotNotFound(String::from_str(snapshot_name.name())))
            },
        }
    }

    /// The command sequence that assigns a state to a slot: create the
    /// state if it was absent, persist the binding, make sure the slot
    /// directory exists and is owned by the service user, clear or rename
    /// aside whatever sits at the slot's image path — an indirection is
    /// replaced, a directly stored image is kept as a backup — and install
    /// the indirection to the state's image.
    pub open spec fn is_assign_plan(
        &self,
        existed: bool,
        slot: Slot,
        s: Seq<char>,
        img: ImageStatus,
        plan: Seq<Action>,
    ) -> bool {
        let b: int = if existed {
            0int
        } else {
            2int
        };
        let m: int = if img is Missing {
            0int
        } else {
            1int
        };
        &&& plan.len() == b + 4 + m
        &&& (!existed ==> self.is_create_plan(s, plan.subrange(0, 2)))
        &&& plan[b] is SaveAssignments
        &&& (plan[b + 1] matches Action::EnsureDir { path } && path@ == self.slot_dir_spec(slot))
        &&& (plan[b + 2] matches Action::OwnDir { path } && path@ == self.slot_dir_spec(slot))
        &&& (img is SymbolicLink ==> (plan[b + 3] matches Action::RemoveFile { path } && path@
            == self.slot_data_img_spec(slot)))
        &&& (img is RegularFile ==> (plan[b + 3] matches Action::RenameFile { from, to } && from@
            == self.slot_data_img_spec(slot) && to@ == self.slot_dir_spec(slot)
            + "/data.img.backup"@))
        &&& (plan[b + 3 + m] matches Action::Symlink { target, link } && target@
            == self.state_data_img_spec(s) && link@ == self.slot_data_img_spec(slot))
    }

    /// Assign a state to a slot (does not restart the slot).
    ///
    /// Never refuses: the state is created where absent, the binding is
    /// persisted, and the slot's image path is rebound to the state's
    /// image, renaming a directly stored image aside rather than deleting
    /// it. `img` is the observed content of the slot's image path.
    pub fn assign(&self, sys: &mut SystemView, slot: Slot, state: &State, img: ImageStatus) -> (r:
        Vec<Action>)
        ensures
            final(sys)@ == assign_next(old(sys)@, slot, state@),
            self.is_assign_plan(has_state(old(sys)@, state@), slot, state@, img, r@),
    {
        let existed = sys.state_exists(state);
        let mut plan: Vec<Action> = Vec::new();
        if !existed {
            let dataset = self.dataset_path(state);
            let mountpoint = self.state_dir(state);
            let mountpoint2 = mountpoint.clone();
            sys.states.push(state.clone());
            plan.push(Action::ZfsCreate { dataset, mountpoint });
            plan.push(Action::SetOwnership { path: mountpoint2 });
            proof {
                assert(sys@.states =~= old(sys)@.states.push(state@));
            }
        }
        sys.assignments.bind(slot, state);
        plan.push(Action::SaveAssignments);
        let sd = self.slot_dir(slot);
        let sd2 = sd.clone();
        plan.push(Action::EnsureDir { path: sd });
        plan.push(Action::OwnDir { path: sd2 });
        match img {
            ImageStatus::SymbolicLink => {
                plan.push(Action::RemoveFile { path: self.slot_data_img(slot) });
            },
            ImageStatus::RegularFile => {
                let mut backup = self.slot_dir(slot);
                backup.append("/data.img.backup");
                proof {
                    assert(backup@ =~= self.slot_dir_spec(slot) + "/data.img.backup"@);
                }
                plan.push(Action::RenameFile { from: self.slot_data_img(slot), to: backup });
            },
            ImageStatus::Missing => {},
        }
        plan.push(
            Action::Symlink { target: self.state_data_img(state), link: self.slot_data_img(slot) },
        );
        proof {
            assert(sys@ =~= assign_next(old(sys)@, slot, state@));
            if !existed {
                assert(self.is_create_plan(state@, plan@.subrange(0, 2)));
            }
        }
        plan
    }

    /// Migrate a state to a slot: where the slot runs, stop it and wait
    /// the settle interval; then assign the state and start the slot.
    ///
    /// No step is rolled back when a later one fails: the shell runs the
    /// plan in order and surfaces the failing action's error, leaving the
    /// system in the intermediate state.
    pub fn migrate(&self, sys: &mut SystemView, state: &State, slot: Slot, img: ImageStatus) -> (r:
        Vec<Action>)
        ensures
            final(sys)@ == migrate_next(old(sys)@, state@, slot),
            ({
                let k: int = if slot_running(old(sys)@, slot) {
                    2int
                } else {
                    0int
                };
                &&& r@.len() >= k + 2
                &&& (slot_running(old(sys)@, slot) ==> r@[0] == Action::ServiceStop(slot) && r@[1]
                    == Action::SettleWait)
                &&& self.is_assign_plan(
                    has_state(old(sys)@, state@),
                    slot,
                    state@,
                    img,
                    r@.subrange(k, r@.len() - 1),
                )
                &&& r@.last() == Action::ServiceStart(slot)
            }),
    {
        let mut plan: Vec<Action> = Vec::new();
        if sys.is_slot_running(slot) {
            let mut sp = self.stop_slot(sys, slot);
            plan.append(&mut sp);
            plan.push(Action::SettleWait);
        }
        let ghost mid = sys@;
        let ghost pre_len = plan@.len();
        let mut ap = self.assign(sys, slot, state, img);
        let ghost apv = ap@;
        plan.append(&mut ap);
        let mut st = self.start_slot(sys, slot);
        plan.append(&mut st);
        proof {
            assert(has_state(mid, state@) == has_state(old(sys)@, state@));
            assert(plan@.subrange(pre_len as int, plan@.len() - 1) =~= apv);
            assert(sys@ =~= migrate_next(old(sys)@, state@, slot));
        }
        plan
    }

    /// Plan one restart command; the slot keeps running.
    pub fn restart_slot(&self, sys: &mut SystemView, slot: Slot) -> (r: Vec<Action>)
        ensures
            final(sys)@ == start_next(old(sys)@, slot),
            r@.len() == 1 && r@[0] == Action::ServiceRestart(slot),
    {
        if !sys.is_slot_running(slot) {
            sys.running.push(slot);
        }
        proof {
            assert(sys@ =~= start_next(old(sys)@, slot));
        }
        let mut plan: Vec<Action> = Vec::new();
        plan.push(Action::ServiceRestart(slot));
        plan
    }
}

} // verus!
