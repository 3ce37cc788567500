//! Identifier types: slots, states, snapshots, and the derived query records.

use vstd::prelude::*;

verus! {

/// A name is acceptable for a state or snapshot when it is non-empty and
/// free of the two characters reserved by the storage engine's naming
/// grammar: the path separator `/` and the snapshot delimiter `@`.
pub open spec fn valid_name(s: Seq<char>) -> bool {
    &&& s.len() > 0
    &&& forall|i: int| 0 <= i < s.len() ==> s[i] != '/' && s[i] != '@'
}

/// A slot: one of the fixed set of VM execution identities. Each slot has a
/// stable textual identifier, a fixed network address, and a derived
/// service-unit name.
#[derive(Clone, Copy, PartialEq, Eq, Structural, Debug, Hash)]
pub enum Slot {
    Slot1,
    Slot2,
    Slot3,
    Slot4,
    Slot5,
}

impl Slot {
    /// The slot's textual identifier, as a mathematical sequence.
    pub open spec fn name_spec(self) -> Seq<char> {
        match self {
            Slot::Slot1 => "slot1"@,
            Slot::Slot2 => "slot2"@,
            Slot::Slot3 => "slot3"@,
            Slot::Slot4 => "slot4"@,
            Slot::Slot5 => "slot5"@,
        }
    }

    /// Get the slot name as a string.
    pub fn as_str(&self) -> (r: &'static str)
        ensures
            r@ == self.name_spec(),
    {
        match self {
            Slot::Slot1 => "slot1",
            Slot::Slot2 => "slot2",
            Slot::Slot3 => "slot3",
            Slot::Slot4 => "slot4",
            Slot::Slot5 => "slot5",
        }
    }

    /// The slot's fixed network address, as a mathematical sequence.
    pub open spec fn ip_spec(self) -> Seq<char> {
        match self {
            Slot::Slot1 => "10.1.0.2"@,
            Slot::Slot2 => "10.2.0.2"@,
            Slot::Slot3 => "10.3.0.2"@,
            Slot::Slot4 => "10.4.0.2"@,
            Slot::Slot5 => "10.5.0.2"@,
        }
    }

    /// Get the slot's IP address.
    pub fn ip(&self) -> (r: &'static str)
        ensures
            r@ == self.ip_spec(),
    {
        match self {
            Slot::Slot1 => "10.1.0.2",
            Slot::Slot2 => "10.2.0.2",
            Slot::Slot3 => "10.3.0.2",
            Slot::Slot4 => "10.4.0.2",
            Slot::Slot5 => "10.5.0.2",
        }
    }

    /// The fixed enumeration of all slots, in their canonical order.
    pub open spec fn all_spec() -> Seq<Slot> {
        seq![Slot::Slot1, Slot::Slot2, Slot::Slot3, Slot::Slot4, Slot::Slot5]
    }

    /// All available slots, in their canonical order.
    pub fn all() -> (r: Vec<Slot>)
        ensures
            r@ == Slot::all_spec(),
    {
        let mut r: Vec<Slot> = Vec::new();
        r.push(Slot::Slot1);
        r.push(Slot::Slot2);
        r.push(Slot::Slot3);
        r.push(Slot::Slot4);
        r.push(Slot::Slot5);
        proof {
            assert(r@ =~= Slot::all_spec());
        }
        r
    }

    /// Which slot, if any, a textual identifier names, compared without
    /// regard to ASCII letter case.
    pub open spec fn of_name_spec(s: Seq<char>) -> Option<Slot> {
        if eq_ignore_ascii_case(s, "slot1"@) {
            Some(Slot::Slot1)
        } else if eq_ignore_ascii_case(s, "slot2"@) {
            Some(Slot::Slot2)
        } else if eq_ignore_ascii_case(s, "slot3"@) {
            Some(Slot::Slot3)
        } else if eq_ignore_ascii_case(s, "slot4"@) {
            Some(Slot::Slot4)
        } else if eq_ignore_ascii_case(s, "slot5"@) {
            Some(Slot::Slot5)
        } else {
            None
        }
    }

    /// Parse a slot identifier, accepting any ASCII letter case.
    pub fn from_name(s: &str) -> (r: Option<Slot>)
        ensures
            r == Slot::of_name_spec(s@),
    {
        if str_eq_ignore_ascii_case(s, "slot1") {
            Some(Slot::Slot1)
        } else if str_eq_ignore_ascii_case(s, "slot2") {
            Some(Slot::Slot2)
        } else if str_eq_ignore_ascii_case(s, "slot3") {
            Some(Slot::Slot3)
        } else if str_eq_ignore_ascii_case(s, "slot4") {
            Some(Slot::Slot4)
        } else if str_eq_ignore_ascii_case(s, "slot5") {
            Some(Slot::Slot5)
        } else {
            None
        }
    }

    /// The derived service-unit name: `microvm@<slot>.service`.
    pub open spec fn service_name_spec(self) -> Seq<char> {
        "microvm@"@ + self.name_spec() + ".service"@
    }

    /// Get the service unit name for the slot's supervised service.
    pub fn service_name(&self) -> (r: String)
        ensures
            r@ == self.service_name_spec(),
    {
        let mut r = String::from_str("microvm@");
        r.append(self.as_str());
        r.append(".service");
        proof {
            assert(r@ =~= self.service_name_spec());
        }
        r
    }
}

/// A character's code point with an upper-case ASCII letter folded to its
/// lower-case counterpart; every other character is left as it is.
pub open spec fn lower_ascii_code(c: char) -> u32 {
    if 65 <= c as u32 && c as u32 <= 90 {
        (c as u32 + 32) as u32
    } else {
        c as u32
    }
}

/// Equality of two character sequences up to ASCII letter case.
pub open spec fn eq_ignore_ascii_case(a: Seq<char>, b: Seq<char>) -> bool {
    &&& a.len() == b.len()
    &&& forall|i: int| 0 <= i < a.len() ==> lower_ascii_code(a[i]) == lower_ascii_code(b[i])
}

/// Compare two strings for equality up to ASCII letter case.
pub fn str_eq_ignore_ascii_case(a: &str, b: &str) -> (r: bool)
    ensures
        r == eq_ignore_ascii_case(a@, b@),
{
    let alen = a.unicode_len();
    let blen = b.unicode_len();
    if alen != blen {
        return false;
    }
    let mut i: usize = 0;
    while i < alen
        invariant
            i <= alen,
            alen == a@.len(),
            alen == b@.len(),
            forall|j: int| 0 <= j < i ==> lower_ascii_code(a@[j]) == lower_ascii_code(b@[j]),
        decreases alen - i,
    {
        let ca = a.get_char(i) as u32;
        let cb = b.get_char(i) as u32;
        let fa = if 65 <= ca && ca <= 90 { ca + 32 } else { ca };
        let fb = if 65 <= cb && cb <= 90 { cb + 32 } else { cb };
        if fa != fb {
            return false;
        }
        i += 1;
    }
    true
}

/// Check a candidate state or snapshot name against the naming grammar.
pub fn name_is_valid(s: &str) -> (r: bool)
    ensures
        r == valid_name(s@),
{
    let n = s.unicode_len();
    if n == 0 {
        return false;
    }
    let mut i: usize = 0;
    while i < n
        invariant
            i <= n,
            n == s@.len(),
            forall|j: int| 0 <= j < i ==> s@[j] != '/' && s@[j] != '@',
        decreases n - i,
    {
        let c = s.get_char(i);
        if c == '/' || c == '@' {
            return false;
        }
        i += 1;
    }
    true
}

/// A state: a named, mutable, copy-on-write storage container holding a
/// VM's disk image. Its identity is its name, which always satisfies
/// [`valid_name`].
#[derive(Debug, Hash)]
pub struct State {
    name: String,
}

impl View for State {
    type V = Seq<char>;

    closed spec fn view(&self) -> Seq<char> {
        self.name@
    }
}

impl State {
    #[verifier::type_invariant]
    spec fn type_inv(self) -> bool {
        valid_name(self.name@)
    }

    /// Create a new state identifier from a name.
    ///
    /// Succeeds exactly on the names that [`valid_name`] accepts; the
    /// resulting identifier carries the given name unchanged.
    pub fn new(name: &str) -> (r: Result<State, String>)
        ensures
            r is Ok <==> valid_name(name@),
            r matches Ok(s) ==> s@ == name@,
            r matches Err(m) ==> m@ == (if name@.len() == 0 {
                "State name cannot be empty"@
            } else {
                "State name cannot contain '/' or '@'"@
            }),
    {
        if name.unicode_len() == 0 {
            return Err(String::from_str("State name cannot be empty"));
        }
        if !name_is_valid(name) {
            return Err(String::from_str("State name cannot contain '/' or '@'"));
        }
        Ok(State { name: String::from_str(name) })
    }

    /// Get the state name.
    pub fn name(&self) -> (r: &str)
        ensures
            r@ == self@,
    {
        self.name.as_str()
    }

    /// The self-named default state of a slot: the state whose name equals
    /// the slot's own identifier.
    pub fn of_slot(slot: Slot) -> (r: State)
        ensures
            r@ == slot.name_spec(),
    {
        proof {
            lemma_slot_name_valid(slot);
        }
        State { name: String::from_str(slot.as_str()) }
    }
}

/// Every slot identifier is itself an acceptable state name.
pub proof fn lemma_slot_name_valid(slot: Slot)
    ensures
        valid_name(slot.name_spec()),
{
    reveal_strlit("slot1");
    reveal_strlit("slot2");
    reveal_strlit("slot3");
    reveal_strlit("slot4");
    reveal_strlit("slot5");
}

impl Clone for State {
    fn clone(&self) -> (r: Self)
        ensures
            r@ == self@,
    {
        proof {
            use_type_invariant(self);
        }
        State { name: self.name.clone() }
    }
}

impl PartialEq for State {
    fn eq(&self, other: &Self) -> bool {
        self.name == other.name
    }
}

impl vstd::std_specs::cmp::PartialEqSpecImpl for State {
    open spec fn obeys_eq_spec() -> bool {
        true
    }

    open spec fn eq_spec(&self, other: &Self) -> bool {
        self.view() == other.view()
    }
}

/// A snapshot name: an immutable, named, point-in-time copy of a state is
/// identified by the pair of the owning state's name and this name, which
/// always satisfies [`valid_name`].
#[derive(Debug, Hash)]
pub struct Snapshot {
    name: String,
}

impl View for Snapshot {
    type V = Seq<char>;

    closed spec fn view(&self) -> Seq<char> {
        self.name@
    }
}

impl Snapshot {
    #[verifier::type_invariant]
    spec fn type_inv(self) -> bool {
        valid_name(self.name@)
    }

    /// Create a new snapshot identifier from a name.
    ///
    /// Succeeds exactly on the names that [`valid_name`] accepts; the
    /// resulting identifier carries the given name unchanged.
    pub fn new(name: &str) -> (r: Result<Snapshot, String>)
        ensures
            r is Ok <==> valid_name(name@),
            r matches Ok(s) ==> s@ == name@,
            r matches Err(m) ==> m@ == (if name@.len() == 0 {
                "Snapshot name cannot be empty"@
            } else {
                "Snapshot name cannot contain '/' or '@'"@
            }),
    {
        if name.unicode_len() == 0 {
            return Err(String::from_str("Snapshot name cannot be empty"));
        }
        if !name_is_valid(name) {
            return Err(String::from_str("Snapshot name cannot contain '/' or '@'"));
        }
        Ok(Snapshot { name: String::from_str(name) })
    }

    /// Get the snapshot name.
    pub fn name(&self) -> (r: &str)
        ensures
            r@ == self@,
    {
        self.name.as_str()
    }

}

impl Clone for Snapshot {
    fn clone(&self) -> (r: Self)
        ensures
            r@ == self@,
    {
        proof {
            use_type_invariant(self);
        }
        Snapshot { name: self.name.clone() }
    }
}

impl PartialEq for Snapshot {
    fn eq(&self, other: &Self) -> bool {
        self.name == other.name
    }
}

impl vstd::std_specs::cmp::PartialEqSpecImpl for Snapshot {
    open spec fn obeys_eq_spec() -> bool {
        true
    }

    open spec fn eq_spec(&self, other: &Self) -> bool {
        self.view() == other.view()
    }
}

/// Information about a slot: its resolved state and whether its service
/// is running.
#[derive(Debug)]
pub struct SlotInfo {
    pub slot: Slot,
    pub assigned_state: State,
    pub running: bool,
}

/// The mathematical content of a [`SlotInfo`].
pub struct SlotInfoV {
    pub slot: Slot,
    pub assigned_state: Seq<char>,
    pub running: bool,
}

impl View for SlotInfo {
    type V = SlotInfoV;

    open spec fn view(&self) -> SlotInfoV {
        SlotInfoV { slot: self.slot, assigned_state: self.assigned_state@, running: self.running }
    }
}

/// Information about a state as reported by the storage engine.
#[derive(Debug)]
pub struct StateInfo {
    pub state: State,
    pub used_bytes: u64,
    pub available_bytes: u64,
    pub zfs_dataset: String,
}

/// The mathematical content of a [`StateInfo`].
pub struct StateInfoV {
    pub state: Seq<char>,
    pub used_bytes: u64,
    pub available_bytes: u64,
    pub zfs_dataset: Seq<char>,
}

impl View for StateInfo {
    type V = StateInfoV;

    open spec fn view(&self) -> StateInfoV {
        StateInfoV {
            state: self.state@,
            used_bytes: self.used_bytes,
            available_bytes: self.available_bytes,
            zfs_dataset: self.zfs_dataset@,
        }
    }
}

/// Information about a snapshot as reported by the storage engine.
#[derive(Debug)]
pub struct SnapshotInfo {
    pub state: State,
    pub snapshot: Snapshot,
    pub full_name: String,
    pub used_bytes: u64,
}

/// The mathematical content of a [`SnapshotInfo`].
pub struct SnapshotInfoV {
    pub state: Seq<char>,
    pub snapshot: Seq<char>,
    pub full_name: Seq<char>,
    pub used_bytes: u64,
}

impl View for SnapshotInfo {
    type V = SnapshotInfoV;

    open spec fn view(&self) -> SnapshotInfoV {
        SnapshotInfoV {
            state: self.state@,
            snapshot: self.snapshot@,
            full_name: self.full_name@,
            used_bytes: self.used_bytes,
        }
    }
}

impl Clone for SlotInfo {
    fn clone(&self) -> (r: Self)
        ensures
            r@ == self@,
    {
        SlotInfo {
            slot: self.slot,
            assigned_state: self.assigned_state.clone(),
            running: self.running,
        }
    }
}

impl Clone for StateInfo {
    fn clone(&self) -> (r: Self)
        ensures
            r@ == self@,
    {
        StateInfo {
            state: self.state.clone(),
            used_bytes: self.used_bytes,
            available_bytes: self.available_bytes,
            zfs_dataset: self.zfs_dataset.clone(),
        }
    }
}

impl Clone for SnapshotInfo {
    fn clone(&self) -> (r: Self)
        ensures
            r@ == self@,
    {
        SnapshotInfo {
            state: self.state.clone(),
            snapshot: self.snapshot.clone(),
            full_name: self.full_name.clone(),
            used_bytes: self.used_bytes,
        }
    }
}

/// Compare two strings for equality of their character sequences.
pub fn str_eq(a: &str, b: &str) -> (r: bool)
    ensures
        r == (a@ == b@),
{
    let alen = a.unicode_len();
    let blen = b.unicode_len();
    if alen != blen {
        return false;
    }
    let mut i: usize = 0;
    while i < alen
        invariant
            i <= alen,
            alen == a@.len(),
            alen == b@.len(),
            forall|j: int| 0 <= j < i ==> a@[j] == b@[j],
        decreases alen - i,
    {
        if a.get_char(i) != b.get_char(i) {
            return false;
        }
        i += 1;
    }
    proof {
        assert(a@ =~= b@);
    }
    true
}

} // verus!
