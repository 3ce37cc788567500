//! The assignment store: the persisted binding from each slot to the name
//! of the state currently bound to it.
//!
//! A slot with no explicit binding resolves to a state named after the slot
//! itself. The table is the sole source of truth for slot-to-state binding;
//! the shell around the library loads it from and saves it back to the
//! persisted file in full.

use vstd::prelude::*;
use crate::types::{Slot, State};

verus! {

/// The state name a slot resolves to under a binding map: the bound name,
/// or the slot's own name where no binding exists.
pub open spec fn resolve_in(m: Map<Slot, Seq<char>>, slot: Slot) -> Seq<char> {
    if m.dom().contains(slot) {
        m[slot]
    } else {
        slot.name_spec()
    }
}

/// The in-memory assignment table: at most one bound state per slot.
#[derive(Debug)]
pub struct AssignmentTable {
    slot1: Option<State>,
    slot2: Option<State>,
    slot3: Option<State>,
    slot4: Option<State>,
    slot5: Option<State>,
}

impl AssignmentTable {
    /// The explicit binding of one slot, if any.
    pub closed spec fn entry(&self, k: Slot) -> Option<Seq<char>> {
        match k {
            Slot::Slot1 => match self.slot1 {
                Some(st) => Some(st@),
                None => None,
            },
            Slot::Slot2 => match self.slot2 {
                Some(st) => Some(st@),
                None => None,
            },
            Slot::Slot3 => match self.slot3 {
                Some(st) => Some(st@),
                None => None,
            },
            Slot::Slot4 => match self.slot4 {
                Some(st) => Some(st@),
                None => None,
            },
            Slot::Slot5 => match self.slot5 {
                Some(st) => Some(st@),
                None => None,
            },
        }
    }

    /// An empty table: every slot falls back to its self-named default.
    pub fn new() -> (r: AssignmentTable)
        ensures
            r@ == Map::<Slot, Seq<char>>::empty(),
    {
        let r = AssignmentTable {
            slot1: None,
            slot2: None,
            slot3: None,
            slot4: None,
            slot5: None,
        };
        proof {
            assert(r@ =~= Map::<Slot, Seq<char>>::empty());
        }
        r
    }

    /// The state the slot currently resolves to: its bound state, or the
    /// self-named default where no binding exists.
    pub fn resolve(&self, slot: Slot) -> (r: State)
        ensures
            r@ == resolve_in(self@, slot),
    {
        let bound: &Option<State> = match slot {
            Slot::Slot1 => &self.slot1,
            Slot::Slot2 => &self.slot2,
            Slot::Slot3 => &self.slot3,
            Slot::Slot4 => &self.slot4,
            Slot::Slot5 => &self.slot5,
        };
        match bound {
            Some(st) => st.clone(),
            None => State::of_slot(slot),
        }
    }

    /// Bind the slot to the state, replacing any earlier binding. Every
    /// other slot resolves as before.
    pub fn bind(&mut self, slot: Slot, state: &State)
        ensures
            final(self)@ == old(self)@.insert(slot, state@),
    {
        match slot {
            Slot::Slot1 => self.slot1 = Some(state.clone()),
            Slot::Slot2 => self.slot2 = Some(state.clone()),
            Slot::Slot3 => self.slot3 = Some(state.clone()),
            Slot::Slot4 => self.slot4 = Some(state.clone()),
            Slot::Slot5 => self.slot5 = Some(state.clone()),
        }
        proof {
            assert(self@ =~= old(self)@.insert(slot, state@));
        }
    }

    /// The full mapping of all slots to their resolved states, in the
    /// canonical slot order.
    pub fn all_resolved(&self) -> (r: Vec<(Slot, State)>)
        ensures
            r@.len() == Slot::all_spec().len(),
            forall|i: int|
                0 <= i < r@.len() ==> r@[i].0 == Slot::all_spec()[i] && (r@[i].1)@ == resolve_in(
                    self@,
                    Slot::all_spec()[i],
                ),
    {
        let slots = Slot::all();
        let mut r: Vec<(Slot, State)> = Vec::new();
        let mut i: usize = 0;
        while i < slots.len()
            invariant
                i <= slots@.len(),
                slots@ == Slot::all_spec(),
                r@.len() == i,
                forall|j: int|
                    0 <= j < i ==> r@[j].0 == Slot::all_spec()[j] && (r@[j].1)@ == resolve_in(
                        self@,
                        Slot::all_spec()[j],
                    ),
            decreases slots@.len() - i,
        {
            let slot = slots[i];
            let st = self.resolve(slot);
            r.push((slot, st));
            i += 1;
        }
        r
    }

    /// Whether the slot has an explicit binding.
    pub fn is_bound(&self, slot: Slot) -> (r: bool)
        ensures
            r == self@.dom().contains(slot),
    {
        let bound: &Option<State> = match slot {
            Slot::Slot1 => &self.slot1,
            Slot::Slot2 => &self.slot2,
            Slot::Slot3 => &self.slot3,
            Slot::Slot4 => &self.slot4,
            Slot::Slot5 => &self.slot5,
        };
        bound.is_some()
    }

    /// The explicit bindings, in canonical slot order: what the persisted
    /// file holds. Slots on their self-named default do not appear.
    pub fn bound(&self) -> (r: Vec<(Slot, State)>)
        ensures
            forall|i: int|
                0 <= i < r@.len() ==> self@.dom().contains(#[trigger] r@[i].0) && self@[r@[i].0]
                    == (r@[i].1)@,
            forall|slot: Slot|
                self@.dom().contains(slot) ==> exists|i: int|
                    0 <= i < r@.len() && (#[trigger] r@[i]).0 == slot,
    {
        let slots = Slot::all();
        let mut r: Vec<(Slot, State)> = Vec::new();
        let mut i: usize = 0;
        while i < slots.len()
            invariant
                i <= slots@.len(),
                slots@ == Slot::all_spec(),
                forall|m: int|
                    0 <= m < r@.len() ==> self@.dom().contains(#[trigger] r@[m].0) && self@[r@[m].0]
                        == (r@[m].1)@,
                forall|j: int|
                    0 <= j < i && self@.dom().contains(#[trigger] slots@[j]) ==> exists|m: int|
                        0 <= m < r@.len() && (#[trigger] r@[m]).0 == slots@[j],
            decreases slots@.len() - i,
        {
            let slot = slots[i];
            if self.is_bound(slot) {
                let st = self.resolve(slot);
                let ghost prev = r@;
                r.push((slot, st));
                proof {
                    assert forall|j: int|
                        0 <= j < i + 1 && self@.dom().contains(
                            #[trigger] slots@[j],
                        ) implies exists|m: int|
                        0 <= m < r@.len() && (#[trigger] r@[m]).0 == slots@[j] by {
                        if j < i {
                            let m = choose|m: int|
                                0 <= m < prev.len() && (#[trigger] prev[m]).0 == slots@[j];
                            assert(r@[m] == prev[m]);
                        } else {
                            assert(r@[r@.len() - 1].0 == slots@[j]);
                        }
                    }
                }
            }
            i += 1;
        }
        proof {
            assert forall|slot: Slot| self@.dom().contains(slot) implies exists|m: int|
                0 <= m < r@.len() && (#[trigger] r@[m]).0 == slot by {
                match slot {
                    Slot::Slot1 => {
                        assert(Slot::all_spec()[0] == slot);
                    },
                    Slot::Slot2 => {
                        assert(Slot::all_spec()[1] == slot);
                    },
                    Slot::Slot3 => {
                        assert(Slot::all_spec()[2] == slot);
                    },
                    Slot::Slot4 => {
                        assert(Slot::all_spec()[3] == slot);
                    },
                    Slot::Slot5 => {
                        assert(Slot::all_spec()[4] == slot);
                    },
                }
            }
        }
        r
    }

    /// The bindings a sequence of pairs builds up, later pairs replacing
    /// earlier ones with the same slot.
    pub open spec fn map_of_pairs(pairs: Seq<(Slot, Seq<char>)>) -> Map<Slot, Seq<char>>
        decreases pairs.len(),
    {
        if pairs.len() == 0 {
            Map::<Slot, Seq<char>>::empty()
        } else {
            Self::map_of_pairs(pairs.drop_last()).insert(pairs.last().0, pairs.last().1)
        }
    }

    /// Build a table from explicit bindings, later pairs replacing earlier
    /// ones with the same slot.
    pub fn from_pairs(pairs: &Vec<(Slot, State)>) -> (r: AssignmentTable)
        ensures
            r@ == Self::map_of_pairs(pairs@.map_values(|p: (Slot, State)| (p.0, p.1@))),
    {
        let mut r = AssignmentTable::new();
        let mut i: usize = 0;
        proof {
            let pv = pairs@.map_values(|p: (Slot, State)| (p.0, p.1@));
            assert(r@ =~= Self::map_of_pairs(pv.subrange(0, 0)));
        }
        while i < pairs.len()
            invariant
                i <= pairs@.len(),
                r@ == Self::map_of_pairs(
                    pairs@.map_values(|p: (Slot, State)| (p.0, p.1@)).subrange(0, i as int),
                ),
            decreases pairs@.len() - i,
        {
            proof {
                let pv = pairs@.map_values(|p: (Slot, State)| (p.0, p.1@));
                assert(pv.subrange(0, i + 1).drop_last() =~= pv.subrange(0, i as int));
                assert(pv.subrange(0, i + 1).last() == pv[i as int]);
            }
            let slot = pairs[i].0;
            r.bind(slot, &pairs[i].1);
            i += 1;
        }
        proof {
            let pv = pairs@.map_values(|p: (Slot, State)| (p.0, p.1@));
            assert(pv.subrange(0, pv.len() as int) =~= pv);
        }
        r
    }
}

impl View for AssignmentTable {
    type V = Map<Slot, Seq<char>>;

    closed spec fn view(&self) -> Map<Slot, Seq<char>> {
        Map::new(|k: Slot| self.entry(k) is Some, |k: Slot| self.entry(k).unwrap())
    }
}

} // verus!
