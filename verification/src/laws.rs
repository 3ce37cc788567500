//! Laws of the lifecycle: proof functions relating the operations'
//! abstract transitions to one another.

use vstd::prelude::*;
use crate::assignments::resolve_in;
use crate::controller::{
    assign_next, clone_next, create_next, create_ok, delete_next, delete_ok, first_user, has_state,
    names_without, pairs_without, restore_next, slot_running, snapshot_next, start_next, stop_next,
    migrate_next, SysV,
};
use crate::types::Slot;

verus! {

/// No element of the filtered names is the removed one, and every other
/// name survives the filter.
proof fn lemma_names_without_facts(ns: Seq<Seq<char>>, s: Seq<char>)
    ensures
        forall|i: int| 0 <= i < names_without(ns, s).len() ==> names_without(ns, s)[i] != s,
        forall|x: Seq<char>| x != s && ns.contains(x) ==> names_without(ns, s).contains(x),
    decreases ns.len(),
{
    if ns.len() > 0 {
        lemma_names_without_facts(ns.drop_last(), s);
        let rest = names_without(ns.drop_last(), s);
        let whole = names_without(ns, s);
        assert forall|x: Seq<char>| x != s && ns.contains(x) implies whole.contains(x) by {
            let w = choose|w: int| 0 <= w < ns.len() && ns[w] == x;
            if w < ns.len() - 1 {
                assert(ns.drop_last()[w] == x);
                assert(ns.drop_last().contains(x));
                let j = choose|j: int| 0 <= j < rest.len() && rest[j] == x;
                if ns.last() == s {
                    assert(whole[j] == x);
                } else {
                    assert(whole[j] == x);
                }
            } else {
                assert(ns.last() == x);
                assert(whole.last() == x);
            }
        }
    }
}

/// No snapshot pair of the filtered listing belongs to the removed state.
proof fn lemma_pairs_without_facts(ps: Seq<(Seq<char>, Seq<char>)>, s: Seq<char>)
    ensures
        forall|i: int| 0 <= i < pairs_without(ps, s).len() ==> pairs_without(ps, s)[i].0 != s,
    decreases ps.len(),
{
    if ps.len() > 0 {
        lemma_pairs_without_facts(ps.drop_last(), s);
        let rest = pairs_without(ps.drop_last(), s);
        let whole = pairs_without(ps, s);
        assert forall|i: int| 0 <= i < whole.len() implies whole[i].0 != s by {
            if ps.last().0 != s && i == whole.len() - 1 {
                assert(whole.last() == ps.last());
            } else {
                assert(whole[i] == rest[i]);
            }
        }
    }
}

/// Creating a state twice cannot succeed: after a create, a second create
/// of the same name is refused, and the state exists.
pub proof fn lemma_create_then_create_fails(v: SysV, s: Seq<char>)
    requires
        create_ok(v, s),
    ensures
        has_state(create_next(v, s), s),
        !create_ok(create_next(v, s), s),
{
    assert(create_next(v, s).states.last() == s);
}

/// Deleting a state that does not exist is never allowed.
pub proof fn lemma_delete_missing_fails(v: SysV, s: Seq<char>)
    requires
        !has_state(v, s),
    ensures
        !delete_ok(v, s),
{
}

/// After an assignment, the slot resolves to the assigned state, and the
/// resolution is kept by every operation that is not another assignment
/// or bind; an assignment to a different slot leaves it untouched too.
pub proof fn lemma_assign_resolution_is_stable(
    v: SysV,
    slot: Slot,
    s: Seq<char>,
    x: Seq<char>,
    n: Seq<char>,
    other: Slot,
)
    ensures
        resolve_in(assign_next(v, slot, s).assign, slot) == s,
        create_next(v, x).assign == v.assign,
        delete_next(v, x).assign == v.assign,
        clone_next(v, x).assign == v.assign,
        snapshot_next(v, other, n).assign == v.assign,
        restore_next(v, x).assign == v.assign,
        start_next(v, other).assign == v.assign,
        stop_next(v, other).assign == v.assign,
        other != slot ==> resolve_in(assign_next(v, other, x).assign, slot) == resolve_in(
            v.assign,
            slot,
        ),
{
}

/// Deleting a state is refused exactly while some slot resolves to it:
/// a resolving slot makes the in-use check name a witness, and once no
/// slot resolves to an existing state, the delete is allowed and removes
/// the state together with every one of its snapshots.
pub proof fn lemma_delete_in_use(v: SysV, s: Seq<char>)
    ensures
        (exists|sl: Slot| resolve_in(v.assign, sl) == s) ==> first_user(v, s) is Some && !delete_ok(
            v,
            s,
        ),
        ((forall|sl: Slot| resolve_in(v.assign, sl) != s) && has_state(v, s)) ==> delete_ok(v, s),
        delete_ok(v, s) ==> !has_state(delete_next(v, s), s),
        delete_ok(v, s) ==> forall|i: int|
            0 <= i < delete_next(v, s).snaps.len() ==> delete_next(v, s).snaps[i].0 != s,
{
    if exists|sl: Slot| resolve_in(v.assign, sl) == s {
        let sl = choose|sl: Slot| resolve_in(v.assign, sl) == s;
        match sl {
            Slot::Slot1 => {},
            Slot::Slot2 => {},
            Slot::Slot3 => {},
            Slot::Slot4 => {},
            Slot::Slot5 => {},
        }
    }
    lemma_names_without_facts(v.states, s);
    lemma_pairs_without_facts(v.snaps, s);
    if delete_ok(v, s) {
        assert(!has_state(delete_next(v, s), s)) by {
            if names_without(v.states, s).contains(s) {
                let w = choose|w: int|
                    0 <= w < names_without(v.states, s).len() && names_without(v.states, s)[w] == s;
            }
        }
    }
}

/// A clone leaves the destination existing and the source independent of
/// it: the source stays present, deleting the source afterwards is
/// allowed exactly when no slot resolves to it, and that delete leaves
/// the destination intact.
pub proof fn lemma_clone_makes_independent(v: SysV, src: Seq<char>, dst: Seq<char>)
    requires
        has_state(v, src),
        !has_state(v, dst),
    ensures
        has_state(clone_next(v, dst), dst),
        has_state(clone_next(v, dst), src),
        delete_ok(clone_next(v, dst), src) <==> first_user(v, src) is None,
        first_user(v, src) is None ==> has_state(delete_next(clone_next(v, dst), src), dst),
{
    let cv = clone_next(v, dst);
    assert(cv.states.last() == dst);
    assert(has_state(cv, src)) by {
        let w = choose|w: int| 0 <= w < v.states.len() && v.states[w] == src;
        assert(cv.states[w] == src);
    }
    assert(src != dst);
    lemma_names_without_facts(cv.states, src);
    if first_user(v, src) is None {
        assert(cv.states.contains(dst));
        assert(names_without(cv.states, src).contains(dst));
    }
}

/// A migration ends with the slot bound to the state and running,
/// whatever ran before.
pub proof fn lemma_migrate_binds_and_runs(v: SysV, s: Seq<char>, slot: Slot)
    ensures
        resolve_in(migrate_next(v, s, slot).assign, slot) == s,
        slot_running(migrate_next(v, s, slot), slot),
        has_state(migrate_next(v, s, slot), s),
{
    let stopped = if slot_running(v, slot) {
        stop_next(v, slot)
    } else {
        v
    };
    let assigned = assign_next(stopped, slot, s);
    let ended = start_next(assigned, slot);
    assert(has_state(assigned, s)) by {
        if !has_state(stopped, s) {
            assert(assigned.states.last() == s);
        }
    }
    assert(slot_running(ended, slot)) by {
        if !assigned.running.contains(slot) {
            assert(ended.running.last() == slot);
        }
    }
}

} // verus!
