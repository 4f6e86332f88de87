//! Worker decisions: what the worker pool does with each lifecycle action.
//!
//! The channel receive, the thread fan-out, and the blocking of the load
//! call itself live outside the library; the decisions they drive are
//! here, as functions from state and event to next state and output.
//! Every failure is terminal for that one resource and local: nothing
//! here panics, aborts other loads, or leaves the allocator's invariant
//! broken.

use vstd::prelude::*;

use crate::res::store::is_lcm;
use crate::res::store::Metadata;
use crate::res::store::PlacedData;
use crate::res::store::Storage;
use crate::res::store::Stored;
use crate::res::store::INDEX_SIZE;
use crate::res::Action;
use crate::res::Sender;
use crate::res::Data;
use crate::res::LoadError;
use crate::res::RefEntry;
use crate::res::Registry;
use crate::res::Source;

verus! {

/// Metadata the allocator can place: a well-formed mesh description whose
/// copied range fits the machine's addressing. Anything else is abandoned
/// as a failed load would be.
pub open spec fn placeable(meta: Metadata) -> bool {
    &&& meta.is_mesh()
    &&& meta.wf()
    &&& meta.mesh().dest_len() <= usize::MAX
    &&& meta.mesh().data_offset <= usize::MAX
}

/// Runtime check for `placeable`.
pub fn meta_placeable(meta: &Metadata) -> (r: bool)
    ensures
        r == placeable(*meta),
{
    match meta {
        Metadata::Mesh(m) => {
            if m.vertex_size < 1 {
                return false;
            }
            if m.vertex_size.checked_mul(INDEX_SIZE).is_none() {
                return false;
            }
            let body = match m.vertex_count.checked_mul(m.vertex_size) {
                Some(p) => p,
                None => {
                    return false;
                },
            };
            let total = match m.vertex_offset.checked_add(body) {
                Some(t) => t,
                None => {
                    return false;
                },
            };
            if m.data_offset > total {
                return false;
            }
            let dest = total - m.data_offset;
            dest <= usize::MAX as u64 && m.data_offset <= usize::MAX as u64
        },
        Metadata::Texture => false,
    }
}

/// Nothing observable changed in the storage or the identity table.
pub open spec fn untouched(s0: Storage, s1: Storage, r0: Registry, r1: Registry) -> bool {
    &&& s1.entries() == s0.entries()
    &&& s1.free_set() == s0.free_set()
    &&& r1.live() == r0.live()
}

/// Decide what a finished load attempt does, exactly, for every possible
/// load result. A failed load changes nothing: the resource stays
/// permanently unloaded. A successful load is placed — and the shared
/// loaded flag set — unless the identity is already gone (a removal raced
/// ahead of the load, so the placement would be orphaned), the metadata is
/// not placeable, or no aligned free region fits; each of those abandons
/// the placement and changes nothing.
pub fn complete_load(
    id: u64,
    result: Result<Data, LoadError>,
    reg: &mut Registry,
    storage: &mut Storage,
) -> (r: Option<PlacedData>)
    requires
        old(reg).wf(),
        old(storage).wf(),
        !old(storage).entries().contains_key(id),
    ensures
        final(reg).wf(),
        final(storage).wf(),
        final(reg).next() == old(reg).next(),
        final(storage).capacity_int() == old(storage).capacity_int(),
        match result {
            Err(_) => r is None && untouched(*old(storage), *final(storage), *old(reg), *final(reg)),
            Ok(data) => {
                if !old(reg).live().contains_key(id) || !placeable(data.meta) {
                    r is None && untouched(*old(storage), *final(storage), *old(reg), *final(reg))
                } else {
                    match r {
                        Some(pd) => {
                            &&& pd.data == data.data
                            &&& pd.to_load.interval.wf()
                            &&& pd.to_load.interval.length() == data.meta.mesh().dest_len()
                            &&& pd.to_load.interval.start_int() % (
                            data.meta.mesh().vertex_size as int) == 0
                            &&& pd.to_load.interval.start_int() % (INDEX_SIZE as int) == 0
                            &&& pd.to_load.from.start == data.meta.mesh().data_offset
                            &&& pd.to_load.from.end == data.meta.mesh().dest_len()
                            &&& pd.to_load.interval.addrs().subset_of(old(storage).free_set())
                            &&& forall|al: int, a: int|
                                is_lcm(
                                    data.meta.mesh().vertex_size as int,
                                    INDEX_SIZE as int,
                                    al,
                                ) && 0 <= a < pd.to_load.interval.start_int() && #[trigger] (a
                                    % al) == 0 ==> !old(storage).can_place(
                                    a,
                                    data.meta.mesh().dest_len(),
                                )
                            &&& final(storage).entries() == old(storage).entries().insert(
                                id,
                                (Stored { meta: data.meta, interval: pd.to_load.interval }),
                            )
                            &&& final(storage).free_set() == old(storage).free_set().difference(
                                pd.to_load.interval.addrs(),
                            )
                            &&& final(reg).live() == old(reg).live().insert(
                                id,
                                (RefEntry { refs: old(reg).live()[id].refs, loaded: true }),
                            )
                        },
                        None => {
                            &&& untouched(
                                *old(storage),
                                *final(storage),
                                *old(reg),
                                *final(reg),
                            )
                            &&& forall|al: int, a: int|
                                is_lcm(
                                    data.meta.mesh().vertex_size as int,
                                    INDEX_SIZE as int,
                                    al,
                                ) && #[trigger] (a % al) == 0 ==> !old(storage).can_place(
                                    a,
                                    data.meta.mesh().dest_len(),
                                )
                        },
                    }
                }
            },
        },
{
    let data = match result {
        Ok(d) => d,
        Err(_) => {
            return None;
        },
    };
    if !reg.contains(id) {
        return None;
    }
    if !meta_placeable(&data.meta) {
        return None;
    }
    match storage.add(id, data.meta) {
        None => None,
        Some(dc) => {
            let _marked = reg.mark_loaded(id);
            Some(PlacedData { to_load: dc, data: data.data })
        },
    }
}

/// One worker step: dispatch one action drained from the mailbox. `Add`
/// invokes the source and completes the load; `Remove` reclaims the id's
/// storage, a silent no-op when the id was never placed (the load failed,
/// capacity was exhausted, or the removal raced ahead of placement).
pub fn process_action<S: Source>(action: Action<S>, reg: &mut Registry, storage: &mut Storage) -> (r:
    Option<PlacedData>)
    requires
        old(reg).wf(),
        old(storage).wf(),
        action matches Action::Add(info) ==> !old(storage).entries().contains_key(info.id),
    ensures
        final(reg).wf(),
        final(storage).wf(),
        final(reg).next() == old(reg).next(),
        final(reg).live().dom() == old(reg).live().dom(),
        final(storage).capacity_int() == old(storage).capacity_int(),
        match action {
            Action::Add(info) => {
                &&& final(storage).entries().dom().subset_of(
                    old(storage).entries().dom().insert(info.id),
                )
                &&& r matches Some(pd) ==> {
                    &&& final(storage).entries().contains_key(info.id)
                    &&& final(storage).entries()[info.id].interval == pd.to_load.interval
                    &&& final(reg).live().contains_key(info.id)
                    &&& final(reg).live()[info.id].loaded
                }
            },
            Action::Remove(id) => {
                &&& r is None
                &&& final(reg).live() == old(reg).live()
                &&& old(storage).entries().contains_key(id) ==> final(storage).entries() == old(
                    storage,
                ).entries().remove(id) && final(storage).free_set() == old(
                    storage,
                ).free_set().union(old(storage).entries()[id].interval.addrs())
                &&& !old(storage).entries().contains_key(id) ==> final(storage).entries() == old(
                    storage,
                ).entries() && final(storage).free_set() == old(storage).free_set()
            },
        },
{
    match action {
        Action::Add(info) => {
            let result = info.src.load();
            complete_load(info.id, result, reg, storage)
        },
        Action::Remove(id) => {
            let _meta = storage.remove(id);
            None
        },
    }
}

/// The structural lifecycle guarantee on a queue of pending actions: no
/// `Add` names an id that is already placed, and no id is added twice.
pub open spec fn adds_admissible<S>(actions: Seq<Action<S>>, entries: Map<u64, Stored>) -> bool {
    &&& forall|i: int|
        0 <= i < actions.len() && actions[i] is Add ==> !entries.contains_key(
            (#[trigger] actions[i])->Add_0.id,
        )
    &&& forall|i: int, j: int|
        0 <= i < j < actions.len() && actions[i] is Add && actions[j] is Add ==> (
        #[trigger] actions[i])->Add_0.id != (#[trigger] actions[j])->Add_0.id
}

/// No action after position `i` of the queue adds the id again.
pub open spec fn no_later_add<S>(actions: Seq<Action<S>>, i: int, id: u64) -> bool {
    forall|j: int|
        i < j < actions.len() && (#[trigger] actions[j]) is Add ==> actions[j]->Add_0.id != id
}

/// Consume the whole mailbox in arrival order, one worker step per action,
/// collecting every produced placement. Afterwards every `Remove` has had
/// its effect: an id whose removal was queued, and which no later action
/// adds again, holds no placement — its storage was reclaimed (or it was
/// never placed, the silent no-op the design asks for). What each single
/// step does is `process_action`'s contract; what an `Add` places is fixed
/// by `complete_load` for every possible load result.
#[verifier::loop_isolation(false)]
pub fn process_all<S: Source>(
    sender: &mut Sender<S>,
    reg: &mut Registry,
    storage: &mut Storage,
    out: &mut Vec<PlacedData>,
)
    requires
        old(reg).wf(),
        old(storage).wf(),
        adds_admissible(old(sender).actions(), old(storage).entries()),
    ensures
        final(reg).wf(),
        final(storage).wf(),
        final(reg).next() == old(reg).next(),
        final(reg).live().dom() == old(reg).live().dom(),
        final(sender).actions().len() == 0,
        final(sender).capacity_spec() == old(sender).capacity_spec(),
        final(storage).capacity_int() == old(storage).capacity_int(),
        old(out)@.is_prefix_of(final(out)@),
        forall|i: int|
            0 <= i < old(sender).actions().len() && (#[trigger] old(sender).actions()[i]) is Remove
                && no_later_add(old(sender).actions(), i, old(sender).actions()[i]->Remove_0)
                ==> !final(storage).entries().contains_key(old(sender).actions()[i]->Remove_0),
{
    let ghost orig = old(sender).actions();
    let ghost mut done: int = 0;
    proof {
        assert(orig.skip(0) =~= orig);
    }
    while sender.len() != 0
        invariant
            reg.wf(),
            storage.wf(),
            adds_admissible(sender.actions(), storage.entries()),
            sender.capacity_spec() == old(sender).capacity_spec(),
            storage.capacity_int() == old(storage).capacity_int(),
            old(out)@.is_prefix_of(out@),
            reg.next() == old(reg).next(),
            reg.live().dom() == old(reg).live().dom(),
            0 <= done <= orig.len(),
            sender.actions() == orig.skip(done),
            forall|i: int|
                0 <= i < done && (#[trigger] orig[i]) is Remove && no_later_add(
                    orig,
                    i,
                    orig[i]->Remove_0,
                ) ==> !storage.entries().contains_key(orig[i]->Remove_0),
        decreases sender.actions().len(),
    {
        let ghost pre_actions = sender.actions();
        let ghost pre_entries = storage.entries();
        let action = sender.recv().unwrap();
        proof {
            assert(pre_actions[0] == action);
            assert(orig[done] == action);
            if action is Add {
                assert(!pre_entries.contains_key(action->Add_0.id));
            }
        }
        let placed = process_action(action, reg, storage);
        if let Some(pd) = placed {
            out.push(pd);
        }
        proof {
            done = done + 1;
            assert(orig[done - 1] == action);
            assert(pre_actions.drop_first() =~= orig.skip(done));
            // The remaining queue is still admissible: its adds name other
            // ids than the one just processed, and were absent before.
            let rest = sender.actions();
            assert forall|i: int|
                0 <= i < rest.len() && rest[i] is Add implies !storage.entries().contains_key(
                (#[trigger] rest[i])->Add_0.id,
            ) by {
                assert(rest[i] == pre_actions[i + 1]);
                assert(!pre_entries.contains_key(rest[i]->Add_0.id));
                if action is Add {
                    assert(rest[i]->Add_0.id != action->Add_0.id);
                }
            }
            assert forall|i: int, j: int|
                0 <= i < j < rest.len() && rest[i] is Add && rest[j] is Add implies (
            #[trigger] rest[i])->Add_0.id != (#[trigger] rest[j])->Add_0.id by {
                assert(rest[i] == pre_actions[i + 1]);
                assert(rest[j] == pre_actions[j + 1]);
            }
            // Every processed removal keeps its effect: the step just taken
            // either was that removal, or could at most re-add its own
            // (different) id.
            assert forall|i: int|
                0 <= i < done && (#[trigger] orig[i]) is Remove && no_later_add(
                    orig,
                    i,
                    orig[i]->Remove_0,
                ) implies !storage.entries().contains_key(orig[i]->Remove_0) by {
                let id = orig[i]->Remove_0;
                if i < done - 1 {
                    assert(!pre_entries.contains_key(id));
                    if action is Add {
                        assert(action->Add_0.id != id);
                    }
                }
            }
        }
    }
    proof {
        assert(orig.skip(done).len() == 0);
        assert(done == orig.len());
    }
}

} // verus!
