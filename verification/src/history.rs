use vstd::prelude::*;
use crate::record::UserData;
use crate::store::StoreModel;

verus! {

/// One change to a store, as its caller saw it.
pub enum StoreOp {
    /// An insertion of a record, which returned the handle.
    Insert(usize, UserData),
    /// An update of the record under the handle.
    Update(usize, UserData),
    /// A removal of the handle.
    Remove(usize),
}

/// The store after one change.
pub open spec fn apply(store: StoreModel, op: StoreOp) -> StoreModel {
    match op {
        StoreOp::Insert(id, record) => store.insert(id, record),
        StoreOp::Update(id, record) => store.update(id, record),
        StoreOp::Remove(id) => store.remove(id),
    }
}

/// The store after a history of changes to a new store.
pub open spec fn replay(ops: Seq<StoreOp>) -> StoreModel
    decreases ops.len(),
{
    if ops.len() == 0 {
        StoreModel::empty()
    } else {
        apply(replay(ops.drop_last()), ops.last())
    }
}

/// Whether `op` is an insertion that returned `id`.
pub open spec fn inserts(op: StoreOp, id: usize) -> bool {
    match op {
        StoreOp::Insert(given, _) => given == id,
        _ => false,
    }
}

/// Whether the change at position `at` is an insertion that returned `id`.
pub open spec fn inserted_at(ops: Seq<StoreOp>, at: int, id: usize) -> bool {
    0 <= at < ops.len() && inserts(ops[at], id)
}

/// Whether `id` is removed somewhere after position `at`.
pub open spec fn removed_after(ops: Seq<StoreOp>, at: int, id: usize) -> bool {
    exists|later: int| at < later < ops.len() && #[trigger] ops[later] == StoreOp::Remove(id)
}

/// Whether `id` was inserted and not removed since.
pub open spec fn outstanding(ops: Seq<StoreOp>, id: usize) -> bool {
    exists|at: int| #[trigger] inserted_at(ops, at, id) && !removed_after(ops, at, id)
}

/// After any history, the live handles are exactly those that were inserted
/// and not removed since.
pub proof fn lemma_live_handles_are_outstanding(ops: Seq<StoreOp>)
    ensures
        forall|id: usize| replay(ops).live.contains_key(id) <==> outstanding(ops, id),
    decreases ops.len(),
{
    if ops.len() == 0 {
        assert forall|id: usize| !outstanding(ops, id) by {
            assert forall|at: int| !inserted_at(ops, at, id) by {}
        }
    } else {
        let before = ops.drop_last();
        let op = ops.last();
        let n = ops.len() - 1;
        lemma_live_handles_are_outstanding(before);
        assert forall|id: usize| replay(ops).live.contains_key(id) <==> outstanding(ops, id) by {
            let ends_with_insert = inserts(op, id);
            let ends_with_remove = op == StoreOp::Remove(id);
            if ends_with_insert {
                assert(inserted_at(ops, n, id));
                assert(!removed_after(ops, n, id));
            } else if ends_with_remove {
                assert forall|at: int| inserted_at(ops, at, id) implies removed_after(ops, at, id) by {
                    assert(ops[n] == StoreOp::Remove(id));
                }
            } else {
                if outstanding(before, id) {
                    let at = choose|at: int| #[trigger]
                        inserted_at(before, at, id) && !removed_after(before, at, id);
                    assert(inserted_at(ops, at, id));
                    assert forall|later: int| at < later < ops.len() implies #[trigger] ops[later]
                        != StoreOp::Remove(id) by {
                        if later < n {
                            assert(before[later] == ops[later]);
                        }
                    }
                }
                if outstanding(ops, id) {
                    let at = choose|at: int| #[trigger]
                        inserted_at(ops, at, id) && !removed_after(ops, at, id);
                    assert(at < n);
                    assert(inserted_at(before, at, id));
                    assert forall|later: int| at < later < before.len() implies #[trigger] before[later]
                        != StoreOp::Remove(id) by {
                        assert(before[later] == ops[later]);
                    }
                }
            }
        }
    }
}

} // verus!
