use vstd::prelude::*;
use slab::Slab;
use crate::record::UserData;
use crate::slots::{slab_entries, slab_vacant};

verus! {

/// A slab as a value: the occupied slots with their records, and the stack
/// of vacant slots, the slot that the next insertion takes first.
pub struct SlabModel {
    pub live: Map<usize, UserData>,
    pub free: Seq<usize>,
}

/// The value of a slab.
pub open spec fn model_of(slab: Slab<UserData>) -> SlabModel {
    SlabModel { live: slab_entries(slab), free: slab_vacant(slab) }
}

impl SlabModel {
    /// The slab that holds nothing.
    pub open spec fn empty() -> SlabModel {
        SlabModel { live: Map::empty(), free: Seq::empty() }
    }

    /// The slot that the next insertion takes: the top of the stack of
    /// vacant slots, or a new slot behind the occupied ones.
    pub open spec fn next_key(self) -> int {
        if self.free.len() > 0 {
            self.free[0] as int
        } else {
            self.live.dom().len() as int
        }
    }

    /// The slab after an insertion that took slot `id`.
    pub open spec fn insert(self, id: usize, record: UserData) -> SlabModel {
        SlabModel {
            live: self.live.insert(id, record),
            free: if self.free.len() > 0 {
                self.free.drop_first()
            } else {
                self.free
            },
        }
    }

    /// The slab after the record in slot `id` was replaced.
    pub open spec fn update(self, id: usize, record: UserData) -> SlabModel {
        if self.live.contains_key(id) {
            SlabModel { live: self.live.insert(id, record), free: self.free }
        } else {
            self
        }
    }

    /// The slab after slot `id` was vacated: the slot goes on top of the
    /// stack.
    pub open spec fn remove(self, id: usize) -> SlabModel {
        if self.live.contains_key(id) {
            SlabModel { live: self.live.remove(id), free: seq![id] + self.free }
        } else {
            self
        }
    }

    /// The number of slots, occupied and vacant together.
    pub open spec fn slots(self) -> nat {
        self.live.dom().len() + self.free.len()
    }

    /// What holds of every slab: the occupied slots are finitely many, no
    /// slot is vacant twice, no vacant slot is occupied, and the occupied
    /// and the vacant slots together are exactly the slots below `slots()`.
    pub open spec fn wf(self) -> bool {
        &&& self.live.dom().finite()
        &&& self.free.no_duplicates()
        &&& forall|i: int|
            0 <= i < self.free.len() ==> !self.live.contains_key(#[trigger] self.free[i])
                && self.free[i] < self.slots()
        &&& forall|id: usize| #[trigger] self.live.contains_key(id) ==> id < self.slots()
        &&& forall|id: usize|
            #![trigger self.live.contains_key(id)]
            #![trigger self.free.contains(id)]
            id < self.slots() ==> self.live.contains_key(id) || self.free.contains(id)
    }

    /// Whether the vacant slots stand lowest first.
    pub open spec fn ascending(self) -> bool {
        forall|i: int, j: int| 0 <= i < j < self.free.len() ==> self.free[i] < self.free[j]
    }
}

/// The slab that holds nothing is well formed.
pub proof fn lemma_empty_slab_is_well_formed()
    ensures
        SlabModel::empty().wf(),
        SlabModel::empty().slots() == 0,
{
    let store = SlabModel::empty();
    assert(store.live.dom() =~= Set::<usize>::empty());
}

/// An insertion keeps a slab well formed. It takes up a free handle where
/// there is one, and only where there is none it takes a new one.
pub proof fn lemma_insert_keeps_slab(store: SlabModel, record: UserData)
    requires
        store.wf(),
    ensures
        0 <= store.next_key() <= store.slots(),
        store.next_key() <= usize::MAX ==> store.insert(store.next_key() as usize, record).wf(),
        store.next_key() <= usize::MAX ==> store.insert(store.next_key() as usize, record).slots()
            == if store.free.len() > 0 {
            store.slots()
        } else {
            store.slots() + 1
        },
{
    if store.free.len() > 0 {
        assert(store.free[0] < store.slots());
    }
    if store.next_key() <= usize::MAX {
        let id = store.next_key() as usize;
        let after = store.insert(id, record);
        if store.free.len() > 0 {
            assert(id == store.free[0]);
        }
        assert(!store.live.contains_key(id));
        assert(after.live.dom() =~= store.live.dom().insert(id));
        assert(after.live.dom().len() == store.live.dom().len() + 1);
        assert forall|i: int| 0 <= i < after.free.len() implies !after.live.contains_key(
            #[trigger] after.free[i],
        ) && after.free[i] < after.slots() by {
            assert(after.free[i] == store.free[i + 1]);
        }
        assert forall|k: usize| #[trigger] after.live.contains_key(k) implies k < after.slots() by {
            if k != id {
                assert(store.live.contains_key(k));
            }
        }
        assert forall|k: usize|
            #![trigger after.live.contains_key(k)]
            #![trigger after.free.contains(k)]
            k < after.slots() implies after.live.contains_key(k) || after.free.contains(k) by {
            if k != id && !store.live.contains_key(k) {
                assert(store.free.contains(k));
                let i = choose|i: int| 0 <= i < store.free.len() && store.free[i] == k;
                assert(after.free[i - 1] == k);
            }
        }
    }
}

/// An update keeps a slab well formed.
pub proof fn lemma_update_keeps_slab(store: SlabModel, id: usize, record: UserData)
    requires
        store.wf(),
    ensures
        store.update(id, record).wf(),
        store.update(id, record).slots() == store.slots(),
{
    if store.live.contains_key(id) {
        let after = store.update(id, record);
        assert(after.live.dom() =~= store.live.dom());
        assert forall|k: usize| #[trigger] after.live.contains_key(k) implies k < after.slots() by {
            assert(store.live.contains_key(k));
        }
        assert forall|k: usize|
            #![trigger after.live.contains_key(k)]
            #![trigger after.free.contains(k)]
            k < after.slots() implies after.live.contains_key(k) || after.free.contains(k) by {
            if !store.live.contains_key(k) {
                assert(store.free.contains(k));
            }
        }
    }
}

/// A removal keeps a slab well formed and the number of its slots.
pub proof fn lemma_remove_keeps_slab(store: SlabModel, id: usize)
    requires
        store.wf(),
    ensures
        store.remove(id).wf(),
        store.remove(id).slots() == store.slots(),
{
    if store.live.contains_key(id) {
        let after = store.remove(id);
        assert(after.live.dom() =~= store.live.dom().remove(id));
        assert(after.live.dom().len() == store.live.dom().len() - 1);
        assert(after.free.len() == store.free.len() + 1);
        assert(after.free[0] == id);
        assert forall|i: int| 0 <= i < after.free.len() implies !after.live.contains_key(
            #[trigger] after.free[i],
        ) && after.free[i] < after.slots() by {
            if i > 0 {
                assert(after.free[i] == store.free[i - 1]);
            }
        }
        assert forall|i: int, j: int|
            0 <= i < after.free.len() && 0 <= j < after.free.len() && i != j implies after.free[i]
            != after.free[j] by {
            if i > 0 {
                assert(after.free[i] == store.free[i - 1]);
            }
            if j > 0 {
                assert(after.free[j] == store.free[j - 1]);
            }
        }
        assert forall|k: usize| #[trigger] after.live.contains_key(k) implies k < after.slots() by {
            assert(store.live.contains_key(k));
        }
        assert forall|k: usize|
            #![trigger after.live.contains_key(k)]
            #![trigger after.free.contains(k)]
            k < after.slots() implies after.live.contains_key(k) || after.free.contains(k) by {
            if k != id && !store.live.contains_key(k) {
                assert(store.free.contains(k));
                let i = choose|i: int| 0 <= i < store.free.len() && store.free[i] == k;
                assert(after.free[i + 1] == k);
            }
        }
    }
}

/// Where the vacant slots stand lowest first, and so also where none is
/// vacant, the next insertion takes the lowest slot that is not occupied.
pub proof fn lemma_top_is_lowest_vacant(store: SlabModel)
    requires
        store.wf(),
        store.ascending(),
    ensures
        forall|id: usize| id < store.next_key() ==> store.live.contains_key(id),
{
    assert forall|id: usize| id < store.next_key() implies store.live.contains_key(id) by {
        if store.free.len() > 0 {
            assert(store.free[0] < store.slots());
        }
        if !store.live.contains_key(id) {
            assert(store.free.contains(id));
            let i = choose|i: int| 0 <= i < store.free.len() && store.free[i] == id;
            assert(store.free[0] <= store.free[i]);
        }
    }
}

} // verus!
