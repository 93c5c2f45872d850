use vstd::prelude::*;
use slab::Slab;
use crate::occupancy::{
    lemma_empty_slab_is_well_formed, lemma_insert_keeps_slab, lemma_remove_keeps_slab,
    lemma_top_is_lowest_vacant, lemma_update_keeps_slab, model_of, SlabModel,
};
use crate::record::UserData;
use crate::slots::{
    slab_contains, slab_entries, slab_get, slab_insert, slab_keys, slab_new, slab_remove,
    slab_set, slab_vacant, slab_vacant_key,
};

verus! {

/// The answer to a handle that names no live record.
#[derive(Debug, Clone, Copy, PartialEq, Eq, Structural)]
pub struct NotFound;

/// What a store is, as a value: the live records by handle.
pub struct StoreModel {
    pub live: Map<usize, UserData>,
}

impl StoreModel {
    /// The store that holds nothing.
    pub open spec fn empty() -> StoreModel {
        StoreModel { live: Map::empty() }
    }

    /// Whether `id` is the lowest handle that is not live.
    pub open spec fn is_next_id(self, id: usize) -> bool {
        &&& !self.live.contains_key(id)
        &&& forall|lower: usize| lower < id ==> self.live.contains_key(lower)
    }

    /// The handle that the next insertion returns: the lowest handle that is
    /// not live.
    pub open spec fn next_id(self) -> usize {
        choose|id: usize| self.is_next_id(id)
    }

    /// Whether an insertion finds the store as every store is: with finitely
    /// many live records and a lowest handle that is not live.
    pub open spec fn can_insert(self) -> bool {
        self.live.dom().finite() && self.is_next_id(self.next_id())
    }

    /// The store after an insertion that returned `id`.
    pub open spec fn insert(self, id: usize, record: UserData) -> StoreModel {
        StoreModel { live: self.live.insert(id, record) }
    }

    /// The record under `id`, if it is live.
    pub open spec fn get(self, id: usize) -> Option<UserData> {
        if self.live.contains_key(id) {
            Some(self.live[id])
        } else {
            None
        }
    }

    /// The store after `update(id, record)`: unchanged where `id` is not live.
    pub open spec fn update(self, id: usize, record: UserData) -> StoreModel {
        if self.live.contains_key(id) {
            StoreModel { live: self.live.insert(id, record) }
        } else {
            self
        }
    }

    /// The store after `remove(id)`: unchanged where `id` is not live.
    pub open spec fn remove(self, id: usize) -> StoreModel {
        if self.live.contains_key(id) {
            StoreModel { live: self.live.remove(id) }
        } else {
            self
        }
    }

    /// The live handles below `bound`, each once, lowest first.
    pub open spec fn below(self, bound: nat) -> Seq<usize>
        decreases bound,
    {
        if bound == 0 {
            Seq::empty()
        } else if self.live.contains_key((bound - 1) as usize) {
            self.below((bound - 1) as nat).push((bound - 1) as usize)
        } else {
            self.below((bound - 1) as nat)
        }
    }

    /// The live handles, each once, lowest first.
    pub open spec fn listing(self) -> Seq<usize> {
        self.below(usize::MAX as nat + 1)
    }

    /// Whether `ids` lists the live handles, each once, lowest first.
    pub open spec fn listed_by(self, ids: Seq<usize>) -> bool {
        &&& forall|i: int, j: int| 0 <= i < j < ids.len() ==> ids[i] < ids[j]
        &&& forall|id: usize| ids.contains(id) <==> self.live.contains_key(id)
    }
}

/// A slab that holds nothing.
fn empty_slab() -> (slab: Slab<UserData>)
    ensures
        model_of(slab) == SlabModel::empty(),
{
    let slab = slab_new();
    proof {
        assert(slab_entries(slab) =~= Map::<usize, UserData>::empty());
        assert(slab_vacant(slab) =~= Seq::<usize>::empty());
    }
    slab
}

/// The registry of user records, addressed by handle. Every change takes
/// the store exclusively; callers that share one store keep it behind a
/// lock and hold the lock for the whole call.
///
/// The records lie in a slab, which hands out the slot vacated last. The
/// store keeps the slab's vacant slots lowest first, so that an insertion
/// takes the lowest free handle: a removal draws the vacant slots below the
/// handle, vacates the handle and gives the drawn slots back, highest
/// first. For a change the slab is taken out and put back, so that the
/// store is in order whenever it is seen.
pub struct Store {
    slab: Slab<UserData>,
}

impl Store {
    /// The store as a value.
    pub closed spec fn view(&self) -> StoreModel {
        StoreModel { live: slab_entries(self.slab) }
    }

    /// The slab is well formed and its vacant slots stand lowest first.
    #[verifier::type_invariant]
    spec fn inv(&self) -> bool {
        model_of(self.slab).wf() && model_of(self.slab).ascending()
    }

    /// A store without records.
    pub fn new() -> (store: Store)
        ensures
            store@ == StoreModel::empty(),
    {
        let slab = empty_slab();
        proof {
            lemma_empty_slab_is_well_formed();
        }
        Store { slab }
    }

    /// Stores `record` under the lowest handle that is not live, and returns
    /// the handle.
    pub fn insert(&mut self, record: UserData) -> (id: usize)
        ensures
            !old(self)@.live.contains_key(id),
            forall|lower: usize| lower < id ==> old(self)@.live.contains_key(lower),
            id == old(self)@.next_id(),
            old(self)@.can_insert(),
            final(self)@ == old(self)@.insert(id, record),
    {
        proof {
            use_type_invariant(&*self);
            lemma_insert_keeps_slab(model_of(self.slab), record);
            lemma_top_is_lowest_vacant(model_of(self.slab));
            lemma_empty_slab_is_well_formed();
        }
        let mut slab = empty_slab();
        std::mem::swap(&mut self.slab, &mut slab);
        let ghost before = model_of(slab);
        let id = slab_insert(&mut slab, record);
        proof {
            assert(model_of(slab) == before.insert(id, record));
            assert(model_of(slab).ascending()) by {
                if before.free.len() > 0 {
                    assert forall|i: int, j: int|
                        0 <= i < j < model_of(slab).free.len() implies model_of(slab).free[i]
                        < model_of(slab).free[j] by {
                        assert(model_of(slab).free[i] == before.free[i + 1]);
                        assert(model_of(slab).free[j] == before.free[j + 1]);
                    }
                }
            }
            let model = StoreModel { live: before.live };
            assert(model.is_next_id(id));
            lemma_next_id_unique(model, id, model.next_id());
        }
        std::mem::swap(&mut self.slab, &mut slab);
        id
    }

    /// The record under `id`, or nothing where `id` is not live.
    pub fn get(&self, id: usize) -> (found: Option<UserData>)
        ensures
            found == self@.get(id),
    {
        match slab_get(&self.slab, id) {
            Some(record) => Some(*record),
            None => None,
        }
    }

    /// Replaces the record under `id`. Where `id` is not live the store stays
    /// as it is and the answer is `NotFound`.
    pub fn update(&mut self, id: usize, record: UserData) -> (done: Result<(), NotFound>)
        ensures
            done.is_ok() == old(self)@.live.contains_key(id),
            final(self)@ == old(self)@.update(id, record),
    {
        proof {
            use_type_invariant(&*self);
            lemma_update_keeps_slab(model_of(self.slab), id, record);
            lemma_empty_slab_is_well_formed();
        }
        if slab_contains(&self.slab, id) {
            let mut slab = empty_slab();
            std::mem::swap(&mut self.slab, &mut slab);
            let ghost before = model_of(slab);
            slab_set(&mut slab, id, record);
            assert(model_of(slab) == before.update(id, record));
            std::mem::swap(&mut self.slab, &mut slab);
            Ok(())
        } else {
            Err(NotFound)
        }
    }

    /// Releases `id` and returns its record. Where `id` is not live the store
    /// stays as it is and the answer is `NotFound`.
    pub fn remove(&mut self, id: usize) -> (done: Result<UserData, NotFound>)
        ensures
            done.is_ok() == old(self)@.live.contains_key(id),
            done.is_ok() ==> done.unwrap() == old(self)@.live[id],
            final(self)@ == old(self)@.remove(id),
    {
        proof {
            use_type_invariant(&*self);
            lemma_empty_slab_is_well_formed();
        }
        if !slab_contains(&self.slab, id) {
            return Err(NotFound);
        }
        let mut slab = empty_slab();
        std::mem::swap(&mut self.slab, &mut slab);
        let ghost before = model_of(slab);
        let drawn = draw_below(&mut slab, id);
        let ghost cut = drawn@.len() as int;
        proof {
            lemma_remove_keeps_slab(model_of(slab), id);
        }
        let record = slab_remove(&mut slab, id);
        give_back(&mut slab, &drawn, Ghost(before), Ghost(id));
        proof {
            let after = model_of(slab);
            assert(after.live =~= before.live.remove(id));
            assert(after.ascending()) by {
                assert forall|i: int, j: int| 0 <= i < j < after.free.len() implies after.free[i]
                    < after.free[j] by {
                    if i < cut {
                        assert(after.free[i] == before.free[i]);
                    } else if i > cut {
                        assert(after.free[i] == before.free[i - 1]);
                    }
                    if j < cut {
                        assert(after.free[j] == before.free[j]);
                    } else if j > cut {
                        assert(after.free[j] == before.free[j - 1]);
                    }
                }
            }
        }
        std::mem::swap(&mut self.slab, &mut slab);
        Ok(record)
    }

    /// The live handles, each once, lowest first.
    pub fn list(&self) -> (ids: Vec<usize>)
        ensures
            self@.listed_by(ids@),
            ids@ == self@.listing(),
    {
        let ids = slab_keys(&self.slab);
        proof {
            assert(self@.listed_by(ids@));
            lemma_listing_lists(self@);
            lemma_listing_unique(self@, ids@, self@.listing());
        }
        ids
    }
}

/// Whether `slab` is `before` with its `cut` topmost vacant slots taken by
/// placeholder records, `drawn` being those slots, all below `id`.
spec fn drawn_from(before: SlabModel, slab: SlabModel, drawn: Seq<usize>, id: usize) -> bool {
    let cut = drawn.len() as int;
    &&& slab.wf()
    &&& cut <= before.free.len()
    &&& drawn == before.free.take(cut)
    &&& slab.free == before.free.skip(cut)
    &&& forall|i: int| 0 <= i < cut ==> #[trigger] drawn[i] < id
    &&& forall|k: usize|
        #[trigger] slab.live.contains_key(k) <==> before.live.contains_key(k) || drawn.contains(k)
    &&& forall|k: usize|
        #[trigger] before.live.contains_key(k) ==> slab.live[k] == before.live[k]
}

/// Takes the vacant slots below `id` off the slab's stack, by filling each
/// with a placeholder record, and returns them in the order taken.
fn draw_below(slab: &mut Slab<UserData>, id: usize) -> (drawn: Vec<usize>)
    requires
        model_of(*old(slab)).wf(),
        model_of(*old(slab)).ascending(),
        model_of(*old(slab)).live.contains_key(id),
    ensures
        drawn_from(model_of(*old(slab)), model_of(*final(slab)), drawn@, id),
        forall|i: int|
            drawn@.len() <= i < model_of(*old(slab)).free.len() ==> id < #[trigger] model_of(
                *old(slab),
            ).free[i],
{
    let ghost before = model_of(*slab);
    let mut drawn: Vec<usize> = Vec::new();
    proof {
        assert(drawn@ =~= before.free.take(0));
        assert(before.free.skip(0) =~= before.free);
    }
    while slab_vacant_key(slab) < id
        invariant
            before.wf(),
            before.ascending(),
            before.live.contains_key(id),
            drawn_from(before, model_of(*slab), drawn@, id),
        decreases before.free.len() - drawn@.len(),
    {
        let ghost now = model_of(*slab);
        let ghost cut = drawn@.len() as int;
        proof {
            lemma_insert_keeps_slab(now, UserData);
            assert(now.live.contains_key(id));
            assert(now.free.len() > 0);
            assert(now.free[0] == before.free[cut]);
        }
        let key = slab_insert(slab, UserData);
        drawn.push(key);
        proof {
            let next = model_of(*slab);
            assert(next == now.insert(key, UserData));
            assert(drawn@ =~= before.free.take(cut + 1));
            assert(next.free =~= before.free.skip(cut + 1));
            assert forall|k: usize| #[trigger]
                next.live.contains_key(k) <==> before.live.contains_key(k) || drawn@.contains(
                    k,
                ) by {
                if k == key {
                    assert(drawn@[cut] == key);
                } else {
                    if drawn@.contains(k) {
                        let i = choose|i: int| 0 <= i < drawn@.len() && drawn@[i] == k;
                        assert(before.free.take(cut)[i] == k);
                        assert(before.free.take(cut).contains(k));
                    }
                    if before.free.take(cut).contains(k) {
                        let i = choose|i: int|
                            0 <= i < before.free.take(cut).len() && before.free.take(cut)[i] == k;
                        assert(drawn@[i] == k);
                    }
                }
            }
            assert forall|k: usize| #[trigger] before.live.contains_key(k) implies next.live[k]
                == before.live[k] by {
                assert(now.live.contains_key(k));
            }
        }
    }
    proof {
        let now = model_of(*slab);
        let cut = drawn@.len() as int;
        assert forall|i: int| cut <= i < before.free.len() implies id < #[trigger] before.free[i] by {
            assert(now.free[0] == before.free[cut]);
            assert(!now.live.contains_key(now.free[0]));
            assert(now.live.contains_key(id));
        }
    }
    drawn
}

/// Vacates the slots that were drawn, the one drawn last first, so that
/// they stand on the stack as they stood before, on top of `id`.
fn give_back(
    slab: &mut Slab<UserData>,
    drawn: &Vec<usize>,
    Ghost(before): Ghost<SlabModel>,
    Ghost(id): Ghost<usize>,
)
    requires
        before.wf(),
        before.live.contains_key(id),
        model_of(*old(slab)).wf(),
        drawn@.len() <= before.free.len(),
        drawn@ == before.free.take(drawn@.len() as int),
        model_of(*old(slab)).free == seq![id] + before.free.skip(drawn@.len() as int),
        forall|k: usize| #[trigger]
            model_of(*old(slab)).live.contains_key(k) <==> (before.live.contains_key(k) && k != id)
                || drawn@.contains(k),
        forall|k: usize|
            #[trigger] before.live.contains_key(k) && k != id ==> model_of(*old(slab)).live[k]
                == before.live[k],
    ensures
        model_of(*final(slab)).wf(),
        model_of(*final(slab)).free == before.free.take(drawn@.len() as int) + seq![id]
            + before.free.skip(drawn@.len() as int),
        forall|k: usize| #[trigger]
            model_of(*final(slab)).live.contains_key(k) <==> before.live.contains_key(k) && k
                != id,
        forall|k: usize|
            #[trigger] before.live.contains_key(k) && k != id ==> model_of(*final(slab)).live[k]
                == before.live[k],
{
    let ghost cut = drawn@.len() as int;
    let mut left: usize = drawn.len();
    proof {
        assert(before.free.subrange(cut, cut) =~= Seq::<usize>::empty());
        assert(model_of(*slab).free =~= before.free.subrange(cut, cut) + seq![id]
            + before.free.skip(cut));
        assert(drawn@.take(cut) =~= drawn@);
    }
    while left > 0
        invariant
            before.wf(),
            before.live.contains_key(id),
            cut == drawn@.len(),
            cut <= before.free.len(),
            left <= cut,
            drawn@ == before.free.take(cut),
            model_of(*slab).wf(),
            model_of(*slab).free == before.free.subrange(left as int, cut) + seq![id]
                + before.free.skip(cut),
            forall|k: usize| #[trigger]
                model_of(*slab).live.contains_key(k) <==> (before.live.contains_key(k) && k != id)
                    || drawn@.take(left as int).contains(k),
            forall|k: usize|
                #[trigger] before.live.contains_key(k) && k != id ==> model_of(*slab).live[k]
                    == before.live[k],
        decreases left,
    {
        left = left - 1;
        let key = drawn[left];
        let ghost now = model_of(*slab);
        proof {
            assert(drawn@.take(left + 1)[left as int] == key);
            assert(drawn@.take(left + 1).contains(key));
            assert(key == before.free[left as int]);
            assert(!before.live.contains_key(key));
            lemma_remove_keeps_slab(now, key);
        }
        slab_remove(slab, key);
        proof {
            let next = model_of(*slab);
            assert(next == now.remove(key));
            assert(next.free =~= before.free.subrange(left as int, cut) + seq![id]
                + before.free.skip(cut));
            assert forall|k: usize| #[trigger]
                next.live.contains_key(k) <==> (before.live.contains_key(k) && k != id)
                    || drawn@.take(left as int).contains(k) by {
                let wide = drawn@.take(left + 1);
                let narrow = drawn@.take(left as int);
                if narrow.contains(k) {
                    let i = choose|i: int| 0 <= i < narrow.len() && narrow[i] == k;
                    assert(wide[i] == k);
                    assert(before.free[i] == k);
                    assert(k != key);
                }
                if wide.contains(k) && k != key {
                    let i = choose|i: int| 0 <= i < wide.len() && wide[i] == k;
                    assert(narrow[i] == k);
                }
            }
        }
    }
    proof {
        assert(before.free.subrange(0, cut) =~= before.free.take(cut));
        assert(drawn@.take(0) =~= Seq::<usize>::empty());
    }
}

/// At most one handle is the lowest that is not live.
pub proof fn lemma_next_id_unique(store: StoreModel, a: usize, b: usize)
    requires
        store.is_next_id(a),
        store.is_next_id(b),
    ensures
        a == b,
{
    if a < b {
        assert(store.live.contains_key(a));
    }
    if b < a {
        assert(store.live.contains_key(b));
    }
}

/// The live handles below a bound, as `below` gives them, stand lowest
/// first and are exactly the live handles below the bound.
pub proof fn lemma_below_lists(store: StoreModel, bound: nat)
    requires
        bound <= usize::MAX + 1,
    ensures
        forall|i: int| 0 <= i < store.below(bound).len() ==> #[trigger] store.below(bound)[i] < bound,
        forall|i: int, j: int|
            0 <= i < j < store.below(bound).len() ==> store.below(bound)[i] < store.below(bound)[j],
        forall|id: usize|
            store.below(bound).contains(id) <==> store.live.contains_key(id) && id < bound,
    decreases bound,
{
    let all = store.below(bound);
    if bound == 0 {
        assert forall|id: usize| !all.contains(id) by {}
    } else {
        let rest = store.below((bound - 1) as nat);
        let top = (bound - 1) as usize;
        lemma_below_lists(store, (bound - 1) as nat);
        assert forall|id: usize| all.contains(id) <==> store.live.contains_key(id) && id
            < bound by {
            if all.contains(id) {
                let i = choose|i: int| 0 <= i < all.len() && all[i] == id;
                if i < rest.len() {
                    assert(rest[i] == id);
                    assert(rest.contains(id));
                }
            }
            if store.live.contains_key(id) && id < bound {
                if id == top {
                    assert(all[all.len() - 1] == id);
                } else {
                    assert(rest.contains(id));
                    let i = choose|i: int| 0 <= i < rest.len() && rest[i] == id;
                    assert(all[i] == id);
                }
            }
        }
        assert forall|i: int, j: int| 0 <= i < j < all.len() implies all[i] < all[j] by {
            if j < rest.len() {
                assert(all[i] == rest[i] && all[j] == rest[j]);
            } else {
                assert(all[i] == rest[i]);
            }
        }
    }
}

/// Every store has a listing: `listing()` lists its live handles.
pub proof fn lemma_listing_lists(store: StoreModel)
    ensures
        store.listed_by(store.listing()),
{
    lemma_below_lists(store, usize::MAX as nat + 1);
}

/// Two listings of one store are the same sequence.
pub proof fn lemma_listing_unique(store: StoreModel, a: Seq<usize>, b: Seq<usize>)
    requires
        store.listed_by(a),
        store.listed_by(b),
    ensures
        a == b,
    decreases a.len(),
{
    if a.len() == 0 {
        if b.len() > 0 {
            assert(b.contains(b[0]));
            assert(a.contains(b[0]));
        }
        assert(a =~= b);
    } else {
        let x = a.last();
        assert(a.contains(x));
        assert(b.contains(x));
        let y = b.last();
        assert(b.contains(y));
        assert(a.contains(y));
        assert(x == y) by {
            let i = choose|i: int| 0 <= i < a.len() && a[i] == y;
            let j = choose|j: int| 0 <= j < b.len() && b[j] == x;
            assert(a[i] <= a[a.len() - 1]);
            assert(b[j] <= b[b.len() - 1]);
        }
        let front_a = a.drop_last();
        let front_b = b.drop_last();
        let rest = StoreModel { live: store.live.remove(x) };
        assert forall|id: usize| front_a.contains(id) <==> rest.live.contains_key(id) by {
            if front_a.contains(id) {
                let i = choose|i: int| 0 <= i < front_a.len() && front_a[i] == id;
                assert(a[i] == id);
                assert(a.contains(id));
                assert(a[i] < a[a.len() - 1]);
            }
            if rest.live.contains_key(id) {
                assert(a.contains(id));
                let i = choose|i: int| 0 <= i < a.len() && a[i] == id;
                assert(front_a[i] == id);
            }
        }
        assert forall|id: usize| front_b.contains(id) <==> rest.live.contains_key(id) by {
            if front_b.contains(id) {
                let i = choose|i: int| 0 <= i < front_b.len() && front_b[i] == id;
                assert(b[i] == id);
                assert(b.contains(id));
                assert(b[i] < b[b.len() - 1]);
            }
            if rest.live.contains_key(id) {
                assert(b.contains(id));
                let i = choose|i: int| 0 <= i < b.len() && b[i] == id;
                assert(front_b[i] == id);
            }
        }
        assert(rest.listed_by(front_a));
        assert(rest.listed_by(front_b));
        lemma_listing_unique(rest, front_a, front_b);
        assert(a =~= front_a.push(x));
        assert(b =~= front_b.push(y));
    }
}

/// A listing names exactly the live handles, and none of them twice.
pub proof fn lemma_listing_is_exact(store: StoreModel, ids: Seq<usize>)
    requires
        store.listed_by(ids),
    ensures
        ids.no_duplicates(),
        ids.to_set() == store.live.dom(),
{
    assert forall|i: int, j: int| 0 <= i < ids.len() && 0 <= j < ids.len() && i != j implies ids[i]
        != ids[j] by {
        if i < j {
            assert(ids[i] < ids[j]);
        } else {
            assert(ids[j] < ids[i]);
        }
    }
    assert(ids.to_set() =~= store.live.dom());
}

/// A record that was just inserted is found under the handle that the
/// insertion returned, and every record that was live is found as before.
pub proof fn lemma_insert_then_get(store: StoreModel, id: usize, record: UserData)
    ensures
        store.insert(id, record).get(id) == Some(record),
        forall|other: usize| other != id ==> store.insert(id, record).get(other) == store.get(other),
{
}

/// After a handle was removed, nothing is found under it.
pub proof fn lemma_remove_then_get(store: StoreModel, id: usize)
    ensures
        store.remove(id).get(id).is_none(),
{
}

/// A handle that was released is free again, and the next insertion returns
/// it unless a lower handle is free too: handles are unique among the live
/// records only.
pub proof fn lemma_released_handle_is_reused(store: StoreModel, id: usize)
    requires
        store.live.contains_key(id),
    ensures
        !store.remove(id).live.contains_key(id),
        store.remove(id).is_next_id(store.remove(id).next_id()),
        store.remove(id).next_id() <= id,
        (forall|lower: usize| lower < id ==> store.live.contains_key(lower)) ==> store.remove(
            id,
        ).next_id() == id,
{
    let after = store.remove(id);
    lemma_lowest_free_below(after, id as nat);
    if forall|lower: usize| lower < id ==> store.live.contains_key(lower) {
        assert(after.is_next_id(id));
        lemma_next_id_unique(after, id, after.next_id());
    }
}

/// Where the handle `bound` is not live, there is a lowest handle that is
/// not live, and it is `bound` or below it.
pub proof fn lemma_lowest_free_below(store: StoreModel, bound: nat)
    requires
        bound <= usize::MAX,
        !store.live.contains_key(bound as usize),
    ensures
        store.is_next_id(store.next_id()),
        store.next_id() <= bound,
    decreases bound,
{
    let top = bound as usize;
    if forall|lower: usize| lower < top ==> store.live.contains_key(lower) {
        assert(store.is_next_id(top));
    } else {
        let lower = choose|lower: usize| lower < top && !store.live.contains_key(lower);
        lemma_lowest_free_below(store, lower as nat);
    }
}

/// The handles below `bound`.
pub open spec fn handles_below(bound: nat) -> Set<usize> {
    Set::new(|id: usize| id < bound)
}

/// There are `bound` handles below `bound`.
pub proof fn lemma_handles_below_count(bound: nat)
    requires
        bound <= usize::MAX + 1,
    ensures
        handles_below(bound).finite(),
        handles_below(bound).len() == bound,
    decreases bound,
{
    if bound == 0 {
        assert(handles_below(bound) =~= Set::<usize>::empty());
    } else {
        lemma_handles_below_count((bound - 1) as nat);
        let top = (bound - 1) as usize;
        assert(handles_below(bound) =~= handles_below((bound - 1) as nat).insert(top));
    }
}

/// Churn never raises handles: the handle that the next insertion returns
/// is at most the number of live records, and it is that number exactly
/// where no handle below a live one is free.
pub proof fn lemma_next_id_within_count(store: StoreModel, id: usize)
    requires
        store.live.dom().finite(),
        store.is_next_id(id),
    ensures
        id <= store.live.dom().len(),
        (forall|other: usize| store.live.contains_key(other) ==> other < id) ==> id
            == store.live.dom().len(),
{
    lemma_handles_below_count(id as nat);
    let low = handles_below(id as nat);
    assert(low.subset_of(store.live.dom())) by {
        assert forall|other: usize| low.contains(other) implies store.live.dom().contains(
            other,
        ) by {
            assert(store.live.contains_key(other));
        }
    }
    vstd::set_lib::lemma_len_subset(low, store.live.dom());
    if forall|other: usize| store.live.contains_key(other) ==> other < id {
        assert(store.live.dom() =~= low);
    }
}

/// On a handle that is not live, `get` finds nothing, and `update` and
/// `remove` leave the store as it is.
pub proof fn lemma_unknown_handle_changes_nothing(store: StoreModel, id: usize, record: UserData)
    requires
        !store.live.contains_key(id),
    ensures
        store.get(id).is_none(),
        store.update(id, record) == store,
        store.remove(id) == store,
{
}

} // verus!
