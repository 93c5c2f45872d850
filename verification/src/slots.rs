use vstd::prelude::*;
use slab::Slab;
use crate::record::UserData;

verus! {

/// `slab::Slab`, declared so that it can stand in fields and signatures.
/// Nothing inside a slab is visible to proofs; what is believed of one is
/// said below, over its occupied slots and its stack of vacant slots.
#[verifier::external_type_specification]
#[verifier::external_body]
#[verifier::reject_recursive_types(T)]
pub struct ExSlab<T>(Slab<T>);

/// The occupied slots of a slab: each key that holds a value, with the value.
pub uninterp spec fn slab_entries(s: Slab<UserData>) -> Map<usize, UserData>;

/// The slab's stack of vacant slots, the slot that the next insertion takes
/// first.
pub uninterp spec fn slab_vacant(s: Slab<UserData>) -> Seq<usize>;

/// The key that the next insertion is given: the top of the stack of vacant
/// slots, or a new slot behind the occupied ones where the stack is empty.
pub open spec fn slab_next_key(s: Slab<UserData>) -> int {
    if slab_vacant(s).len() > 0 {
        slab_vacant(s)[0] as int
    } else {
        slab_entries(s).dom().len() as int
    }
}

/// The stack of vacant slots once its top has been taken.
pub open spec fn slab_vacant_popped(s: Slab<UserData>) -> Seq<usize> {
    if slab_vacant(s).len() > 0 {
        slab_vacant(s).drop_first()
    } else {
        slab_vacant(s)
    }
}

/// `Slab::new`. Believed: the new slab holds nothing and has no vacant slot.
#[verifier::external_body]
pub(crate) fn slab_new() -> (s: Slab<UserData>)
    ensures
        forall|key: usize| !slab_entries(s).contains_key(key),
        slab_vacant(s).len() == 0,
{
    Slab::new()
}

/// `Slab::insert`. Believed: the value goes to the top of the stack of vacant
/// slots, which is popped, or to a new slot where the stack is empty; that
/// slot held no value before, and no other slot changes.
#[verifier::external_body]
pub(crate) fn slab_insert(s: &mut Slab<UserData>, val: UserData) -> (key: usize)
    ensures
        key as int == slab_next_key(*old(s)),
        !slab_entries(*old(s)).contains_key(key),
        slab_entries(*final(s)) == slab_entries(*old(s)).insert(key, val),
        slab_vacant(*final(s)) == slab_vacant_popped(*old(s)),
{
    s.insert(val)
}

/// `Slab::get`. Believed: it returns the value of an occupied slot and
/// nothing for any other key.
#[verifier::external_body]
pub(crate) fn slab_get(s: &Slab<UserData>, key: usize) -> (found: Option<&UserData>)
    ensures
        found.is_some() == slab_entries(*s).contains_key(key),
        found.is_some() ==> *found.unwrap() == slab_entries(*s)[key],
{
    s.get(key)
}

/// `Slab::get_mut`, written through. Believed: on an occupied slot it hands
/// out the place of the value, so that the value is replaced and nothing else
/// changes.
#[verifier::external_body]
pub(crate) fn slab_set(s: &mut Slab<UserData>, key: usize, val: UserData)
    requires
        slab_entries(*old(s)).contains_key(key),
    ensures
        slab_entries(*final(s)) == slab_entries(*old(s)).insert(key, val),
        slab_vacant(*final(s)) == slab_vacant(*old(s)),
{
    *s.get_mut(key).unwrap() = val;
}

/// `Slab::contains`. Believed: it tells whether the slot is occupied.
#[verifier::external_body]
pub(crate) fn slab_contains(s: &Slab<UserData>, key: usize) -> (held: bool)
    ensures
        held == slab_entries(*s).contains_key(key),
{
    s.contains(key)
}

/// `Slab::vacant_key`. Believed: it returns the key that the next insertion
/// is given.
#[verifier::external_body]
pub(crate) fn slab_vacant_key(s: &Slab<UserData>) -> (key: usize)
    ensures
        key as int == slab_next_key(*s),
{
    s.vacant_key()
}

/// `Slab::remove`. Believed: on an occupied slot it returns the value, empties
/// the slot and pushes it onto the stack of vacant slots.
#[verifier::external_body]
pub(crate) fn slab_remove(s: &mut Slab<UserData>, key: usize) -> (val: UserData)
    requires
        slab_entries(*old(s)).contains_key(key),
    ensures
        val == slab_entries(*old(s))[key],
        slab_entries(*final(s)) == slab_entries(*old(s)).remove(key),
        slab_vacant(*final(s)) == seq![key] + slab_vacant(*old(s)),
{
    s.remove(key)
}

/// `Slab::iter`, keys only. Believed: it visits each occupied slot once, from
/// the lowest key to the highest.
#[verifier::external_body]
pub(crate) fn slab_keys(s: &Slab<UserData>) -> (keys: Vec<usize>)
    ensures
        forall|i: int, j: int| 0 <= i < j < keys@.len() ==> keys@[i] < keys@[j],
        forall|k: usize| keys@.contains(k) <==> slab_entries(*s).contains_key(k),
{
    s.iter().map(|(key, _)| key).collect()
}

} // verus!
