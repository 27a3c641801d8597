//! Laws relating the map's operations, stated over the contracts of `AnyMap`.

use std::any::TypeId;
use vstd::prelude::*;

use crate::erased::Erased;
use crate::erased::type_key;
use crate::store::AnyMap;

verus! {

/// After a value is inserted, reading its type gives that value back.
pub proof fn lemma_insert_then_get<T: 'static>(before: AnyMap, after: AnyMap, v: T)
    requires
        before.inserted(&after, v),
    ensures
        after.has::<T>(),
        after.value::<T>() == Some(v),
{
}

/// Inserting `v1` and then `v2` of one type: the second insertion hands back
/// `v1`, and the map then holds `v2`.
pub proof fn lemma_replace_returns_prior<T: 'static>(
    before: AnyMap,
    mid: AnyMap,
    after: AnyMap,
    v1: T,
    v2: T,
)
    requires
        before.inserted(&mid, v1),
        mid.inserted(&after, v2),
    ensures
        mid.value::<T>() == Some(v1),
        after.value::<T>() == Some(v2),
        after@.dom() == mid@.dom(),
{
    let k = type_key::<T>();
    assert(mid@.dom() =~= mid@.remove(k).dom().insert(k));
    assert(after@.dom() =~= after@.remove(k).dom().insert(k));
}

/// After the value of a type is removed, the map neither holds nor yields one.
pub proof fn lemma_remove_clears<T: 'static>(before: AnyMap, after: AnyMap)
    requires
        before.removed::<T>(&after),
    ensures
        !after.has::<T>(),
        after.value::<T>() is None,
{
}

/// Inserting a value of type `A` leaves the presence and the value of every
/// other type `B` as they were.
pub proof fn lemma_insert_independent<A: 'static, B: 'static>(before: AnyMap, after: AnyMap, a: A)
    requires
        type_key::<A>() != type_key::<B>(),
        before.inserted(&after, a),
    ensures
        after.has::<B>() == before.has::<B>(),
        after.value::<B>() == before.value::<B>(),
{
    let ka = type_key::<A>();
    let kb = type_key::<B>();
    assert(after@.remove(ka).contains_key(kb) == after@.contains_key(kb));
    assert(before@.remove(ka).contains_key(kb) == before@.contains_key(kb));
    if before.has::<B>() {
        assert(after@.remove(ka)[kb] == after@[kb]);
        assert(before@.remove(ka)[kb] == before@[kb]);
    }
}

/// Removing the value of type `A` leaves the presence and the value of every
/// other type `B` as they were.
pub proof fn lemma_remove_independent<A: 'static, B: 'static>(before: AnyMap, after: AnyMap)
    requires
        type_key::<A>() != type_key::<B>(),
        before.removed::<A>(&after),
    ensures
        after.has::<B>() == before.has::<B>(),
        after.value::<B>() == before.value::<B>(),
{
}

/// An insertion adds one to the count of stored types exactly when the type
/// had no value before; otherwise the count stays.
pub proof fn lemma_insert_len<T: 'static>(before: AnyMap, after: AnyMap, v: T)
    requires
        before.wf(),
        before.inserted(&after, v),
    ensures
        after@.dom().finite(),
        after@.len() == if before.has::<T>() {
            before@.len()
        } else {
            before@.len() + 1
        },
{
    before.lemma_finite();
    let k = type_key::<T>();
    assert(after@.dom() =~= before@.dom().insert(k)) by {
        assert(after@.dom() =~= after@.remove(k).dom().insert(k));
        assert(before@.remove(k).dom() =~= before@.dom().remove(k));
    }
}

/// A removal takes one from the count of stored types exactly when the type
/// had a value; otherwise the count stays.
pub proof fn lemma_remove_len<T: 'static>(before: AnyMap, after: AnyMap)
    requires
        before.wf(),
        before.removed::<T>(&after),
    ensures
        after@.dom().finite(),
        after@.len() == if before.has::<T>() {
            before@.len() - 1
        } else {
            before@.len() as int
        },
{
    before.lemma_finite();
}

/// A cleared map holds no type at all, whatever was stored before.
pub proof fn lemma_clear_empties<T: 'static>(after: AnyMap)
    requires
        after@ == Map::<TypeId, Erased>::empty(),
    ensures
        after@.len() == 0,
        !after.has::<T>(),
        after.value::<T>() is None,
{
}

} // verus!
