//! The store itself: one slot per type identity, each holding a value of that type.

use std::any::TypeId;
use vstd::prelude::*;

use crate::erased::Erased;
use crate::erased::erase;
use crate::erased::payload;
use crate::erased::same_type_id;
use crate::erased::tag;
use crate::erased::type_id_of;
use crate::erased::type_key;
use crate::erased::unerase;
use crate::erased::unerase_mut;
use crate::erased::unerase_ref;

verus! {

/// A map holding zero or one value for each `'static` type, with typed access
/// to each.
///
/// Each slot pairs a type identity with a value erased from that very type;
/// lookups compare identities, and a value is handed back as `T` only from
/// the slot keyed by `T`'s identity, so the downcast is proved to succeed.
pub struct AnyMap {
    slots: Vec<(TypeId, Erased)>,
}

/// The identities of the types held by `s`, in order.
pub closed spec fn keys_of(s: Seq<(TypeId, Erased)>) -> Seq<TypeId> {
    s.map_values(|p: (TypeId, Erased)| p.0)
}

/// Keys are unique, and each erased value has the type its key names.
pub closed spec fn slots_wf(s: Seq<(TypeId, Erased)>) -> bool {
    &&& keys_of(s).no_duplicates()
    &&& forall|i: int| 0 <= i < s.len() ==> tag(#[trigger] s[i].1) == s[i].0
}

/// Each key of `s`, mapped to the value beside it.
pub closed spec fn map_of(s: Seq<(TypeId, Erased)>) -> Map<TypeId, Erased> {
    Map::new(|k: TypeId| keys_of(s).contains(k), |k: TypeId| s[keys_of(s).index_of(k)].1)
}

/// Every slot is an entry of the map, and every entry comes from a slot.
proof fn lemma_slots(s: Seq<(TypeId, Erased)>)
    requires
        keys_of(s).no_duplicates(),
    ensures
        forall|i: int|
            0 <= i < s.len() ==> {
                &&& map_of(s).contains_key(#[trigger] s[i].0)
                &&& map_of(s)[s[i].0] == s[i].1
            },
        forall|k: TypeId| #[trigger]
            map_of(s).contains_key(k) ==> exists|i: int| 0 <= i < s.len() && #[trigger] s[i].0 == k,
{
    let ks = keys_of(s);
    assert forall|i: int| 0 <= i < s.len() implies {
        &&& map_of(s).contains_key(#[trigger] s[i].0)
        &&& map_of(s)[s[i].0] == s[i].1
    } by {
        assert(ks[i] == s[i].0);
        assert(ks.contains(ks[i]));
        let j = ks.index_of(ks[i]);
        assert(0 <= j < ks.len() && ks[j] == ks[i]);
    }
    assert forall|k: TypeId| #[trigger] map_of(s).contains_key(k) implies exists|i: int|
        0 <= i < s.len() && #[trigger] s[i].0 == k by {
        let i = choose|i: int| 0 <= i < ks.len() && ks[i] == k;
        assert(s[i].0 == k);
    }
}

/// With unique keys, the map has one entry per slot.
proof fn lemma_len(s: Seq<(TypeId, Erased)>)
    requires
        keys_of(s).no_duplicates(),
    ensures
        map_of(s).dom().finite(),
        map_of(s).len() == s.len(),
{
    let ks = keys_of(s);
    assert(map_of(s).dom() =~= ks.to_set());
    ks.unique_seq_to_set();
}

/// Dropping slot `i` removes its key from the map and nothing else.
proof fn lemma_remove(s: Seq<(TypeId, Erased)>, i: int)
    requires
        slots_wf(s),
        0 <= i < s.len(),
    ensures
        slots_wf(s.remove(i)),
        map_of(s.remove(i)) == map_of(s).remove(s[i].0),
{
    let t = s.remove(i);
    assert(keys_of(t) =~= keys_of(s).remove(i));
    assert forall|a: int, b: int| 0 <= a < b < t.len() implies keys_of(t)[a] != keys_of(t)[b] by {
        let a2 = if a < i { a } else { a + 1 };
        let b2 = if b < i { b } else { b + 1 };
        assert(keys_of(t)[a] == keys_of(s)[a2]);
        assert(keys_of(t)[b] == keys_of(s)[b2]);
    }
    assert forall|j: int| 0 <= j < t.len() implies tag(#[trigger] t[j].1) == t[j].0 by {
        let j2 = if j < i { j } else { j + 1 };
        assert(t[j] == s[j2]);
    }
    lemma_slots(s);
    lemma_slots(t);
    let m = map_of(s).remove(s[i].0);
    assert forall|k: TypeId| #[trigger] map_of(t).contains_key(k) implies m.contains_key(k) && map_of(
        t,
    )[k] == m[k] by {
        let j = choose|j: int| 0 <= j < t.len() && #[trigger] t[j].0 == k;
        let j2 = if j < i { j } else { j + 1 };
        assert(t[j] == s[j2]);
        assert(keys_of(s)[j2] != keys_of(s)[i]);
    }
    assert forall|k: TypeId| #[trigger] m.contains_key(k) implies map_of(t).contains_key(k) by {
        let j = choose|j: int| 0 <= j < s.len() && #[trigger] s[j].0 == k;
        assert(j != i);
        let j2 = if j < i { j } else { j - 1 };
        assert(t[j2] == s[j]);
    }
    assert(map_of(t) =~= m);
}

/// Appending a slot with a new key adds that one entry to the map.
proof fn lemma_push(s: Seq<(TypeId, Erased)>, p: (TypeId, Erased))
    requires
        slots_wf(s),
        !map_of(s).contains_key(p.0),
        tag(p.1) == p.0,
    ensures
        slots_wf(s.push(p)),
        map_of(s.push(p)) == map_of(s).insert(p.0, p.1),
{
    let t = s.push(p);
    lemma_slots(s);
    assert(keys_of(t) =~= keys_of(s).push(p.0));
    assert forall|a: int, b: int| 0 <= a < b < t.len() implies keys_of(t)[a] != keys_of(t)[b] by {
        if b == s.len() {
            assert(keys_of(t)[a] == s[a].0);
        } else {
            assert(keys_of(t)[a] == keys_of(s)[a]);
            assert(keys_of(t)[b] == keys_of(s)[b]);
        }
    }
    assert forall|j: int| 0 <= j < t.len() implies tag(#[trigger] t[j].1) == t[j].0 by {
        if j < s.len() {
            assert(t[j] == s[j]);
        }
    }
    lemma_slots(t);
    let m = map_of(s).insert(p.0, p.1);
    assert forall|k: TypeId| #[trigger] map_of(t).contains_key(k) implies m.contains_key(k) && map_of(
        t,
    )[k] == m[k] by {
        let j = choose|j: int| 0 <= j < t.len() && #[trigger] t[j].0 == k;
        if j < s.len() {
            assert(t[j] == s[j]);
        }
    }
    assert forall|k: TypeId| #[trigger] m.contains_key(k) implies map_of(t).contains_key(k) by {
        if k != p.0 {
            let j = choose|j: int| 0 <= j < s.len() && #[trigger] s[j].0 == k;
            assert(t[j] == s[j]);
        } else {
            assert(t[s.len() as int] == p);
        }
    }
    assert(map_of(t) =~= m);
}

/// Replacing the value in slot `i` by one of the same type sets that key alone.
proof fn lemma_update_one(s: Seq<(TypeId, Erased)>, i: int, e: Erased)
    requires
        slots_wf(s),
        0 <= i < s.len(),
        tag(e) == s[i].0,
    ensures
        slots_wf(s.update(i, (s[i].0, e))),
        map_of(s.update(i, (s[i].0, e))) == map_of(s).insert(s[i].0, e),
        map_of(s.update(i, (s[i].0, e))).remove(s[i].0) == map_of(s).remove(s[i].0),
{
    let t = s.update(i, (s[i].0, e));
    assert(keys_of(t) =~= keys_of(s));
    lemma_slots(s);
    lemma_slots(t);
    let m = map_of(s).insert(s[i].0, e);
    assert forall|k: TypeId| #[trigger] map_of(t).contains_key(k) implies m.contains_key(k) && map_of(
        t,
    )[k] == m[k] by {
        let j = choose|j: int| 0 <= j < t.len() && #[trigger] t[j].0 == k;
        if j != i {
            assert(t[j] == s[j]);
            assert(keys_of(s)[j] != keys_of(s)[i]);
        }
    }
    assert forall|k: TypeId| #[trigger] m.contains_key(k) implies map_of(t).contains_key(k) by {
        if k != s[i].0 {
            let j = choose|j: int| 0 <= j < s.len() && #[trigger] s[j].0 == k;
            assert(t[j] == s[j]);
        } else {
            assert(t[i].0 == k);
        }
    }
    assert(map_of(t) =~= m);
    assert(m.remove(s[i].0) =~= map_of(s).remove(s[i].0));
}

/// Replacing the value in slot `i` by another of the same type keeps the
/// slots well formed and changes the map at that slot's key alone.
proof fn lemma_update(s: Seq<(TypeId, Erased)>, i: int)
    requires
        slots_wf(s),
        0 <= i < s.len(),
    ensures
        forall|e: Erased|
            tag(e) == s[i].0 ==> {
                &&& slots_wf(#[trigger] s.update(i, (s[i].0, e)))
                &&& map_of(s.update(i, (s[i].0, e))) == map_of(s).insert(s[i].0, e)
                &&& map_of(s.update(i, (s[i].0, e))).remove(s[i].0) == map_of(s).remove(s[i].0)
            },
{
    assert forall|e: Erased| tag(e) == s[i].0 implies {
        &&& slots_wf(#[trigger] s.update(i, (s[i].0, e)))
        &&& map_of(s.update(i, (s[i].0, e))) == map_of(s).insert(s[i].0, e)
        &&& map_of(s.update(i, (s[i].0, e))).remove(s[i].0) == map_of(s).remove(s[i].0)
    } by {
        lemma_update_one(s, i, e);
    }
}

impl AnyMap {
    /// Keys are unique, and each slot holds a value of the type its key names.
    pub closed spec fn wf(&self) -> bool {
        slots_wf(self.slots@)
    }

    /// A well-formed map holds finitely many types.
    pub proof fn lemma_finite(&self)
        requires
            self.wf(),
        ensures
            self@.dom().finite(),
    {
        lemma_len(self.slots@);
    }

    /// Whether a value of type `T` is stored.
    pub open spec fn has<T: 'static>(&self) -> bool {
        self@.contains_key(type_key::<T>())
    }

    /// The stored value of type `T`, if any.
    pub open spec fn value<T: 'static>(&self) -> Option<T> {
        if self.has::<T>() {
            Some(payload::<T>(self@[type_key::<T>()]))
        } else {
            None
        }
    }
}

impl AnyMap {
    /// `after` is `self` with `v` stored for its type, the other types untouched.
    pub open spec fn inserted<T: 'static>(&self, after: &AnyMap, v: T) -> bool {
        &&& after.value::<T>() == Some(v)
        &&& after@.remove(type_key::<T>()) == self@.remove(type_key::<T>())
    }

    /// `after` is `self` without its value of type `T`, if it had one.
    pub open spec fn removed<T: 'static>(&self, after: &AnyMap) -> bool {
        after@ == self@.remove(type_key::<T>())
    }

    /// The slot whose key is `k`, if there is one.
    fn find(&self, k: &TypeId) -> (r: Option<usize>)
        requires
            self.wf(),
        ensures
            match r {
                Some(i) => i < self.slots@.len() && self.slots@[i as int].0 == *k,
                None => !self@.contains_key(*k),
            },
    {
        let mut i: usize = 0;
        while i < self.slots.len()
            invariant
                i <= self.slots@.len(),
                forall|j: int| 0 <= j < i ==> self.slots@[j].0 != *k,
            decreases self.slots@.len() - i,
        {
            if same_type_id(&self.slots[i].0, k) {
                return Some(i);
            }
            i = i + 1;
        }
        proof {
            lemma_slots(self.slots@);
        }
        None
    }

    /// An empty map.
    pub fn new() -> (r: AnyMap)
        ensures
            r.wf(),
            r@ == Map::<TypeId, Erased>::empty(),
    {
        let r = AnyMap { slots: Vec::new() };
        assert(r@ =~= Map::<TypeId, Erased>::empty());
        r
    }

    /// Whether a value of type `T` is stored.
    pub fn contains<T: 'static>(&self) -> (r: bool)
        requires
            self.wf(),
        ensures
            r == self.has::<T>(),
    {
        let k = type_id_of::<T>();
        proof {
            lemma_slots(self.slots@);
        }
        self.find(&k).is_some()
    }

    /// The stored value of type `T`, if any.
    pub fn get<T: 'static>(&self) -> (r: Option<&T>)
        requires
            self.wf(),
        ensures
            match r {
                Some(x) => self.value::<T>() == Some(*x),
                None => self.value::<T>() is None,
            },
    {
        let k = type_id_of::<T>();
        proof {
            lemma_slots(self.slots@);
        }
        match self.find(&k) {
            Some(i) => {
                let r = unerase_ref::<T>(&self.slots[i].1);
                assert(r is Some);
                r
            },
            None => None,
        }
    }

    /// A mutable reference to the stored value of type `T`, if any.
    pub fn get_mut<T: 'static>(&mut self) -> (r: Option<&mut T>)
        requires
            old(self).wf(),
        ensures
            final(self).wf(),
            match r {
                Some(x) => {
                    &&& old(self).value::<T>() == Some(*x)
                    &&& old(self).inserted(final(self), *final(x))
                },
                None => {
                    &&& old(self).value::<T>() is None
                    &&& *final(self) == *old(self)
                },
            },
    {
        let k = type_id_of::<T>();
        proof {
            lemma_slots(self.slots@);
        }
        match self.find(&k) {
            Some(i) => {
                proof {
                    lemma_update(self.slots@, i as int);
                }
                let slot = &mut self.slots[i];
                let r = unerase_mut::<T>(&mut slot.1);
                assert(r is Some);
                r
            },
            None => None,
        }
    }

    /// Stores `value` as the value of type `T`, and hands back the value it
    /// replaces, if any.
    pub fn insert<T: 'static>(&mut self, value: T) -> (r: Option<T>)
        requires
            old(self).wf(),
        ensures
            final(self).wf(),
            old(self).inserted(final(self), value),
            r == old(self).value::<T>(),
    {
        let k = type_id_of::<T>();
        let e = erase(value);
        proof {
            lemma_slots(self.slots@);
        }
        match self.find(&k) {
            Some(i) => {
                proof {
                    lemma_remove(self.slots@, i as int);
                }
                let prev = self.slots.remove(i);
                proof {
                    lemma_push(self.slots@, (k, e));
                }
                self.slots.push((k, e));
                assert(final(self)@.remove(k) =~= old(self)@.remove(k));
                let r = unerase::<T>(prev.1);
                assert(r is Some);
                r
            },
            None => {
                proof {
                    lemma_push(self.slots@, (k, e));
                }
                self.slots.push((k, e));
                assert(final(self)@.remove(k) =~= old(self)@.remove(k));
                None
            },
        }
    }

    /// Takes the value of type `T` out of the map, if there is one.
    pub fn remove<T: 'static>(&mut self) -> (r: Option<T>)
        requires
            old(self).wf(),
        ensures
            final(self).wf(),
            old(self).removed::<T>(final(self)),
            r == old(self).value::<T>(),
    {
        let k = type_id_of::<T>();
        proof {
            lemma_slots(self.slots@);
        }
        match self.find(&k) {
            Some(i) => {
                proof {
                    lemma_remove(self.slots@, i as int);
                }
                let prev = self.slots.remove(i);
                let r = unerase::<T>(prev.1);
                assert(r is Some);
                r
            },
            None => {
                assert(final(self)@ =~= old(self)@.remove(k));
                None
            },
        }
    }

    /// The number of types with a stored value.
    pub fn len(&self) -> (r: usize)
        requires
            self.wf(),
        ensures
            r == self@.len(),
    {
        proof {
            lemma_len(self.slots@);
        }
        self.slots.len()
    }

    /// Whether no value is stored.
    pub fn is_empty(&self) -> (r: bool)
        requires
            self.wf(),
        ensures
            r == (self@.len() == 0),
    {
        proof {
            lemma_len(self.slots@);
        }
        self.slots.len() == 0
    }

    /// Drops every stored value.
    pub fn clear(&mut self)
        ensures
            final(self).wf(),
            final(self)@ == Map::<TypeId, Erased>::empty(),
    {
        self.slots.clear();
        assert(final(self)@ =~= Map::<TypeId, Erased>::empty());
    }
}

impl View for AnyMap {
    type V = Map<TypeId, Erased>;

    /// Each stored type's identity, mapped to its erased value.
    closed spec fn view(&self) -> Map<TypeId, Erased> {
        map_of(self.slots@)
    }
}

} // verus!
