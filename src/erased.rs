//! Type identities and type-erased owned values.

use std::any::Any;
use std::any::TypeId;
use vstd::prelude::*;

verus! {

/// std's `TypeId`, carried through verified code as an opaque value.
#[verifier::external_type_specification]
#[verifier::external_body]
pub struct ExTypeId(TypeId);

/// A heap value of some `'static` type, with its static type forgotten.
///
/// The trait object cannot be named in verified code, so the box sits
/// behind this opaque wrapper; what it holds is described by `tag` and
/// `payload` below.
#[verifier::external_body]
pub struct Erased {
    inner: Box<dyn Any>,
}

/// The identity of the type `T`, as `TypeId::of::<T>()` gives it.
///
/// Nothing more is known of it: in particular the contracts never assume
/// that two types have different identities, so whatever is proved of two
/// types as distinct states that as a precondition.
pub closed spec fn type_key<T: 'static>() -> TypeId {
    vstd::pervasive::arbitrary::<(TypeId, Option<T>)>().0
}

/// The identity of the type of the value held by `e`.
pub closed spec fn tag(e: Erased) -> TypeId {
    vstd::pervasive::arbitrary::<spec_fn(Erased) -> TypeId>()(e)
}

/// The value held by `e`, read as a `T`; meaningful where `tag(e) == type_key::<T>()`.
pub closed spec fn payload<T: 'static>(e: Erased) -> T {
    vstd::pervasive::arbitrary::<spec_fn(Erased) -> T>()(e)
}

/// Relies on `TypeId::of`: the identity of `T`, the same at every call.
#[verifier::external_body]
pub(crate) fn type_id_of<T: 'static>() -> (r: TypeId)
    ensures
        r == type_key::<T>(),
{
    TypeId::of::<T>()
}

/// Relies on `TypeId`'s `==`: two identities compare equal exactly when they are the same.
#[verifier::external_body]
pub(crate) fn same_type_id(a: &TypeId, b: &TypeId) -> (r: bool)
    ensures
        r == (*a == *b),
{
    *a == *b
}

/// Relies on `Box::new` and the unsizing to `Box<dyn Any>`: the box holds `v`, whose type is `T`.
#[verifier::external_body]
pub(crate) fn erase<T: 'static>(v: T) -> (e: Erased)
    ensures
        tag(e) == type_key::<T>(),
        payload::<T>(e) == v,
{
    Erased { inner: Box::new(v) }
}

/// Relies on `<dyn Any>::downcast_ref`: a reference to the held value exactly when its type is `T`.
#[verifier::external_body]
pub(crate) fn unerase_ref<T: 'static>(e: &Erased) -> (r: Option<&T>)
    ensures
        r is Some <==> tag(*e) == type_key::<T>(),
        r is Some ==> *r->0 == payload::<T>(*e),
{
    e.inner.downcast_ref::<T>()
}

/// Relies on `<dyn Any>::downcast_mut`: a mutable reference to the held value exactly when its type is `T`.
#[verifier::external_body]
pub(crate) fn unerase_mut<T: 'static>(e: &mut Erased) -> (r: Option<&mut T>)
    ensures
        r is Some <==> tag(*old(e)) == type_key::<T>(),
        r is Some ==> *r->0 == payload::<T>(*old(e)),
        r is Some ==> tag(*final(e)) == tag(*old(e)),
        r is Some ==> payload::<T>(*final(e)) == *final(r->0),
        r is None ==> *final(e) == *old(e),
{
    e.inner.downcast_mut::<T>()
}

/// Relies on `Box<dyn Any>::downcast`: the held value back by move exactly when its type is `T`.
#[verifier::external_body]
pub(crate) fn unerase<T: 'static>(e: Erased) -> (r: Option<T>)
    ensures
        r is Some <==> tag(e) == type_key::<T>(),
        r is Some ==> r->0 == payload::<T>(e),
{
    match e.inner.downcast::<T>() {
        Ok(b) => Some(*b),
        Err(_) => None,
    }
}

} // verus!
