//! The lease on a pooled resource.

use crate::manager::Manager;
use crate::pool::{Pool, PoolView};
use crate::time::now;
use std::ops::{Deref, DerefMut};
use tokio::time::Instant;
use vstd::prelude::*;

verus! {

/// A resource out on lease, together with the moment at which the lease
/// began.
///
/// Use this object just as if it was the resource. The lease ends when the
/// object is handed back with [`Pool::return_object`] or its resource is
/// taken away with [`Object::take`].
#[must_use]
pub struct Object<M: Manager> {
    /// The actual object.
    inner: M::Type,
    /// Time this object was claimed.
    start: Instant,
}

impl<M: Manager> View for Object<M> {
    type V = M::Type;

    /// The resource on lease.
    closed spec fn view(&self) -> M::Type {
        self.inner
    }
}

impl<M: Manager> Object<M> {
    /// Starts a lease on `inner` at this moment.
    pub(crate) fn new(inner: M::Type) -> (object: Self)
        ensures
            object@ == inner,
    {
        Self { inner, start: now() }
    }

    /// Takes the lease apart.
    pub(crate) fn into_parts(self) -> (parts: (M::Type, Instant))
        ensures
            parts.0 == self@,
    {
        (self.inner, self.start)
    }

    /// Takes this object from its pool permanently.
    ///
    /// `pool` is the pool that the object came from, if it is still there.
    /// The pool gains a permit, so that another resource can take the place
    /// of this one, and its manager sees the resource off before it is
    /// handed over. Without the pool the resource is handed over as it is.
    #[must_use]
    pub fn take(this: Self, pool: Option<&mut Pool<M>>) -> (inner: M::Type)
        requires
            pool matches Some(pool) ==> pool.wf(),
        ensures
            match pool {
                Some(pool) => {
                    &&& final(pool).wf()
                    &&& final(pool)@ == (PoolView { slots: pool@.slots.take().0, ..pool@ })
                },
                None => inner == this@,
            },
    {
        let (inner, _) = this.into_parts();
        match pool {
            Some(pool) => pool.detach_lease(inner),
            None => inner,
        }
    }
}

impl<M: Manager> Deref for Object<M> {
    type Target = M::Type;

    fn deref(&self) -> (inner: &M::Type)
        ensures
            *inner == self@,
    {
        &self.inner
    }
}

impl<M: Manager> DerefMut for Object<M> {
    fn deref_mut(&mut self) -> (inner: &mut M::Type)
        ensures
            *inner == old(self)@,
            final(self)@ == *final(inner),
    {
        &mut self.inner
    }
}

} // verus!
