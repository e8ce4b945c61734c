//! The slot table: the ring of idle resources together with the semaphore of
//! permits, and the account of permits that ties them.
//!
//! A permit stands for one resource that may be alive. A checkout reserves a
//! permit, and keeps it for good once it hands a resource out on lease. A
//! lease that comes back puts its resource into the ring and only then adds
//! a permit; a lease whose resource is taken away adds a permit without the
//! ring. So the leases and the idle resources together never outnumber the
//! slots.

use crate::array_queue::{spec_pop, ArrayQueue};
use crate::semaphore::{
    add_permits, available_permits, close_semaphore, closed, new_semaphore, permits,
    semaphore_is_closed, take_permit, Denied, MAX_PERMITS,
};
use tokio::sync::Semaphore;
use vstd::prelude::*;

verus! {

/// The current pool status.
#[derive(Clone, Copy, Debug)]
pub struct Status {
    /// The maximum size of the pool.
    pub max_size: usize,
    /// The current items idle in the pool.
    pub size: usize,
    /// The permits available from the pool.
    pub available: usize,
}

/// What a slot table holds, as plain values.
pub struct SlotsView<T> {
    /// Number of slots of the ring, and of permits at the start.
    pub max_size: nat,
    /// The idle resources, oldest first.
    pub idle: Seq<T>,
    /// Permits that the semaphore has to give.
    pub permits: nat,
    /// Whether the semaphore was closed.
    pub closed: bool,
    /// Permits held by checkouts that are under way.
    pub reserved: nat,
    /// Resources out on lease.
    pub leased: nat,
}

impl<T> SlotsView<T> {
    /// A fresh table: every permit at the semaphore, nothing idle, nothing out.
    pub open spec fn fresh(max_size: nat) -> Self {
        SlotsView {
            max_size,
            idle: Seq::empty(),
            permits: max_size,
            closed: false,
            reserved: 0,
            leased: 0,
        }
    }

    /// The coupling of ring and semaphore: permits at the semaphore, in checkouts and
    /// in leases never exceed the slots, and every idle resource has a permit
    /// at the semaphore or in a checkout.
    pub open spec fn inv(self) -> bool {
        &&& 0 < self.max_size <= MAX_PERMITS
        &&& self.permits + self.reserved + self.leased <= self.max_size
        &&& self.idle.len() <= self.permits + self.reserved
    }

    /// A checkout asks for a permit without waiting.
    pub open spec fn try_acquire(self) -> (Self, Result<(), Denied>) {
        if self.closed {
            (self, Err(Denied::Closed))
        } else if self.permits == 0 {
            (self, Err(Denied::NoPermits))
        } else {
            (
                SlotsView {
                    permits: (self.permits - 1) as nat,
                    reserved: self.reserved + 1,
                    ..self
                },
                Ok(()),
            )
        }
    }

    /// A checkout gives up: its permit goes back to the semaphore.
    pub open spec fn release(self) -> (Self, bool) {
        if self.reserved > 0 {
            (
                SlotsView {
                    permits: self.permits + 1,
                    reserved: (self.reserved - 1) as nat,
                    ..self
                },
                true,
            )
        } else {
            (self, false)
        }
    }

    /// A checkout hands its resource out: its permit is spent on the lease.
    /// The permits that stay behind must still cover the idle resources, as
    /// they do when the checkout took its resource from the ring or found the
    /// ring empty.
    pub open spec fn forget(self) -> (Self, bool) {
        if self.reserved > 0 && self.idle.len() < self.permits + self.reserved {
            (
                SlotsView { reserved: (self.reserved - 1) as nat, leased: self.leased + 1, ..self },
                true,
            )
        } else {
            (self, false)
        }
    }

    /// The oldest idle resource leaves the ring.
    pub open spec fn pop(self) -> (Self, Option<T>) {
        (SlotsView { idle: spec_pop(self.idle).0, ..self }, spec_pop(self.idle).1)
    }

    /// A lease returns its resource. Where the ring takes it, the semaphore gains
    /// a permit. Where there is no lease to end or the ring is full, the
    /// resource comes back to be detached and the semaphore gains nothing.
    pub open spec fn give_back(self, value: T) -> (Self, Result<(), T>) {
        if self.leased == 0 {
            (self, Err(value))
        } else if self.idle.len() < self.max_size {
            (
                SlotsView {
                    idle: self.idle.push(value),
                    permits: self.permits + 1,
                    leased: (self.leased - 1) as nat,
                    ..self
                },
                Ok(()),
            )
        } else {
            (SlotsView { leased: (self.leased - 1) as nat, ..self }, Err(value))
        }
    }

    /// A lease ends with its resource taken away: the semaphore gains a permit
    /// and the ring nothing.
    pub open spec fn take(self) -> (Self, bool) {
        if self.leased > 0 {
            (
                SlotsView { permits: self.permits + 1, leased: (self.leased - 1) as nat, ..self },
                true,
            )
        } else {
            (self, false)
        }
    }

    /// The semaphore closes and the ring is emptied; the second part is what left
    /// the ring, oldest first.
    pub open spec fn close(self) -> (Self, Seq<T>) {
        (SlotsView { closed: true, idle: Seq::empty(), ..self }, self.idle)
    }
}

/// The ring of idle resources and the semaphore that bounds the live ones.
pub struct Slots<T> {
    /// The idle resources.
    vec: ArrayQueue<T>,
    /// The permits.
    semaphore: Semaphore,
    /// Permits held by checkouts that are under way.
    reserved: usize,
    /// Resources out on lease.
    leased: usize,
}

impl<T> View for Slots<T> {
    type V = SlotsView<T>;

    closed spec fn view(&self) -> SlotsView<T> {
        SlotsView {
            max_size: self.vec.spec_capacity() as nat,
            idle: self.vec@,
            permits: permits(self.semaphore),
            closed: closed(self.semaphore),
            reserved: self.reserved as nat,
            leased: self.leased as nat,
        }
    }
}

impl<T> Slots<T> {
    /// The ring is well-formed and the coupling of ring and semaphore holds.
    pub closed spec fn wf(&self) -> bool {
        &&& self.vec.wf()
        &&& self@.inv()
    }

    /// What well-formedness means for the plain values.
    pub proof fn lemma_wf(&self)
        requires
            self.wf(),
        ensures
            self@.inv(),
            self@.idle.len() <= self@.max_size,
            self@.max_size <= usize::MAX,
    {
        self.vec.lemma_bounds();
    }

    /// Creates the table for a pool of `max_size` resources.
    pub fn new(max_size: usize) -> (slots: Self)
        requires
            0 < max_size <= MAX_PERMITS,
        ensures
            slots.wf(),
            slots@ == SlotsView::<T>::fresh(max_size as nat),
    {
        Self {
            vec: ArrayQueue::new(max_size),
            semaphore: new_semaphore(max_size),
            reserved: 0,
            leased: 0,
        }
    }

    /// Reserves a permit for a checkout, without waiting.
    pub fn try_acquire(&mut self) -> (taken: Result<(), Denied>)
        requires
            old(self).wf(),
        ensures
            final(self).wf(),
            (final(self)@, taken) == old(self)@.try_acquire(),
    {
        let taken = take_permit(&mut self.semaphore);
        if taken.is_ok() {
            self.reserved = self.reserved + 1;
        }
        taken
    }

    /// Gives the permit of a checkout back to the semaphore. Returns `false`, and
    /// does nothing, when no checkout holds one.
    pub fn release(&mut self) -> (done: bool)
        requires
            old(self).wf(),
        ensures
            final(self).wf(),
            (final(self)@, done) == old(self)@.release(),
    {
        if self.reserved > 0 {
            self.reserved = self.reserved - 1;
            add_permits(&mut self.semaphore, 1);
            true
        } else {
            false
        }
    }

    /// Spends the permit of a checkout on a lease. Returns `false`, and does
    /// nothing, when no checkout holds one or when an idle resource would be
    /// left without a permit.
    pub fn forget(&mut self) -> (done: bool)
        requires
            old(self).wf(),
        ensures
            final(self).wf(),
            (final(self)@, done) == old(self)@.forget(),
    {
        if self.reserved > 0 && self.vec.len() < available_permits(&self.semaphore)
            + self.reserved {
            self.reserved = self.reserved - 1;
            self.leased = self.leased + 1;
            true
        } else {
            false
        }
    }

    /// Takes the oldest idle resource out of the ring.
    pub fn pop(&mut self) -> (value: Option<T>)
        requires
            old(self).wf(),
        ensures
            final(self).wf(),
            (final(self)@, value) == old(self)@.pop(),
    {
        self.vec.pop()
    }

    /// Ends a lease by returning its resource: the resource goes into the
    /// ring, and then the semaphore gains a permit. Where the ring does not take
    /// it, or no lease is out, the resource comes back and the semaphore gains
    /// nothing.
    pub fn give_back(&mut self, value: T) -> (kept: Result<(), T>)
        requires
            old(self).wf(),
        ensures
            final(self).wf(),
            (final(self)@, kept) == old(self)@.give_back(value),
    {
        if self.leased == 0 {
            return Err(value);
        }
        self.leased = self.leased - 1;
        let kept = self.vec.push_blocking(value);
        if kept.is_ok() {
            add_permits(&mut self.semaphore, 1);
        }
        kept
    }

    /// Ends a lease whose resource does not return: the semaphore gains a permit.
    /// Returns `false`, and does nothing, when no lease is out.
    pub fn take(&mut self) -> (done: bool)
        requires
            old(self).wf(),
        ensures
            final(self).wf(),
            (final(self)@, done) == old(self)@.take(),
    {
        if self.leased > 0 {
            self.leased = self.leased - 1;
            add_permits(&mut self.semaphore, 1);
            true
        } else {
            false
        }
    }

    /// Closes the semaphore, then empties the ring. Returns what was idle, oldest
    /// first.
    pub fn close(&mut self) -> (drained: Vec<T>)
        requires
            old(self).wf(),
        ensures
            final(self).wf(),
            (final(self)@, drained@) == old(self)@.close(),
    {
        close_semaphore(&mut self.semaphore);
        let mut drained: Vec<T> = Vec::new();
        let ghost before = self@;
        loop
            invariant
                self.wf(),
                self@ == (SlotsView { idle: self@.idle, ..before }),
                drained@ + self@.idle == old(self)@.idle,
                before == (SlotsView { closed: true, ..old(self)@ }),
            ensures
                self@.idle.len() == 0,
            decreases self@.idle.len(),
        {
            match self.vec.pop() {
                Some(value) => drained.push(value),
                None => break ,
            }
            assert(drained@ + self@.idle =~= old(self)@.idle);
        }
        assert(self@.idle =~= Seq::empty());
        assert(drained@ =~= old(self)@.idle);
        drained
    }

    /// Whether the semaphore was closed.
    pub fn is_closed(&self) -> (shut: bool)
        ensures
            shut == self@.closed,
    {
        semaphore_is_closed(&self.semaphore)
    }

    /// The idle resources, the slots and the permits at the semaphore, each read
    /// once.
    pub fn status(&self) -> (status: Status)
        requires
            self.wf(),
        ensures
            status.size == self@.idle.len(),
            status.max_size == self@.max_size,
            status.available == self@.permits,
    {
        let size = self.vec.len();
        let max_size = self.vec.capacity();
        let available = available_permits(&self.semaphore);
        Status { max_size, size, available }
    }

    /// Number of resources out on lease.
    pub fn leased(&self) -> (count: usize)
        ensures
            count == self@.leased,
    {
        self.leased
    }

    /// Number of permits held by checkouts that are under way.
    pub fn reserved(&self) -> (count: usize)
        ensures
            count == self@.reserved,
    {
        self.reserved
    }
}

/// One operation on a slot table.
pub enum SlotsOp<T> {
    /// A checkout asks for a permit.
    TryAcquire,
    /// A checkout gives its permit back.
    Release,
    /// A checkout spends its permit on a lease.
    Forget,
    /// The oldest idle resource leaves the ring.
    Pop,
    /// A lease returns this resource.
    GiveBack(T),
    /// A lease ends with its resource taken away.
    Take,
    /// The pool is closed.
    Close,
}

impl<T> SlotsView<T> {
    /// The table after one operation.
    pub open spec fn step(self, op: SlotsOp<T>) -> Self {
        match op {
            SlotsOp::TryAcquire => self.try_acquire().0,
            SlotsOp::Release => self.release().0,
            SlotsOp::Forget => self.forget().0,
            SlotsOp::Pop => self.pop().0,
            SlotsOp::GiveBack(value) => self.give_back(value).0,
            SlotsOp::Take => self.take().0,
            SlotsOp::Close => self.close().0,
        }
    }

    /// The table after the operations `ops`, in order.
    pub open spec fn run(self, ops: Seq<SlotsOp<T>>) -> Self
        decreases ops.len(),
    {
        if ops.len() == 0 {
            self
        } else {
            self.run(ops.drop_last()).step(ops.last())
        }
    }

    /// While ring and semaphore are coupled, the leases and the idle
    /// resources together are no more than the slots, and neither are the
    /// leases and the permits left.
    pub proof fn lemma_bounds(self)
        requires
            self.inv(),
        ensures
            self.leased + self.idle.len() <= self.max_size,
            self.permits + self.leased <= self.max_size,
            self.idle.len() <= self.max_size,
    {
    }

    /// A fresh table is coupled.
    pub proof fn lemma_fresh(max_size: nat)
        requires
            0 < max_size <= MAX_PERMITS,
        ensures
            Self::fresh(max_size).inv(),
    {
    }

    /// No operation breaks the coupling, changes the size, or opens a
    /// closed table.
    pub proof fn lemma_step(self, op: SlotsOp<T>)
        requires
            self.inv(),
        ensures
            self.step(op).inv(),
            self.step(op).max_size == self.max_size,
            self.closed ==> self.step(op).closed,
    {
    }

    /// No run of operations breaks the coupling: after it the leases and
    /// the idle resources together are no more than the slots, and neither
    /// are the leases and the permits left.
    pub proof fn lemma_run(self, ops: Seq<SlotsOp<T>>)
        requires
            self.inv(),
        ensures
            self.run(ops).inv(),
            self.run(ops).max_size == self.max_size,
            self.run(ops).leased + self.run(ops).idle.len() <= self.max_size,
            self.run(ops).permits + self.run(ops).leased <= self.max_size,
            self.closed ==> self.run(ops).closed,
        decreases ops.len(),
    {
        if ops.len() > 0 {
            self.lemma_run(ops.drop_last());
            self.run(ops.drop_last()).lemma_step(ops.last());
        }
    }

    /// After the table was closed, whatever happens then, a checkout that
    /// asks for a permit is refused with `Closed`, and nothing changes by
    /// its asking. Right after closing the ring is empty.
    pub proof fn lemma_closed(self, ops: Seq<SlotsOp<T>>)
        requires
            self.inv(),
        ensures
            self.close().0.idle.len() == 0,
            self.close().0.run(ops).try_acquire() == (
                self.close().0.run(ops),
                Err::<(), Denied>(Denied::Closed),
            ),
    {
        self.lemma_step(SlotsOp::Close);
        self.close().0.lemma_run(ops);
    }

    /// Closing a table that was just closed changes nothing.
    pub proof fn lemma_close_twice(self)
        ensures
            self.close().0.close().0 == self.close().0,
    {
    }

    /// When a lease returns its resource, either the ring has grown by that
    /// resource and the semaphore has gained one permit, or the resource
    /// comes back to be detached and the semaphore has gained none. With a
    /// lease out, on a coupled table, it is the first.
    pub proof fn lemma_give_back(self, value: T)
        ensures
            match self.give_back(value) {
                (after, Ok(_)) => {
                    &&& after.idle == self.idle.push(value)
                    &&& after.permits == self.permits + 1
                },
                (after, Err(back)) => {
                    &&& back == value
                    &&& after.idle == self.idle
                    &&& after.permits == self.permits
                },
            },
            self.inv() ==> (self.give_back(value).1 is Ok <==> self.leased > 0),
    {
    }
}

} // verus!
