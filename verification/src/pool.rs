//! The pool: checkouts, returns and closing, over the slot table and the
//! manager's hooks.
//!
//! A checkout reserves a permit, then looks for a resource: it takes idle
//! resources from the ring and has the manager recycle them, giving up those
//! that fail, until one passes; when the ring is empty it has the manager
//! create one. The permit is held all the while. It is spent on the lease
//! when a resource is handed out, and goes back to the semaphore when the
//! checkout fails.
//!
//! The steps of a checkout are functions of their own, joined by
//! [`Checkout`]: each says what is to be done next and takes what came of
//! it, a passed deadline included. [`Pool::timeout_get`] runs them in turn
//! for a caller who holds the pool and whose manager answers in place.

use crate::builder::PoolBuilder;
use crate::config::{spec_default_max_size, PoolConfig};
use crate::errors::{apply_timeout, PoolError, RecycleResult, TimeoutType};
use crate::manager::Manager;
use crate::metrics::PoolMetrics;
use crate::object::Object;
use crate::semaphore::{Denied, MAX_PERMITS};
use crate::slots::{Slots, SlotsView, Status};
use crate::time::{is_zero, now, zero_span};
use std::time::Duration;
use tokio::time::Instant;
use vstd::prelude::*;

verus! {

/// Generic object and connection pool.
pub struct Pool<M: Manager> {
    slots: Slots<M::Type>,
    config: PoolConfig,
    metrics: PoolMetrics,
    manager: M,
}

/// What a pool holds, as plain values.
pub struct PoolView<M: Manager> {
    /// The slot table.
    pub slots: SlotsView<M::Type>,
    /// The counters.
    pub metrics: PoolMetrics,
    /// The configuration.
    pub config: PoolConfig,
    /// The manager.
    pub manager: M,
}

impl<M: Manager> PoolView<M> {
    /// A pool that was just built.
    pub open spec fn fresh(manager: M, config: PoolConfig) -> Self {
        PoolView {
            slots: SlotsView::fresh(config.max_size as nat),
            metrics: PoolMetrics { total_active: 0, total_waiting: 0, failure_count: 0 },
            config,
            manager,
        }
    }
}

/// Where a checkout stands, and what its driver is to do next.
pub enum Checkout<M: Manager> {
    /// No permit is free. The driver waits until one may be, or until the
    /// deadline, and goes on with [`Pool::resume`].
    Wait,
    /// The checkout holds a permit and this idle resource. The driver has the
    /// manager recycle it before the deadline and goes on with
    /// [`Pool::recycled`].
    Recycle(M::Type),
    /// The checkout holds a permit and the ring is empty. The driver has the
    /// manager create a resource before the deadline and goes on with
    /// [`Pool::created`].
    Create,
    /// The checkout is over.
    Done(Result<Object<M>, PoolError<M::Error>>),
}

/// Whether a checkout with these timeouts gives up at once where it would
/// have to wait: it does when the timeout is a span of no time.
pub open spec fn spec_non_blocking(timeouts: Option<Duration>) -> bool {
    match timeouts {
        Some(t) => zero_span(t),
        None => false,
    }
}

/// The error of a checkout that was not given a permit.
pub fn acquire_error<E>(denied: Denied) -> (error: PoolError<E>)
    ensures
        error == match denied {
            Denied::Closed => PoolError::<E>::Closed,
            Denied::NoPermits => PoolError::Timeout(TimeoutType::Wait),
        },
{
    match denied {
        Denied::Closed => PoolError::Closed,
        Denied::NoPermits => PoolError::Timeout(TimeoutType::Wait),
    }
}

impl<M: Manager> View for Pool<M> {
    type V = PoolView<M>;

    closed spec fn view(&self) -> PoolView<M> {
        PoolView {
            slots: self.slots@,
            metrics: self.metrics,
            config: self.config,
            manager: self.manager,
        }
    }
}

impl<M: Manager> Pool<M> {
    /// The slot table is well-formed, it has the size that the configuration
    /// names, and every idle resource has a permit at the semaphore.
    pub closed spec fn wf(&self) -> bool {
        &&& self.slots.wf()
        &&& self.slots@.max_size == self.config.max_size
        &&& self.slots@.idle.len() <= self.slots@.permits
    }

    /// What well-formedness means for the plain values.
    pub proof fn lemma_wf(&self)
        requires
            self.wf(),
        ensures
            self@.slots.inv(),
            self@.slots.max_size == self@.config.max_size,
            self@.slots.idle.len() <= self@.slots.permits,
            self@.slots.leased + self@.slots.idle.len() <= self@.slots.max_size,
            self@.slots.permits + self@.slots.leased <= self@.slots.max_size,
    {
        self.slots.lemma_wf();
    }

    /// Get the metrics of the pool.
    pub fn metrics(&self) -> (metrics: &PoolMetrics)
        ensures
            *metrics == self@.metrics,
    {
        &self.metrics
    }

    /// The configuration that the pool was built with.
    pub fn config(&self) -> (config: &PoolConfig)
        ensures
            *config == self@.config,
    {
        &self.config
    }

    /// Instantiates a builder for a new pool.
    ///
    /// This is the only way to create a pool.
    pub fn builder(manager: M) -> (builder: PoolBuilder<M>)
        ensures
            builder.spec_manager() == manager,
            exists|cpus: usize|
                cpus >= 1 && builder.spec_config().max_size == spec_default_max_size(cpus),
            builder.spec_config().max_size >= 4,
            builder.spec_config().timeout is None,
    {
        PoolBuilder::new(manager)
    }

    pub(crate) fn from_builder(builder: PoolBuilder<M>) -> (pool: Self)
        requires
            0 < builder.spec_config().max_size <= MAX_PERMITS,
        ensures
            pool.wf(),
            pool@ == PoolView::fresh(builder.spec_manager(), builder.spec_config()),
    {
        let (manager, config) = builder.into_parts();
        Self {
            slots: Slots::new(config.max_size),
            config,
            metrics: PoolMetrics::default(),
            manager,
        }
    }

    /// Looks for the next resource of a checkout that holds a permit: the
    /// oldest idle one, to be recycled, or none, so that one is to be
    /// created.
    fn next_resource(&mut self) -> (step: Checkout<M>)
        requires
            old(self).slots.wf(),
        ensures
            final(self).slots.wf(),
            final(self)@ == (PoolView { slots: old(self)@.slots.pop().0, ..old(self)@ }),
            step == match old(self)@.slots.pop().1 {
                Some(idle) => Checkout::<M>::Recycle(idle),
                None => Checkout::Create,
            },
    {
        match self.slots.pop() {
            Some(inner_obj) => Checkout::Recycle(inner_obj),
            None => Checkout::Create,
        }
    }

    /// Hands a resource out on lease and spends the checkout's permit on it.
    fn lease(&mut self, inner_obj: M::Type) -> (step: Checkout<M>)
        requires
            old(self).wf(),
            old(self)@.slots.reserved > 0,
        ensures
            final(self).wf(),
            final(self)@ == (PoolView { slots: old(self)@.slots.forget().0, ..old(self)@ }),
            old(self)@.slots.forget().1,
            step matches Checkout::Done(Ok(object)) && object@ == inner_obj,
    {
        proof {
            self.slots.lemma_wf();
        }
        let _ = self.slots.forget();
        Checkout::Done(Ok(Object::new(inner_obj)))
    }

    /// Starts a checkout: asks the semaphore for a permit and, with the permit,
    /// looks for a resource.
    ///
    /// A closed semaphore ends the checkout with `Closed`. A semaphore without permits
    /// ends it with a timeout of the wait when `timeouts` is a span of no
    /// time, and lets it wait otherwise.
    pub fn begin(&mut self, timeouts: Option<Duration>) -> (step: Checkout<M>)
        requires
            old(self).wf(),
        ensures
            final(self).wf(),
            match old(self)@.slots.try_acquire() {
                (reserved, Ok(_)) => {
                    &&& final(self)@ == (PoolView { slots: reserved.pop().0, ..old(self)@ })
                    &&& step == match reserved.pop().1 {
                        Some(idle) => Checkout::<M>::Recycle(idle),
                        None => Checkout::Create,
                    }
                },
                (_, Err(Denied::Closed)) => {
                    &&& final(self)@ == old(self)@
                    &&& step == Checkout::<M>::Done(Err(PoolError::Closed))
                },
                (_, Err(Denied::NoPermits)) => {
                    &&& final(self)@ == old(self)@
                    &&& step == if spec_non_blocking(timeouts) {
                        Checkout::<M>::Done(Err(PoolError::Timeout(TimeoutType::Wait)))
                    } else {
                        Checkout::Wait
                    }
                },
            },
    {
        let non_blocking = match timeouts {
            Some(t) => is_zero(&t),
            None => false,
        };
        proof {
            self.slots.lemma_wf();
        }
        let taken = self.slots.try_acquire();
        match taken {
            Ok(()) => self.next_resource(),
            Err(denied) => {
                if non_blocking {
                    Checkout::Done(Err(acquire_error(denied)))
                } else {
                    match denied {
                        Denied::NoPermits => Checkout::Wait,
                        Denied::Closed => Checkout::Done(Err(PoolError::Closed)),
                    }
                }
            },
        }
    }

    /// Goes on with a checkout that waited for a permit. With `expired` the
    /// deadline passed meanwhile, and the checkout ends with a timeout of
    /// the wait. Otherwise it asks the semaphore again: it goes on with a permit,
    /// ends with `Closed` at a closed semaphore, or waits once more.
    pub fn resume(&mut self, expired: bool) -> (step: Checkout<M>)
        requires
            old(self).wf(),
        ensures
            final(self).wf(),
            expired ==> {
                &&& final(self)@ == old(self)@
                &&& step == Checkout::<M>::Done(Err(PoolError::Timeout(TimeoutType::Wait)))
            },
            !expired ==> match old(self)@.slots.try_acquire() {
                (reserved, Ok(_)) => {
                    &&& final(self)@ == (PoolView { slots: reserved.pop().0, ..old(self)@ })
                    &&& step == match reserved.pop().1 {
                        Some(idle) => Checkout::<M>::Recycle(idle),
                        None => Checkout::Create,
                    }
                },
                (_, Err(Denied::Closed)) => {
                    &&& final(self)@ == old(self)@
                    &&& step == Checkout::<M>::Done(Err(PoolError::Closed))
                },
                (_, Err(Denied::NoPermits)) => {
                    &&& final(self)@ == old(self)@
                    &&& step == Checkout::<M>::Wait
                },
            },
    {
        if expired {
            return Checkout::Done(Err(PoolError::Timeout(TimeoutType::Wait)));
        }
        proof {
            self.slots.lemma_wf();
        }
        let taken = self.slots.try_acquire();
        match taken {
            Ok(()) => self.next_resource(),
            Err(Denied::NoPermits) => Checkout::Wait,
            Err(Denied::Closed) => Checkout::Done(Err(PoolError::Closed)),
        }
    }

    /// Goes on with a checkout after the manager was asked to recycle
    /// `inner_obj`. `None` says that the deadline passed first.
    ///
    /// A resource that passed is handed out on lease. One that failed, or
    /// was not done in time, is given up: the manager sees it off, and the
    /// checkout looks for the next resource under the same permit.
    pub fn recycled(
        &mut self,
        inner_obj: M::Type,
        outcome: Option<RecycleResult<M::Error>>,
    ) -> (step: Checkout<M>)
        requires
            old(self).wf(),
            old(self)@.slots.reserved > 0,
        ensures
            final(self).wf(),
            final(self)@.slots.reserved > 0 || step is Done,
            match outcome {
                Some(Ok(_)) => {
                    &&& final(self)@ == (PoolView {
                        slots: old(self)@.slots.forget().0,
                        ..old(self)@
                    })
                    &&& old(self)@.slots.forget().1
                    &&& step matches Checkout::Done(Ok(object)) && object@ == inner_obj
                },
                _ => {
                    &&& final(self)@ == (PoolView {
                        slots: old(self)@.slots.pop().0,
                        ..old(self)@
                    })
                    &&& step == match old(self)@.slots.pop().1 {
                        Some(idle) => Checkout::<M>::Recycle(idle),
                        None => Checkout::Create,
                    }
                },
            },
    {
        match outcome {
            Some(Ok(())) => self.lease(inner_obj),
            _ => {
                let mut inner_obj = inner_obj;
                self.manager.detach(&mut inner_obj);
                proof {
                    self.slots.lemma_wf();
                }
                self.next_resource()
            },
        }
    }

    /// Goes on with a checkout after the manager was asked to create a
    /// resource. `None` says that the deadline passed first.
    ///
    /// A new resource is handed out on lease. Otherwise the checkout ends
    /// with the backend's error or a timeout of the creation, and its permit
    /// goes back to the semaphore.
    pub fn created(&mut self, outcome: Option<Result<M::Type, M::Error>>) -> (step: Checkout<M>)
        requires
            old(self).wf(),
            old(self)@.slots.reserved > 0,
        ensures
            final(self).wf(),
            step is Done,
            match outcome {
                Some(Ok(inner_obj)) => {
                    &&& final(self)@ == (PoolView {
                        slots: old(self)@.slots.forget().0,
                        ..old(self)@
                    })
                    &&& old(self)@.slots.forget().1
                    &&& step matches Checkout::Done(Ok(object)) && object@ == inner_obj
                },
                Some(Err(e)) => {
                    &&& final(self)@ == (PoolView {
                        slots: old(self)@.slots.release().0,
                        ..old(self)@
                    })
                    &&& step == Checkout::<M>::Done(Err(PoolError::Backend(e)))
                },
                None => {
                    &&& final(self)@ == (PoolView {
                        slots: old(self)@.slots.release().0,
                        ..old(self)@
                    })
                    &&& step == Checkout::<M>::Done(Err(PoolError::Timeout(TimeoutType::Create)))
                },
            },
    {
        match apply_timeout(TimeoutType::Create, outcome) {
            Ok(inner_obj) => self.lease(inner_obj),
            Err(error) => {
                proof {
                    self.slots.lemma_wf();
                }
                let _ = self.slots.release();
                Checkout::Done(Err(error))
            },
        }
    }

    /// Ends a checkout, as the pool's counters see it: adds the time since
    /// `start` to the time that checkouts took, and counts a failure.
    pub fn settle(
        &mut self,
        start: Instant,
        res: Result<Object<M>, PoolError<M::Error>>,
    ) -> (settled: Result<Object<M>, PoolError<M::Error>>)
        requires
            old(self).wf(),
        ensures
            final(self).wf(),
            settled == res,
            final(self)@.slots == old(self)@.slots,
            final(self)@.config == old(self)@.config,
            final(self)@.manager == old(self)@.manager,
            final(self)@.metrics.total_active == old(self)@.metrics.total_active,
            final(self)@.metrics.failure_count == if res is Err {
                old(self)@.metrics.failure_count.wrapping_add(1)
            } else {
                old(self)@.metrics.failure_count
            },
    {
        self.metrics.record_waiting(start);
        match res {
            Ok(success) => Ok(success),
            Err(error) => {
                self.metrics.record_failure();
                Err(error)
            },
        }
    }

    /// Retrieves an [`Object`] from this pool, with the configured timeout.
    ///
    /// See [`Pool::timeout_get`].
    pub fn get(&mut self) -> (res: Result<Object<M>, PoolError<M::Error>>)
        requires
            old(self).wf(),
        ensures
            final(self).wf(),
            checked_out(old(self)@, final(self)@, res),
    {
        self.timeout_get(self.config.timeout)
    }

    /// Retrieves an [`Object`] from this pool.
    ///
    /// The caller holds the pool, so no permit can come back while it
    /// waits: where the checkout would have to wait, it ends as a wait does
    /// whose deadline has passed. The manager answers in place, so no
    /// deadline passes over its work.
    pub fn timeout_get(&mut self, timeouts: Option<Duration>) -> (res: Result<
        Object<M>,
        PoolError<M::Error>,
    >)
        requires
            old(self).wf(),
        ensures
            final(self).wf(),
            checked_out(old(self)@, final(self)@, res),
    {
        let start = now();
        let res = self.get_inner(timeouts);
        self.settle(start, res)
    }

    fn get_inner(&mut self, timeouts: Option<Duration>) -> (res: Result<
        Object<M>,
        PoolError<M::Error>,
    >)
        requires
            old(self).wf(),
        ensures
            final(self).wf(),
            final(self)@.metrics == old(self)@.metrics,
            found(old(self)@, final(self)@, res),
    {
        let mut step = self.begin(timeouts);
        if let Checkout::Wait = step {
            step = self.resume(true);
        }
        proof {
            old(self).lemma_wf();
        }
        loop
            invariant
                self.wf(),
                old(self).wf(),
                self@.metrics == old(self)@.metrics,
                self@.config == old(self)@.config,
                self@.manager == old(self)@.manager,
                !(step is Wait),
                step is Done ==> found(old(self)@, self@, step->Done_0),
                !(step is Done) ==> searching(old(self)@.slots, self@.slots),
                step is Create ==> self@.slots.idle.len() == 0,
                step is Recycle ==> self@.slots.idle.len() < old(self)@.slots.idle.len(),
            decreases
                    (if step is Done {
                        0
                    } else if step is Recycle {
                        self@.slots.idle.len() + 2
                    } else {
                        1
                    }),
        {
            proof {
                self.lemma_wf();
            }
            step = match step {
                Checkout::Done(res) => {
                    return res;
                },
                Checkout::Recycle(inner_obj) => {
                    let mut inner_obj = inner_obj;
                    let outcome = self.manager.recycle(&mut inner_obj);
                    self.recycled(inner_obj, Some(outcome))
                },
                Checkout::Create => {
                    let outcome = self.manager.create();
                    self.created(Some(outcome))
                },
                Checkout::Wait => Checkout::Wait,
            };
        }
    }

    /// Gives a checkout up before it is over: its permit goes back to the
    /// semaphore, and the manager sees off the resource that it held. A lease
    /// that was already made is returned.
    pub fn abandon(&mut self, step: Checkout<M>)
        requires
            old(self).wf(),
        ensures
            final(self).wf(),
            final(self)@.config == old(self)@.config,
            final(self)@.manager == old(self)@.manager,
            final(self)@.metrics.failure_count == old(self)@.metrics.failure_count,
            final(self)@.metrics.total_waiting == old(self)@.metrics.total_waiting,
            final(self)@.slots == match step {
                Checkout::Wait | Checkout::Done(Err(_)) => old(self)@.slots,
                Checkout::Recycle(_) | Checkout::Create => old(self)@.slots.release().0,
                Checkout::Done(Ok(object)) => old(self)@.slots.give_back(object@).0,
            },
    {
        proof {
            self.slots.lemma_wf();
        }
        match step {
            Checkout::Wait | Checkout::Done(Err(_)) => {},
            Checkout::Recycle(inner_obj) => {
                let mut inner_obj = inner_obj;
                self.manager.detach(&mut inner_obj);
                let _ = self.slots.release();
            },
            Checkout::Create => {
                let _ = self.slots.release();
            },
            Checkout::Done(Ok(object)) => {
                let _ = self.return_object(object);
            },
        }
    }

    /// Ends a lease by returning its resource.
    ///
    /// The resource goes into the ring, and then the semaphore gains a permit.
    /// Where the ring does not take it, the manager sees the resource off
    /// and the semaphore gains nothing. Returns whether the ring took it, which
    /// it does exactly when a lease was out.
    pub fn return_object(&mut self, object: Object<M>) -> (kept: bool)
        requires
            old(self).wf(),
        ensures
            final(self).wf(),
            final(self)@.slots == old(self)@.slots.give_back(object@).0,
            kept == old(self)@.slots.give_back(object@).1 is Ok,
            kept == (old(self)@.slots.leased > 0),
            final(self)@.config == old(self)@.config,
            final(self)@.manager == old(self)@.manager,
            final(self)@.metrics.failure_count == old(self)@.metrics.failure_count,
            final(self)@.metrics.total_waiting == old(self)@.metrics.total_waiting,
    {
        let (inner, start) = object.into_parts();
        self.metrics.record_active(start);
        proof {
            self.slots.lemma_wf();
        }
        match self.slots.give_back(inner) {
            Ok(()) => true,
            Err(inner) => {
                let mut inner = inner;
                self.manager.detach(&mut inner);
                false
            },
        }
    }

    /// Ends a lease whose resource leaves the pool: the semaphore gains a permit,
    /// and the manager sees the resource off.
    pub(crate) fn detach_lease(&mut self, inner: M::Type) -> (detached: M::Type)
        requires
            old(self).wf(),
        ensures
            final(self).wf(),
            final(self)@ == (PoolView { slots: old(self)@.slots.take().0, ..old(self)@ }),
    {
        proof {
            self.slots.lemma_wf();
        }
        let _ = self.slots.take();
        let mut inner = inner;
        self.manager.detach(&mut inner);
        inner
    }

    /// Closes this pool.
    ///
    /// Every checkout from now on ends with [`PoolError::Closed`]. The ring
    /// is emptied, and the manager sees off every resource that was idle,
    /// oldest first.
    pub fn close(&mut self)
        requires
            old(self).wf(),
        ensures
            final(self).wf(),
            final(self)@ == (PoolView { slots: old(self)@.slots.close().0, ..old(self)@ }),
    {
        let mut drained = self.slots.close();
        let count = drained.len();
        let mut i: usize = 0;
        while i < count
            invariant
                i <= count,
                count == drained@.len(),
                self@ == (PoolView { slots: old(self)@.slots.close().0, ..old(self)@ }),
            decreases count - i,
        {
            self.manager.detach(&mut drained[i]);
            i += 1;
        }
    }

    /// Indicates whether this pool has been closed.
    #[must_use]
    pub fn is_closed(&self) -> (shut: bool)
        ensures
            shut == self@.slots.closed,
    {
        self.slots.is_closed()
    }

    /// Retrieves the [`Status`] of this pool.
    #[must_use]
    pub fn status(&self) -> (status: Status)
        requires
            self.wf(),
        ensures
            status.size == self@.slots.idle.len(),
            status.max_size == self@.slots.max_size,
            status.available == self@.slots.permits,
            status.size <= status.max_size,
            status.size <= status.available <= status.max_size,
    {
        proof {
            self.slots.lemma_wf();
        }
        self.slots.status()
    }

    /// Number of resources out on lease.
    pub fn leased(&self) -> (count: usize)
        ensures
            count == self@.slots.leased,
    {
        self.slots.leased()
    }

    /// Number of checkouts that are under way, each with a permit.
    pub fn reserved(&self) -> (count: usize)
        ensures
            count == self@.slots.reserved,
    {
        self.slots.reserved()
    }

    /// Returns the [`Manager`] of this pool.
    #[must_use]
    pub fn manager(&self) -> (manager: &M)
        ensures
            *manager == self@.manager,
    {
        &self.manager
    }
}

/// `after` is what is left of `before` when values have gone from its front.
pub open spec fn front_gone<T>(before: Seq<T>, after: Seq<T>) -> bool {
    &&& after.len() <= before.len()
    &&& after =~= before.skip(before.len() - after.len())
}

/// The slot table of a checkout that holds a permit and still looks for its
/// resource: the permit has left the semaphore, and resources have left the
/// front of the ring, nothing else.
pub open spec fn searching<T>(before: SlotsView<T>, now: SlotsView<T>) -> bool {
    &&& !before.closed
    &&& before.permits > 0
    &&& front_gone(before.idle, now.idle)
    &&& now.max_size == before.max_size
    &&& now.closed == before.closed
    &&& now.permits == before.permits - 1
    &&& now.reserved == before.reserved + 1
    &&& now.leased == before.leased
}

/// What a checkout finds, whatever the manager answers.
///
/// At a closed semaphore it fails with `Closed`, and at a semaphore without permits
/// with a timeout of the wait; the slot table is then as before. Otherwise
/// idle resources leave the front of the ring, as many as the manager was
/// asked to recycle. Then either a resource is out on lease, for which one
/// permit has left the semaphore and, unless the ring was empty, at least one
/// resource the ring; or the ring is empty and the checkout failed with the
/// backend's error from creating one, with every permit back.
pub open spec fn found<M: Manager>(
    before: PoolView<M>,
    after: PoolView<M>,
    res: Result<Object<M>, PoolError<M::Error>>,
) -> bool {
    &&& after.config == before.config
    &&& after.manager == before.manager
    &&& after.slots.max_size == before.slots.max_size
    &&& after.slots.closed == before.slots.closed
    &&& after.slots.reserved == before.slots.reserved
    &&& if before.slots.closed {
        &&& res == Err::<Object<M>, PoolError<M::Error>>(PoolError::Closed)
        &&& after.slots == before.slots
    } else if before.slots.permits == 0 {
        &&& res == Err::<Object<M>, PoolError<M::Error>>(PoolError::Timeout(TimeoutType::Wait))
        &&& after.slots == before.slots
    } else {
        &&& front_gone(before.slots.idle, after.slots.idle)
        &&& match res {
            Ok(_) => {
                &&& after.slots.permits == before.slots.permits - 1
                &&& after.slots.leased == before.slots.leased + 1
                &&& before.slots.idle.len() > 0 ==> after.slots.idle.len()
                    < before.slots.idle.len()
            },
            Err(PoolError::Backend(_)) => {
                &&& after.slots.permits == before.slots.permits
                &&& after.slots.leased == before.slots.leased
                &&& after.slots.idle.len() == 0
            },
            Err(_) => false,
        }
    }
}

/// On a closed pool every checkout ends with `Closed` and leaves the slot
/// table as it was, closed as before.
pub proof fn lemma_closed_pool<M: Manager>(
    before: PoolView<M>,
    after: PoolView<M>,
    res: Result<Object<M>, PoolError<M::Error>>,
)
    requires
        before.slots.closed,
        found(before, after, res),
    ensures
        res == Err::<Object<M>, PoolError<M::Error>>(PoolError::Closed),
        after.slots == before.slots,
        after.slots.closed,
{
}

/// A checkout that hands out a lease leaves one lease more and one permit
/// less; a checkout that fails leaves leases and permits as they were. Either
/// way the leases and the idle resources together stay within the slots.
pub proof fn lemma_found_within_slots<M: Manager>(
    before: PoolView<M>,
    after: PoolView<M>,
    res: Result<Object<M>, PoolError<M::Error>>,
)
    requires
        before.slots.inv(),
        before.slots.idle.len() <= before.slots.permits,
        found(before, after, res),
    ensures
        after.slots.leased == before.slots.leased + if res is Ok {
            1nat
        } else {
            0nat
        },
        after.slots.permits + after.slots.leased == before.slots.permits + before.slots.leased,
        after.slots.leased + after.slots.idle.len() <= after.slots.max_size,
        after.slots.permits + after.slots.leased <= after.slots.max_size,
{
}

/// What a checkout leaves behind: what it found, the counters of leases
/// untouched and a failure counted.
pub open spec fn checked_out<M: Manager>(
    before: PoolView<M>,
    after: PoolView<M>,
    res: Result<Object<M>, PoolError<M::Error>>,
) -> bool {
    &&& found(before, after, res)
    &&& after.metrics.total_active == before.metrics.total_active
    &&& after.metrics.failure_count == if res is Err {
        before.metrics.failure_count.wrapping_add(1)
    } else {
        before.metrics.failure_count
    }
}

} // verus!
