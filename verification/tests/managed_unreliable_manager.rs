use std::sync::atomic::{AtomicUsize, Ordering};

use deadpool::{Manager, Pool, PoolError, RecycleError, RecycleResult};

struct Unreliable {
    create_fail: bool,
    recycle_fail: bool,
    created: AtomicUsize,
    recycled: AtomicUsize,
    detached: AtomicUsize,
}

impl Unreliable {
    fn new(create_fail: bool, recycle_fail: bool) -> Self {
        Unreliable {
            create_fail,
            recycle_fail,
            created: AtomicUsize::new(0),
            recycled: AtomicUsize::new(0),
            detached: AtomicUsize::new(0),
        }
    }
}

impl Manager for Unreliable {
    type Type = ();
    type Error = ();

    fn create(&self) -> Result<(), ()> {
        self.created.fetch_add(1, Ordering::Relaxed);
        if self.create_fail {
            Err(())
        } else {
            Ok(())
        }
    }

    fn recycle(&self, _conn: &mut ()) -> RecycleResult<()> {
        self.recycled.fetch_add(1, Ordering::Relaxed);
        if self.recycle_fail {
            Err(RecycleError::Backend(()))
        } else {
            Ok(())
        }
    }

    fn detach(&self, _conn: &mut ()) {
        self.detached.fetch_add(1, Ordering::Relaxed);
    }
}

#[test]
fn create() {
    let manager = Unreliable::new(true, false);

    let mut pool = Pool::builder(manager).max_size(16).build();
    {
        assert!(pool.get().is_err());
    }

    let status = pool.status();
    assert_eq!(status.available, 16);
    assert_eq!(status.size, 0);
    {
        assert!(matches!(pool.get(), Err(PoolError::Backend(()))));
    }
    let status = pool.status();
    assert_eq!(status.available, 16);
    assert_eq!(status.size, 0);
    assert_eq!(pool.metrics().failure_count(), 2);
    assert_eq!(pool.manager().created.load(Ordering::Relaxed), 2);
}

#[test]
fn recycle() {
    let manager = Unreliable::new(false, true);

    let mut pool = Pool::builder(manager).max_size(16).build();
    {
        let a = pool.get().unwrap();
        let b = pool.get().unwrap();
        assert!(pool.return_object(b));
        assert!(pool.return_object(a));
    }

    let status = pool.status();
    assert_eq!(status.available, 16);
    assert_eq!(status.size, 2);
    {
        let a = pool.get().unwrap();
        // All connections fail to recycle. Thus reducing the
        // available counter to 0.
        let status = pool.status();
        assert_eq!(status.available, 15);
        assert_eq!(status.size, 0);
        assert!(pool.return_object(a));
    }
    let status = pool.status();
    assert_eq!(status.available, 16);
    assert_eq!(status.size, 1);
}

#[test]
fn recycle_failure_loop() {
    let manager = Unreliable::new(false, true);
    let mut pool = Pool::builder(manager).max_size(4).build();

    // Acquire and release twice: two resources are idle.
    let a = pool.get().unwrap();
    let b = pool.get().unwrap();
    assert!(pool.return_object(a));
    assert!(pool.return_object(b));
    assert_eq!(pool.status().size, 2);
    assert_eq!(pool.manager().created.load(Ordering::Relaxed), 2);
    assert_eq!(pool.manager().recycled.load(Ordering::Relaxed), 0);

    // Acquire once: both idle resources fail, a third is created.
    let lease = pool.get().unwrap();
    assert_eq!(pool.manager().recycled.load(Ordering::Relaxed), 2);
    assert_eq!(pool.manager().detached.load(Ordering::Relaxed), 2);
    assert_eq!(pool.manager().created.load(Ordering::Relaxed), 3);
    let status = pool.status();
    assert_eq!(status.size, 0);
    assert_eq!(status.available, status.max_size - 1);
    assert_eq!(pool.leased(), 1);
    assert_eq!(pool.metrics().failure_count(), 0);
    assert!(pool.return_object(lease));
}

#[test]
fn create_failure_after_failed_recycles() {
    let manager = Unreliable::new(false, true);
    let mut pool = Pool::builder(manager).max_size(2).build();
    let a = pool.get().unwrap();
    assert!(pool.return_object(a));
    assert_eq!(pool.status().size, 1);

    // Run the checkout step by step, and let the creation fail.
    let step = pool.begin(None);
    let idle = match step {
        deadpool::Checkout::Recycle(idle) => idle,
        _ => panic!("an idle resource was to be recycled"),
    };
    assert_eq!(pool.status().available, 1);
    let step = pool.recycled(idle, Some(Err(RecycleError::Message("stale".to_string()))));
    assert!(matches!(step, deadpool::Checkout::Create));
    assert_eq!(pool.manager().detached.load(Ordering::Relaxed), 1);
    let step = pool.created(Some(Err(())));
    assert!(matches!(
        step,
        deadpool::Checkout::Done(Err(PoolError::Backend(())))
    ));
    let status = pool.status();
    assert_eq!(status.available, 2);
    assert_eq!(status.size, 0);
    assert_eq!(pool.leased(), 0);
}

#[test]
fn a_lease_that_is_not_the_pools_own_is_detached() {
    let mut pool = Pool::builder(Unreliable::new(false, false)).max_size(2).build();
    let mut other = Pool::builder(Unreliable::new(false, false)).max_size(2).build();
    let lease = other.get().unwrap();

    // The pool has no lease out: it takes nothing in and adds no permit.
    let before = pool.status();
    assert!(!pool.return_object(lease));
    let after = pool.status();
    assert_eq!((after.size, after.available), (before.size, before.available));
    assert_eq!(pool.manager().detached.load(Ordering::Relaxed), 1);
    assert_eq!(other.manager().detached.load(Ordering::Relaxed), 0);

    // With a lease out, the return grows the ring by one and adds one permit.
    let lease = pool.get().unwrap();
    let before = pool.status();
    assert!(pool.return_object(lease));
    let after = pool.status();
    assert_eq!(after.size, before.size + 1);
    assert_eq!(after.available, before.available + 1);
    assert_eq!(pool.manager().detached.load(Ordering::Relaxed), 1);
}

#[test]
fn closing_twice_is_closing_once() {
    let mut pool = Pool::builder(Unreliable::new(false, false)).max_size(3).build();
    let a = pool.get().unwrap();
    let b = pool.get().unwrap();
    let c = pool.get().unwrap();
    assert!(pool.return_object(a));
    assert!(pool.return_object(b));
    assert!(!pool.is_closed());

    pool.close();
    assert!(pool.is_closed());
    let once = pool.status();
    assert_eq!((once.size, once.available, once.max_size), (0, 2, 3));
    assert_eq!(pool.manager().detached.load(Ordering::Relaxed), 2);
    assert_eq!(pool.leased(), 1);

    pool.close();
    assert!(pool.is_closed());
    let twice = pool.status();
    assert_eq!((twice.size, twice.available, twice.max_size), (0, 2, 3));
    assert_eq!(pool.manager().detached.load(Ordering::Relaxed), 2);
    assert_eq!(pool.leased(), 1);

    assert!(matches!(pool.get(), Err(PoolError::Closed)));
    assert!(pool.return_object(c));
    assert!(pool.status().size <= pool.status().max_size);
    assert!(matches!(pool.get(), Err(PoolError::Closed)));
}

#[test]
fn taking_a_lease_detaches_its_resource() {
    let mut pool = Pool::builder(Unreliable::new(false, false)).max_size(1).build();
    let lease = pool.get().unwrap();
    assert_eq!(pool.status().available, 0);
    let () = deadpool::Object::take(lease, Some(&mut pool));
    assert_eq!(pool.manager().detached.load(Ordering::Relaxed), 1);
    let status = pool.status();
    assert_eq!((status.size, status.available), (0, 1));
    assert_eq!(pool.leased(), 0);
}
