use std::convert::Infallible;
use std::time::Duration;

use deadpool::{Checkout, Manager, Pool, PoolConfig, PoolError, RecycleResult, TimeoutType};

struct Endless {}

impl Manager for Endless {
    type Type = usize;
    type Error = Infallible;

    fn create(&self) -> Result<usize, Infallible> {
        Ok(0)
    }

    fn recycle(&self, _: &mut usize) -> RecycleResult<Infallible> {
        Ok(())
    }
}

/// Runs a checkout for a manager whose work is never done in time.
fn get_never_done(
    pool: &mut Pool<Endless>,
    timeout: Option<Duration>,
) -> Result<(), PoolError<Infallible>> {
    let mut step = pool.begin(timeout);
    loop {
        step = match step {
            Checkout::Wait => pool.resume(true),
            Checkout::Recycle(idle) => pool.recycled(idle, None),
            Checkout::Create => pool.created(None),
            Checkout::Done(Ok(object)) => {
                pool.return_object(object);
                return Ok(());
            }
            Checkout::Done(Err(error)) => return Err(error),
        };
    }
}

#[test]
fn test_managed_timeout() {
    let mgr = Endless {};
    let cfg = PoolConfig {
        max_size: 16,
        timeout: Some(Duration::from_millis(0)),
    };
    let mut pool = Pool::builder(mgr).config(cfg).build();

    assert!(matches!(
        get_never_done(&mut pool, cfg.timeout),
        Err(PoolError::Timeout(_))
    ));
    let status = pool.status();
    assert_eq!(status.available, 16);
    assert_eq!(status.size, 0);
}

#[test]
fn recycle_timeout_is_swallowed() {
    let mut pool = Pool::builder(Endless {}).max_size(3).build();
    let a = pool.get().unwrap();
    let b = pool.get().unwrap();
    assert!(pool.return_object(a));
    assert!(pool.return_object(b));
    assert_eq!(pool.status().size, 2);

    // Both idle resources time out in recycling; the caller only sees that
    // the creation timed out.
    assert!(matches!(
        get_never_done(&mut pool, Some(Duration::from_millis(5))),
        Err(PoolError::Timeout(TimeoutType::Create))
    ));
    let status = pool.status();
    assert_eq!(status.size, 0);
    assert_eq!(status.available, 3);
    assert_eq!(pool.leased(), 0);
}

#[test]
fn zero_timeout_under_contention() {
    let mut pool = Pool::builder(Endless {}).max_size(1).build();
    let lease = pool.get().unwrap();

    // without waiting
    assert!(matches!(
        pool.begin(Some(Duration::ZERO)),
        Checkout::Done(Err(PoolError::Timeout(TimeoutType::Wait)))
    ));
    assert!(matches!(
        pool.timeout_get(Some(Duration::ZERO)),
        Err(PoolError::Timeout(TimeoutType::Wait))
    ));
    // a checkout with time at hand waits
    assert!(matches!(pool.begin(Some(Duration::from_secs(1))), Checkout::Wait));
    assert!(matches!(pool.begin(None), Checkout::Wait));
    // and goes on once the lease is back
    assert!(matches!(pool.resume(false), Checkout::Wait));
    assert!(pool.return_object(lease));
    let step = pool.resume(false);
    assert!(matches!(step, Checkout::Recycle(0)));
    pool.abandon(step);
    let status = pool.status();
    assert_eq!(status.size, 0);
    assert_eq!(status.available, 1);
}

#[test]
fn wait_that_expires() {
    let mut pool = Pool::builder(Endless {}).max_size(1).build();
    let lease = pool.get().unwrap();
    assert!(matches!(pool.begin(None), Checkout::Wait));
    assert!(matches!(
        pool.resume(true),
        Checkout::Done(Err(PoolError::Timeout(TimeoutType::Wait)))
    ));
    assert!(matches!(
        pool.get(),
        Err(PoolError::Timeout(TimeoutType::Wait))
    ));
    assert_eq!(pool.metrics().failure_count(), 1);
    assert!(pool.return_object(lease));
}
