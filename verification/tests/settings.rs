use std::convert::Infallible;
use std::time::{Duration, Instant};

use deadpool::config::default_max_size;
use deadpool::metrics::add_micros;
use deadpool::{Manager, Pool, PoolConfig, PoolMetrics, RecycleResult};

struct Plain {}

impl Manager for Plain {
    type Type = u8;
    type Error = Infallible;

    fn create(&self) -> Result<u8, Infallible> {
        Ok(1)
    }

    fn recycle(&self, _: &mut u8) -> RecycleResult<Infallible> {
        Ok(())
    }
}

#[test]
fn config_new_has_no_timeout() {
    let config = PoolConfig::new(7);
    assert_eq!(config.max_size, 7);
    assert_eq!(config.timeout, None);
}

#[test]
fn default_size_is_four_per_core() {
    assert_eq!(default_max_size(1), 4);
    assert_eq!(default_max_size(6), 24);
    assert_eq!(default_max_size(usize::MAX / 4), usize::MAX - 3);
    assert_eq!(default_max_size(usize::MAX / 4 + 1), usize::MAX);
    assert_eq!(default_max_size(usize::MAX), usize::MAX);

    let config = PoolConfig::default();
    assert_eq!(config.max_size, num_cpus::get_physical() * 4);
    assert!(config.max_size >= 4);
    assert_eq!(config.timeout, None);
}

#[test]
fn builder_sets_the_configuration() {
    let pool = Pool::builder(Plain {}).build();
    assert_eq!(pool.status().max_size, PoolConfig::default().max_size);

    let pool = Pool::builder(Plain {}).max_size(5).build();
    let status = pool.status();
    assert_eq!((status.max_size, status.size, status.available), (5, 0, 5));
    assert!(!pool.is_closed());

    let config = PoolConfig {
        max_size: 9,
        timeout: Some(Duration::from_secs(2)),
    };
    let pool = Pool::builder(Plain {})
        .max_size(5)
        .config(config)
        .timeout(None)
        .build();
    assert_eq!(pool.status().max_size, 9);

    let pool = Pool::builder(Plain {})
        .config(config)
        .max_size(2)
        .timeout(Some(Duration::ZERO))
        .build();
    assert_eq!(pool.status().max_size, 2);
}

#[test]
fn pool_sizes_that_cannot_be_built() {
    assert!(Pool::builder(Plain {}).max_size(0).try_build().is_err());
    assert!(Pool::builder(Plain {})
        .max_size(deadpool::semaphore::MAX_PERMITS + 1)
        .try_build()
        .is_err());
    assert!(Pool::builder(Plain {}).max_size(usize::MAX).try_build().is_err());
    let back = Pool::builder(Plain {}).max_size(0).try_build().err().unwrap();
    let pool = back.max_size(1).try_build().ok().unwrap();
    assert_eq!(pool.status().max_size, 1);
}

#[test]
fn lease_taken_without_its_pool() {
    let mut pool = Pool::builder(Plain {}).max_size(1).build();
    let mut lease = pool.get().unwrap();
    *lease = 9;
    drop(pool);
    assert_eq!(deadpool::Object::take(lease, None), 9);
}

#[test]
fn configured_timeout_is_used() {
    // with no time to wait the checkout fails at once where it would wait
    let mut pool = Pool::builder(Plain {})
        .max_size(1)
        .timeout(Some(Duration::ZERO))
        .build();
    let lease = pool.get().unwrap();
    assert_eq!(*lease, 1);
    assert!(pool.get().is_err());
    assert!(pool.return_object(lease));
    assert!(pool.get().is_ok());
}

#[test]
fn micros_add_modulo_two_to_the_64() {
    assert_eq!(add_micros(0, 0), 0);
    assert_eq!(add_micros(5, 7), 12);
    assert_eq!(add_micros(u64::MAX, 1), 0);
    assert_eq!(add_micros(5, (1u128 << 64) + 3), 8);
    assert_eq!(add_micros(u64::MAX, u128::MAX), u64::MAX - 1);
}

#[test]
fn metrics_count() {
    let mut metrics = PoolMetrics::default();
    assert_eq!(metrics.microseconds_active(), 0);
    assert_eq!(metrics.microseconds_waiting(), 0);
    assert_eq!(metrics.failure_count(), 0);

    metrics.add_active(17);
    metrics.add_waiting(4);
    metrics.add_waiting(5);
    metrics.record_failure();
    assert_eq!(metrics.microseconds_active(), 17);
    assert_eq!(metrics.microseconds_waiting(), 9);
    assert_eq!(metrics.failure_count(), 1);

    metrics.failure_count = usize::MAX;
    metrics.record_failure();
    assert_eq!(metrics.failure_count(), 0);
    assert_eq!(metrics.microseconds_active(), 17);
}

#[test]
fn metrics_follow_the_clock() {
    let mut pool = Pool::builder(Plain {}).max_size(1).build();
    let lease = pool.get().unwrap();
    let start = Instant::now();
    while start.elapsed() < Duration::from_millis(3) {
        std::hint::spin_loop();
    }
    assert_eq!(pool.metrics().microseconds_active(), 0);
    assert!(pool.return_object(lease));
    let active = pool.metrics().microseconds_active();
    assert!(active >= 3_000);
    assert!(active < 60_000_000);
    assert!(pool.metrics().microseconds_waiting() < 60_000_000);
    assert_eq!(pool.metrics().failure_count(), 0);
}

#[test]
fn lease_gives_access_to_the_resource() {
    let mut pool = Pool::builder(Plain {}).max_size(2).build();
    let mut lease = pool.get().unwrap();
    assert_eq!(*lease, 1);
    *lease += 4;
    assert_eq!(*lease, 5);
    assert!(pool.return_object(lease));
    let lease = pool.get().unwrap();
    assert_eq!(*lease, 5);
    assert_eq!(deadpool::Object::take(lease, Some(&mut pool)), 5);
    assert_eq!(pool.leased(), 0);
}
