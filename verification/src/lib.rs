//! A pool of reusable resources: a bounded ring of idle resources, a semaphore of
//! permits that bounds the live ones, and the checkout that joins them with
//! the manager's hooks.

pub mod array_queue;
pub mod builder;
pub mod config;
pub mod errors;
pub mod manager;
pub mod metrics;
pub mod object;
pub mod pool;
pub mod semaphore;
pub mod slots;
pub mod time;

pub use crate::builder::PoolBuilder;
pub use crate::config::PoolConfig;
pub use crate::errors::{PoolError, RecycleError, RecycleResult, TimeoutType};
pub use crate::manager::Manager;
pub use crate::metrics::PoolMetrics;
pub use crate::object::Object;
pub use crate::pool::{Checkout, Pool};
pub use crate::slots::Status;
