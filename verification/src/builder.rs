//! Building a pool.

use crate::config::{spec_default_max_size, PoolConfig};
use crate::manager::Manager;
use crate::pool::{Pool, PoolView};
use crate::semaphore::MAX_PERMITS;
use std::time::Duration;
use vstd::prelude::*;

verus! {

/// Builder for pools.
///
/// Instances of this are created by calling the [`Pool::builder()`] method.
/// A builder does nothing itself: use [`PoolBuilder::build`] to build the pool.
#[must_use]
pub struct PoolBuilder<M> where M: Manager {
    pub(crate) manager: M,
    pub(crate) config: PoolConfig,
}

impl<M> PoolBuilder<M> where M: Manager {
    /// The manager that the pool will be built with.
    pub closed spec fn spec_manager(&self) -> M {
        self.manager
    }

    /// The configuration that the pool will be built with.
    pub closed spec fn spec_config(&self) -> PoolConfig {
        self.config
    }

    /// Starts with the given manager and the default configuration.
    pub fn new(manager: M) -> (builder: Self)
        ensures
            builder.spec_manager() == manager,
            exists|cpus: usize|
                cpus >= 1 && builder.spec_config().max_size == spec_default_max_size(cpus),
            builder.spec_config().max_size >= 4,
            builder.spec_config().timeout is None,
    {
        Self { manager, config: PoolConfig::default() }
    }

    /// Takes the builder apart.
    pub(crate) fn into_parts(self) -> (parts: (M, PoolConfig))
        ensures
            parts.0 == self.spec_manager(),
            parts.1 == self.spec_config(),
    {
        (self.manager, self.config)
    }

    /// Builds the pool.
    pub fn build(self) -> (pool: Pool<M>)
        requires
            0 < self.spec_config().max_size <= MAX_PERMITS,
        ensures
            pool.wf(),
            pool@ == PoolView::fresh(self.spec_manager(), self.spec_config()),
    {
        Pool::from_builder(self)
    }

    /// Builds the pool if the configured size allows it: the pool has at
    /// least one slot, and no more than the semaphore takes permits.
    /// Otherwise the builder comes back.
    pub fn try_build(self) -> (built: Result<Pool<M>, Self>)
        ensures
            match built {
                Ok(pool) => {
                    &&& 0 < self.spec_config().max_size <= MAX_PERMITS
                    &&& pool.wf()
                    &&& pool@ == PoolView::fresh(self.spec_manager(), self.spec_config())
                },
                Err(builder) => {
                    &&& !(0 < self.spec_config().max_size <= MAX_PERMITS)
                    &&& builder == self
                },
            },
    {
        if 0 < self.config.max_size && self.config.max_size <= MAX_PERMITS {
            Ok(self.build())
        } else {
            Err(self)
        }
    }

    /// Sets a [`PoolConfig`] to build the pool with.
    pub fn config(self, value: PoolConfig) -> (builder: Self)
        ensures
            builder.spec_manager() == self.spec_manager(),
            builder.spec_config() == value,
    {
        let mut builder = self;
        builder.config = value;
        builder
    }

    /// Sets the [`PoolConfig::max_size`].
    pub fn max_size(self, value: usize) -> (builder: Self)
        ensures
            builder.spec_manager() == self.spec_manager(),
            builder.spec_config() == (PoolConfig { max_size: value, ..self.spec_config() }),
    {
        let mut builder = self;
        builder.config.max_size = value;
        builder
    }

    /// Sets the [`PoolConfig::timeout`].
    pub fn timeout(self, value: Option<Duration>) -> (builder: Self)
        ensures
            builder.spec_manager() == self.spec_manager(),
            builder.spec_config() == (PoolConfig { timeout: value, ..self.spec_config() }),
    {
        let mut builder = self;
        builder.config.timeout = value;
        builder
    }
}

} // verus!
