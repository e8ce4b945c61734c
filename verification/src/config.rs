//! The configuration of a pool.

use std::time::Duration;
use vstd::prelude::*;

verus! {

/// Pool configuration.
#[derive(Clone, Copy, Debug)]
pub struct PoolConfig {
    /// Maximum size of the pool.
    pub max_size: usize,
    /// Timeout of a checkout: `None` for no deadline, a span of no time for
    /// a checkout that does not wait.
    pub timeout: Option<Duration>,
}

/// `num_cpus::get_physical`: the number of physical cores of the machine,
/// which is at least one.
#[verifier::external_body]
fn physical_cpus() -> (count: usize)
    ensures
        count >= 1,
{
    num_cpus::get_physical()
}

/// The size of a pool on a machine with `cpus` physical cores: four for each
/// core, as far as a machine word counts.
pub open spec fn spec_default_max_size(cpus: usize) -> usize {
    if cpus * 4 <= usize::MAX {
        (cpus * 4) as usize
    } else {
        usize::MAX
    }
}

/// The size of a pool on a machine with `cpus` physical cores: four for each
/// core, as far as a machine word counts.
pub fn default_max_size(cpus: usize) -> (max_size: usize)
    ensures
        max_size == spec_default_max_size(cpus),
{
    if cpus <= usize::MAX / 4 {
        cpus * 4
    } else {
        usize::MAX
    }
}

impl PoolConfig {
    /// Creates a new configuration without any timeout and with the provided
    /// `max_size`.
    #[must_use]
    pub fn new(max_size: usize) -> (config: Self)
        ensures
            config.max_size == max_size,
            config.timeout is None,
    {
        Self { max_size, timeout: None }
    }
}

impl Default for PoolConfig {
    /// Creates a new configuration with `max_size` set to four times the
    /// number of physical cores, and no timeout.
    fn default() -> (config: Self)
        ensures
            exists|cpus: usize| cpus >= 1 && config.max_size == spec_default_max_size(cpus),
            config.max_size >= 4,
            config.timeout is None,
    {
        Self::new(default_max_size(physical_cpus()))
    }
}

} // verus!
