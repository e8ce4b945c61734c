//! Counters of a pool's use.

use crate::time::{as_micros, elapsed, span_micros};
use std::time::Duration;
use tokio::time::Instant;
use vstd::prelude::*;

verus! {

/// Statistics regarding the pool.
#[derive(Clone, Copy, Debug)]
#[must_use]
pub struct PoolMetrics {
    /// The total time that resources were out on lease, in microseconds.
    pub total_active: u64,
    /// The total time that checkouts took, in microseconds.
    pub total_waiting: u64,
    /// The number of checkouts that failed.
    pub failure_count: usize,
}

/// A total of microseconds after `micros` more were added. The total counts
/// modulo 2^64, which is some 580000 years.
pub open spec fn spec_add_micros(total: u64, micros: u128) -> u64 {
    ((total + micros) % 0x1_0000_0000_0000_0000) as u64
}

/// Adds `micros` to a total of microseconds, modulo 2^64.
pub fn add_micros(total: u64, micros: u128) -> (sum: u64)
    ensures
        sum == spec_add_micros(total, micros),
{
    let low: u64 = (micros % 0x1_0000_0000_0000_0000) as u64;
    assert((total + micros) % 0x1_0000_0000_0000_0000 == (total + low) % 0x1_0000_0000_0000_0000)
        by {
        vstd::arithmetic::div_mod::lemma_add_mod_noop_right(
            total as int,
            micros as int,
            0x1_0000_0000_0000_0000,
        );
    }
    assert(total.wrapping_add(low) == (total + low) % 0x1_0000_0000_0000_0000) by {
        if total + low > u64::MAX {
            vstd::arithmetic::div_mod::lemma_fundamental_div_mod_converse(
                total + low,
                0x1_0000_0000_0000_0000,
                1,
                total + low - 0x1_0000_0000_0000_0000,
            );
        } else {
            vstd::arithmetic::div_mod::lemma_small_mod(
                (total + low) as nat,
                0x1_0000_0000_0000_0000,
            );
        }
    }
    total.wrapping_add(low)
}

impl Default for PoolMetrics {
    fn default() -> (metrics: Self)
        ensures
            metrics.total_active == 0,
            metrics.total_waiting == 0,
            metrics.failure_count == 0,
    {
        Self { total_active: 0, total_waiting: 0, failure_count: 0 }
    }
}

impl PoolMetrics {
    /// The counters after a checkout took the span of time `span`: its whole
    /// microseconds are added to the time that checkouts took.
    pub open spec fn waited(self, span: Duration) -> PoolMetrics {
        PoolMetrics {
            total_waiting: spec_add_micros(self.total_waiting, span_micros(span)),
            ..self
        }
    }

    /// The counters after a resource was out on lease for the span of time
    /// `span`: its whole microseconds are added to the time that resources
    /// were out on lease.
    pub open spec fn active_for(self, span: Duration) -> PoolMetrics {
        PoolMetrics {
            total_active: spec_add_micros(self.total_active, span_micros(span)),
            ..self
        }
    }

    /// Adds the time since `start` to the time that checkouts took: the
    /// whole microseconds of the span that the clock tells. Nothing else
    /// changes.
    pub fn record_waiting(&mut self, start: Instant)
        ensures
            exists|span: Duration| *final(self) == #[trigger] old(self).waited(span),
            final(self).total_active == old(self).total_active,
            final(self).failure_count == old(self).failure_count,
    {
        let waiting = elapsed(&start);
        self.add_waiting(as_micros(&waiting));
        assert(*self == old(self).waited(waiting));
    }

    /// Adds the time since `start` to the time that resources were out on
    /// lease: the whole microseconds of the span that the clock tells.
    /// Nothing else changes.
    pub fn record_active(&mut self, start: Instant)
        ensures
            exists|span: Duration| *final(self) == #[trigger] old(self).active_for(span),
            final(self).total_waiting == old(self).total_waiting,
            final(self).failure_count == old(self).failure_count,
    {
        let active = elapsed(&start);
        self.add_active(as_micros(&active));
        assert(*self == old(self).active_for(active));
    }

    /// Adds `micros` to the time that checkouts took.
    pub fn add_waiting(&mut self, micros: u128)
        ensures
            *final(self) == (PoolMetrics {
                total_waiting: spec_add_micros(old(self).total_waiting, micros),
                ..*old(self)
            }),
    {
        self.total_waiting = add_micros(self.total_waiting, micros);
    }

    /// Adds `micros` to the time that resources were out on lease.
    pub fn add_active(&mut self, micros: u128)
        ensures
            *final(self) == (PoolMetrics {
                total_active: spec_add_micros(old(self).total_active, micros),
                ..*old(self)
            }),
    {
        self.total_active = add_micros(self.total_active, micros);
    }

    /// Counts one more failed checkout. The count wraps around with the
    /// machine word.
    pub fn record_failure(&mut self)
        ensures
            *final(self) == (PoolMetrics {
                failure_count: old(self).failure_count.wrapping_add(1),
                ..*old(self)
            }),
    {
        self.failure_count = self.failure_count.wrapping_add(1);
    }

    /// Get the total number of microseconds that items were taken from the pool.
    pub fn microseconds_active(&self) -> (micros: u64)
        ensures
            micros == self.total_active,
    {
        self.total_active
    }

    /// Get the total number of microseconds that tasks were waiting for an item in the pool.
    pub fn microseconds_waiting(&self) -> (micros: u64)
        ensures
            micros == self.total_waiting,
    {
        self.total_waiting
    }

    /// Get the total number of failures to retrieve an item from the pool.
    pub fn failure_count(&self) -> (count: usize)
        ensures
            count == self.failure_count,
    {
        self.failure_count
    }
}

} // verus!
