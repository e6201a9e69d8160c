//! The read pool: three future pools, one per request priority, each with
//! its own thread count, built from one configuration.

use vstd::prelude::*;

verus! {

/// Seconds between two ticks of a pool's metrics.
pub const TICK_INTERVAL_SEC: u64 = 1;

/// The priority of a read request.
#[derive(Debug, Clone, Copy, PartialEq, Eq, Structural)]
pub enum Priority {
    High,
    Normal,
    Low,
}

#[derive(Debug, Clone, Copy, PartialEq, Eq, Structural)]
pub struct Config {
    pub high_concurrency: usize,
    pub normal_concurrency: usize,
    pub low_concurrency: usize,
    pub stack_size: usize,
}

/// How one future pool is to be built.
#[derive(Debug, Clone, PartialEq, Eq)]
pub struct FuturePoolSpec {
    pub concurrency: usize,
    pub stack_size: usize,
    pub name: String,
    pub tick_interval_sec: u64,
}

/// The three pools of the read pool.
#[derive(Debug, Clone, PartialEq, Eq)]
pub struct ReadPool {
    pub pool_high: FuturePoolSpec,
    pub pool_normal: FuturePoolSpec,
    pub pool_low: FuturePoolSpec,
}

impl ReadPool {
    pub fn new(config: &Config) -> (r: ReadPool)
        ensures
            r.pool_high.concurrency == config.high_concurrency,
            r.pool_normal.concurrency == config.normal_concurrency,
            r.pool_low.concurrency == config.low_concurrency,
            r.pool_high.stack_size == config.stack_size,
            r.pool_normal.stack_size == config.stack_size,
            r.pool_low.stack_size == config.stack_size,
            r.pool_high.name@ == "readpool-high"@,
            r.pool_normal.name@ == "readpool-normal"@,
            r.pool_low.name@ == "readpool-low"@,
            r.pool_high.tick_interval_sec == TICK_INTERVAL_SEC,
            r.pool_normal.tick_interval_sec == TICK_INTERVAL_SEC,
            r.pool_low.tick_interval_sec == TICK_INTERVAL_SEC,
    {
        ReadPool {
            pool_high: FuturePoolSpec {
                concurrency: config.high_concurrency,
                stack_size: config.stack_size,
                name: "readpool-high".to_owned(),
                tick_interval_sec: TICK_INTERVAL_SEC,
            },
            pool_normal: FuturePoolSpec {
                concurrency: config.normal_concurrency,
                stack_size: config.stack_size,
                name: "readpool-normal".to_owned(),
                tick_interval_sec: TICK_INTERVAL_SEC,
            },
            pool_low: FuturePoolSpec {
                concurrency: config.low_concurrency,
                stack_size: config.stack_size,
                name: "readpool-low".to_owned(),
                tick_interval_sec: TICK_INTERVAL_SEC,
            },
        }
    }

    /// The pool that serves a priority.
    pub fn get_pool_by_priority(&self, priority: Priority) -> (r: &FuturePoolSpec)
        ensures
            *r == match priority {
                Priority::High => self.pool_high,
                Priority::Normal => self.pool_normal,
                Priority::Low => self.pool_low,
            },
    {
        match priority {
            Priority::High => &self.pool_high,
            Priority::Normal => &self.pool_normal,
            Priority::Low => &self.pool_low,
        }
    }
}

} // verus!
