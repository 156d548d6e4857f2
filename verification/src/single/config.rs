//! What a service with a single database is configured with.

use crate::single::options::{greater, whole_millis, SqliteWriteOptions};
use crate::single::{JobQueue, QueueModel};
use crate::span::Span;
use vstd::prelude::*;

verus! {

pub const DEFAULT_BATCH_SIZE: usize = 64;

pub const DEFAULT_BATCH_SIZE_MIN: usize = 8;

pub const DEFAULT_BATCH_SIZE_MAX: usize = 256;

pub const DEFAULT_BATCH_SIZE_INCREASE: usize = 2;

pub const DEFAULT_BATCH_WAIT_MS: u64 = 5;

pub const DEFAULT_BATCH_WAIT_MIN_MS: u64 = 1;

pub const DEFAULT_BATCH_WAIT_MAX_MS: u64 = 100;

pub const DEFAULT_CONCURRENCY: u32 = 1;

pub const DEFAULT_MAX_RETRIES: u32 = 3;

/// The part of the configuration that says how jobs are gathered.
#[derive(Debug, Clone, Copy, PartialEq, Eq, Structural)]
pub struct PersistenceConfig {
    /// Fixed batch size, or initial size when `adaptive_batch_size` is true.
    pub batch_size: usize,
    pub adaptive_batch_size: bool,
    pub batch_size_min: usize,
    pub batch_size_max: usize,
    /// Additive step on full-batch flush when adaptive.
    pub batch_size_increase: usize,
    pub adaptive_batch_wait: bool,
    pub batch_wait_ms: u64,
    pub batch_wait_min_ms: u64,
    pub batch_wait_max_ms: u64,
}

impl Default for PersistenceConfig {
    fn default() -> (r: Self)
        ensures
            r.batch_size == 64,
            !r.adaptive_batch_size,
            r.batch_size_min == 8,
            r.batch_size_max == 256,
            r.batch_size_increase == 2,
            !r.adaptive_batch_wait,
            r.batch_wait_ms == 5,
            r.batch_wait_min_ms == 1,
            r.batch_wait_max_ms == 100,
    {
        PersistenceConfig {
            batch_size: DEFAULT_BATCH_SIZE,
            adaptive_batch_size: false,
            batch_size_min: DEFAULT_BATCH_SIZE_MIN,
            batch_size_max: DEFAULT_BATCH_SIZE_MAX,
            batch_size_increase: DEFAULT_BATCH_SIZE_INCREASE,
            adaptive_batch_wait: false,
            batch_wait_ms: DEFAULT_BATCH_WAIT_MS,
            batch_wait_min_ms: DEFAULT_BATCH_WAIT_MIN_MS,
            batch_wait_max_ms: DEFAULT_BATCH_WAIT_MAX_MS,
        }
    }
}

/// The greater of two sizes.
fn at_least(size: usize, least: usize) -> (r: usize)
    ensures
        r == greater(size as int, least as int),
{
    if size >= least {
        size
    } else {
        least
    }
}

impl PersistenceConfig {
    /// How jobs are gathered: every size is at least one, and where something
    /// adapts, its greatest value is at least its least. What does not adapt has
    /// its ends at its value.
    pub fn write_options(&self) -> (r: SqliteWriteOptions)
        ensures
            r.wf(),
            r.batch_size == greater(self.batch_size as int, 1),
            r.adaptive_batch_size == self.adaptive_batch_size,
            r.batch_size_min == if self.adaptive_batch_size {
                greater(self.batch_size_min as int, 1)
            } else {
                r.batch_size as int
            },
            r.batch_size_max == if self.adaptive_batch_size {
                greater(self.batch_size_max as int, r.batch_size_min as int)
            } else {
                r.batch_size as int
            },
            r.batch_size_increase == greater(self.batch_size_increase as int, 1),
            r.adaptive_batch_wait == self.adaptive_batch_wait,
            r.batch_wait.nanos == (if self.adaptive_batch_wait {
                self.batch_wait_min_ms
            } else {
                self.batch_wait_ms
            }) * 1_000_000,
            r.batch_wait_min == r.batch_wait,
            r.batch_wait_max.nanos == (if self.adaptive_batch_wait {
                greater(self.batch_wait_max_ms as int, self.batch_wait_min_ms as int)
            } else {
                self.batch_wait_ms as int
            }) * 1_000_000,
    {
        let batch_size = at_least(self.batch_size, 1);
        let (batch_size_min, batch_size_max) = if self.adaptive_batch_size {
            let min = at_least(self.batch_size_min, 1);
            let max = at_least(self.batch_size_max, min);
            (min, max)
        } else {
            (batch_size, batch_size)
        };
        let (min_ms, max_ms) = if self.adaptive_batch_wait {
            let max = if self.batch_wait_max_ms >= self.batch_wait_min_ms {
                self.batch_wait_max_ms
            } else {
                self.batch_wait_min_ms
            };
            (self.batch_wait_min_ms, max)
        } else {
            (self.batch_wait_ms, self.batch_wait_ms)
        };
        let batch_wait_min = Span::from_millis(min_ms);
        let batch_wait_max = Span::from_millis(max_ms);
        proof {
            assert(whole_millis(batch_wait_min) == min_ms);
            assert(whole_millis(batch_wait_max) == max_ms);
        }
        SqliteWriteOptions {
            batch_size,
            adaptive_batch_size: self.adaptive_batch_size,
            batch_size_min,
            batch_size_max,
            batch_size_increase: at_least(self.batch_size_increase, 1),
            adaptive_batch_wait: self.adaptive_batch_wait,
            batch_wait: batch_wait_min,
            batch_wait_min,
            batch_wait_max,
        }
    }
}

/// One queue.
#[derive(Debug, Clone)]
pub struct JobConfig {
    pub name: String,
    pub concurrency: u32,
    pub max_retries: u32,
}

impl JobConfig {
    /// The queue that this configures, at `now`.
    pub fn job_queue(&self, now: i64) -> (r: JobQueue)
        ensures
            r@ == (QueueModel {
                name: self.name@,
                concurrency: self.concurrency as int,
                max_retries: self.max_retries as int,
                created_at: now as int,
                updated_at: now as int,
            }),
    {
        let mut queue = JobQueue::new_at(self.name.as_str(), now);
        queue.concurrency = self.concurrency;
        queue.max_retries = self.max_retries;
        queue
    }
}

/// The whole configuration.
#[derive(Debug, Clone)]
pub struct AppConfig {
    pub listen: Option<String>,
    pub database_path: Option<String>,
    pub persistence: PersistenceConfig,
    pub jobs: Vec<JobConfig>,
}

impl AppConfig {
    /// The address at which requests are taken.
    pub fn listen(&self) -> (r: &str)
        ensures
            r@ == (match self.listen {
                Some(address) => address@,
                None => "0.0.0.0:8080"@,
            }),
    {
        match &self.listen {
            Some(address) => address.as_str(),
            None => "0.0.0.0:8080",
        }
    }

    /// Where the database lies.
    pub fn database_path(&self) -> (r: &str)
        ensures
            r@ == (match self.database_path {
                Some(path) => path@,
                None => "./data/maqistor.db"@,
            }),
    {
        match &self.database_path {
            Some(path) => path.as_str(),
            None => "./data/maqistor.db",
        }
    }
}

} // verus!
