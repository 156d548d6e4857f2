//! How the writer of a single database gathers jobs, and how long it waits.

use crate::span::{clamped, Span};
use vstd::prelude::*;

verus! {

/// How jobs are gathered before they are written.
#[derive(Debug, Clone, Copy, PartialEq, Eq, Structural)]
pub struct SqliteWriteOptions {
    /// How many jobs are written at once.
    pub batch_size: usize,
    pub adaptive_batch_size: bool,
    pub batch_size_min: usize,
    pub batch_size_max: usize,
    pub batch_size_increase: usize,
    /// Whether the wait adapts to the load.
    pub adaptive_batch_wait: bool,
    /// How long a job waits for others, where the wait does not adapt.
    pub batch_wait: Span,
    pub batch_wait_min: Span,
    pub batch_wait_max: Span,
}

/// The whole milliseconds of a length of time: the low 64 bits of their number.
pub open spec fn whole_millis(span: Span) -> u64 {
    (span.nanos / 1_000_000) as u64
}

/// The whole milliseconds of a length of time.
fn millis_of(span: Span) -> (r: u64)
    ensures
        r == whole_millis(span),
{
    #[verifier::truncate]
    let r: u64 = span.as_millis() as u64;
    r
}

pub open spec fn greater(a: int, b: int) -> int {
    if a >= b {
        a
    } else {
        b
    }
}

impl Default for SqliteWriteOptions {
    fn default() -> (r: Self)
        ensures
            r.wf(),
            r.batch_size == 64,
            !r.adaptive_batch_size,
            r.batch_size_min == 64,
            r.batch_size_max == 64,
            r.batch_size_increase == 2,
            !r.adaptive_batch_wait,
            r.batch_wait.nanos == 5_000_000,
            r.batch_wait_min.nanos == 1_000_000,
            r.batch_wait_max.nanos == 100_000_000,
    {
        SqliteWriteOptions {
            batch_size: 64,
            adaptive_batch_size: false,
            batch_size_min: 64,
            batch_size_max: 64,
            batch_size_increase: 2,
            adaptive_batch_wait: false,
            batch_wait: Span::from_millis(5),
            batch_wait_min: Span::from_millis(1),
            batch_wait_max: Span::from_millis(100),
        }
    }
}

impl SqliteWriteOptions {
    /// Options that the writer can work with: a wait that adapts does so between
    /// two ends that stand in order.
    pub open spec fn wf(self) -> bool {
        self.adaptive_batch_wait ==> whole_millis(self.batch_wait_min) <= whole_millis(
            self.batch_wait_max,
        )
    }

    /// Options with a fixed wait. At least one job is written at a time.
    pub fn fixed(batch_size: usize, batch_wait: Span) -> (r: Self)
        ensures
            r.wf(),
            r.batch_size == greater(batch_size as int, 1),
            !r.adaptive_batch_size,
            r.batch_size_min == r.batch_size,
            r.batch_size_max == r.batch_size,
            r.batch_size_increase == 2,
            !r.adaptive_batch_wait,
            r.batch_wait == batch_wait,
            r.batch_wait_min == batch_wait,
            r.batch_wait_max == batch_wait,
    {
        let batch_size = if batch_size > 1 {
            batch_size
        } else {
            1
        };
        SqliteWriteOptions {
            batch_size,
            adaptive_batch_size: false,
            batch_size_min: batch_size,
            batch_size_max: batch_size,
            batch_size_increase: 2,
            adaptive_batch_wait: false,
            batch_wait,
            batch_wait_min: batch_wait,
            batch_wait_max: batch_wait,
        }
    }

    /// Options with a wait that adapts. At least one job is written at a time,
    /// and the greatest wait is at least the least.
    pub fn adaptive(batch_size: usize, batch_wait_min: Span, batch_wait_max: Span) -> (r: Self)
        ensures
            r.batch_size == greater(batch_size as int, 1),
            !r.adaptive_batch_size,
            r.batch_size_min == r.batch_size,
            r.batch_size_max == r.batch_size,
            r.batch_size_increase == 2,
            r.adaptive_batch_wait,
            r.batch_wait == batch_wait_min,
            r.batch_wait_min == batch_wait_min,
            r.batch_wait_max.nanos == greater(
                batch_wait_max.nanos as int,
                batch_wait_min.nanos as int,
            ),
            r.batch_wait_max.nanos / 1_000_000 <= u64::MAX ==> r.wf(),
    {
        let batch_size = if batch_size > 1 {
            batch_size
        } else {
            1
        };
        let batch_wait_max = if batch_wait_max.nanos >= batch_wait_min.nanos {
            batch_wait_max
        } else {
            batch_wait_min
        };
        SqliteWriteOptions {
            batch_size,
            adaptive_batch_size: false,
            batch_size_min: batch_size,
            batch_size_max: batch_size,
            batch_size_increase: 2,
            adaptive_batch_wait: true,
            batch_wait: batch_wait_min,
            batch_wait_min,
            batch_wait_max,
        }
    }

    /// The wait to start with.
    pub open spec fn first_wait(self) -> Span {
        if self.adaptive_batch_wait {
            self.batch_wait_min
        } else {
            self.batch_wait
        }
    }

    /// The wait to start with.
    pub fn initial_live_wait(&self) -> (r: Span)
        ensures
            r == self.first_wait(),
    {
        if self.adaptive_batch_wait {
            self.batch_wait_min
        } else {
            self.batch_wait
        }
    }
}

/// Why the gathered jobs are written.
#[derive(Debug, Clone, Copy, PartialEq, Eq, Structural)]
pub enum FlushReason {
    FullBatch,
    Timeout,
    Interrupted,
}

/// A wait of `ms` milliseconds, brought between two others.
pub fn clamp_wait_ms(ms: u64, min: Span, max: Span) -> (r: Span)
    requires
        whole_millis(min) <= whole_millis(max),
    ensures
        r.nanos == clamped(ms as int, whole_millis(min) as int, whole_millis(max) as int)
            * 1_000_000,
{
    let low = millis_of(min);
    let high = millis_of(max);
    let ms = if ms < low {
        low
    } else if ms > high {
        high
    } else {
        ms
    };
    Span::from_millis(ms)
}

/// The wait in milliseconds that follows a wait of `ms`: half of it after a
/// full batch, four fifths after one that was at least seven tenths full when
/// the wait ran out, and half as much again, and a little, after a sparser one.
pub open spec fn next_millis(ms: int, batch_size: int, filled: int, reason: FlushReason) -> int {
    match reason {
        FlushReason::FullBatch => ms / 2,
        FlushReason::Timeout => if filled * 10 >= (if batch_size * 7 > usize::MAX {
            usize::MAX as int
        } else {
            batch_size * 7
        }) {
            ms * 4 / 5
        } else {
            (if ms * 3 > u64::MAX {
                u64::MAX as int
            } else {
                ms * 3
            }) / 2 + 1
        },
        FlushReason::Interrupted => ms,
    }
}

/// The wait that follows `live`, in nanoseconds.
pub open spec fn adapted(
    live: Span,
    min: Span,
    max: Span,
    batch_size: usize,
    filled: usize,
    reason: FlushReason,
) -> int {
    clamped(
        next_millis(whole_millis(live) as int, batch_size as int, filled as int, reason),
        whole_millis(min) as int,
        whole_millis(max) as int,
    ) * 1_000_000
}

/// Moves the wait toward its least under load, and toward its greatest when
/// there is little to do.
pub fn adapt_live_wait(
    live: Span,
    min: Span,
    max: Span,
    batch_size: usize,
    filled: usize,
    reason: FlushReason,
) -> (r: Span)
    requires
        whole_millis(min) <= whole_millis(max),
    ensures
        r.nanos == adapted(live, min, max, batch_size, filled, reason),
{
    let ms = millis_of(live);
    let next: u64 = match reason {
        FlushReason::FullBatch => ms / 2,
        FlushReason::Timeout => {
            let seven_tenths: u128 = batch_size as u128 * 7;
            let limit: u128 = if seven_tenths > usize::MAX as u128 {
                usize::MAX as u128
            } else {
                seven_tenths
            };
            if filled as u128 * 10 >= limit {
                (ms as u128 * 4 / 5) as u64
            } else {
                let tripled: u128 = ms as u128 * 3;
                if tripled > u64::MAX as u128 {
                    u64::MAX / 2 + 1
                } else {
                    (tripled / 2 + 1) as u64
                }
            }
        },
        FlushReason::Interrupted => ms,
    };
    clamp_wait_ms(next, min, max)
}

/// A wait that adapts stays between its ends.
pub proof fn waits_stay_within_their_ends(
    live: Span,
    min: Span,
    max: Span,
    batch_size: usize,
    filled: usize,
    reason: FlushReason,
)
    requires
        whole_millis(min) <= whole_millis(max),
    ensures
        whole_millis(min) * 1_000_000 <= adapted(live, min, max, batch_size, filled, reason)
            <= whole_millis(max) * 1_000_000,
{
}

/// After a full batch a wait between the ends gets shorter, unless it is the
/// shortest already.
pub proof fn full_batches_shorten_the_wait(
    live: Span,
    min: Span,
    max: Span,
    batch_size: usize,
    filled: usize,
)
    requires
        whole_millis(min) <= whole_millis(live) <= whole_millis(max),
    ensures
        ({
            let next = adapted(live, min, max, batch_size, filled, FlushReason::FullBatch);
            if whole_millis(live) == whole_millis(min) {
                next == whole_millis(min) * 1_000_000
            } else {
                next < whole_millis(live) * 1_000_000
            }
        }),
{
}

/// Where the wait ran out on a batch that was less than seven tenths full, a
/// wait between the ends gets longer, unless it is the longest already.
pub proof fn sparse_batches_lengthen_the_wait(
    live: Span,
    min: Span,
    max: Span,
    batch_size: usize,
    filled: usize,
)
    requires
        whole_millis(min) <= whole_millis(live) <= whole_millis(max),
        filled * 10 < batch_size * 7,
        filled * 10 < usize::MAX,
        whole_millis(live) <= u64::MAX / 2,
    ensures
        ({
            let next = adapted(live, min, max, batch_size, filled, FlushReason::Timeout);
            if whole_millis(live) == whole_millis(max) {
                next == whole_millis(max) * 1_000_000
            } else {
                next > whole_millis(live) * 1_000_000
            }
        }),
{
}

/// A wait moves by fixed shares, and no further than its ends: to the half after
/// a full batch, to four fifths where it ran out on a batch that was at least
/// seven tenths full, to half as much again where it ran out on a sparser one.
/// Where it was interrupted it stays.
pub proof fn waits_move_by_fixed_shares(
    live: Span,
    min: Span,
    max: Span,
    batch_size: usize,
    filled: usize,
)
    requires
        min.nanos <= live.nanos <= max.nanos,
        max.nanos / 1_000_000 <= u64::MAX / 4,
        batch_size * 7 <= usize::MAX,
    ensures
        ({
            let ms = live.nanos / 1_000_000;
            let low = min.nanos / 1_000_000;
            let high = max.nanos / 1_000_000;
            let full = adapted(live, min, max, batch_size, filled, FlushReason::FullBatch);
            let late = adapted(live, min, max, batch_size, filled, FlushReason::Timeout);
            let cut = adapted(live, min, max, batch_size, filled, FlushReason::Interrupted);
            &&& cut == ms * 1_000_000
            &&& full == (if ms / 2 < low {
                low
            } else {
                ms / 2
            }) * 1_000_000
            &&& filled * 10 >= batch_size * 7 ==> late == (if ms * 4 / 5 < low {
                low as int
            } else {
                ms * 4 / 5
            }) * 1_000_000
            &&& filled * 10 < batch_size * 7 ==> late == (if ms * 3 / 2 + 1 > high {
                high as int
            } else {
                ms * 3 / 2 + 1
            }) * 1_000_000
        }),
{
    assert(min.nanos / 1_000_000 <= live.nanos / 1_000_000 <= max.nanos / 1_000_000);
}

/// The first wait is the least where waits adapt, and the fixed one where they
/// do not.
pub proof fn waits_start_short(options: SqliteWriteOptions)
    ensures
        options.adaptive_batch_wait ==> options.first_wait() == options.batch_wait_min,
        !options.adaptive_batch_wait ==> options.first_wait() == options.batch_wait,
{
}

} // verus!
