//! The bounded parts of adaptive control: how often a direction has to be
//! seen before it counts, and how far a batch size may move.

use crate::span::clamped;
use vstd::prelude::*;

verus! {

/// How many consecutive samples confirm a direction.
pub const CONFIRMING_SAMPLES: u8 = 3;

/// Confirms a non-zero control direction only after repeated observations.
#[derive(Debug, Clone, Copy, PartialEq, Eq, Structural)]
pub struct DirectionStreak {
    pub direction: i8,
    pub samples: u8,
}

impl DirectionStreak {
    /// A streak between observations has fewer samples than confirm it, and
    /// none without a direction.
    pub open spec fn wf(self) -> bool {
        &&& self.samples < CONFIRMING_SAMPLES
        &&& self.direction == 0 ==> self.samples == 0
    }

    /// The samples that the streak counts once `direction` is seen.
    pub open spec fn counted(self, direction: i8) -> int {
        if direction == 0 {
            0
        } else if self.direction == direction {
            self.samples + 1
        } else {
            1
        }
    }

    /// Whether seeing `direction` completes the streak.
    pub open spec fn confirms(self, direction: i8) -> bool {
        self.counted(direction) >= CONFIRMING_SAMPLES
    }

    /// The streak after `direction` is seen.
    pub open spec fn observed(self, direction: i8) -> DirectionStreak {
        DirectionStreak {
            direction,
            samples: if self.confirms(direction) {
                0
            } else {
                self.counted(direction) as u8
            },
        }
    }

    /// Counts one sample of `direction`, and says whether it confirms it. The
    /// next confirmation starts from nothing.
    pub fn confirm(&mut self, direction: i8) -> (r: bool)
        requires
            old(self).wf(),
        ensures
            final(self).wf(),
            r == old(self).confirms(direction),
            *final(self) == old(self).observed(direction),
    {
        if direction == 0 {
            self.direction = 0;
            self.samples = 0;
            return false;
        }
        if self.direction == direction {
            self.samples = self.samples.saturating_add(1);
        } else {
            self.direction = direction;
            self.samples = 1;
        }
        if self.samples >= CONFIRMING_SAMPLES {
            self.samples = 0;
            true
        } else {
            false
        }
    }
}

impl Default for DirectionStreak {
    fn default() -> (r: Self)
        ensures
            r.wf(),
            r == (DirectionStreak { direction: 0, samples: 0 }),
    {
        DirectionStreak { direction: 0, samples: 0 }
    }
}

/// A direction is confirmed by the third of three consecutive samples of it
/// and by no earlier one, and counting then starts afresh.
pub proof fn three_samples_confirm(streak: DirectionStreak, direction: i8)
    requires
        streak.wf(),
        direction != 0,
        streak.direction != direction || streak.samples == 0,
    ensures
        !streak.confirms(direction),
        !streak.observed(direction).confirms(direction),
        streak.observed(direction).observed(direction).confirms(direction),
        streak.observed(direction).observed(direction).observed(direction) == (DirectionStreak {
            direction,
            samples: 0,
        }),
{
}

/// A sample of another direction undoes every sample before it: from any
/// streak at all, two samples of the new direction are not enough.
pub proof fn reversal_restarts_the_count(streak: DirectionStreak, direction: i8, reversed: i8)
    requires
        streak.wf(),
        direction != 0,
        reversed != direction,
    ensures
        !streak.observed(reversed).confirms(direction),
        !streak.observed(reversed).observed(direction).confirms(direction),
{
}

/// Shared bounded batch-size controller. Domain wrappers decide whether a
/// sample means growth, backoff, or no change, work out how far a probe or a
/// backoff would go, and delegate the adjustment here.
#[derive(Debug, Clone, Copy, PartialEq, Eq, Structural)]
pub struct AdaptiveBatch {
    pub min: usize,
    pub max: usize,
    pub size: usize,
    pub direction: DirectionStreak,
}

/// `value`, brought into `low..=high`.
pub fn clamp_size(value: usize, low: usize, high: usize) -> (r: usize)
    requires
        low <= high,
    ensures
        r == clamped(value as int, low as int, high as int),
{
    if value < low {
        low
    } else if value > high {
        high
    } else {
        value
    }
}

impl AdaptiveBatch {
    /// The size never leaves the configured bounds.
    pub open spec fn wf(self) -> bool {
        &&& self.min <= self.size <= self.max
        &&& self.direction.wf()
    }

    /// The size after a confirmed `direction`, given where a probe and a
    /// backoff would lead.
    pub open spec fn adjusted_size(self, direction: i8, probed: usize, backed_off: usize) -> int {
        if !self.direction.confirms(direction) {
            self.size as int
        } else if direction == 1 {
            clamped(probed as int, self.min as int, self.max as int)
        } else if direction == -1 {
            clamped(backed_off as int, self.min as int, self.max as int)
        } else {
            self.size as int
        }
    }

    /// A controller that starts at `initial`, brought into `min..=max`.
    pub fn new(min: usize, max: usize, initial: usize) -> (r: Self)
        requires
            min <= max,
        ensures
            r.wf(),
            r.min == min,
            r.max == max,
            r.size == clamped(initial as int, min as int, max as int),
            r.direction == (DirectionStreak { direction: 0, samples: 0 }),
    {
        AdaptiveBatch {
            min,
            max,
            size: clamp_size(initial, min, max),
            direction: DirectionStreak::default(),
        }
    }

    pub fn size(&self) -> (r: usize)
        ensures
            r == self.size,
    {
        self.size
    }

    pub fn set_size(&mut self, size: usize)
        requires
            old(self).wf(),
        ensures
            final(self).wf(),
            final(self).size == clamped(size as int, old(self).min as int, old(self).max as int),
            final(self).min == old(self).min,
            final(self).max == old(self).max,
            final(self).direction == old(self).direction,
    {
        self.size = clamp_size(size, self.min, self.max);
    }

    /// Applies a confirmed direction: positive probes upward and negative
    /// backs off. Returns true only when the batch size changed.
    pub fn observe_direction(&mut self, direction: i8, probed: usize, backed_off: usize) -> (r: bool)
        requires
            old(self).wf(),
        ensures
            final(self).wf(),
            final(self).size == old(self).adjusted_size(direction, probed, backed_off),
            final(self).direction == old(self).direction.observed(direction),
            final(self).min == old(self).min,
            final(self).max == old(self).max,
            r == (final(self).size != old(self).size),
    {
        if !self.direction.confirm(direction) {
            return false;
        }
        let previous: usize = self.size;
        if direction == 1 {
            self.size = clamp_size(probed, self.min, self.max);
        } else if direction == -1 {
            self.size = clamp_size(backed_off, self.min, self.max);
        }
        self.size != previous
    }

    /// Forgets the samples seen so far.
    pub fn reset_direction(&mut self)
        requires
            old(self).wf(),
        ensures
            final(self).wf(),
            final(self).direction == (DirectionStreak { direction: 0, samples: 0 }),
            final(self).size == old(self).size,
            final(self).min == old(self).min,
            final(self).max == old(self).max,
    {
        self.direction.confirm(0);
    }
}

/// Whatever is observed, the size stays within its bounds, and fewer than
/// three samples in a row leave it where it was.
pub proof fn size_stays_bounded(
    batch: AdaptiveBatch,
    direction: i8,
    probed: usize,
    backed_off: usize,
)
    requires
        batch.wf(),
    ensures
        batch.min <= batch.adjusted_size(direction, probed, backed_off) <= batch.max,
        batch.direction.direction != direction ==> batch.adjusted_size(
            direction,
            probed,
            backed_off,
        ) == batch.size,
{
}

/// The third sample in a row moves the size: up to where a probe leads, or back
/// to where a backoff leads, and no further than the bounds.
pub proof fn third_samples_move_the_size(batch: AdaptiveBatch, probed: usize, backed_off: usize)
    requires
        batch.wf(),
        batch.direction.samples == 2,
    ensures
        batch.direction.direction == 1 ==> batch.adjusted_size(1i8, probed, backed_off) == (
        if probed < batch.min {
            batch.min
        } else if probed > batch.max {
            batch.max
        } else {
            probed
        }),
        batch.direction.direction == -1 ==> batch.adjusted_size(
            batch.direction.direction, probed, backed_off) == (
        if backed_off < batch.min {
            batch.min
        } else if backed_off > batch.max {
            batch.max
        } else {
            backed_off
        }),
        batch.adjusted_size(0, probed, backed_off) == batch.size,
{
}

/// Each sample of a direction counts one, and a sample of none clears the count.
pub proof fn samples_count_one_by_one(streak: DirectionStreak, direction: i8)
    requires
        streak.wf(),
    ensures
        direction == 0 ==> streak.observed(direction) == (DirectionStreak {
            direction: 0,
            samples: 0,
        }),
        direction != 0 && direction != streak.direction ==> streak.observed(direction) == (
        DirectionStreak { direction, samples: 1 }),
        direction != 0 && direction == streak.direction && streak.samples < 2 ==> streak.observed(
            direction,
        ) == (DirectionStreak { direction, samples: (streak.samples + 1) as u8 }),
        direction != 0 && direction == streak.direction && streak.samples == 2 ==> {
            &&& streak.confirms(direction)
            &&& streak.observed(direction) == (DirectionStreak { direction, samples: 0 })
        },
        streak.confirms(direction) ==> direction != 0 && direction == streak.direction
            && streak.samples == 2,
{
}

} // verus!
