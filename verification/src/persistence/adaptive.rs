//! Which lane of the results writer goes next, and how large and how patient
//! a batch is. What is measured comes in as readings; what follows from it is
//! decided here.

use crate::engine::adaptive::{AdaptiveBatch, DirectionStreak};
use crate::persistence::options::BatchOptions;
use crate::span::{clamped, Span};
use vstd::prelude::*;

verus! {

/// How many sparse batches in a row make a batch smaller.
pub const LOW_FILL_TIMEOUTS: u8 = 3;

/// How many turns in a row the preferred lane may take while the other waits.
pub const MAX_RESULTS_PREFERRED_LANE_TURNS: usize = 32;

/// Why a batch was written.
#[derive(Debug, Clone, Copy, PartialEq, Eq, Structural)]
pub enum FlushReason {
    FullBatch,
    Timeout,
}

/// The two kinds of work that the results writer takes turns at.
#[derive(Debug, Clone, Copy, PartialEq, Eq, Structural)]
pub enum ResultsLane {
    Dispatch,
    Completion,
}

/// Why a lane was chosen.
#[derive(Debug, Clone, Copy, PartialEq, Eq, Structural)]
pub enum ResultsLaneSelectionReason {
    OnlyActive,
    InitialTieBreak,
    Preferred,
    StarvationOverride,
}

/// The other lane.
pub open spec fn opposite(lane: ResultsLane) -> ResultsLane {
    match lane {
        ResultsLane::Dispatch => ResultsLane::Completion,
        ResultsLane::Completion => ResultsLane::Dispatch,
    }
}

/// The other lane.
pub fn other_lane(lane: ResultsLane) -> (r: ResultsLane)
    ensures
        r == opposite(lane),
{
    match lane {
        ResultsLane::Dispatch => ResultsLane::Completion,
        ResultsLane::Completion => ResultsLane::Dispatch,
    }
}

/// Chooses between the lanes.
#[derive(Debug, Clone, Copy, PartialEq, Eq, Structural)]
pub struct ResultsLaneController {
    pub preferred: Option<ResultsLane>,
    pub direction_streak: DirectionStreak,
    pub preferred_turns: usize,
}

impl ResultsLaneController {
    pub open spec fn wf(self) -> bool {
        self.direction_streak.wf()
    }

    /// A controller that prefers neither lane yet.
    pub fn new() -> (r: Self)
        ensures
            r.wf(),
            r.preferred is None,
            r.direction_streak == (DirectionStreak { direction: 0, samples: 0 }),
            r.preferred_turns == 0,
    {
        ResultsLaneController {
            preferred: None,
            direction_streak: DirectionStreak::default(),
            preferred_turns: 0,
        }
    }

    /// The lane that is preferred once `direction` has been seen: a confirmed
    /// direction turns towards the lane with more pressure.
    pub open spec fn leaning(self, direction: i8) -> Option<ResultsLane> {
        if self.direction_streak.confirms(direction) && direction == 1 {
            Some(ResultsLane::Completion)
        } else if self.direction_streak.confirms(direction) && direction == -1 {
            Some(ResultsLane::Dispatch)
        } else {
            self.preferred
        }
    }

    /// The controller once a choice between two waiting lanes has been made.
    pub open spec fn after_choice(self, direction: i8) -> ResultsLaneController {
        ResultsLaneController {
            preferred: self.leaning(direction),
            direction_streak: self.direction_streak.observed(direction),
            preferred_turns: if self.leaning(direction) != self.preferred {
                0
            } else {
                self.preferred_turns
            },
        }
    }

    /// The choice between two waiting lanes.
    pub open spec fn choice(self, direction: i8) -> (ResultsLane, ResultsLaneSelectionReason) {
        match self.after_choice(direction).preferred {
            None => (ResultsLane::Completion, ResultsLaneSelectionReason::InitialTieBreak),
            Some(lane) => if self.after_choice(direction).preferred_turns
                >= MAX_RESULTS_PREFERRED_LANE_TURNS {
                (opposite(lane), ResultsLaneSelectionReason::StarvationOverride)
            } else {
                (lane, ResultsLaneSelectionReason::Preferred)
            },
        }
    }

    /// Chooses the lane for the next turn. `direction` says where the pressure
    /// is: 1 where completions press more, -1 where dispatches do, 0 where
    /// neither does or nothing has been measured. It counts only while work
    /// waits in both lanes.
    pub fn select(&mut self, dispatch_rows: usize, completion_rows: usize, direction: i8) -> (r:
        Option<(ResultsLane, ResultsLaneSelectionReason)>)
        requires
            old(self).wf(),
        ensures
            final(self).wf(),
            dispatch_rows == 0 && completion_rows == 0 ==> r is None && *final(self) == *old(self),
            dispatch_rows > 0 && completion_rows == 0 ==> {
                &&& r == Some((ResultsLane::Dispatch, ResultsLaneSelectionReason::OnlyActive))
                &&& *final(self) == (ResultsLaneController { preferred_turns: 0, ..*old(self) })
            },
            dispatch_rows == 0 && completion_rows > 0 ==> {
                &&& r == Some((ResultsLane::Completion, ResultsLaneSelectionReason::OnlyActive))
                &&& *final(self) == (ResultsLaneController { preferred_turns: 0, ..*old(self) })
            },
            dispatch_rows > 0 && completion_rows > 0 ==> {
                &&& r == Some(old(self).choice(direction))
                &&& *final(self) == old(self).after_choice(direction)
            },
    {
        let dispatch_active = dispatch_rows > 0;
        let completion_active = completion_rows > 0;
        if !dispatch_active && !completion_active {
            return None;
        }
        if !completion_active {
            self.preferred_turns = 0;
            return Some((ResultsLane::Dispatch, ResultsLaneSelectionReason::OnlyActive));
        }
        if !dispatch_active {
            self.preferred_turns = 0;
            return Some((ResultsLane::Completion, ResultsLaneSelectionReason::OnlyActive));
        }
        if self.direction_streak.confirm(direction) {
            let next_preferred = if direction == 1 {
                Some(ResultsLane::Completion)
            } else if direction == -1 {
                Some(ResultsLane::Dispatch)
            } else {
                self.preferred
            };
            let same = match (next_preferred, self.preferred) {
                (Some(a), Some(b)) => a == b,
                (None, None) => true,
                _ => false,
            };
            if !same {
                self.preferred = next_preferred;
                self.preferred_turns = 0;
            }
        }
        match self.preferred {
            None => Some((ResultsLane::Completion, ResultsLaneSelectionReason::InitialTieBreak)),
            Some(preferred) => if self.preferred_turns >= MAX_RESULTS_PREFERRED_LANE_TURNS {
                Some((other_lane(preferred), ResultsLaneSelectionReason::StarvationOverride))
            } else {
                Some((preferred, ResultsLaneSelectionReason::Preferred))
            },
        }
    }

    /// The controller once a turn in `lane` has been taken.
    pub open spec fn after_turn(self, lane: ResultsLane) -> ResultsLaneController {
        ResultsLaneController {
            preferred_turns: if self.preferred == Some(lane) {
                if self.preferred_turns < usize::MAX {
                    (self.preferred_turns + 1) as usize
                } else {
                    usize::MAX
                }
            } else {
                0
            },
            ..self
        }
    }

    /// Counts a turn in `lane`.
    pub fn record_turn(&mut self, lane: ResultsLane)
        requires
            old(self).wf(),
        ensures
            final(self).wf(),
            *final(self) == old(self).after_turn(lane),
    {
        let is_preferred = match self.preferred {
            Some(preferred) => preferred == lane,
            None => false,
        };
        if is_preferred {
            self.preferred_turns = self.preferred_turns.saturating_add(1);
        } else {
            self.preferred_turns = 0;
        }
    }
}

/// The controller after `directions.len()` choices between two waiting lanes,
/// each followed by the turn that was chosen.
pub open spec fn after_turns(controller: ResultsLaneController, directions: Seq<i8>) -> ResultsLaneController
    decreases directions.len(),
{
    if directions.len() == 0 {
        controller
    } else {
        let before = after_turns(controller, directions.drop_last());
        let direction = directions.last();
        before.after_choice(direction).after_turn(before.choice(direction).0)
    }
}

/// The lane of the choice that follows `n` turns.
pub open spec fn choice_at(controller: ResultsLaneController, directions: Seq<i8>, n: int) -> ResultsLane {
    after_turns(controller, directions.take(n)).choice(directions[n]).0
}

/// How often in a row a lane can be chosen while the preferred lane is the
/// same: up to the cap.
proof fn lemma_streak_of_turns(
    controller: ResultsLaneController,
    directions: Seq<i8>,
    lane: ResultsLane,
    from: int,
    n: int,
)
    requires
        controller.wf(),
        0 < from <= n <= directions.len(),
        forall|k: int| 0 <= k < n ==> #[trigger] choice_at(controller, directions, k) == lane,
        after_turns(controller, directions.take(from)).preferred == Some(lane),
    ensures
        ({
            let start = after_turns(controller, directions.take(from));
            let after = after_turns(controller, directions.take(n));
            &&& after.preferred == Some(lane)
            &&& after.preferred_turns == start.preferred_turns + (n - from)
            &&& start.preferred_turns >= 1
            &&& after.preferred_turns <= MAX_RESULTS_PREFERRED_LANE_TURNS
            &&& after.wf()
        }),
    decreases n - from,
{
    let before = after_turns(controller, directions.take(n - 1));
    assert(directions.take(n).drop_last() =~= directions.take(n - 1));
    assert(directions.take(n).last() == directions[n - 1]);
    assert(choice_at(controller, directions, n - 1) == lane);
    lemma_turn_state_wf(controller, directions, n - 1);
    if n > from {
        lemma_streak_of_turns(controller, directions, lane, from, n - 1);
    }
}

proof fn lemma_turn_state_wf(controller: ResultsLaneController, directions: Seq<i8>, n: int)
    requires
        controller.wf(),
        0 <= n <= directions.len(),
    ensures
        after_turns(controller, directions.take(n)).wf(),
    decreases n,
{
    if n > 0 {
        lemma_turn_state_wf(controller, directions, n - 1);
        assert(directions.take(n).drop_last() =~= directions.take(n - 1));
    }
}

proof fn lemma_preference_stays(controller: ResultsLaneController, directions: Seq<i8>, n: int)
    requires
        controller.preferred is Some,
        0 <= n <= directions.len(),
    ensures
        after_turns(controller, directions.take(n)).preferred is Some,
    decreases n,
{
    if n > 0 {
        lemma_preference_stays(controller, directions, n - 1);
        assert(directions.take(n).drop_last() =~= directions.take(n - 1));
    }
}

/// No lane starves: once a lane is preferred, and as long as work waits in
/// both, each lane gets a turn within the cap and two, wherever the pressure
/// moves in the meantime.
pub proof fn no_lane_starves(
    controller: ResultsLaneController,
    directions: Seq<i8>,
    lane: ResultsLane,
)
    requires
        controller.wf(),
        controller.preferred is Some,
        directions.len() >= MAX_RESULTS_PREFERRED_LANE_TURNS + 2,
    ensures
        exists|k: int|
            0 <= k < MAX_RESULTS_PREFERRED_LANE_TURNS + 2 && #[trigger] choice_at(
                controller,
                directions,
                k,
            ) == lane,
{
    let bound = MAX_RESULTS_PREFERRED_LANE_TURNS + 2;
    let other = opposite(lane);
    if forall|k: int| 0 <= k < bound ==> #[trigger] choice_at(controller, directions, k) != lane {
        assert forall|k: int| 0 <= k < bound implies #[trigger] choice_at(
            controller,
            directions,
            k,
        ) == other by {
            assert(choice_at(controller, directions, k) != lane);
        }
        assert(choice_at(controller, directions, 0) == other);
        assert(choice_at(controller, directions, 1) == other);
        assert(directions.take(0) =~= Seq::<i8>::empty());
        assert(directions.take(1).drop_last() =~= directions.take(0));
        assert(directions.take(2).drop_last() =~= directions.take(1));
        assert(directions.take(1).last() == directions[0]);
        assert(directions.take(2).last() == directions[1]);
        lemma_preference_stays(controller, directions, 1);
        let first = after_turns(controller, directions.take(1));
        if first.preferred == Some(other) {
            lemma_streak_of_turns(controller, directions, other, 1, bound);
        } else {
            assert(first.preferred == Some(lane));
            assert(after_turns(controller, directions.take(2)).preferred == Some(other));
            lemma_streak_of_turns(controller, directions, other, 2, bound);
        }
    }
}

/// What measuring says about the size of a batch.
#[derive(Debug, Clone, Copy, PartialEq, Eq, Structural)]
pub struct SizeReading {
    /// Commits take longer than they did at their best.
    pub congested: bool,
    /// Requests come faster than batches of this size can take them.
    pub demand_exceeds_service: bool,
    /// Where a probe upward would lead.
    pub probed: usize,
    /// Where a step back would lead.
    pub backed_off: usize,
}

/// What measuring says about how long a batch waits.
#[derive(Debug, Clone, Copy, PartialEq, Eq, Structural)]
pub struct WaitReading {
    /// How long a batch would have to wait to fill, within the limits.
    pub desired: Span,
    /// 1 where that is clearly more than the present wait, -1 where it is
    /// clearly less, 0 otherwise.
    pub direction: i8,
    /// Where a step up would lead.
    pub raised: Span,
    /// Where a step down would lead.
    pub lowered: Span,
}

/// Adapts the size and the wait of one kind of batch.
#[derive(Debug, Clone, Copy, PartialEq, Eq, Structural)]
pub struct AdaptiveBatchController {
    pub batch: AdaptiveBatch,
    pub batch_wait_min: Span,
    pub batch_wait_max: Span,
    pub batch_wait: Span,
    pub backlog: usize,
    pub low_fill_timeouts: u8,
    pub wait_direction_streak: DirectionStreak,
}

impl AdaptiveBatchController {
    /// Size and wait stay within their limits.
    pub open spec fn wf(self) -> bool {
        &&& self.batch.wf()
        &&& self.batch_wait_min.nanos <= self.batch_wait.nanos <= self.batch_wait_max.nanos
        &&& self.wait_direction_streak.wf()
    }

    /// A controller within `options` whose first batch has size `initial`.
    pub fn new(options: &BatchOptions, initial: usize) -> (r: Self)
        requires
            options.valid(),
        ensures
            r.wf(),
            r.batch.min == options.batch_size_min,
            r.batch.max == options.batch_size_max,
            r.batch.size == clamped(
                initial as int,
                options.batch_size_min as int,
                options.batch_size_max as int,
            ),
            r.batch.direction == (DirectionStreak { direction: 0, samples: 0 }),
            r.batch_wait_min == options.batch_wait_min,
            r.batch_wait_max == options.batch_wait_max,
            r.batch_wait == options.batch_wait_min,
            r.backlog == 0,
            r.low_fill_timeouts == 0,
            r.wait_direction_streak == (DirectionStreak { direction: 0, samples: 0 }),
    {
        AdaptiveBatchController {
            batch: AdaptiveBatch::new(options.batch_size_min, options.batch_size_max, initial),
            batch_wait_min: options.batch_wait_min,
            batch_wait_max: options.batch_wait_max,
            batch_wait: options.batch_wait_min,
            backlog: 0,
            low_fill_timeouts: 0,
            wait_direction_streak: DirectionStreak::default(),
        }
    }

    pub fn batch_size(&self) -> (r: usize)
        ensures
            r == self.batch.size,
    {
        self.batch.size()
    }

    pub fn set_batch_size(&mut self, size: usize)
        requires
            old(self).wf(),
        ensures
            final(self).wf(),
            final(self).batch.size == clamped(
                size as int,
                old(self).batch.min as int,
                old(self).batch.max as int,
            ),
            *final(self) == (AdaptiveBatchController {
                batch: AdaptiveBatch { size: final(self).batch.size, ..old(self).batch },
                ..*old(self)
            }),
    {
        self.batch.set_size(size);
    }

    /// Whether a batch of `filled` requests is less than half full.
    pub open spec fn is_low(self, filled: usize) -> bool {
        filled * 2 < (if self.batch.size > 1 {
            self.batch.size as int
        } else {
            1
        })
    }

    /// The count of sparse batches once a batch of `filled` requests has been
    /// written.
    pub open spec fn sparse_batches(
        self,
        reason: FlushReason,
        backlog: usize,
        filled: usize,
    ) -> int {
        if reason == FlushReason::Timeout && backlog == 0 && self.is_low(filled) {
            if self.low_fill_timeouts < u8::MAX {
                self.low_fill_timeouts + 1
            } else {
                u8::MAX as int
            }
        } else {
            0
        }
    }

    /// Notes that a batch of `filled` requests has been written with `backlog`
    /// others waiting.
    pub fn record_batch(&mut self, reason: FlushReason, backlog: usize, filled: usize)
        requires
            old(self).wf(),
        ensures
            final(self).wf(),
            final(self).low_fill_timeouts == old(self).sparse_batches(reason, backlog, filled),
            *final(self) == (AdaptiveBatchController {
                backlog,
                low_fill_timeouts: final(self).low_fill_timeouts,
                ..*old(self)
            }),
    {
        self.backlog = backlog;
        let size: usize = self.batch.size();
        let half: usize = if size > 1 {
            size / 2 + size % 2
        } else {
            1
        };
        if reason == FlushReason::Timeout && backlog == 0 && filled < half {
            self.low_fill_timeouts = self.low_fill_timeouts.saturating_add(1);
        } else {
            self.low_fill_timeouts = 0;
        }
    }

    /// Where the size should go, by the reading: back where commits are
    /// congested, up where requests wait or come too fast, else nowhere.
    pub open spec fn size_direction(self, reading: SizeReading) -> i8 {
        if reading.congested {
            -1i8
        } else if self.backlog > 0 || reading.demand_exceeds_service {
            1i8
        } else {
            0i8
        }
    }

    /// The controller once the size has been adjusted. Enough sparse batches
    /// in a row make it smaller at once; otherwise a direction has to be
    /// confirmed first.
    pub open spec fn size_adjusted(self, reading: SizeReading) -> AdaptiveBatchController {
        if self.low_fill_timeouts >= LOW_FILL_TIMEOUTS && !reading.congested {
            AdaptiveBatchController {
                batch: AdaptiveBatch {
                    size: clamped(
                        reading.backed_off as int,
                        self.batch.min as int,
                        self.batch.max as int,
                    ) as usize,
                    direction: DirectionStreak { direction: 0, samples: 0 },
                    ..self.batch
                },
                low_fill_timeouts: 0,
                ..self
            }
        } else {
            AdaptiveBatchController {
                batch: AdaptiveBatch {
                    size: self.batch.adjusted_size(
                        self.size_direction(reading),
                        reading.probed,
                        reading.backed_off,
                    ) as usize,
                    direction: self.batch.direction.observed(self.size_direction(reading)),
                    ..self.batch
                },
                ..self
            }
        }
    }

    /// Adjusts the size of the next batch, unless nothing has been measured.
    pub fn adjust_batch_size(&mut self, reading: Option<SizeReading>)
        requires
            old(self).wf(),
        ensures
            final(self).wf(),
            *final(self) == (match reading {
                Some(reading) => old(self).size_adjusted(reading),
                None => *old(self),
            }),
    {
        let reading = match reading {
            Some(reading) => reading,
            None => {
                return;
            },
        };
        if self.low_fill_timeouts >= LOW_FILL_TIMEOUTS && !reading.congested {
            self.batch.set_size(reading.backed_off);
            self.low_fill_timeouts = 0;
            self.batch.reset_direction();
            return;
        }
        let direction: i8 = if reading.congested {
            -1
        } else if self.backlog > 0 || reading.demand_exceeds_service {
            1
        } else {
            0
        };
        self.batch.observe_direction(direction, reading.probed, reading.backed_off);
    }

    /// `predicted`, brought within the limits of the wait.
    pub fn desired_wait(&self, predicted: Span) -> (r: Span)
        requires
            self.wf(),
        ensures
            r.nanos == clamped(
                predicted.nanos as int,
                self.batch_wait_min.nanos as int,
                self.batch_wait_max.nanos as int,
            ),
    {
        predicted.clamp_to(self.batch_wait_min, self.batch_wait_max)
    }

    /// The wait that follows a confirmed direction: a step towards what is
    /// desired and not past it, within the limits.
    pub open spec fn stepped_wait(self, reading: WaitReading) -> int {
        let next = if reading.direction == 1 {
            if reading.raised.nanos <= reading.desired.nanos {
                reading.raised
            } else {
                reading.desired
            }
        } else if reading.direction == -1 {
            if reading.lowered.nanos >= reading.desired.nanos {
                reading.lowered
            } else {
                reading.desired
            }
        } else {
            self.batch_wait
        };
        clamped(
            next.nanos as int,
            self.batch_wait_min.nanos as int,
            self.batch_wait_max.nanos as int,
        )
    }

    /// The controller once the wait has been adjusted.
    pub open spec fn wait_adjusted(self, reading: WaitReading) -> AdaptiveBatchController {
        AdaptiveBatchController {
            batch_wait: if self.wait_direction_streak.confirms(reading.direction) {
                Span { nanos: self.stepped_wait(reading) as u128 }
            } else {
                self.batch_wait
            },
            wait_direction_streak: self.wait_direction_streak.observed(reading.direction),
            ..self
        }
    }

    /// Adjusts how long the next batch waits, unless nothing has been
    /// measured.
    pub fn adjust_batch_wait(&mut self, reading: Option<WaitReading>)
        requires
            old(self).wf(),
        ensures
            final(self).wf(),
            *final(self) == (match reading {
                Some(reading) => old(self).wait_adjusted(reading),
                None => *old(self),
            }),
    {
        let reading = match reading {
            Some(reading) => reading,
            None => {
                return;
            },
        };
        if !self.wait_direction_streak.confirm(reading.direction) {
            return;
        }
        let next = if reading.direction == 1 {
            if reading.raised.nanos <= reading.desired.nanos {
                reading.raised
            } else {
                reading.desired
            }
        } else if reading.direction == -1 {
            if reading.lowered.nanos >= reading.desired.nanos {
                reading.lowered
            } else {
                reading.desired
            }
        } else {
            self.batch_wait
        };
        self.batch_wait = next.clamp_to(self.batch_wait_min, self.batch_wait_max);
    }
}

/// Whatever is read, the size and the wait of a batch stay within the
/// configured limits.
pub proof fn batches_stay_within_limits(
    controller: AdaptiveBatchController,
    size: SizeReading,
    wait: WaitReading,
)
    requires
        controller.wf(),
    ensures
        controller.size_adjusted(size).wf(),
        controller.wait_adjusted(wait).wf(),
        controller.size_adjusted(size).wait_adjusted(wait).wf(),
{
}

/// The third sparse batch in a row, without congestion, steps the size back
/// once, and the count starts afresh.
pub proof fn three_sparse_batches_step_back(
    controller: AdaptiveBatchController,
    filled: usize,
    reading: SizeReading,
)
    requires
        controller.wf(),
        controller.low_fill_timeouts == 2,
        controller.is_low(filled),
        !reading.congested,
    ensures
        ({
            let third = AdaptiveBatchController {
                backlog: 0,
                low_fill_timeouts: controller.sparse_batches(
                    FlushReason::Timeout,
                    0,
                    filled,
                ) as u8,
                ..controller
            };
            &&& third.size_adjusted(reading).batch.size == clamped(
                reading.backed_off as int,
                controller.batch.min as int,
                controller.batch.max as int,
            )
            &&& third.size_adjusted(reading).low_fill_timeouts == 0
        }),
{
}

/// While work waits in both lanes, the lane that has been preferred goes on
/// until it has had its full run of turns, and then the other lane has one. Where
/// no lane has ever been preferred, reports go first.
pub proof fn preferred_lanes_have_their_run(controller: ResultsLaneController, direction: i8)
    requires
        controller.wf(),
        controller.direction_streak.samples < 2 || direction
            != controller.direction_streak.direction,
    ensures
        controller.after_choice(direction).preferred == controller.preferred,
        controller.after_choice(direction).preferred_turns == controller.preferred_turns,
        controller.preferred is None ==> controller.choice(direction) == (
            ResultsLane::Completion,
            ResultsLaneSelectionReason::InitialTieBreak,
        ),
        controller.preferred is Some && controller.preferred_turns < 32 ==> controller.choice(
            direction,
        ) == (controller.preferred->Some_0, ResultsLaneSelectionReason::Preferred),
        controller.preferred is Some && controller.preferred_turns >= 32 ==> {
            &&& controller.choice(direction).0 != controller.preferred->Some_0
            &&& controller.choice(direction).1 == ResultsLaneSelectionReason::StarvationOverride
        },
{
}

/// The third look in a row that finds more pressure in a lane turns the
/// preference to it, and it goes next. More pressure by reports is a direction
/// of one, more by dispatches one of minus one.
pub proof fn lasting_pressure_turns_the_preference(controller: ResultsLaneController)
    requires
        controller.wf(),
        controller.direction_streak.samples == 2,
        controller.preferred_turns < 32,
    ensures
        controller.direction_streak.direction == 1 ==> {
            &&& controller.after_choice(1i8).preferred == Some(ResultsLane::Completion)
            &&& controller.choice(1i8) == (
                ResultsLane::Completion,
                ResultsLaneSelectionReason::Preferred,
            )
            &&& controller.preferred != Some(ResultsLane::Completion) ==> controller.after_choice(
                1i8,
            ).preferred_turns == 0
        },
        controller.direction_streak.direction == -1 ==> {
            let direction = controller.direction_streak.direction;
            &&& controller.after_choice(direction).preferred == Some(ResultsLane::Dispatch)
            &&& controller.choice(direction) == (
                ResultsLane::Dispatch,
                ResultsLaneSelectionReason::Preferred,
            )
            &&& controller.preferred != Some(ResultsLane::Dispatch) ==> controller.after_choice(
                direction,
            ).preferred_turns == 0
        },
{
}

/// A turn of the preferred lane counts one, and a turn of the other starts the
/// count afresh. The preference itself stays.
pub proof fn turns_are_counted(controller: ResultsLaneController, lane: ResultsLane)
    requires
        controller.preferred_turns < usize::MAX,
    ensures
        controller.after_turn(lane).preferred == controller.preferred,
        controller.after_turn(lane).direction_streak == controller.direction_streak,
        controller.preferred == Some(lane) ==> controller.after_turn(lane).preferred_turns
            == controller.preferred_turns + 1,
        controller.preferred != Some(lane) ==> controller.after_turn(lane).preferred_turns == 0,
{
}

/// A batch counts as sparse exactly if its time ran out with nobody else
/// waiting and it was less than half full. Any other batch clears the count.
pub proof fn sparse_batches_are_counted(
    controller: AdaptiveBatchController,
    reason: FlushReason,
    backlog: usize,
    filled: usize,
)
    requires
        controller.batch.size >= 1,
        controller.low_fill_timeouts < u8::MAX,
    ensures
        reason == FlushReason::Timeout && backlog == 0 && filled * 2 < controller.batch.size
            ==> controller.sparse_batches(reason, backlog, filled) == controller.low_fill_timeouts
            + 1,
        !(reason == FlushReason::Timeout && backlog == 0 && filled * 2 < controller.batch.size)
            ==> controller.sparse_batches(reason, backlog, filled) == 0,
{
}

/// A batch gets smaller at once after three sparse ones, unless commits are
/// congested. Otherwise the third look in a row decides: back where commits are
/// congested; up where requests wait or come too fast. A look that finds neither
/// leaves the size alone.
pub proof fn sizes_follow_congestion_and_demand(
    controller: AdaptiveBatchController,
    reading: SizeReading,
)
    requires
        controller.wf(),
        controller.batch.min <= reading.probed <= controller.batch.max,
        controller.batch.min <= reading.backed_off <= controller.batch.max,
    ensures
        ({
            let after = controller.size_adjusted(reading);
            let streak = controller.batch.direction;
            let sparse = controller.low_fill_timeouts >= 3;
            let wanted = controller.backlog > 0 || reading.demand_exceeds_service;
            &&& sparse && !reading.congested ==> after.batch.size == reading.backed_off
                && after.low_fill_timeouts == 0
            &&& reading.congested && streak.direction == -1 && streak.samples == 2
                ==> after.batch.size == reading.backed_off
            &&& reading.congested && !(streak.direction == -1 && streak.samples == 2)
                ==> after.batch.size == controller.batch.size
            &&& !reading.congested && !sparse && wanted && streak.direction == 1 && streak.samples
                == 2 ==> after.batch.size == reading.probed
            &&& !reading.congested && !sparse && !(wanted && streak.direction == 1
                && streak.samples == 2) ==> after.batch.size == controller.batch.size
            &&& after.batch.min == controller.batch.min
            &&& after.batch.max == controller.batch.max
            &&& after.batch_wait == controller.batch_wait
            &&& after.backlog == controller.backlog
        }),
{
}

/// The wait changes with the third look in a row that asks for it: up by a
/// step or down by a step, but not past what is desired, and within the limits.
pub proof fn waits_step_towards_what_is_desired(
    controller: AdaptiveBatchController,
    reading: WaitReading,
)
    requires
        controller.wf(),
        controller.batch_wait_min.nanos <= reading.desired.nanos
            <= controller.batch_wait_max.nanos,
        controller.batch_wait_min.nanos <= reading.raised.nanos,
        reading.lowered.nanos <= controller.batch_wait_max.nanos,
        -1 <= reading.direction <= 1,
    ensures
        ({
            let after = controller.wait_adjusted(reading);
            let streak = controller.wait_direction_streak;
            let third = reading.direction == streak.direction && streak.samples == 2;
            &&& !third || reading.direction == 0 ==> after.batch_wait == controller.batch_wait
            &&& third && reading.direction == 1 ==> after.batch_wait.nanos == (
            if reading.raised.nanos <= reading.desired.nanos {
                reading.raised.nanos
            } else {
                reading.desired.nanos
            })
            &&& third && reading.direction == -1 ==> after.batch_wait.nanos == (
            if reading.lowered.nanos >= reading.desired.nanos {
                reading.lowered.nanos
            } else {
                reading.desired.nanos
            })
            &&& after.batch == controller.batch
            &&& after.low_fill_timeouts == controller.low_fill_timeouts
        }),
{
}

} // verus!
