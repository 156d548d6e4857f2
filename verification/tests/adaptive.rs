use maqistor::engine::adaptive::{clamp_size, AdaptiveBatch, DirectionStreak};
use maqistor::persistence::adaptive::{
    other_lane, AdaptiveBatchController, FlushReason, ResultsLane, ResultsLaneController,
    ResultsLaneSelectionReason, SizeReading, WaitReading, LOW_FILL_TIMEOUTS,
    MAX_RESULTS_PREFERRED_LANE_TURNS,
};
use maqistor::persistence::options::{BatchOptions, DurabilityMode, Factor, SqliteWriteOptions};
use maqistor::span::Span;

fn controller_options() -> BatchOptions {
    let mut options = BatchOptions::default();
    options.batch_size_min = 1;
    options.batch_size_max = 64;
    options.batch_wait_min = Span::from_millis(1);
    options.batch_wait_max = Span::from_millis(100);
    options.ewma_window = 1;
    options
}

fn controller(options: &BatchOptions) -> AdaptiveBatchController {
    let middle = (options.batch_size_min as f64 * options.batch_size_max as f64).sqrt();
    AdaptiveBatchController::new(options, middle.round() as usize)
}

struct Rates {
    request: f64,
    commit: f64,
    duration: f64,
    baseline: f64,
}

fn size_reading(
    controller: &AdaptiveBatchController,
    options: &BatchOptions,
    rates: &Rates,
) -> Option<SizeReading> {
    let size = controller.batch_size() as f64;
    let probe = f64::from_bits(options.batch_probe_factor.bits);
    let backoff = f64::from_bits(options.batch_backoff_factor.bits);
    Some(SizeReading {
        congested: rates.duration / rates.baseline > 1.2,
        demand_exceeds_service: rates.request > size * rates.commit,
        probed: (size * probe).ceil() as usize,
        backed_off: (size * backoff).floor() as usize,
    })
}

fn wait_reading(controller: &AdaptiveBatchController, request_rate: f64) -> Option<WaitReading> {
    let wait = controller.batch_wait.nanos as f64;
    let predicted = controller.batch_size() as f64 * 0.75 / request_rate * 1e9;
    let desired = controller.desired_wait(Span {
        nanos: predicted as u128,
    });
    let direction = if desired.nanos as f64 > wait * 1.2 {
        1
    } else if (desired.nanos as f64) < wait * 0.8 {
        -1
    } else {
        0
    };
    Some(WaitReading {
        desired,
        direction,
        raised: Span {
            nanos: (wait * 1.25) as u128,
        },
        lowered: Span {
            nanos: (wait * 0.8) as u128,
        },
    })
}

#[test]
fn batch_size_uses_request_and_sql_commit_rates_with_direction_streak() {
    let options = controller_options();
    let mut controller = controller(&options);
    let rates = Rates {
        request: 100.0,
        commit: 10.0,
        duration: 0.001,
        baseline: 0.001,
    };

    for _ in 0..2 {
        let reading = size_reading(&controller, &options, &rates);
        controller.adjust_batch_size(reading);
    }
    assert_eq!(controller.batch_size(), 8);
    let reading = size_reading(&controller, &options, &rates);
    controller.adjust_batch_size(reading);
    assert!(controller.batch_size() > 1);
    assert!(controller.batch_size() <= 10);
    assert_eq!(controller.batch_size(), 9);
}

#[test]
fn writer_backlog_drives_a_probe_when_closed_loop_rate_is_throttled() {
    let options = controller_options();
    let mut controller = controller(&options);
    controller.backlog = 100;
    let rates = Rates {
        request: 100.0,
        commit: 100.0,
        duration: 0.001,
        baseline: 0.001,
    };
    for _ in 0..3 {
        let reading = size_reading(&controller, &options, &rates);
        controller.adjust_batch_size(reading);
    }
    assert!(controller.batch_size() > 8);
}

#[test]
fn congested_commits_back_off_without_a_fixed_latency_target() {
    let mut options = controller_options();
    options.batch_size_max = 16;
    let mut controller = controller(&options);
    controller.set_batch_size(16);
    let rates = Rates {
        request: 100.0,
        commit: 100.0,
        duration: 0.030,
        baseline: 0.001,
    };
    for _ in 0..3 {
        let reading = size_reading(&controller, &options, &rates);
        controller.adjust_batch_size(reading);
    }
    assert!(controller.batch_size() < 16);
    assert!(controller.batch_size() >= options.batch_size_min);
    assert_eq!(controller.batch_size(), 12);
}

#[test]
fn neutral_conditions_hold_batch_size() {
    let options = controller_options();
    let mut controller = controller(&options);
    controller.set_batch_size(8);
    let rates = Rates {
        request: 50.0,
        commit: 25.0,
        duration: 0.001,
        baseline: 0.001,
    };
    for _ in 0..3 {
        let reading = size_reading(&controller, &options, &rates);
        controller.adjust_batch_size(reading);
    }
    assert_eq!(controller.batch_size(), 8);
}

#[test]
fn three_sparse_timeout_batches_back_off_once() {
    let options = controller_options();
    let mut controller = controller(&options);
    controller.set_batch_size(16);
    let rates = Rates {
        request: 0.0,
        commit: 0.0,
        duration: 0.001,
        baseline: 0.001,
    };
    for _ in 0..LOW_FILL_TIMEOUTS {
        controller.record_batch(FlushReason::Timeout, 0, 4);
        let reading = size_reading(&controller, &options, &rates);
        controller.adjust_batch_size(reading);
    }
    assert!(controller.batch_size() < 16);
    assert_eq!(controller.low_fill_timeouts, 0);
}

#[test]
fn predicted_fill_time_extends_wait_inside_configured_caps() {
    let options = controller_options();
    let mut controller = controller(&options);
    controller.set_batch_size(4);
    controller.batch_wait = Span::from_millis(20);
    for _ in 0..3 {
        let reading = wait_reading(&controller, 10.0);
        controller.adjust_batch_wait(reading);
    }
    assert!(controller.batch_wait > Span::from_millis(20));
    assert!(controller.batch_wait <= options.batch_wait_max);
    assert_eq!(controller.batch_wait, Span::from_millis(25));
}

#[test]
fn waits_are_lowered_and_never_past_what_is_desired() {
    let options = controller_options();
    let mut controller = controller(&options);
    controller.set_batch_size(4);
    controller.batch_wait = Span::from_millis(20);
    for _ in 0..3 {
        let reading = wait_reading(&controller, 1_000.0);
        controller.adjust_batch_wait(reading);
    }
    assert_eq!(controller.batch_wait, Span::from_millis(16));
    controller.adjust_batch_wait(None);
    controller.adjust_batch_size(None);
    assert_eq!(controller.batch_wait, Span::from_millis(16));
    assert_eq!(controller.batch_size(), 4);
}

#[test]
fn fuller_batches_restart_the_count_of_sparse_ones() {
    let options = controller_options();
    let mut controller = controller(&options);
    controller.set_batch_size(15);
    controller.record_batch(FlushReason::Timeout, 0, 7);
    controller.record_batch(FlushReason::Timeout, 0, 7);
    assert_eq!(controller.low_fill_timeouts, 2);
    controller.record_batch(FlushReason::Timeout, 0, 8);
    assert_eq!(controller.low_fill_timeouts, 0);
    controller.record_batch(FlushReason::Timeout, 0, 0);
    assert_eq!(controller.low_fill_timeouts, 1);
    controller.record_batch(FlushReason::Timeout, 1, 0);
    assert_eq!(controller.low_fill_timeouts, 0);
    controller.record_batch(FlushReason::Timeout, 0, 0);
    controller.record_batch(FlushReason::FullBatch, 7, 0);
    assert_eq!(controller.low_fill_timeouts, 0);
    assert_eq!(controller.backlog, 7);
}

fn selected(
    selection: Option<(ResultsLane, ResultsLaneSelectionReason)>,
) -> Option<ResultsLane> {
    selection.map(|(lane, _)| lane)
}

/// Which lane presses harder, with one row and one millisecond per turn.
fn direction(
    dispatch_rows: usize,
    dispatch_waited_ms: f64,
    completion_rows: usize,
    completion_waited_ms: f64,
) -> i8 {
    let dispatch = dispatch_rows as f64 + dispatch_waited_ms;
    let completion = completion_rows as f64 + completion_waited_ms;
    if completion > dispatch {
        1
    } else if dispatch > completion {
        -1
    } else {
        0
    }
}

#[test]
fn completion_is_the_initial_dual_lane_tie_break() {
    let mut controller = ResultsLaneController::new();
    assert_eq!(
        controller.select(1, 1, 0),
        Some((
            ResultsLane::Completion,
            ResultsLaneSelectionReason::InitialTieBreak
        ))
    );
}

#[test]
fn direction_requires_three_consistent_samples() {
    let mut controller = ResultsLaneController::new();
    let pressed = direction(10, 0.0, 1, 0.0);
    assert_eq!(
        selected(controller.select(10, 1, pressed)),
        Some(ResultsLane::Completion)
    );
    assert_eq!(
        selected(controller.select(10, 1, pressed)),
        Some(ResultsLane::Completion)
    );
    assert_eq!(
        selected(controller.select(10, 1, pressed)),
        Some(ResultsLane::Dispatch)
    );
}

#[test]
fn old_work_can_reverse_a_small_queue_disadvantage() {
    let mut controller = ResultsLaneController::new();
    let pressed = direction(10, 0.0, 1, 20.0);
    for _ in 0..3 {
        controller.select(10, 1, pressed);
    }
    assert_eq!(
        selected(controller.select(10, 1, pressed)),
        Some(ResultsLane::Completion)
    );
}

#[test]
fn one_reversed_sample_does_not_switch_the_preferred_lane() {
    let mut controller = ResultsLaneController::new();
    for _ in 0..3 {
        controller.select(10, 1, direction(10, 0.0, 1, 0.0));
    }
    assert_eq!(
        selected(controller.select(1, 10, direction(1, 0.0, 10, 0.0))),
        Some(ResultsLane::Dispatch)
    );
}

#[test]
fn active_non_preferred_lane_is_forced_after_the_turn_cap() {
    let mut controller = ResultsLaneController::new();
    let pressed = direction(10, 0.0, 1, 0.0);
    for _ in 0..3 {
        controller.select(10, 1, pressed);
    }
    for _ in 0..MAX_RESULTS_PREFERRED_LANE_TURNS {
        assert_eq!(
            selected(controller.select(10, 1, pressed)),
            Some(ResultsLane::Dispatch)
        );
        controller.record_turn(ResultsLane::Dispatch);
    }
    assert_eq!(
        controller.select(10, 1, pressed),
        Some((
            ResultsLane::Completion,
            ResultsLaneSelectionReason::StarvationOverride
        ))
    );
}

#[test]
fn a_lane_alone_is_taken() {
    let mut controller = ResultsLaneController::new();
    assert_eq!(controller.select(0, 0, 0), None);
    assert_eq!(
        controller.select(1, 0, 0),
        Some((ResultsLane::Dispatch, ResultsLaneSelectionReason::OnlyActive))
    );
    assert_eq!(
        controller.select(0, 1, 0),
        Some((
            ResultsLane::Completion,
            ResultsLaneSelectionReason::OnlyActive
        ))
    );
    assert_eq!(other_lane(ResultsLane::Dispatch), ResultsLane::Completion);
}

#[test]
fn streaks_confirm_every_third_sample() {
    let mut streak = DirectionStreak::default();
    let confirmed: Vec<bool> = [1, 1, 1, 1, -1, -1, 0, -1, -1, -1]
        .into_iter()
        .map(|direction| streak.confirm(direction))
        .collect();
    assert_eq!(
        confirmed,
        vec![false, false, true, false, false, false, false, false, false, true]
    );
}

#[test]
fn batch_sizes_stay_between_their_ends() {
    let mut batch = AdaptiveBatch::new(4, 16, 100);
    assert_eq!(batch.size(), 16);
    batch.set_size(1);
    assert_eq!(batch.size(), 4);
    assert!(!batch.observe_direction(1, 90, 1));
    assert!(!batch.observe_direction(1, 90, 1));
    assert!(batch.observe_direction(1, 90, 1));
    assert_eq!(batch.size(), 16);
    batch.observe_direction(-1, 90, 8);
    batch.observe_direction(-1, 90, 8);
    batch.reset_direction();
    assert!(!batch.observe_direction(-1, 90, 8));
    assert_eq!(clamp_size(9, 1, 5), 5);
}

#[test]
fn durability_modes_have_settings() {
    assert_eq!(DurabilityMode::default(), DurabilityMode::Off);
    assert_eq!(DurabilityMode::Off.synchronous(), "OFF");
    assert_eq!(DurabilityMode::Balanced.synchronous(), "NORMAL");
    assert_eq!(DurabilityMode::Strict.synchronous(), "FULL");
}

fn factor(value: f64) -> Factor {
    Factor {
        bits: value.to_bits(),
    }
}

#[test]
fn factors_are_compared_as_numbers() {
    assert!(factor(1.1).is_above_one());
    for value in [1.0, 0.5, -3.0, f64::INFINITY, f64::NAN] {
        assert!(!factor(value).is_above_one());
    }
    assert!(factor(0.8).is_below_one());
    for value in [1.0, 1.5, -0.5, f64::NAN] {
        assert!(!factor(value).is_below_one());
    }
    let standard = SqliteWriteOptions::default();
    assert_eq!(standard.enqueue.batch_probe_factor, factor(1.1));
    assert_eq!(standard.enqueue.batch_backoff_factor, factor(0.8));
    assert_eq!(standard.completion.batch_probe_factor, factor(1.25));
}

#[test]
fn faulty_limits_are_named() {
    let fault = |change: &dyn Fn(&mut BatchOptions)| {
        let mut options = SqliteWriteOptions::default();
        change(&mut options.completion);
        options.validate().unwrap_err()
    };
    assert_eq!(
        fault(&|o| o.ewma_window = 0),
        "persistence.completion.ewma_window must be greater than zero"
    );
    assert_eq!(
        fault(&|o| o.batch_probe_factor = factor(1.0)),
        "persistence.completion.batch_probe_factor must be greater than one"
    );
    assert_eq!(
        fault(&|o| o.batch_backoff_factor = factor(1.0)),
        "persistence.completion.batch_backoff_factor must be greater than zero and less than one"
    );
    assert_eq!(
        fault(&|o| o.batch_size_min = 0),
        "persistence.completion.batch_size_min must be positive and not exceed batch_size_max"
    );
    assert_eq!(
        fault(&|o| o.batch_wait_min = Span::from_millis(900)),
        "persistence.completion.batch_wait_min_ms must be positive and not exceed batch_wait_max_ms"
    );
    let mut options = SqliteWriteOptions::default();
    options.enqueue.ewma_window = 0;
    assert_eq!(
        options.validate().unwrap_err(),
        "persistence.enqueue.ewma_window must be greater than zero"
    );
    assert!(SqliteWriteOptions::default().validate().is_ok());
}
