use std::sync::{Arc, Mutex};

use maqistor::engine::pass::{DrainPass, DrainStep, QueueStep};
use maqistor::engine::scheduler::{
    claim_to_release, distinct, is_capped, pair_deliveries, plan_event, queue_to_wake,
    queues_to_wake, reservations, take_permits, Scheduler,
};
use maqistor::engine::types::{ExecutionStatus, Job, JobQueue};
use maqistor::engine::{
    DispatchError, DispatchOptions, DispatchPermit, JobOutcome, QueueReservation, ReservedDispatch,
    WorkerEvent, WorkerResult, MAX_CLAIM_BATCH_SIZE,
};
use maqistor::span::Span;

struct TestPermit(u32);

impl DispatchPermit for TestPermit {}

#[derive(Clone, Default)]
struct RecordingDispatcher(Arc<Mutex<Vec<Job>>>);

impl RecordingDispatcher {
    fn dispatch(&self, _permit: ReservedDispatch<TestPermit>, job: Job) -> Result<(), DispatchError> {
        self.0.lock().unwrap().push(job);
        Ok(())
    }
}

fn job(id: i64, queue: &str, status: ExecutionStatus) -> Job {
    Job {
        id,
        name: queue.into(),
        status,
        payload: b"payload".to_vec(),
        execution_count: 0,
        lease_expires_at: None,
        dispatch_id: None,
        result_payload: None,
        result_error: None,
        created_at: 0,
        updated_at: 0,
    }
}

#[test]
fn fake_dispatcher_accepts_a_job() {
    let dispatcher = RecordingDispatcher::default();
    let job = job(0, "email", ExecutionStatus::Pending);
    let expected_id = job.id;
    let permit = ReservedDispatch::new("email".into(), TestPermit(1));

    dispatcher.dispatch(permit, job).unwrap();

    assert_eq!(dispatcher.0.lock().unwrap()[0].id, expected_id);
}

#[test]
fn dispatch_options_reject_unsafe_claim_batches() {
    let options = DispatchOptions {
        batch_size_max: MAX_CLAIM_BATCH_SIZE + 1,
        ..DispatchOptions::default()
    };
    assert!(options.validate().is_err());
}

#[test]
fn dispatch_option_faults_are_named() {
    let fault = |change: &dyn Fn(&mut DispatchOptions)| {
        let mut options = DispatchOptions::default();
        change(&mut options);
        options.validate().unwrap_err()
    };
    assert_eq!(
        fault(&|o| o.batch_size_max = 0),
        "dispatch.batch_size_max must be in 1..=16384"
    );
    assert_eq!(
        fault(&|o| o.max_delivery_in_flight = 0),
        "dispatch.max_delivery_in_flight must be greater than zero"
    );
    assert_eq!(
        fault(&|o| o.idle_probe_interval = Span::from_millis(0)),
        "dispatch.idle_probe_interval_ms must be greater than zero"
    );
    assert_eq!(
        fault(&|o| o.idle_probe_batch_size = 0),
        "dispatch.idle_probe_batch_size must be greater than zero"
    );
    assert!(DispatchOptions::default().validate().is_ok());
}

#[test]
fn wakeups_are_coalesced_into_one_look() {
    let mut scheduler = Scheduler::new(DispatchOptions::default());
    scheduler.ensure_awake("email");
    scheduler.ensure_awake("email");
    scheduler.ensure_awake("sms");
    let queues = scheduler.begin_pass();
    assert_eq!(queues, vec!["email", "sms"]);
    assert!(scheduler.is_awake("email"));
    scheduler.finish_pass(&vec![]);
    assert!(!scheduler.is_awake("sms"));
    assert_eq!(scheduler.begin_pass(), vec!["email"]);
    scheduler.finish_pass(&vec![]);
    assert!(scheduler.begin_pass().is_empty());
    assert!(!scheduler.is_awake("email"));
}

#[test]
fn wakeups_during_a_pass_are_kept() {
    let mut scheduler = Scheduler::new(DispatchOptions::default());
    scheduler.ensure_awake("email");
    assert_eq!(scheduler.begin_pass(), vec!["email"]);
    scheduler.ensure_awake("email");
    scheduler.finish_pass(&vec![]);
    assert_eq!(scheduler.begin_pass(), vec!["email"]);
    scheduler.finish_pass(&vec!["email".into()]);
    assert_eq!(scheduler.begin_pass(), vec!["email"]);
    scheduler.finish_pass(&vec![]);
    assert!(!scheduler.is_awake("email"));
}

#[test]
fn idle_probes_look_at_queues_that_sleep() {
    let mut scheduler = Scheduler::new(DispatchOptions::default());
    scheduler.ensure_awake("email");
    let probes = scheduler.idle_probe(&vec!["email".into(), "sms".into()]);
    assert_eq!(
        probes,
        vec![QueueReservation {
            queue_name: "sms".into(),
            count: 64
        }]
    );
    assert_eq!(scheduler.pass_size(), DispatchOptions::default().batch_size_max);
}

#[test]
fn permits_go_to_jobs_in_order() {
    let mut permits = vec![
        ReservedDispatch::new("a".into(), TestPermit(1)),
        ReservedDispatch::new("b".into(), TestPermit(2)),
        ReservedDispatch::new("a".into(), TestPermit(3)),
    ];
    let for_a = take_permits(&mut permits, "a");
    assert_eq!(permits.len(), 1);
    assert_eq!(for_a.len(), 2);
    let paired = pair_deliveries(for_a, vec![job(7, "a", ExecutionStatus::Running)]);
    assert_eq!(paired.dispatches.len(), 1);
    assert_eq!(paired.unused.len(), 1);
    for (permit, job) in paired.dispatches {
        assert_eq!(permit.into_permit().0, 1);
        assert_eq!(job.id, 7);
    }
}

#[test]
fn reservations_ask_for_each_queue() {
    let asked = reservations(&vec!["a".into(), "b".into()], 3);
    assert_eq!(asked.len(), 2);
    assert_eq!(asked[1].queue_name, "b");
    assert_eq!(asked[1].count, 3);
    assert_eq!(
        distinct(&vec!["a".into(), "b".into(), "a".into()]),
        vec!["a", "b"]
    );
    assert!(is_capped(3, 3, 3));
    assert!(!is_capped(2, 3, 3));
}

#[test]
fn failed_deliveries_give_the_claim_back() {
    let mut running = job(7, "a", ExecutionStatus::Running);
    running.dispatch_id = Some("d".into());
    assert_eq!(claim_to_release(&running, false), Some((7, "d".into())));
    assert_eq!(claim_to_release(&running, true), None);
    assert_eq!(claim_to_release(&job(7, "a", ExecutionStatus::Running), false), None);
}

#[test]
fn pending_jobs_wake_their_queues() {
    let jobs = vec![
        job(1, "a", ExecutionStatus::Pending),
        job(2, "b", ExecutionStatus::Failed),
        job(3, "a", ExecutionStatus::Pending),
    ];
    assert_eq!(queues_to_wake(&jobs), vec!["a"]);
    assert_eq!(
        queue_to_wake(&Some(job(1, "a", ExecutionStatus::Pending))),
        Some("a".into())
    );
    assert_eq!(queue_to_wake(&Some(job(1, "a", ExecutionStatus::Completed))), None);
    assert_eq!(queue_to_wake(&None), None);
}

#[test]
fn events_wake_and_complete() {
    let plan = plan_event(WorkerEvent::Registered {
        queue_name: "a".into(),
    });
    assert_eq!(plan.wake, "a");
    assert!(plan.complete.is_none());
    let result = WorkerResult {
        job_id: 1,
        dispatch_id: "d".into(),
        outcome: JobOutcome::Failed("no".into()),
    };
    let plan = plan_event(WorkerEvent::Result {
        queue_name: "a".into(),
        result: result.clone(),
    });
    assert_eq!(plan.complete, Some(result));
    assert_eq!(
        DispatchError::Internal("x".into()).to_text(),
        "dispatcher error: x"
    );
    assert_eq!(
        DispatchError::NoCapacity.to_text(),
        "no worker capacity is currently available"
    );
}

/// The claim of the next turn, for queues that are all found.
fn step(pass: &mut DrainPass<TestPermit>) -> Option<(String, usize)> {
    let DrainStep::LookUp { queue: wanted } = pass.next() else {
        return None;
    };
    match pass.on_queue(Some(JobQueue::new_at(&wanted, 1))) {
        QueueStep::Claim { queue, lease_duration_secs, limit } => {
            assert_eq!(queue, wanted);
            assert_eq!(lease_duration_secs, 60);
            Some((queue, limit))
        }
        QueueStep::Release { .. } => panic!("the queue was found"),
    }
}

fn permit(queue: &str, id: u32) -> ReservedDispatch<TestPermit> {
    ReservedDispatch::new(queue.into(), TestPermit(id))
}

#[test]
fn passes_claim_no_more_than_was_reserved() {
    let permits = vec![permit("b", 1), permit("a", 2), permit("b", 3), permit("d", 4)];
    let mut pass = DrainPass::new(vec!["a".into(), "c".into(), "b".into()], 2, permits);

    assert_eq!(step(&mut pass), Some(("a".into(), 1)));
    let deliveries = pass.on_claimed(Some(vec![job(7, "a", ExecutionStatus::Running)]));
    assert_eq!(deliveries.dispatches.len(), 1);
    assert!(deliveries.unused.is_empty());

    assert_eq!(step(&mut pass), Some(("b".into(), 2)));
    let deliveries = pass.on_claimed(Some(vec![
        job(8, "b", ExecutionStatus::Running),
        job(9, "b", ExecutionStatus::Running),
    ]));
    let sent: Vec<(u32, i64)> = deliveries
        .dispatches
        .iter()
        .map(|(permit, job)| (permit.permit.0, job.id))
        .collect();
    assert_eq!(sent, vec![(1, 8), (3, 9)]);

    assert_eq!(pass.next(), DrainStep::Finish);
    let left: Vec<u32> = pass.permits.iter().map(|p| p.permit.0).collect();
    assert_eq!(left, vec![4]);
    assert_eq!(pass.capped, vec!["b"]);
}

#[test]
fn permits_of_a_queue_that_is_not_found_are_given_back() {
    let permits = vec![permit("a", 1), permit("b", 2), permit("a", 3)];
    let mut pass = DrainPass::new(vec!["a".into(), "b".into()], 2, permits);
    assert_eq!(pass.next(), DrainStep::LookUp { queue: "a".into() });
    match pass.on_queue(None) {
        QueueStep::Release { permits } => {
            let returned: Vec<u32> = permits.iter().map(|p| p.permit.0).collect();
            assert_eq!(returned, vec![1, 3]);
        }
        QueueStep::Claim { .. } => panic!("the queue was not found"),
    }
    assert_eq!(step(&mut pass), Some(("b".into(), 1)));
    let deliveries = pass.on_claimed(Some(Vec::new()));
    assert_eq!(deliveries.unused.len(), 1);
    assert_eq!(pass.next(), DrainStep::Finish);
    assert!(pass.permits.is_empty());
    assert!(pass.capped.is_empty());
}

#[test]
fn permits_of_a_failed_claim_are_given_back() {
    let mut pass = DrainPass::new(vec!["a".into()], 2, vec![permit("a", 1), permit("a", 2)]);
    assert_eq!(step(&mut pass), Some(("a".into(), 2)));
    let deliveries = pass.on_claimed(None);
    assert!(deliveries.dispatches.is_empty());
    let returned: Vec<u32> = deliveries.unused.iter().map(|p| p.permit.0).collect();
    assert_eq!(returned, vec![1, 2]);
    assert_eq!(step(&mut pass), None);
    assert!(pass.capped.is_empty());
}

#[test]
fn failed_reservations_are_tried_again() {
    let mut scheduler = Scheduler::new(DispatchOptions::default());
    scheduler.ensure_awake("email");
    scheduler.ensure_awake("sms");
    let queues = scheduler.begin_pass();
    scheduler.finish_pass(&queues);
    assert!(scheduler.is_awake("email"));
    assert_eq!(scheduler.begin_pass(), vec!["email", "sms"]);
}
