use maqistor::engine::types::{
    AcceptedJob, Execution, ExecutionStatus, ExecutionWithQueueConfig, Job, JobQueue, StoreError,
};
use maqistor::engine::JobOutcome;
use maqistor::persistence::ingest::{IngestClaimed, IngestTable};
use maqistor::persistence::results::{
    Completion, CompletionDisposition, DispatchInsert, RecoveredStale, ResultsTable,
};
use maqistor::persistence::steps::{StoreAnswer, StoreCall, StoreReply, StoreStep, StoreTask};
use maqistor::persistence::store::{lease_expires_at, SplitStore};

fn queue(name: &str, max_retries: u32, timeout_secs: u64) -> JobQueue {
    let mut queue = JobQueue::new_at(name, 1);
    queue.max_retries = max_retries;
    queue.timeout_secs = timeout_secs;
    queue
}

fn store_with(name: &str) -> SplitStore {
    let mut store = SplitStore::new();
    store.upsert_queue(JobQueue::new_at(name, 1), 1).unwrap();
    store
}

fn enqueue(store: &mut SplitStore, payload: &[u8], created_at: i64) -> AcceptedJob {
    store
        .enqueue(AcceptedJob::new_at("email", payload.to_vec(), created_at))
        .unwrap()
}

fn token(job: &Job) -> String {
    job.dispatch_id.clone().unwrap()
}

#[test]
fn tests_persists_queues_and_jobs_across_reopen() {
    let mut store = store_with("email");
    let job = enqueue(&mut store, b"payload", 5);

    let ingest = IngestTable::from_rows(store.list_queues(), store.ingest.jobs).unwrap();
    let results =
        ResultsTable::from_rows(vec![JobQueue::new_at("email", 1)], store.results.executions)
            .unwrap();
    let mut store = SplitStore::open(ingest, results, 9);
    let queues = store.list_queues();
    assert_eq!(queues.len(), 1);
    assert_eq!(queues[0].name, "email");

    let read = store.get_job(job.id).unwrap();
    assert_eq!(read.status, ExecutionStatus::Pending);
    assert_eq!(read.payload, b"payload");

    let reopened = enqueue(&mut store, b"after-reopen", 10);
    assert_eq!(store.get_job(reopened.id).unwrap().payload, b"after-reopen");
}

#[test]
fn tests_claim_and_recover_stale_lease() {
    let mut store = SplitStore::new();
    let now = 1_700_000_000_000;
    store.upsert_queue(queue("email", 3, 30), now).unwrap();
    let job = enqueue(&mut store, b"", now);

    let claimed = store.claim_next("email", now + 7).unwrap().unwrap();
    assert_eq!(claimed.id, job.id);
    assert_eq!(claimed.status, ExecutionStatus::Running);
    assert!(claimed.created_at > 1_000_000_000_000);
    let lease_span_ms = claimed.lease_expires_at.unwrap() - claimed.updated_at;
    assert_eq!(lease_span_ms, 30_000);

    let recovered = store
        .recover_stale_leases(claimed.lease_expires_at.unwrap() + 1)
        .unwrap();
    assert_eq!(recovered.len(), 1);
    assert_eq!(recovered[0].status, ExecutionStatus::Pending);
    assert_eq!(recovered[0].execution_count, 1);
}

#[test]
fn fifo_claims_increment_counts_and_fence_results() {
    let mut store = SplitStore::new();
    store.upsert_queue(queue("email", 1, 60), 1).unwrap();
    let first = enqueue(&mut store, b"first", 10);
    let second = enqueue(&mut store, b"second", 10);

    let claimed = store.claim_batch("email", 64, 20).unwrap();
    assert_eq!(
        claimed.iter().map(|job| job.id).collect::<Vec<_>>(),
        vec![first.id, second.id]
    );
    assert!(claimed
        .iter()
        .all(|job| job.execution_count == 1 && job.dispatch_id.is_some()));

    let stale = store
        .complete(first.id, "wrong-dispatch", JobOutcome::Succeeded(vec![]), 21)
        .unwrap();
    assert!(stale.is_none());
    let retry = store
        .complete(
            first.id,
            &token(&claimed[0]),
            JobOutcome::Failed("temporary".into()),
            22,
        )
        .unwrap()
        .unwrap();
    assert_eq!(retry.status, ExecutionStatus::Pending);
    assert_eq!(retry.execution_count, 1);
    assert_eq!(retry.created_at, 10);

    let retry = store.claim_next("email", 23).unwrap().unwrap();
    assert_eq!(retry.id, first.id);
    assert_eq!(retry.execution_count, 2);
    let terminal = store
        .complete(
            first.id,
            &token(&retry),
            JobOutcome::Failed("final".into()),
            24,
        )
        .unwrap()
        .unwrap();
    assert_eq!(terminal.status, ExecutionStatus::Failed);
    assert_eq!(terminal.result_error.as_deref(), Some("final"));
}

#[test]
fn retries_use_policy_snapshotted_when_claimed() {
    let mut store = SplitStore::new();
    store.upsert_queue(queue("email", 1, 60), 1).unwrap();
    let job = enqueue(&mut store, b"", 2);

    let first = store.claim_next("email", 3).unwrap().unwrap();
    store.upsert_queue(queue("email", 0, 60), 4).unwrap();
    let retry = store
        .complete(
            first.id,
            &token(&first),
            JobOutcome::Failed("retry under snapshotted policy".into()),
            5,
        )
        .unwrap()
        .unwrap();
    assert_eq!(retry.status, ExecutionStatus::Pending);

    let second = store.claim_next("email", 6).unwrap().unwrap();
    assert_eq!(second.id, job.id);
    assert_eq!(second.execution_count, 2);
    let terminal = store
        .complete(
            second.id,
            &token(&second),
            JobOutcome::Failed("new policy disallows retry".into()),
            7,
        )
        .unwrap()
        .unwrap();
    assert_eq!(terminal.status, ExecutionStatus::Failed);
}

#[test]
fn worker_result_completion_is_fenced_and_lightweight() {
    let mut store = store_with("email");
    let job = enqueue(&mut store, b"", 2);
    let claimed = store.claim_next("email", 3).unwrap().unwrap();
    let dispatch_id = token(&claimed);

    assert!(!store.complete_worker_result(job.id, &dispatch_id, JobOutcome::Succeeded(vec![]), 4));
    assert!(!store.complete_worker_result(job.id, &dispatch_id, JobOutcome::Succeeded(vec![]), 5));
    assert_eq!(
        store.get_job(job.id).unwrap().status,
        ExecutionStatus::Completed
    );
}

#[test]
fn fifo_uses_timestamp_then_id_and_preserves_position_after_release() {
    let mut store = store_with("email");
    let later = enqueue(&mut store, b"later", 20);
    let first = enqueue(&mut store, b"first", 10);
    let second = enqueue(&mut store, b"second", 10);

    let claimed = store.claim_batch("email", 64, 30).unwrap();
    assert_eq!(
        claimed.iter().map(|job| job.id).collect::<Vec<_>>(),
        vec![first.id, second.id, later.id]
    );
    store.release_claim(first.id, &token(&claimed[0]), 31).unwrap();
    store.release_claim(second.id, &token(&claimed[1]), 32).unwrap();
    store.release_claim(later.id, &token(&claimed[2]), 33).unwrap();

    let reclaimed = store.claim_batch("email", 64, 34).unwrap();
    assert_eq!(
        reclaimed.iter().map(|job| job.id).collect::<Vec<_>>(),
        vec![first.id, second.id, later.id]
    );
}

#[test]
fn claim_batch_exceeds_sixty_four_and_persists_success_payload() {
    let mut store = store_with("email");
    for n in 0..65 {
        enqueue(&mut store, b"", n);
    }

    let claimed = store.claim_batch("email", 100, 100).unwrap();
    assert_eq!(claimed.len(), 65);
    let completed = store
        .complete(
            claimed[0].id,
            &token(&claimed[0]),
            JobOutcome::Succeeded(b"result".to_vec()),
            101,
        )
        .unwrap()
        .unwrap();
    assert_eq!(completed.result_payload.as_deref(), Some(&b"result"[..]));
    assert_eq!(completed.result_error, None);
    assert!(store.claim_next("email", 102).unwrap().is_none());
}

#[test]
fn completion_results_share_a_bounded_group_commit() {
    let mut store = store_with("email");
    enqueue(&mut store, &[1], 2);
    enqueue(&mut store, &[2], 3);
    let claimed = store.claim_batch("email", 2, 4).unwrap();
    let batch = claimed
        .iter()
        .map(|job| Completion {
            job_id: job.id,
            dispatch_id: token(job),
            outcome: JobOutcome::Succeeded(vec![]),
        })
        .collect();
    assert_eq!(
        store.results.complete_batch(&batch, 5),
        vec![
            CompletionDisposition::Completed,
            CompletionDisposition::Completed
        ]
    );
    assert_eq!(
        store.get_job(claimed[0].id).unwrap().status,
        ExecutionStatus::Completed
    );
    assert_eq!(
        store.get_job(claimed[1].id).unwrap().status,
        ExecutionStatus::Completed
    );
}

#[test]
fn zero_retries_allows_exactly_one_execution() {
    let mut store = SplitStore::new();
    store.upsert_queue(queue("email", 0, 60), 1).unwrap();
    let job = enqueue(&mut store, b"", 2);
    let claimed = store.claim_next("email", 3).unwrap().unwrap();
    let done = store
        .complete(
            job.id,
            &token(&claimed),
            JobOutcome::Failed("no retry".into()),
            4,
        )
        .unwrap()
        .unwrap();
    assert_eq!(done.status, ExecutionStatus::Failed);
    assert_eq!(done.execution_count, 1);
    assert!(store.claim_next("email", 5).unwrap().is_none());
}

#[test]
fn stale_leases_obey_retry_limit_without_incrementing_on_requeue() {
    let mut store = SplitStore::new();
    store.upsert_queue(queue("email", 1, 60), 1).unwrap();
    let job = enqueue(&mut store, b"", 2);

    let first = store.claim_next("email", 3).unwrap().unwrap();
    let recovered = store
        .recover_stale_leases(first.lease_expires_at.unwrap() + 1)
        .unwrap();
    assert_eq!(recovered[0].status, ExecutionStatus::Pending);
    assert_eq!(recovered[0].execution_count, 1);

    let second = store.claim_next("email", 70_000).unwrap().unwrap();
    assert_eq!(second.id, job.id);
    assert_eq!(second.execution_count, 2);
    let recovered = store
        .recover_stale_leases(second.lease_expires_at.unwrap() + 1)
        .unwrap();
    assert_eq!(recovered[0].status, ExecutionStatus::Failed);
    assert_eq!(recovered[0].execution_count, 2);
}

#[test]
fn tests_enqueue_rejects_unknown_queue() {
    let mut store = SplitStore::new();
    let error = store
        .enqueue(AcceptedJob::new_at("missing", vec![], 1))
        .unwrap_err();
    assert!(matches!(error, StoreError::QueueNotFound(name) if name == "missing"));
}

#[test]
fn tests_concurrent_enqueues_are_durable_after_await() {
    let mut store = store_with("email");
    let batch = (0..50)
        .map(|i| AcceptedJob::new_at("email", format!("p{i}").into_bytes(), i))
        .collect();
    let results = store.ingest.enqueue_batch(batch);
    for (i, result) in results.into_iter().enumerate() {
        let id = result.unwrap().id;
        let job = store.get_job(id).unwrap();
        assert_eq!(job.status, ExecutionStatus::Pending);
        assert_eq!(job.name, "email");
        assert_eq!(job.payload, format!("p{i}").into_bytes());
    }
}

#[test]
fn jobs_use_sequential_integer_ids_with_dispatch_indexes() {
    let mut store = store_with("email");
    let first = enqueue(&mut store, b"", 1);
    let second = enqueue(&mut store, b"", 1);
    assert_eq!((first.id, second.id), (1, 2));
}

#[test]
fn tests_mixed_unknown_queue_does_not_block_valid_enqueues() {
    let mut store = store_with("email");
    let mut results = store.ingest.enqueue_batch(vec![
        AcceptedJob::new_at("email", b"ok".to_vec(), 1),
        AcceptedJob::new_at("missing", b"no".to_vec(), 1),
    ]);
    let bad = results.pop().unwrap().unwrap_err();
    let ok = results.pop().unwrap().unwrap();
    assert!(matches!(bad, StoreError::QueueNotFound(_)));
    assert_eq!(store.get_job(ok.id).unwrap().payload, b"ok");
}

#[test]
fn unknown_jobs_and_queues_are_told() {
    let mut store = store_with("email");
    assert_eq!(store.get_job(7), Err(StoreError::NotFound(7)));
    assert_eq!(
        store.status(7).unwrap_err().to_text(),
        StoreError::NotFound(7).to_text()
    );
    assert_eq!(
        store.claim_next("missing", 1),
        Err(StoreError::QueueNotFound("missing".into()))
    );
    assert!(store.get_queue("missing").is_none());
}

#[test]
fn a_lease_too_long_to_store_is_refused() {
    let mut store = SplitStore::new();
    let error = store.upsert_queue(queue("email", 1, u64::MAX), 1).unwrap_err();
    assert!(matches!(error, StoreError::Internal(_)));
    assert!(store.list_queues().is_empty());
}

#[test]
fn reconfiguring_keeps_the_first_time() {
    let mut store = SplitStore::new();
    store.upsert_queue(JobQueue::new_at("email", 5), 6).unwrap();
    let again = store.upsert_queue(queue("email", 9, 8), 7).unwrap();
    assert_eq!(again.created_at, 5);
    assert_eq!(again.updated_at, 7);
    assert_eq!(again.max_retries, 9);
    assert_eq!(again.timeout_secs, 8);
}

#[test]
fn queues_are_listed_by_name() {
    let mut store = SplitStore::new();
    for name in ["b", "c", "a"] {
        store.upsert_queue(JobQueue::new_at(name, 1), 1).unwrap();
    }
    let names: Vec<String> = store.list_queues().into_iter().map(|q| q.name).collect();
    assert_eq!(names, vec!["a", "b", "c"]);
}

#[test]
fn leases_last_for_their_timeout_and_saturate() {
    assert_eq!(lease_expires_at(1_000, 30), 31_000);
    assert_eq!(lease_expires_at(1, i64::MAX as u64), i64::MAX);
}

#[test]
fn orphan_claims_are_healed_on_open() {
    let mut store = store_with("email");
    let job = enqueue(&mut store, b"", 2);
    store.ingest.claim_batch("email", 1, 3).unwrap();
    assert!(store.claim_next("email", 4).unwrap().is_none());

    let mut store = SplitStore::open(store.ingest, store.results, 5);
    let claimed = store.claim_next("email", 6).unwrap().unwrap();
    assert_eq!(claimed.id, job.id);
    assert_eq!(claimed.execution_count, 1);
}

#[test]
fn dispatch_tokens_are_hyphenated_identifiers() {
    let mut store = store_with("email");
    enqueue(&mut store, b"", 2);
    enqueue(&mut store, b"", 2);
    let claimed = store.claim_batch("email", 2, 3).unwrap();
    let first = token(&claimed[0]);
    assert_eq!(first.len(), 36);
    assert_eq!(first.matches('-').count(), 4);
    assert_ne!(first, token(&claimed[1]));
}

#[test]
fn a_claim_of_nothing_asks_for_one() {
    let mut store = store_with("email");
    enqueue(&mut store, b"", 2);
    enqueue(&mut store, b"", 2);
    assert_eq!(store.claim_batch("email", 0, 3).unwrap().len(), 1);
}

#[test]
fn cleanup_removes_records_from_before_the_cutoff() {
    let mut store = store_with("email");
    let old = enqueue(&mut store, b"", 2);
    let kept = enqueue(&mut store, b"", 10);
    let claimed = store.claim_next("email", 4).unwrap().unwrap();
    store
        .complete(old.id, &token(&claimed), JobOutcome::Succeeded(vec![]), 5)
        .unwrap();
    let before = store.get_job(kept.id).unwrap();
    assert!(store.cleanup_expired_records(10) >= 1);
    assert_eq!(store.get_job(kept.id).unwrap(), before);
    assert_eq!(store.get_job(old.id), Err(StoreError::NotFound(old.id)));
}

#[test]
fn releasing_a_claim_frees_it_once() {
    let mut store = store_with("email");
    let job = enqueue(&mut store, b"", 2);
    let claimed = store.claim_next("email", 3).unwrap().unwrap();
    store.release_claim(job.id, &token(&claimed), 4).unwrap();
    let again = store.claim_next("email", 5).unwrap().unwrap();
    assert_eq!(again.id, job.id);
    store.release_claim(job.id, &token(&claimed), 6).unwrap();
    assert!(store.claim_next("email", 7).unwrap().is_none());
}

#[test]
fn dispatching_for_an_unknown_queue_is_refused() {
    let mut results = ResultsTable::new();
    let error = results
        .dispatch_batch(
            &vec![DispatchInsert {
                job_id: 1,
                queue_name: "missing".into(),
                dispatch_id: "d".into(),
                lease_expires_at: 9,
            }],
            1,
        )
        .unwrap_err();
    assert!(matches!(error, StoreError::Internal(_)) || matches!(error, StoreError::QueueNotFound(_)));
}

#[test]
fn rows_that_break_the_invariants_are_refused() {
    assert!(IngestTable::from_rows(
        vec![JobQueue::new_at("b", 1), JobQueue::new_at("a", 1)],
        vec![]
    )
    .is_none());
    let execution = ExecutionWithQueueConfig {
        execution: Execution {
            id: 1,
            job_id: 1,
            queue_name: "email".into(),
            status: ExecutionStatus::Running,
            execution_count: 1,
            lease_expires_at: Some(5),
            dispatch_id: "d".into(),
            result_payload: None,
            result_error: None,
            created_at: 1,
            updated_at: 1,
        },
        queue: queue("email", 1, 60),
    };
    let table = ResultsTable::from_rows(vec![queue("email", 1, 60)], vec![execution]).unwrap();
    assert_eq!(table.execution(1).unwrap().dispatch_id, "d");
    assert!(table.has_token("d"));
    assert!(!table.has_token("e"));
}

/// The call of a step, and what waits for its answer.
fn called(step: StoreStep) -> (StoreCall, StoreTask) {
    match step {
        StoreStep::Call { call, task } => (call, task),
        StoreStep::Reply(_) => panic!("the operation is over"),
    }
}

fn claimed_row(id: i64, dispatch_id: &str) -> IngestClaimed {
    IngestClaimed {
        id,
        name: "email".into(),
        payload: vec![],
        timeout_secs: 2,
        dispatch_id: dispatch_id.into(),
        created_at: 1,
    }
}

#[test]
fn claims_that_cannot_start_are_undone_one_by_one() {
    let (call, task) = called(StoreTask::claim_batch("email", 5));
    assert!(matches!(call, StoreCall::Claim { queue_name, limit: 5 } if queue_name == "email"));
    let rows = vec![claimed_row(1, "x"), claimed_row(2, "y")];
    let (call, task) = called(task.step(StoreAnswer::Claimed(Ok(rows)), 10));
    match call {
        StoreCall::Dispatch { rows } => {
            assert_eq!(rows.len(), 2);
            assert_eq!(rows[0].dispatch_id, "x");
            assert_eq!(rows[1].lease_expires_at, 2_010);
        }
        _ => panic!("claimed jobs are started"),
    }
    let refused = StoreError::Internal("full".into());
    let (call, task) = called(task.step(StoreAnswer::Dispatched(Err(refused)), 11));
    assert!(matches!(call, StoreCall::Repend { job_id: 1, dispatch_id } if dispatch_id == "x"));
    let lost = StoreError::Internal("gone".into());
    let (call, task) = called(task.step(StoreAnswer::Repended(Err(lost)), 12));
    assert!(matches!(call, StoreCall::Repend { job_id: 2, dispatch_id } if dispatch_id == "y"));
    match task.step(StoreAnswer::Repended(Ok(())), 13) {
        StoreStep::Reply(StoreReply::Jobs(Err(error))) => {
            assert_eq!(error, StoreError::Internal("full".into()));
        }
        _ => panic!("the error is answered"),
    }

    let (_, task) = called(StoreTask::claim_batch("email", 5));
    assert!(matches!(
        task.step(StoreAnswer::Claimed(Ok(vec![])), 10),
        StoreStep::Reply(StoreReply::Jobs(Ok(jobs))) if jobs.is_empty()
    ));
}

#[test]
fn errors_end_the_steps_of_an_operation() {
    let lost = || StoreError::Internal("gone".into());
    let outcome = || JobOutcome::Failed("no".into());

    let (call, task) = called(StoreTask::complete(7, "x", outcome(), false));
    assert!(matches!(call, StoreCall::Complete { job_id: 7, .. }));
    let (call, task) = called(task.step(
        StoreAnswer::Completed(Ok(CompletionDisposition::Repend)),
        1,
    ));
    assert!(matches!(call, StoreCall::Repend { job_id: 7, .. }));
    assert!(matches!(
        task.step(StoreAnswer::Repended(Err(lost())), 1),
        StoreStep::Reply(StoreReply::Flag(Err(StoreError::Internal(_))))
    ));

    let (_, task) = called(StoreTask::complete(7, "x", outcome(), true));
    assert!(matches!(
        task.step(StoreAnswer::Completed(Ok(CompletionDisposition::Ignored)), 1),
        StoreStep::Reply(StoreReply::Job(Ok(None)))
    ));

    let (call, task) = called(StoreTask::release_claim(7, "x"));
    assert!(matches!(call, StoreCall::Accepted { job_id: 7 }));
    assert!(matches!(
        task.step(StoreAnswer::Accepted(Err(StoreError::NotFound(7))), 1),
        StoreStep::Reply(StoreReply::Flag(Err(StoreError::NotFound(7))))
    ));

    let (call, task) = called(StoreTask::recover_stale_leases(9));
    assert!(matches!(call, StoreCall::RecoverStale { now: 9 }));
    let stale = |job_id: i64, should_repend: bool| RecoveredStale {
        job_id,
        dispatch_id: "x".into(),
        should_repend,
    };
    let items = vec![stale(1, false), stale(2, true)];
    let (call, task) = called(task.step(StoreAnswer::Recovered(Ok(items)), 9));
    assert!(matches!(call, StoreCall::Accepted { job_id: 1 }));
    let job = AcceptedJob::new_at("email", vec![], 1);
    let (call, task) = called(task.step(StoreAnswer::Accepted(Ok(job)), 9));
    assert!(matches!(call, StoreCall::Execution { job_id: 1 }));
    let (call, task) = called(task.step(StoreAnswer::Execution(Ok(None)), 9));
    assert!(matches!(call, StoreCall::Repend { job_id: 2, .. }));
    assert!(matches!(
        task.step(StoreAnswer::Repended(Err(lost())), 9),
        StoreStep::Reply(StoreReply::Jobs(Err(StoreError::Internal(_))))
    ));
}
