use maqistor::engine::types::{AcceptedJob, ExecutionStatus, JobQueue};
use maqistor::engine::JobOutcome;
use maqistor::persistence::adaptive::{FlushReason, ResultsLane};
use maqistor::persistence::bulk::{
    insert_sql, update_from_values_sql, upsert_sql, values_placeholders,
};
use maqistor::persistence::ingest::IngestTable;
use maqistor::persistence::results::{
    Completion, CompletionDisposition, DispatchInsert, ResultsTable,
};
use maqistor::persistence::rows::{
    default_results_path, needs_schema, row_to_execution_at, row_to_execution_with_queue_config,
    row_to_queue_at, RawExecution, RawQueue,
};
use maqistor::persistence::store::SplitStore;
use maqistor::persistence::writer::{
    CompletionTurn, EnqueueTurn, IngestQueues, IngestReply, IngestRequest, IngestTurn,
    ResultsQueues, ResultsReply, ResultsRequest, ResultsTurn, ResultsWriter,
};
use maqistor::span::Span;

fn ms(millis: u64) -> Span {
    Span::from_millis(millis)
}

fn insert(job_id: i64, dispatch_id: &str) -> DispatchInsert {
    DispatchInsert {
        job_id,
        queue_name: "email".into(),
        dispatch_id: dispatch_id.into(),
        lease_expires_at: 60_000,
    }
}

fn completion(job_id: i64, dispatch_id: &str) -> Completion {
    Completion {
        job_id,
        dispatch_id: dispatch_id.into(),
        outcome: JobOutcome::Succeeded(Vec::new()),
    }
}

fn push_completion(queues: &mut ResultsQueues, job_id: i64, dispatch_id: &str) {
    queues.push(
        ResultsRequest::Complete {
            completion: completion(job_id, dispatch_id),
            ticket: job_id as u64,
        },
        ms(0),
    );
}

fn push_dispatch(queues: &mut ResultsQueues, job_id: i64, dispatch_id: &str) {
    queues.push(
        ResultsRequest::Dispatch {
            rows: vec![insert(job_id, dispatch_id)],
            ticket: 1_000 + job_id as u64,
        },
        ms(0),
    );
}

fn results() -> ResultsTable {
    let mut table = ResultsTable::new();
    table.upsert_queue(JobQueue::new_at("email", 1), 1).unwrap();
    table
}

fn complete_turn(
    table: &mut ResultsTable,
    writer: &mut ResultsWriter,
    size: usize,
) -> Vec<CompletionDisposition> {
    let turn = CompletionTurn::open(&mut writer.queues, size, ms(10), ms(0));
    let batch = turn.pending.into_iter().map(|p| p.completion).collect();
    let dispositions = table.complete_batch(&batch, 5);
    writer.lanes.record_turn(ResultsLane::Completion);
    dispositions
}

#[test]
fn dispatch_does_not_preempt_an_open_completion_batch() {
    let mut table = results();
    table.dispatch_batch(&vec![insert(1, "first")], 2).unwrap();

    let mut queues = ResultsQueues::new();
    push_completion(&mut queues, 1, "first");
    let mut turn = CompletionTurn::open(&mut queues, 2, ms(10), ms(0));
    assert!(turn.remaining(ms(0)).is_some());
    let open = turn.accept(
        &mut queues,
        ResultsRequest::Dispatch {
            rows: vec![insert(2, "second")],
            ticket: 9,
        },
        ms(1),
    );
    assert!(open);
    assert_eq!(queues.dispatch.len(), 1);
    assert_eq!(turn.remaining(ms(4)), Some(ms(6)));
    assert_eq!(turn.remaining(ms(10)), None);
    assert_eq!(turn.reason(), FlushReason::Timeout);

    let batch = turn.pending.into_iter().map(|p| p.completion).collect();
    assert_eq!(
        table.complete_batch(&batch, 12),
        vec![CompletionDisposition::Completed]
    );
    assert_eq!(table.execution(1).unwrap().status, ExecutionStatus::Completed);
    assert!(table.execution(2).is_none());
}

#[test]
fn sustained_dispatch_turns_cannot_starve_a_queued_completion() {
    let mut table = results();
    table.dispatch_batch(&vec![insert(1, "completed")], 2).unwrap();
    let mut writer = ResultsWriter::new();
    for job_id in 2..=34 {
        push_dispatch(&mut writer.queues, job_id, &format!("dispatch-{job_id}"));
    }
    push_completion(&mut writer.queues, 1, "completed");
    for turn in 0..3 {
        let (lane, _) = writer
            .lanes
            .select(writer.queues.dispatch_rows(), writer.queues.complete.len(), -1)
            .unwrap();
        assert_eq!(
            lane,
            if turn < 2 {
                ResultsLane::Completion
            } else {
                ResultsLane::Dispatch
            }
        );
    }

    let mut completed = false;
    for _ in 0..=32 {
        match writer.next_turn(-1) {
            ResultsTurn::Dispatch(pending) => {
                table.dispatch_batch(&pending.rows, 3).unwrap();
                writer.lanes.record_turn(ResultsLane::Dispatch);
            }
            ResultsTurn::Completion => {
                complete_turn(&mut table, &mut writer, 1);
                completed = true;
                break;
            }
            ResultsTurn::Idle | ResultsTurn::Meta(_) => panic!("a lane has work"),
        }
    }
    assert!(completed, "completion should run within the liveness cap");
    assert_eq!(table.execution(1).unwrap().status, ExecutionStatus::Completed);
}

#[test]
fn sustained_completion_turns_cannot_starve_a_queued_dispatch() {
    let mut table = results();
    let started = (1..=33)
        .map(|job_id| insert(job_id, &format!("complete-{job_id}")))
        .collect();
    table.dispatch_batch(&started, 2).unwrap();
    let mut writer = ResultsWriter::new();
    push_dispatch(&mut writer.queues, 100, "dispatch");
    for job_id in 1..=33 {
        push_completion(&mut writer.queues, job_id, &format!("complete-{job_id}"));
    }
    for _ in 0..3 {
        let (lane, _) = writer
            .lanes
            .select(writer.queues.dispatch_rows(), writer.queues.complete.len(), 1)
            .unwrap();
        assert_eq!(lane, ResultsLane::Completion);
    }
    for _ in 0..32 {
        assert!(matches!(writer.next_turn(1), ResultsTurn::Completion));
        let turn = CompletionTurn::open(&mut writer.queues, 1, ms(10), ms(0));
        let batch = turn.pending.into_iter().map(|p| p.completion).collect();
        table.complete_batch(&batch, 5);
        writer.lanes.record_turn(ResultsLane::Completion);
    }
    match writer.next_turn(1) {
        ResultsTurn::Dispatch(pending) => {
            assert!(table.dispatch_batch(&pending.rows, 6).is_ok());
        }
        _ => panic!("the dispatch is due"),
    }
    assert!(table.has_token("dispatch"));
}

#[test]
fn claim_preempts_an_open_ingest_batch() {
    let mut table = IngestTable::new();
    table.upsert_queue(JobQueue::new_at("email", 1), 1).unwrap();
    let mut queues = IngestQueues::new();
    queues.push(IngestRequest::Enqueue {
        job: AcceptedJob::new_at("email", vec![], 1),
        ticket: 1,
    });
    assert!(matches!(queues.next_turn(), IngestTurn::Ingest));
    let mut turn = EnqueueTurn::open(&mut queues, 64, ms(500), ms(0));
    assert_eq!(turn.remaining(ms(20)), Some(ms(480)));
    let open = turn.accept(
        &mut queues,
        IngestRequest::ClaimBatch {
            queue_name: "email".into(),
            limit: 1,
            ticket: 2,
        },
    );
    assert!(!open);
    table.enqueue_batch(turn.pending.into_iter().map(|p| p.job).collect());
    match queues.next_turn() {
        IngestTurn::Single(request) => match table.handle(request, 30) {
            IngestReply::Claimed(Ok(claimed)) => assert_eq!(claimed.len(), 1),
            _ => panic!("the job is there to be claimed"),
        },
        _ => panic!("the claim is next"),
    }
}

#[test]
fn claim_flushes_after_fair_ingest_budget() {
    let mut table = IngestTable::new();
    table.upsert_queue(JobQueue::new_at("email", 1), 1).unwrap();
    let mut queues = IngestQueues::new();
    let job = |n: u8| IngestRequest::Enqueue {
        job: AcceptedJob::new_at("email", vec![n], 1),
        ticket: n as u64,
    };
    queues.push(job(1));
    let mut turn = EnqueueTurn::open(&mut queues, 64, ms(500), ms(0));
    let open = turn.accept(
        &mut queues,
        IngestRequest::ClaimBatch {
            queue_name: "email".into(),
            limit: 1,
            ticket: 9,
        },
    );
    assert!(!open);
    for n in 2..=5 {
        queues.push(job(n));
    }
    table.enqueue_batch(turn.pending.into_iter().map(|p| p.job).collect());
    let claim = match queues.next_turn() {
        IngestTurn::Single(request) => request,
        _ => panic!("the claim comes before the follow-ups"),
    };
    assert!(matches!(table.handle(claim, 2), IngestReply::Claimed(Ok(jobs)) if jobs.len() == 1));
    assert!(matches!(queues.next_turn(), IngestTurn::Ingest));
    let turn = EnqueueTurn::open(&mut queues, 64, ms(500), ms(0));
    assert_eq!(turn.pending.len(), 4);
}

#[test]
fn completion_batches_fill_under_mixed_ingest() {
    let mut table = results();
    let started = (1..=8).map(|id| insert(id, &format!("d{id}"))).collect();
    table.dispatch_batch(&started, 2).unwrap();
    let mut queues = ResultsQueues::new();
    for id in 1..=8 {
        push_completion(&mut queues, id, &format!("d{id}"));
    }
    let turn = CompletionTurn::open(&mut queues, 8, ms(30), ms(0));
    assert_eq!(turn.pending.len(), 8);
    assert_eq!(turn.reason(), FlushReason::FullBatch);
    assert_eq!(turn.remaining(ms(0)), None);
    let batch = turn.pending.into_iter().map(|p| p.completion).collect();
    assert!(table
        .complete_batch(&batch, 3)
        .into_iter()
        .all(|d| d == CompletionDisposition::Completed));
}

/// A store with one queue and `jobs` jobs, all of them claimed.
fn claimed_jobs(jobs: u8) -> (SplitStore, Vec<Completion>) {
    let mut store = SplitStore::new();
    store.upsert_queue(JobQueue::new_at("email", 1), 1).unwrap();
    for n in 0..jobs {
        store
            .enqueue(AcceptedJob::new_at("email", vec![n], 1))
            .unwrap();
    }
    let reports = store
        .claim_batch("email", jobs as usize, 2)
        .unwrap()
        .into_iter()
        .map(|job| completion(job.id, &job.dispatch_id.unwrap()))
        .collect();
    (store, reports)
}

fn enqueue_request(n: u8) -> IngestRequest {
    IngestRequest::Enqueue {
        job: AcceptedJob::new_at("email", vec![n], 1),
        ticket: n as u64,
    }
}

/// Stores one batch of up to `size` jobs, and says how many were accepted.
fn enqueue_turn(store: &mut SplitStore, queues: &mut IngestQueues, size: usize) -> usize {
    assert!(matches!(queues.next_turn(), IngestTurn::Ingest));
    let turn = EnqueueTurn::open(queues, size, ms(20), ms(0));
    let batch = turn.pending.into_iter().map(|p| p.job).collect();
    let replies = store.ingest.enqueue_batch(batch);
    replies.into_iter().filter(|reply| reply.is_ok()).count()
}

/// Records one batch of up to `size` reports.
fn report_turn(store: &mut SplitStore, queues: &mut ResultsQueues, size: usize) {
    let turn = CompletionTurn::open(queues, size, ms(50), ms(0));
    assert_eq!(turn.reason(), FlushReason::FullBatch);
    let batch = turn.pending.into_iter().map(|p| p.completion).collect();
    for disposition in store.results.complete_batch(&batch, 3) {
        assert_eq!(disposition, CompletionDisposition::Completed);
    }
}

fn results_queues(reports: Vec<Completion>) -> ResultsQueues {
    let mut queues = ResultsQueues::new();
    for (ticket, completion) in reports.into_iter().enumerate() {
        let ticket = ticket as u64;
        queues.push(ResultsRequest::Complete { completion, ticket }, ms(0));
    }
    queues
}

#[test]
fn enqueue_is_not_starved_while_a_completion_batch_is_open() {
    let (mut store, reports) = claimed_jobs(1);
    let first = reports[0].job_id;
    let mut queues = results_queues(reports);
    let turn = CompletionTurn::open(&mut queues, 64, ms(40), ms(0));
    assert_eq!(turn.remaining(ms(10)), Some(ms(30)));

    let enqueued = store
        .enqueue(AcceptedJob::new_at("email", vec![2], 1))
        .unwrap();
    assert_ne!(enqueued.id, first);

    assert_eq!(turn.remaining(ms(40)), None);
    let batch = turn.pending.into_iter().map(|p| p.completion).collect();
    store.results.complete_batch(&batch, 3);
    assert_eq!(
        store.get_job(first).unwrap().status,
        ExecutionStatus::Completed
    );
}

#[test]
fn completes_progress_under_continuous_ingest() {
    let (mut store, reports) = claimed_jobs(4);
    let ids: Vec<i64> = reports.iter().map(|report| report.job_id).collect();
    let mut ingest = IngestQueues::new();
    for n in 0..64 {
        ingest.push(enqueue_request(n));
    }
    assert_eq!(enqueue_turn(&mut store, &mut ingest, 8), 8);
    report_turn(&mut store, &mut results_queues(reports), 4);
    for id in ids {
        assert_eq!(store.get_job(id).unwrap().status, ExecutionStatus::Completed);
    }
    assert_eq!(ingest.ingest.len(), 56);
    while !ingest.is_empty() {
        assert_eq!(enqueue_turn(&mut store, &mut ingest, 8), 8);
    }
}

#[test]
fn ingest_progresses_under_mixed_complete_traffic() {
    let (mut store, reports) = claimed_jobs(8);
    let mut results = results_queues(reports);
    let mut ingest = IngestQueues::new();
    for n in 0..24 {
        ingest.push(enqueue_request(n));
    }
    let mut accepted = 0;
    while !ingest.is_empty() || !results.is_empty() {
        if !ingest.is_empty() {
            accepted += enqueue_turn(&mut store, &mut ingest, 4);
        }
        if !results.is_empty() {
            report_turn(&mut store, &mut results, 4);
        }
    }
    assert_eq!(accepted, 24);
}

#[test]
fn read_pool_serves_queries_while_an_enqueue_batch_is_open() {
    let mut store = SplitStore::new();
    store.upsert_queue(JobQueue::new_at("email", 1), 1).unwrap();
    let mut queues = IngestQueues::new();
    queues.push(enqueue_request(0));
    let turn = EnqueueTurn::open(&mut queues, 2, ms(150), ms(0));
    assert_eq!(turn.remaining(ms(20)), Some(ms(130)));
    assert_eq!(
        store
            .list_queues()
            .iter()
            .map(|queue| queue.name.as_str())
            .collect::<Vec<_>>(),
        ["email"]
    );
    let batch = turn.pending.into_iter().map(|p| p.job).collect();
    assert!(store.ingest.enqueue_batch(batch)[0].is_ok());
}

#[test]
fn full_batches_end_a_turn() {
    let mut queues = ResultsQueues::new();
    push_completion(&mut queues, 1, "a");
    let mut turn = CompletionTurn::open(&mut queues, 2, ms(10), ms(0));
    turn.accept(
        &mut queues,
        ResultsRequest::Complete {
            completion: completion(2, "b"),
            ticket: 2,
        },
        ms(3),
    );
    assert!(turn.remaining(ms(3)).is_none());
    assert_eq!(turn.reason(), FlushReason::FullBatch);
    assert_eq!(turn.pending.len(), 2);
}

#[test]
fn what_is_left_is_handed_back() {
    let mut queues = ResultsQueues::new();
    push_completion(&mut queues, 1, "a");
    push_dispatch(&mut queues, 2, "b");
    queues.push(ResultsRequest::RecoverStale { now: 1, ticket: 3 }, ms(5));
    assert_eq!(queues.dispatch_rows(), 1);
    assert_eq!(queues.dispatch_oldest(), Some(ms(0)));
    assert_eq!(queues.completion_oldest(), Some(ms(0)));
    assert!(!queues.is_empty());
    let left = queues.drain();
    assert_eq!((left.complete.len(), left.dispatch.len(), left.meta.len()), (1, 1, 1));
    assert!(queues.is_empty());

    let mut queues = IngestQueues::new();
    queues.push(IngestRequest::CleanupExpiredRecords { cutoff: 1, ticket: 1 });
    assert!(!queues.is_empty());
    assert!(matches!(queues.next_turn(), IngestTurn::Single(_)));
    assert!(matches!(queues.next_turn(), IngestTurn::Idle));
}

#[test]
fn results_requests_are_answered() {
    let mut table = results();
    let reply = table.handle(
        ResultsRequest::Dispatch {
            rows: vec![insert(1, "d")],
            ticket: 1,
        },
        2,
    );
    assert!(matches!(reply, ResultsReply::Dispatched(Ok(started)) if started[0].execution_count == 1));
    let reply = table.handle(
        ResultsRequest::Complete {
            completion: completion(1, "other"),
            ticket: 2,
        },
        3,
    );
    assert!(matches!(
        reply,
        ResultsReply::Completed(CompletionDisposition::Ignored)
    ));
    let reply = table.handle(ResultsRequest::RecoverStale { now: 60_001, ticket: 3 }, 4);
    assert!(matches!(reply, ResultsReply::Recovered(stale) if stale[0].should_repend));
}

#[test]
fn statements_take_many_rows() {
    assert_eq!(values_placeholders(2, 3), "(?1, ?2, ?3), (?4, ?5, ?6)");
    let columns = vec!["id".to_string(), "name".to_string()];
    assert_eq!(
        insert_sql("jobs", &columns, 2),
        "INSERT INTO jobs (id, name) VALUES (?1, ?2), (?3, ?4)"
    );
    assert_eq!(
        update_from_values_sql("jobs", "v", "name = v.name", &columns, 1, "jobs.id = v.id", Some("id")),
        "WITH v(id, name) AS (VALUES (?1, ?2)) UPDATE jobs SET name = v.name FROM v WHERE jobs.id = v.id RETURNING id"
    );
    assert_eq!(
        upsert_sql("jobs", &columns, 1, "id", "name = excluded.name", Some("name <> ''"), None),
        "INSERT INTO jobs (id, name) VALUES (?1, ?2) ON CONFLICT(id) DO UPDATE SET name = excluded.name WHERE name <> ''"
    );
}

#[test]
fn results_lie_next_to_the_jobs() {
    assert_eq!(
        default_results_path("./data/maqistor-ingest.db"),
        "./data/maqistor-results.db"
    );
    assert_eq!(default_results_path("jobs.db"), "jobs-results.db");
}

#[test]
fn schemas_of_other_versions_are_refused() {
    assert!(needs_schema(None).unwrap());
    assert!(!needs_schema(Some(1)).unwrap());
    assert!(needs_schema(Some(7)).unwrap_err().to_text().contains("version 7; expected 1"));
}

#[test]
fn columns_are_checked() {
    let queue = |retries, timeout| RawQueue {
        name: "email".into(),
        max_retries: retries,
        timeout_secs: timeout,
        created_at: 1,
        updated_at: 2,
    };
    assert_eq!(row_to_queue_at(queue(1, 2), 0).unwrap().timeout_secs, 2);
    assert!(row_to_queue_at(queue(-1, 2), 3).unwrap_err().to_text().contains("index: 4"));
    assert!(row_to_queue_at(queue(1, -2), 3).unwrap_err().to_text().contains("index: 5"));
    let execution = |status: &str, count| RawExecution {
        id: 1,
        job_id: 2,
        queue_name: "email".into(),
        status: status.into(),
        execution_count: count,
        lease_expires_at: None,
        dispatch_id: "d".into(),
        result_payload: None,
        result_error: None,
        created_at: 1,
        updated_at: 2,
    };
    assert_eq!(
        row_to_execution_at(execution("failed", 4), 0).unwrap().status,
        ExecutionStatus::Failed
    );
    assert!(row_to_execution_at(execution("odd", 4), 0)
        .unwrap_err()
        .to_text()
        .contains("unknown execution status: odd"));
    assert!(row_to_execution_at(execution("failed", -4), 0)
        .unwrap_err()
        .to_text()
        .contains("index: 4"));
    assert!(row_to_execution_with_queue_config(execution("failed", 1), queue(-1, 1))
        .unwrap_err()
        .to_text()
        .contains("index: 12"));
}
