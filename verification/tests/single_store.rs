use maqistor::single::config::{AppConfig, JobConfig, PersistenceConfig};
use maqistor::single::options::{
    adapt_live_wait, clamp_wait_ms, FlushReason, SqliteWriteOptions,
};
use maqistor::single::store::JobTable;
use maqistor::single::writer::{
    DbReply, DbRequest, Ticketed, Writer, WriterInput, WriterWait,
};
use maqistor::single::{
    job_to_row, needs_schema, row_to_job, row_to_job_given, row_to_queue, seconds_of, unix_now, Job,
    JobQueue, JobStatus, RawJob, RawQueue, StoreError,
};
use maqistor::span::Span;

fn table_with(name: &str) -> JobTable {
    let mut table = JobTable::new();
    table.upsert_queue(JobQueue::new_at(name, 1), 1);
    table
}

fn enqueue(table: &mut JobTable, job: Job) -> Result<Job, StoreError> {
    table.enqueue_batch(vec![job]).pop().unwrap()
}

#[test]
fn sqlite_persists_queues_and_jobs_across_reopen() {
    let mut table = table_with("email");
    let job = enqueue(&mut table, Job::new_pending("email", b"payload".to_vec())).unwrap();

    let jobs = table
        .jobs
        .iter()
        .map(|job| row_to_job(job_to_row(job)).unwrap())
        .collect();
    let table = JobTable::from_rows(table.list_queues(), jobs).unwrap();
    let queues = table.list_queues();
    assert_eq!(queues.len(), 1);
    assert_eq!(queues[0].name, "email");

    let read = table.get_job(job.id).unwrap();
    assert_eq!(read.status, JobStatus::Pending);
    assert_eq!(read.payload, b"payload");
}

#[test]
fn sqlite_claim_and_recover_stale_lease() {
    let mut table = table_with("email");
    let job = enqueue(&mut table, Job::new_pending("email", vec![])).unwrap();

    let claimed = table.claim_next("email", 30, 100).unwrap().unwrap();
    assert_eq!(claimed.id, job.id);
    assert_eq!(claimed.status, JobStatus::Running);
    assert_eq!(claimed.lease_expires_at, Some(130));

    assert!(table.recover_stale_leases(130).is_empty());
    let recovered = table.recover_stale_leases(claimed.lease_expires_at.unwrap() + 1);
    assert_eq!(recovered.len(), 1);
    assert_eq!(recovered[0].status, JobStatus::Pending);
    assert_eq!(recovered[0].attempt, 1);
    assert_eq!(recovered[0].lease_expires_at, None);
}

#[test]
fn sqlite_enqueue_rejects_unknown_queue() {
    let mut table = JobTable::new();
    let error = enqueue(&mut table, Job::new_pending("missing", vec![])).unwrap_err();
    assert!(matches!(error, StoreError::QueueNotFound(name) if name == "missing"));
}

#[test]
fn sqlite_concurrent_enqueues_are_durable_after_await() {
    let mut table = table_with("email");
    let mut writer = Writer::new(SqliteWriteOptions::fixed(32, Span::from_millis(20)));
    let mut ids = Vec::new();
    let mut written = 0;
    for i in 0..50u64 {
        let job = Job::new_pending("email", format!("p{i}").into_bytes());
        ids.push(job.id);
        let step = writer.step(
            WriterInput::Request(Ticketed {
                ticket: i,
                request: DbRequest::Enqueue { job },
            }),
            Span::from_millis(i),
        );
        written += step.flush.len();
        table.enqueue_batch(step.flush.into_iter().map(|p| p.job).collect());
    }
    assert_eq!(written, 32);
    let step = writer.step(WriterInput::Closed, Span::from_millis(60));
    written += step.flush.len();
    table.enqueue_batch(step.flush.into_iter().map(|p| p.job).collect());
    assert_eq!(written, 50);
    assert!(matches!(
        writer.next_wait(Span::from_millis(60)),
        WriterWait::Stop
    ));

    for id in ids {
        let job = table.get_job(id).unwrap();
        assert_eq!(job.status, JobStatus::Pending);
        assert_eq!(job.name, "email");
    }
}

#[test]
fn sqlite_mixed_unknown_queue_does_not_block_valid_enqueues() {
    let mut table = table_with("email");
    let ok = Job::new_pending("email", b"ok".to_vec());
    let id = ok.id;
    let mut results =
        table.enqueue_batch(vec![ok, Job::new_pending("missing", b"no".to_vec())]);
    let bad = results.pop().unwrap().unwrap_err();
    assert!(matches!(bad, StoreError::QueueNotFound(_)));
    assert!(results.pop().unwrap().is_ok());
    assert_eq!(table.get_job(id).unwrap().payload, b"ok");
}

#[test]
fn adaptive_wait_moves_toward_min_when_full_and_max_when_sparse() {
    let min = Span::from_millis(1);
    let max = Span::from_millis(100);
    let live = Span::from_millis(40);

    let after_full = adapt_live_wait(live, min, max, 32, 32, FlushReason::FullBatch);
    assert!(after_full < live);
    assert!(after_full >= min);

    let after_sparse = adapt_live_wait(live, min, max, 32, 2, FlushReason::Timeout);
    assert!(after_sparse > live);
    assert!(after_sparse <= max);

    let at_min = adapt_live_wait(min, min, max, 32, 32, FlushReason::FullBatch);
    assert_eq!(at_min, min);

    let at_max = adapt_live_wait(max, min, max, 32, 1, FlushReason::Timeout);
    assert_eq!(at_max, max);
}

#[test]
fn waits_follow_their_formulas() {
    let min = Span::from_millis(1);
    let max = Span::from_millis(100);
    let live = Span::from_millis(40);
    assert_eq!(
        adapt_live_wait(live, min, max, 10, 10, FlushReason::FullBatch),
        Span::from_millis(20)
    );
    assert_eq!(
        adapt_live_wait(live, min, max, 10, 7, FlushReason::Timeout),
        Span::from_millis(32)
    );
    assert_eq!(
        adapt_live_wait(live, min, max, 10, 6, FlushReason::Timeout),
        Span::from_millis(61)
    );
    assert_eq!(
        adapt_live_wait(live, min, max, 10, 6, FlushReason::Interrupted),
        live
    );
    assert_eq!(clamp_wait_ms(500, min, max), max);
    assert_eq!(clamp_wait_ms(0, min, max), min);
}

#[test]
fn options_are_brought_into_range() {
    let fixed = SqliteWriteOptions::fixed(0, Span::from_millis(3));
    assert_eq!(fixed.batch_size, 1);
    assert_eq!(fixed.initial_live_wait(), Span::from_millis(3));
    let adaptive =
        SqliteWriteOptions::adaptive(8, Span::from_millis(5), Span::from_millis(2));
    assert_eq!(adaptive.batch_wait_max, Span::from_millis(5));
    assert_eq!(adaptive.initial_live_wait(), Span::from_millis(5));
    let standard = SqliteWriteOptions::default();
    assert_eq!(standard.batch_size, 64);
    assert_eq!(standard.initial_live_wait(), Span::from_millis(5));
}

#[test]
fn oldest_job_is_claimed_first() {
    let mut table = table_with("email");
    for (id, created_at) in [(1u128, 20), (2, 10), (3, 10)] {
        let job = Job::pending_at(id, "email", vec![], created_at);
        enqueue(&mut table, job).unwrap();
    }
    let mut order = Vec::new();
    while let Some(job) = table.claim_next("email", 1, 50).unwrap() {
        order.push(job.id);
    }
    assert_eq!(order, vec![2, 3, 1]);
    assert_eq!(
        table.claim_next("missing", 1, 50),
        Err(StoreError::QueueNotFound("missing".into()))
    );
}

#[test]
fn an_identifier_is_used_once() {
    let mut table = table_with("email");
    enqueue(&mut table, Job::pending_at(7, "email", vec![1], 1)).unwrap();
    let results = table.enqueue_batch(vec![
        Job::pending_at(8, "email", vec![], 1),
        Job::pending_at(7, "email", vec![2], 1),
        Job::pending_at(9, "missing", vec![], 1),
    ]);
    let clash = StoreError::Internal("UNIQUE constraint failed: jobs.id".into());
    assert_eq!(results[0].as_ref().unwrap_err(), &clash);
    assert_eq!(results[1].as_ref().unwrap_err(), &clash);
    assert_eq!(
        results[2].as_ref().unwrap_err(),
        &StoreError::QueueNotFound("missing".into())
    );
    assert_eq!(table.jobs.len(), 1);
    assert_eq!(table.get_job(7).unwrap().payload, vec![1]);
}

#[test]
fn single_store_errors_read_as_text() {
    let id = 0x0123_4567_89ab_cdef_0123_4567_89ab_cdefu128;
    assert_eq!(
        StoreError::NotFound(id).to_text(),
        "job not found: 01234567-89ab-cdef-0123-456789abcdef"
    );
    assert_eq!(
        StoreError::QueueNotFound("email".into()).to_text(),
        "queue not found: email"
    );
    assert_eq!(
        StoreError::Internal("full".into()).to_text(),
        "internal store error: full"
    );
    assert_eq!(StoreError::NotFound(1).status_code(), 404);
    assert_eq!(StoreError::QueueNotFound("q".into()).status_code(), 400);
    assert_eq!(StoreError::Internal("x".into()).status_code(), 500);
}

fn raw() -> RawJob {
    RawJob {
        id: "01234567-89ab-cdef-0123-456789abcdef".into(),
        queue_name: "email".into(),
        status: "running".into(),
        payload: vec![1],
        attempt: 2,
        lease_expires_at: Some(9),
        created_at: 3,
        updated_at: 4,
    }
}

#[test]
fn rows_are_read_and_checked() {
    let job = row_to_job(raw()).unwrap();
    assert_eq!(job.id, 0x0123_4567_89ab_cdef_0123_4567_89ab_cdefu128);
    assert_eq!(job.status, JobStatus::Running);
    assert_eq!(job.attempt, 2);

    let row = job_to_row(&job);
    assert_eq!(row.id, "01234567-89ab-cdef-0123-456789abcdef");
    assert_eq!(row.status, "running");

    let mut odd = raw();
    odd.id = "nonsense".into();
    assert!(matches!(row_to_job(odd), Err(StoreError::Internal(_))));

    let mut odd = raw();
    odd.status = "lost".into();
    assert_eq!(
        row_to_job(odd).unwrap_err(),
        StoreError::Internal(
            "Conversion error from type Text at index: 2, unknown job status: lost".into()
        )
    );

    let mut odd = raw();
    odd.attempt = -1;
    assert_eq!(
        row_to_job(odd).unwrap_err(),
        StoreError::Internal(
            "Conversion error from type Integer at index: 4, out of range integral type conversion attempted"
                .into()
        )
    );
    assert_eq!(
        row_to_job_given(raw(), Err("no id".into())).unwrap_err(),
        StoreError::Internal("Conversion error from type Text at index: 0, no id".into())
    );
}

#[test]
fn queue_rows_are_read_and_checked() {
    let row = |concurrency, max_retries| RawQueue {
        name: "email".into(),
        concurrency,
        max_retries,
        created_at: 1,
        updated_at: 2,
    };
    assert_eq!(row_to_queue(row(2, 5)).unwrap().concurrency, 2);
    assert!(row_to_queue(row(-1, 5)).unwrap_err().to_text().contains("index: 1"));
    assert!(row_to_queue(row(1, 1 << 40)).unwrap_err().to_text().contains("index: 2"));
    assert!(needs_schema(None));
    assert!(needs_schema(Some(0)));
    assert!(!needs_schema(Some(1)));
}

#[test]
fn job_status_spellings_round_trip() {
    for status in [
        JobStatus::Pending,
        JobStatus::Running,
        JobStatus::Completed,
        JobStatus::Failed,
    ] {
        assert_eq!(JobStatus::parse(status.as_str()), Some(status));
        assert_eq!(status.to_text(), status.as_str());
    }
    assert_eq!(JobStatus::parse("Pending"), None);
}

#[test]
fn pending_jobs_start_with_random_identifiers() {
    assert_eq!(seconds_of(Some(1_700_000_000_999)), 1_700_000_000);
    assert_eq!(seconds_of(None), 0);
    let now = unix_now();
    assert!(now > 1_600_000_000 && now < 100_000_000_000);
    let a = Job::new_pending("email", vec![]);
    let b = Job::new_pending("email", vec![]);
    assert_ne!(a.id, b.id);
    assert_eq!(a.id >> 76 & 0xf, 4);
    assert_eq!(a.id >> 62 & 0x3, 2);
    assert_eq!(a.attempt, 0);
    assert_eq!(a.created_at, a.updated_at);
    let queue = JobQueue::new("email");
    assert_eq!(queue.concurrency, 1);
    assert_eq!(queue.max_retries, 3);
}

#[test]
fn requests_are_seen_to_in_the_order_in_which_they_came() {
    let mut writer = Writer::new(SqliteWriteOptions::fixed(3, Span::from_millis(5)));
    let enqueue = |ticket: u64| {
        WriterInput::Request(Ticketed {
            ticket,
            request: DbRequest::Enqueue {
                job: Job::pending_at(ticket as u128, "email", vec![], 1),
            },
        })
    };
    let list = |ticket: u64| {
        WriterInput::Request(Ticketed {
            ticket,
            request: DbRequest::ListQueues,
        })
    };
    let inputs = vec![
        list(0),
        enqueue(1),
        enqueue(2),
        list(3),
        enqueue(4),
        WriterInput::Empty,
        WriterInput::TimedOut,
        enqueue(5),
        enqueue(6),
        enqueue(7),
        enqueue(8),
        WriterInput::Closed,
    ];
    let mut seen = Vec::new();
    for (at, input) in inputs.into_iter().enumerate() {
        let step = writer.step(input, Span::from_millis(at as u64));
        seen.extend(step.flush.iter().map(|job| job.ticket));
        seen.extend(step.request.iter().map(|request| request.ticket));
    }
    assert_eq!(seen, vec![0, 1, 2, 3, 4, 5, 6, 7, 8]);
}

#[test]
fn other_requests_wait_for_the_jobs_before_them() {
    let mut writer = Writer::new(SqliteWriteOptions::adaptive(
        8,
        Span::from_millis(10),
        Span::from_millis(100),
    ));
    assert!(matches!(
        writer.next_wait(Span::from_millis(0)),
        WriterWait::Receive
    ));
    let step = writer.step(
        WriterInput::Request(Ticketed {
            ticket: 1,
            request: DbRequest::Enqueue {
                job: Job::pending_at(1, "email", vec![], 1),
            },
        }),
        Span::from_millis(0),
    );
    assert!(step.flush.is_empty());
    assert!(matches!(
        writer.next_wait(Span::from_millis(0)),
        WriterWait::TryReceive
    ));
    writer.step(WriterInput::Empty, Span::from_millis(0));
    assert_eq!(
        writer.next_wait(Span::from_millis(4)),
        WriterWait::ReceiveFor(Span::from_millis(6))
    );
    let step = writer.step(
        WriterInput::Request(Ticketed {
            ticket: 2,
            request: DbRequest::GetJob { job_id: 1 },
        }),
        Span::from_millis(5),
    );
    assert_eq!(step.flush.len(), 1);
    assert_eq!(step.request.unwrap().ticket, 2);
    assert_eq!(writer.live_wait, Span::from_millis(10));

    writer.step(
        WriterInput::Request(Ticketed {
            ticket: 3,
            request: DbRequest::Enqueue {
                job: Job::pending_at(2, "email", vec![], 1),
            },
        }),
        Span::from_millis(6),
    );
    let step = writer.step(WriterInput::TimedOut, Span::from_millis(16));
    assert_eq!(step.flush.len(), 1);
    assert_eq!(writer.live_wait, Span::from_millis(16));
}

#[test]
fn requests_are_answered() {
    let mut table = JobTable::new();
    let reply = table.handle(
        DbRequest::UpsertQueue {
            queue: JobQueue::new_at("email", 1),
        },
        5,
    );
    assert!(matches!(reply, DbReply::Queue(queue) if queue.updated_at == 5));
    assert!(matches!(
        table.handle(DbRequest::GetQueue { name: "email".into() }, 5),
        DbReply::FoundQueue(Some(_))
    ));
    assert!(matches!(
        table.handle(DbRequest::ListQueues, 5),
        DbReply::Queues(queues) if queues.len() == 1
    ));
    let job = Job::pending_at(3, "email", vec![9], 1);
    assert!(matches!(
        table.handle(DbRequest::Enqueue { job }, 5),
        DbReply::Job(Ok(job)) if job.id == 3
    ));
    assert!(matches!(
        table.handle(DbRequest::Status { job_id: 3 }, 5),
        DbReply::Status(Ok(JobStatus::Pending))
    ));
    assert!(matches!(
        table.handle(
            DbRequest::ClaimNext {
                queue_name: "email".into(),
                lease_duration_secs: 10
            },
            6
        ),
        DbReply::Claimed(Ok(Some(job))) if job.lease_expires_at == Some(16)
    ));
    assert!(matches!(
        table.handle(DbRequest::RecoverStaleLeases { now: 17 }, 6),
        DbReply::Recovered(jobs) if jobs.len() == 1
    ));
    assert!(matches!(
        table.handle(DbRequest::GetJob { job_id: 4 }, 6),
        DbReply::Job(Err(StoreError::NotFound(4)))
    ));
}

#[test]
fn queues_keep_the_time_they_were_first_configured() {
    let mut table = JobTable::new();
    for name in ["b", "a", "c"] {
        table.upsert_queue(JobQueue::new_at(name, 1), 2);
    }
    let mut again = JobQueue::new_at("b", 7);
    again.concurrency = 4;
    let kept = table.upsert_queue(again, 8);
    assert_eq!((kept.created_at, kept.updated_at, kept.concurrency), (1, 8, 4));
    let names: Vec<String> = table.list_queues().into_iter().map(|q| q.name).collect();
    assert_eq!(names, vec!["a", "b", "c"]);
    assert!(JobTable::from_rows(vec![], vec![Job::pending_at(1, "email", vec![], 1)]).is_none());
}

#[test]
fn single_configuration_has_defaults() {
    let config = AppConfig {
        listen: None,
        database_path: None,
        persistence: PersistenceConfig::default(),
        jobs: vec![],
    };
    assert_eq!(config.listen(), "0.0.0.0:8080");
    assert_eq!(config.database_path(), "./data/maqistor.db");
    let options = config.persistence.write_options();
    assert_eq!(options.batch_size, 64);
    assert_eq!(options.batch_size_min, 64);
    assert_eq!(options.batch_size_max, 64);
    assert_eq!(options.batch_size_increase, 2);
    assert_eq!(options.batch_wait, Span::from_millis(5));
    let queue = JobConfig {
        name: "email".into(),
        concurrency: 2,
        max_retries: 9,
    }
    .job_queue(4);
    assert_eq!((queue.concurrency, queue.max_retries, queue.created_at), (2, 9, 4));
}

#[test]
fn single_configuration_adapts_within_ordered_ends() {
    let mut config = PersistenceConfig::default();
    config.batch_size = 0;
    config.adaptive_batch_size = true;
    config.batch_size_min = 0;
    config.batch_size_max = 0;
    config.batch_size_increase = 0;
    config.adaptive_batch_wait = true;
    config.batch_wait_min_ms = 9;
    config.batch_wait_max_ms = 4;
    let options = config.write_options();
    assert_eq!(options.batch_size, 1);
    assert_eq!((options.batch_size_min, options.batch_size_max), (1, 1));
    assert_eq!(options.batch_size_increase, 1);
    assert_eq!(options.batch_wait, Span::from_millis(9));
    assert_eq!(options.batch_wait_max, Span::from_millis(9));
}
