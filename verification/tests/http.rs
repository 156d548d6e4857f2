use maqistor::api::{
    get_job, submit_job, to_response, ApiError, ErrorBody, JobRequest, JobResponse, Reply,
};
use maqistor::client::{judge_health, judge_job, BaseUrl, HttpError, Question};
use maqistor::engine::types::{AcceptedJob, ExecutionStatus, JobQueue, StoreError};
use maqistor::engine::{accept_encoded, EngineError, JobView, SubmitJob};
use maqistor::persistence::store::SplitStore;

#[test]
fn http_submission_is_persisted_through_engine() {
    let mut store = SplitStore::new();
    store.upsert_queue(JobQueue::new("email"), 1).unwrap();
    let request = JobRequest {
        name: "email".into(),
        payload: r#"{"to":"a@example.test"}"#.into(),
    };
    let accepted = request.into_submission().accept_at(5).unwrap();
    let stored = store.enqueue(accepted).unwrap();
    let reply = submit_job(Ok(JobView::of_accepted(&stored)));
    match reply {
        Reply::Job { status, body } => {
            assert_eq!(status, 201);
            assert_eq!(body.id, 1);
            assert_eq!(body.status, "pending");
        }
        Reply::Error { .. } => panic!("the job was accepted"),
    }
    assert_eq!(store.ingest.jobs.len(), 1);
    assert_eq!(
        store.get_job(1).unwrap().payload,
        br#"{"to":"a@example.test"}"#.to_vec()
    );
}

#[test]
fn payloads_are_encoded_compactly() {
    let submission = SubmitJob {
        name: "email".into(),
        payload: " { \"to\" : [ 1, true, null ] } ".into(),
    };
    let job = submission.accept_at(3).unwrap();
    assert_eq!(job.payload, br#"{"to":[1,true,null]}"#.to_vec());
    assert_eq!(job.queue_name, "email");
    assert_eq!(job.created_at, 3);

    let broken = SubmitJob {
        name: "email".into(),
        payload: "{".into(),
    };
    assert!(matches!(broken.accept_at(3), Err(EngineError::Payload(_))));
    assert_eq!(
        accept_encoded("email", Err("odd".into()), 3).unwrap_err(),
        EngineError::Payload("odd".into())
    );
    let job: AcceptedJob = accept_encoded("email", Ok(vec![1]), 3).unwrap();
    assert_eq!(job.payload, vec![1]);
}

#[test]
fn enqueue_and_get_job_round_trip() {
    let base = BaseUrl::new("http://127.0.0.1:80");
    assert_eq!(base.health_url(), "http://127.0.0.1:80/health");
    judge_health(204, Err("no body".into())).unwrap();

    let view = JobView {
        id: 1,
        name: "email".into(),
        status: ExecutionStatus::Pending,
    };
    let (status, body) = match submit_job(Ok(view.clone())) {
        Reply::Job { status, body } => (status, body),
        Reply::Error { .. } => panic!("created"),
    };
    let created = judge_job(Question::Enqueue, status, Ok(body), Err("x".into())).unwrap();
    assert_eq!(created.id, 1);
    assert_eq!(created.name, "email");

    let (status, body) = match get_job(Ok(view)) {
        Reply::Job { status, body } => (status, body),
        Reply::Error { .. } => panic!("found"),
    };
    let fetched = judge_job(Question::GetJob, status, Ok(body), Err("x".into())).unwrap();
    assert_eq!(fetched, created);
}

#[test]
fn get_job_maps_api_errors() {
    let (status, body) = match get_job(Err(EngineError::JobNotFound(99))) {
        Reply::Error { status, body } => (status, body),
        Reply::Job { .. } => panic!("there is no such job"),
    };
    let error = judge_job(Question::GetJob, status, Err("x".into()), Ok(body)).unwrap_err();
    match error {
        HttpError::Api { status, message } => {
            assert_eq!(status, 404);
            assert!(message.contains("99"));
        }
        HttpError::Transport(message) => panic!("unexpected error: {message}"),
    }
}

#[test]
fn errors_have_statuses() {
    let told = |error: EngineError| {
        let told = ApiError::of(&error);
        (told.status, told.into_body().error)
    };
    assert_eq!(
        told(EngineError::UnknownQueue("email".into())),
        (400, "unknown job queue: email".into())
    );
    assert_eq!(
        told(EngineError::Payload("odd".into())),
        (400, "failed to serialize payload: odd".into())
    );
    assert_eq!(
        told(EngineError::JobNotFound(-3)),
        (404, "job not found: -3".into())
    );
    assert_eq!(
        told(EngineError::from(StoreError::Internal("disk".into()))),
        (500, "engine storage is unavailable".into())
    );
    assert_eq!(
        told(EngineError::from(StoreError::NotFound(4))),
        (404, "job not found: 4".into())
    );
    assert_eq!(
        told(EngineError::from(StoreError::QueueNotFound("q".into()))),
        (400, "unknown job queue: q".into())
    );
}

#[test]
fn responses_spell_the_status() {
    let response = to_response(JobView {
        id: 4,
        name: "email".into(),
        status: ExecutionStatus::Completed,
    });
    assert_eq!(
        response,
        JobResponse {
            id: 4,
            name: "email".into(),
            status: "completed".into()
        }
    );
}

#[test]
fn base_urls_lose_their_slashes() {
    let base = BaseUrl::new("http://host:1///");
    assert_eq!(base.url("/x"), "http://host:1/x");
    assert_eq!(base.jobs_url(), "http://host:1/jobs");
    assert_eq!(base.job_url(-7), "http://host:1/jobs/-7");
}

#[test]
fn refusals_carry_what_can_be_read() {
    let error = judge_health(503, Ok(ErrorBody { error: "down".into() })).unwrap_err();
    assert_eq!(error.to_text(), "maqistor http 503: down");
    let error = judge_job(Question::Enqueue, 200, Err("y".into()), Err("z".into())).unwrap_err();
    assert_eq!(error.to_text(), "maqistor http 200: z");
    let error = judge_job(Question::Enqueue, 201, Err("cut".into()), Err("z".into())).unwrap_err();
    assert_eq!(error, HttpError::Transport("cut".into()));
    assert_eq!(error.to_text(), "cut");
}
