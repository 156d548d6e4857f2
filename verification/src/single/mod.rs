//! A store that keeps queues and jobs in one database.

pub mod config;
pub mod options;
pub mod store;
pub mod writer;

use crate::engine::types::{copy_bytes, millis_since_epoch, timestamp_of};
use crate::ids::{hyphenated, id_of, id_text, marked_random, random_id, read_id};
use crate::persistence::queues::out_of_range_text;
use crate::persistence::rows::{conversion_error_text, conversion_text};
use crate::text::{concat, reading, same_text};
use vstd::prelude::*;

verus! {

/// The timestamp in seconds for a reading of the clock in milliseconds since the
/// Unix epoch, or for a clock that is set before the epoch.
pub open spec fn seconds_at(reading: Option<u128>) -> i64 {
    match reading {
        Some(millis) => (millis / 1_000) as i64,
        None => 0,
    }
}

/// The timestamp in seconds for a reading of the clock. A clock that is set
/// before the epoch reads as the epoch itself.
pub fn seconds_of(reading: Option<u128>) -> (r: i64)
    ensures
        r == seconds_at(reading),
{
    match reading {
        Some(millis) => timestamp_of(millis / 1_000),
        None => 0,
    }
}

/// The current time in seconds since the Unix epoch.
pub fn unix_now() -> (r: i64)
    ensures
        exists|reading: Option<u128>| r == #[trigger] seconds_at(reading),
{
    let reading = millis_since_epoch();
    seconds_of(reading)
}

/// What has become of a job.
#[derive(Debug, Clone, Copy, PartialEq, Eq, Structural)]
pub enum JobStatus {
    Pending,
    Running,
    Completed,
    Failed,
}

/// The spelling of a status.
pub open spec fn status_text(status: JobStatus) -> Seq<char> {
    match status {
        JobStatus::Pending => "pending"@,
        JobStatus::Running => "running"@,
        JobStatus::Completed => "completed"@,
        JobStatus::Failed => "failed"@,
    }
}

/// The status that a text spells, if it spells one.
pub open spec fn parsed_status(text: Seq<char>) -> Option<JobStatus> {
    if text == "pending"@ {
        Some(JobStatus::Pending)
    } else if text == "running"@ {
        Some(JobStatus::Running)
    } else if text == "completed"@ {
        Some(JobStatus::Completed)
    } else if text == "failed"@ {
        Some(JobStatus::Failed)
    } else {
        None
    }
}

/// Every status is read back from its spelling.
pub proof fn status_spelling_round_trips(status: JobStatus)
    ensures
        parsed_status(status_text(status)) == Some(status),
{
    reveal_strlit("pending");
    reveal_strlit("running");
    reveal_strlit("completed");
    reveal_strlit("failed");
    assert("pending"@[0] == 'p');
    assert("running"@[0] == 'r');
    assert("completed"@[0] == 'c');
    assert("failed"@[0] == 'f');
}

impl JobStatus {
    pub fn as_str(self) -> (r: &'static str)
        ensures
            r@ == status_text(self),
    {
        match self {
            JobStatus::Pending => "pending",
            JobStatus::Running => "running",
            JobStatus::Completed => "completed",
            JobStatus::Failed => "failed",
        }
    }

    pub fn parse(value: &str) -> (r: Option<Self>)
        ensures
            r == parsed_status(value@),
    {
        if same_text(value, "pending") {
            Some(JobStatus::Pending)
        } else if same_text(value, "running") {
            Some(JobStatus::Running)
        } else if same_text(value, "completed") {
            Some(JobStatus::Completed)
        } else if same_text(value, "failed") {
            Some(JobStatus::Failed)
        } else {
            None
        }
    }

    pub fn to_text(self) -> (r: String)
        ensures
            r@ == status_text(self),
    {
        self.as_str().to_owned()
    }
}

/// A job, and how far it has come.
#[derive(Debug, PartialEq, Eq)]
pub struct Job {
    pub id: u128,
    pub name: String,
    pub status: JobStatus,
    pub payload: Vec<u8>,
    pub attempt: u32,
    pub lease_expires_at: Option<i64>,
    pub created_at: i64,
    pub updated_at: i64,
}

/// What a job holds.
#[verifier::ext_equal]
pub struct JobModel {
    pub id: u128,
    pub name: Seq<char>,
    pub status: JobStatus,
    pub payload: Seq<u8>,
    pub attempt: int,
    pub lease_expires_at: Option<i64>,
    pub created_at: int,
    pub updated_at: int,
}

impl View for Job {
    type V = JobModel;

    open spec fn view(&self) -> JobModel {
        JobModel {
            id: self.id,
            name: self.name@,
            status: self.status,
            payload: self.payload@,
            attempt: self.attempt as int,
            lease_expires_at: self.lease_expires_at,
            created_at: self.created_at as int,
            updated_at: self.updated_at as int,
        }
    }
}

impl Clone for Job {
    fn clone(&self) -> (r: Self)
        ensures
            r@ == self@,
    {
        Job {
            id: self.id,
            name: self.name.clone(),
            status: self.status,
            payload: copy_bytes(&self.payload),
            attempt: self.attempt,
            lease_expires_at: self.lease_expires_at,
            created_at: self.created_at,
            updated_at: self.updated_at,
        }
    }
}

/// A job that waits for its first attempt.
pub open spec fn fresh_job(id: u128, name: Seq<char>, payload: Seq<u8>, now: int) -> JobModel {
    JobModel {
        id,
        name,
        status: JobStatus::Pending,
        payload,
        attempt: 0,
        lease_expires_at: None,
        created_at: now,
        updated_at: now,
    }
}

impl Job {
    /// A job that waits for its first attempt from `now` on.
    pub fn pending_at(id: u128, name: &str, payload: Vec<u8>, now: i64) -> (r: Self)
        ensures
            r@ == fresh_job(id, name@, payload@, now as int),
    {
        Job {
            id,
            name: name.to_owned(),
            status: JobStatus::Pending,
            payload,
            attempt: 0,
            lease_expires_at: None,
            created_at: now,
            updated_at: now,
        }
    }

    /// A job with a random identifier that waits for its first attempt from now
    /// on.
    pub fn new_pending(name: &str, payload: Vec<u8>) -> (r: Self)
        ensures
            r@ == fresh_job(r.id, name@, payload@, r.created_at as int),
            marked_random(r.id),
    {
        let now = unix_now();
        let id = random_id();
        Self::pending_at(id, name, payload, now)
    }
}

/// A queue, as it is kept across restarts.
#[derive(Debug, PartialEq, Eq)]
pub struct JobQueue {
    pub name: String,
    pub concurrency: u32,
    pub max_retries: u32,
    pub created_at: i64,
    pub updated_at: i64,
}

/// What a queue holds.
#[verifier::ext_equal]
pub struct QueueModel {
    pub name: Seq<char>,
    pub concurrency: int,
    pub max_retries: int,
    pub created_at: int,
    pub updated_at: int,
}

impl View for JobQueue {
    type V = QueueModel;

    open spec fn view(&self) -> QueueModel {
        QueueModel {
            name: self.name@,
            concurrency: self.concurrency as int,
            max_retries: self.max_retries as int,
            created_at: self.created_at as int,
            updated_at: self.updated_at as int,
        }
    }
}

impl Clone for JobQueue {
    fn clone(&self) -> (r: Self)
        ensures
            r@ == self@,
    {
        JobQueue {
            name: self.name.clone(),
            concurrency: self.concurrency,
            max_retries: self.max_retries,
            created_at: self.created_at,
            updated_at: self.updated_at,
        }
    }
}

/// A queue with the standard policy.
pub open spec fn standard_queue(name: Seq<char>, now: int) -> QueueModel {
    QueueModel { name, concurrency: 1, max_retries: 3, created_at: now, updated_at: now }
}

impl JobQueue {
    /// A queue with the standard policy, from `now` on.
    pub fn new_at(name: &str, now: i64) -> (r: Self)
        ensures
            r@ == standard_queue(name@, now as int),
    {
        JobQueue {
            name: name.to_owned(),
            concurrency: 1,
            max_retries: 3,
            created_at: now,
            updated_at: now,
        }
    }

    /// A queue with the standard policy, from now on.
    pub fn new(name: &str) -> (r: Self)
        ensures
            r@ == standard_queue(name@, r.created_at as int),
    {
        let now = unix_now();
        Self::new_at(name, now)
    }
}

/// Why the store could not do what it was asked.
#[derive(Debug, PartialEq, Eq)]
pub enum StoreError {
    NotFound(u128),
    QueueNotFound(String),
    Internal(String),
}

/// What an error says.
#[verifier::ext_equal]
pub enum StoreErrorModel {
    NotFound(u128),
    QueueNotFound(Seq<char>),
    Internal(Seq<char>),
}

impl View for StoreError {
    type V = StoreErrorModel;

    open spec fn view(&self) -> StoreErrorModel {
        match self {
            StoreError::NotFound(id) => StoreErrorModel::NotFound(*id),
            StoreError::QueueNotFound(name) => StoreErrorModel::QueueNotFound(name@),
            StoreError::Internal(message) => StoreErrorModel::Internal(message@),
        }
    }
}

impl Clone for StoreError {
    fn clone(&self) -> (r: Self)
        ensures
            r@ == self@,
    {
        match self {
            StoreError::NotFound(id) => StoreError::NotFound(*id),
            StoreError::QueueNotFound(name) => StoreError::QueueNotFound(name.clone()),
            StoreError::Internal(message) => StoreError::Internal(message.clone()),
        }
    }
}

/// The text of an error.
pub open spec fn error_text(error: StoreErrorModel) -> Seq<char> {
    match error {
        StoreErrorModel::NotFound(id) => "job not found: "@ + hyphenated(id),
        StoreErrorModel::QueueNotFound(name) => "queue not found: "@ + name,
        StoreErrorModel::Internal(message) => "internal store error: "@ + message,
    }
}

/// The status with which a request is answered that failed with an error.
pub open spec fn http_status(error: StoreErrorModel) -> u16 {
    match error {
        StoreErrorModel::QueueNotFound(_) => 400,
        StoreErrorModel::NotFound(_) => 404,
        StoreErrorModel::Internal(_) => 500,
    }
}

impl StoreError {
    pub fn to_text(&self) -> (r: String)
        ensures
            r@ == error_text(self@),
    {
        match self {
            StoreError::NotFound(id) => {
                let text = id_text(*id);
                concat("job not found: ", text.as_str())
            },
            StoreError::QueueNotFound(name) => concat("queue not found: ", name.as_str()),
            StoreError::Internal(message) => concat("internal store error: ", message.as_str()),
        }
    }

    /// The status with which a request is answered that failed with this error.
    pub fn status_code(&self) -> (r: u16)
        ensures
            r == http_status(self@),
    {
        match self {
            StoreError::QueueNotFound(_) => 400,
            StoreError::NotFound(_) => 404,
            StoreError::Internal(_) => 500,
        }
    }
}

/// A job as its columns hold it.
pub struct RawJob {
    pub id: String,
    pub queue_name: String,
    pub status: String,
    pub payload: Vec<u8>,
    pub attempt: i64,
    pub lease_expires_at: Option<i64>,
    pub created_at: i64,
    pub updated_at: i64,
}

/// A queue as its columns hold it.
pub struct RawQueue {
    pub name: String,
    pub concurrency: i64,
    pub max_retries: i64,
    pub created_at: i64,
    pub updated_at: i64,
}

/// What reading a job comes to, after its identifier has been read.
pub open spec fn read_job(raw: RawJob, id: Result<u128, Seq<char>>) -> Result<
    JobModel,
    StoreErrorModel,
> {
    match (id, parsed_status(raw.status@)) {
        (Err(message), _) => Err(
            StoreErrorModel::Internal(conversion_text("Text"@, 0, message)),
        ),
        (Ok(_), None) => Err(
            StoreErrorModel::Internal(
                conversion_text("Text"@, 2, "unknown job status: "@ + raw.status@),
            ),
        ),
        (Ok(id), Some(status)) => if raw.attempt < 0 || raw.attempt > u32::MAX {
            Err(StoreErrorModel::Internal(conversion_text("Integer"@, 4, out_of_range_text())))
        } else {
            Ok(
                JobModel {
                    id,
                    name: raw.queue_name@,
                    status,
                    payload: raw.payload@,
                    attempt: raw.attempt as int,
                    lease_expires_at: raw.lease_expires_at,
                    created_at: raw.created_at as int,
                    updated_at: raw.updated_at as int,
                },
            )
        },
    }
}

/// Whether a result is the one that is due.
pub open spec fn is_outcome<T: View>(
    result: Result<T, StoreError>,
    due: Result<T::V, StoreErrorModel>,
) -> bool {
    match (result, due) {
        (Ok(value), Ok(expected)) => value@ == expected,
        (Err(error), Err(expected)) => error@ == expected,
        _ => false,
    }
}

/// Reads a job whose identifier has been read.
pub fn row_to_job_given(raw: RawJob, id: Result<u128, String>) -> (r: Result<Job, StoreError>)
    ensures
        is_outcome(r, read_job(raw, reading(id))),
{
    let id = match id {
        Ok(id) => id,
        Err(message) => return Err(
            StoreError::Internal(conversion_error_text("Text", 0, message.as_str())),
        ),
    };
    let status = match JobStatus::parse(raw.status.as_str()) {
        Some(status) => status,
        None => {
            let reason = concat("unknown job status: ", raw.status.as_str());
            return Err(StoreError::Internal(conversion_error_text("Text", 2, reason.as_str())));
        },
    };
    if raw.attempt < 0 || raw.attempt > u32::MAX as i64 {
        return Err(
            StoreError::Internal(
                conversion_error_text(
                    "Integer",
                    4,
                    "out of range integral type conversion attempted",
                ),
            ),
        );
    }
    Ok(
        Job {
            id,
            name: raw.queue_name,
            status,
            payload: raw.payload,
            attempt: raw.attempt as u32,
            lease_expires_at: raw.lease_expires_at,
            created_at: raw.created_at,
            updated_at: raw.updated_at,
        },
    )
}

/// Reads a job.
pub fn row_to_job(raw: RawJob) -> (r: Result<Job, StoreError>)
    ensures
        is_outcome(r, read_job(raw, id_of(raw.id@))),
{
    let id = read_id(raw.id.as_str());
    row_to_job_given(raw, id)
}

/// The columns of a job.
pub fn job_to_row(job: &Job) -> (r: RawJob)
    ensures
        r.id@ == hyphenated(job.id),
        id_of(r.id@) is Ok && id_of(r.id@)->Ok_0 == job.id,
        r.queue_name@ == job.name@,
        r.status@ == status_text(job.status),
        r.payload@ == job.payload@,
        r.attempt == job.attempt,
        r.lease_expires_at == job.lease_expires_at,
        r.created_at == job.created_at,
        r.updated_at == job.updated_at,
        read_job(r, id_of(r.id@)) == Ok::<JobModel, StoreErrorModel>(job@),
{
    proof {
        status_spelling_round_trips(job.status);
    }
    RawJob {
        id: id_text(job.id),
        queue_name: job.name.clone(),
        status: job.status.to_text(),
        payload: copy_bytes(&job.payload),
        attempt: job.attempt as i64,
        lease_expires_at: job.lease_expires_at,
        created_at: job.created_at,
        updated_at: job.updated_at,
    }
}

/// What reading a queue comes to.
pub open spec fn read_queue(raw: RawQueue) -> Result<QueueModel, StoreErrorModel> {
    if raw.concurrency < 0 || raw.concurrency > u32::MAX {
        Err(StoreErrorModel::Internal(conversion_text("Integer"@, 1, out_of_range_text())))
    } else if raw.max_retries < 0 || raw.max_retries > u32::MAX {
        Err(StoreErrorModel::Internal(conversion_text("Integer"@, 2, out_of_range_text())))
    } else {
        Ok(
            QueueModel {
                name: raw.name@,
                concurrency: raw.concurrency as int,
                max_retries: raw.max_retries as int,
                created_at: raw.created_at as int,
                updated_at: raw.updated_at as int,
            },
        )
    }
}

/// Reads a queue.
pub fn row_to_queue(raw: RawQueue) -> (r: Result<JobQueue, StoreError>)
    ensures
        is_outcome(r, read_queue(raw)),
{
    if raw.concurrency < 0 || raw.concurrency > u32::MAX as i64 {
        return Err(
            StoreError::Internal(
                conversion_error_text(
                    "Integer",
                    1,
                    "out of range integral type conversion attempted",
                ),
            ),
        );
    }
    if raw.max_retries < 0 || raw.max_retries > u32::MAX as i64 {
        return Err(
            StoreError::Internal(
                conversion_error_text(
                    "Integer",
                    2,
                    "out of range integral type conversion attempted",
                ),
            ),
        );
    }
    Ok(
        JobQueue {
            name: raw.name,
            concurrency: raw.concurrency as u32,
            max_retries: raw.max_retries as u32,
            created_at: raw.created_at,
            updated_at: raw.updated_at,
        },
    )
}

/// Whether the schema has to be set up, given the version on record: it has to
/// where there is none or one before the first.
pub fn needs_schema(version: Option<i32>) -> (r: bool)
    ensures
        r == (version is None || version->Some_0 < 1),
{
    match version {
        None => true,
        Some(version) => version < 1,
    }
}

/// How statuses and errors read, and which status a failed request is answered
/// with: a queue that is not known is the fault of the request, a job that is not
/// known is not found, and anything else is the fault of the store.
pub proof fn statuses_and_errors_are_spelled_out(id: u128, text: Seq<char>)
    ensures
        status_text(JobStatus::Pending) == "pending"@,
        status_text(JobStatus::Running) == "running"@,
        status_text(JobStatus::Completed) == "completed"@,
        status_text(JobStatus::Failed) == "failed"@,
        error_text(StoreErrorModel::NotFound(id)) == "job not found: "@ + hyphenated(id),
        error_text(StoreErrorModel::QueueNotFound(text)) == "queue not found: "@ + text,
        error_text(StoreErrorModel::Internal(text)) == "internal store error: "@ + text,
        http_status(StoreErrorModel::QueueNotFound(text)) == 400,
        http_status(StoreErrorModel::NotFound(id)) == 404,
        http_status(StoreErrorModel::Internal(text)) == 500,
{
}

/// A job that is submitted waits for its first attempt with the payload it came
/// with.
pub proof fn submissions_are_fresh(id: u128, name: Seq<char>, payload: Seq<u8>, now: int)
    ensures
        fresh_job(id, name, payload, now).id == id,
        fresh_job(id, name, payload, now).name == name,
        fresh_job(id, name, payload, now).status == JobStatus::Pending,
        fresh_job(id, name, payload, now).payload == payload,
        fresh_job(id, name, payload, now).attempt == 0,
        fresh_job(id, name, payload, now).lease_expires_at is None,
        fresh_job(id, name, payload, now).created_at == now,
        fresh_job(id, name, payload, now).updated_at == now,
{
}

/// A queue that says nothing of its policy runs one job at a time and retries
/// three times.
pub proof fn queues_start_with_the_standard_policy(name: Seq<char>, now: int)
    ensures
        standard_queue(name, now).name == name,
        standard_queue(name, now).concurrency == 1,
        standard_queue(name, now).max_retries == 3,
        standard_queue(name, now).created_at == now,
        standard_queue(name, now).updated_at == now,
{
}

/// A timestamp counts the whole seconds of a reading in milliseconds.
pub proof fn timestamps_count_seconds(millis: u128)
    requires
        millis <= i64::MAX,
    ensures
        seconds_at(Some(millis)) * 1_000 <= millis < (seconds_at(Some(millis)) + 1) * 1_000,
        seconds_at(None) == 0,
{
}

/// A job is read exactly if its identifier can be read, its status is one of
/// the four, and its attempts are a count. It is then what its columns hold.
pub proof fn jobs_are_read_column_by_column(raw: RawJob, id: Result<u128, Seq<char>>)
    ensures
        match read_job(raw, id) {
            Ok(job) => {
                &&& id is Ok
                &&& job.id == id->Ok_0
                &&& job.name == raw.queue_name@
                &&& raw.status@ == status_text(job.status)
                &&& job.payload == raw.payload@
                &&& 0 <= raw.attempt <= u32::MAX
                &&& job.attempt == raw.attempt
                &&& job.lease_expires_at == raw.lease_expires_at
                &&& job.created_at == raw.created_at
                &&& job.updated_at == raw.updated_at
            },
            Err(_) => {
                ||| id is Err
                ||| raw.attempt < 0 || raw.attempt > u32::MAX
                ||| raw.status@ != "pending"@ && raw.status@ != "running"@ && raw.status@
                    != "completed"@ && raw.status@ != "failed"@
            },
        },
{
}

/// A queue is read exactly if its numbers are counts, and is then what its
/// columns hold.
pub proof fn queues_are_read_column_by_column(raw: RawQueue)
    ensures
        match read_queue(raw) {
            Ok(queue) => {
                &&& 0 <= raw.concurrency <= u32::MAX
                &&& 0 <= raw.max_retries <= u32::MAX
                &&& queue.name == raw.name@
                &&& queue.concurrency == raw.concurrency
                &&& queue.max_retries == raw.max_retries
                &&& queue.created_at == raw.created_at
                &&& queue.updated_at == raw.updated_at
            },
            Err(_) => !(0 <= raw.concurrency <= u32::MAX && 0 <= raw.max_retries <= u32::MAX),
        },
{
}

/// Jobs and queues are seen whole, and an outcome is the one that is due.
pub proof fn records_are_seen_whole(job: Job, queue: JobQueue)
    ensures
        job@.id == job.id,
        job@.name == job.name@,
        job@.status == job.status,
        job@.payload == job.payload@,
        job@.attempt == job.attempt,
        job@.lease_expires_at == job.lease_expires_at,
        job@.created_at == job.created_at,
        job@.updated_at == job.updated_at,
        queue@.name == queue.name@,
        queue@.concurrency == queue.concurrency,
        queue@.max_retries == queue.max_retries,
        queue@.created_at == queue.created_at,
        queue@.updated_at == queue.updated_at,
{
}

/// A result is the one that is due exactly if both are the same value or the
/// same error.
pub proof fn outcomes_are_what_is_due<T: View>(
    result: Result<T, StoreError>,
    due: Result<T::V, StoreErrorModel>,
)
    requires
        is_outcome(result, due),
    ensures
        result is Ok == due is Ok,
        result is Ok ==> result->Ok_0@ == due->Ok_0,
        result is Err ==> result->Err_0@ == due->Err_0,
{
}

} // verus!
