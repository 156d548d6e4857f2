//! Durable domain records.

use crate::text::{concat, same_text, signed_decimal, signed_decimal_text};
use vstd::prelude::*;

verus! {

/// The text of an optional string.
pub open spec fn text_view(text: Option<String>) -> Option<Seq<char>> {
    match text {
        Some(t) => Some(t@),
        None => None,
    }
}

/// The bytes of an optional byte vector.
pub open spec fn bytes_view(bytes: Option<Vec<u8>>) -> Option<Seq<u8>> {
    match bytes {
        Some(b) => Some(b@),
        None => None,
    }
}

pub fn copy_bytes(bytes: &Vec<u8>) -> (r: Vec<u8>)
    ensures
        r@ == bytes@,
{
    let r = bytes.clone();
    proof {
        assert(r@ =~= bytes@);
    }
    r
}

pub fn copy_optional_text(text: &Option<String>) -> (r: Option<String>)
    ensures
        text_view(r) == text_view(*text),
{
    match text {
        Some(t) => Some(t.clone()),
        None => None,
    }
}

pub fn copy_optional_bytes(bytes: &Option<Vec<u8>>) -> (r: Option<Vec<u8>>)
    ensures
        bytes_view(r) == bytes_view(*bytes),
{
    match bytes {
        Some(b) => Some(copy_bytes(b)),
        None => None,
    }
}

/// Whether an optional string is present and reads `wanted`.
pub fn is_text(text: &Option<String>, wanted: &str) -> (r: bool)
    ensures
        r == (text_view(*text) == Some(wanted@)),
{
    match text {
        Some(t) => same_text(t.as_str(), wanted),
        None => false,
    }
}

/// Milliseconds since the Unix epoch as a timestamp: the low 64 bits, which
/// are all of them for the next 290 million years.
pub fn timestamp_of(millis: u128) -> (r: i64)
    ensures
        r == millis as i64,
        millis <= i64::MAX ==> r == millis,
{
    #[verifier::truncate]
    let r: i64 = millis as i64;
    r
}

/// `SystemTime::elapsed` on the Unix epoch: how far the system clock stands
/// past it, in whole milliseconds, or nothing where the clock is set to a time
/// before it. The reading is up to the machine, so nothing is said of it.
#[verifier::external_body]
pub(crate) fn millis_since_epoch() -> (r: Option<u128>) {
    std::time::UNIX_EPOCH.elapsed().ok().map(|d| d.as_millis())
}

/// The timestamp for a reading of the clock, or for a clock that is set before
/// the Unix epoch.
pub open spec fn timestamp_at(reading: Option<u128>) -> i64 {
    match reading {
        Some(millis) => millis as i64,
        None => 0,
    }
}

/// The timestamp for a reading of the clock. A clock that is set before the Unix
/// epoch reads as the epoch itself.
pub fn timestamp_of_reading(reading: Option<u128>) -> (r: i64)
    ensures
        r == timestamp_at(reading),
{
    match reading {
        Some(millis) => timestamp_of(millis),
        None => 0,
    }
}

/// The current time in milliseconds since the Unix epoch.
pub fn unix_now() -> (r: i64)
    ensures
        exists|reading: Option<u128>| r == #[trigger] timestamp_at(reading),
{
    let reading = millis_since_epoch();
    timestamp_of_reading(reading)
}

/// What a job's current attempt has come to.
#[derive(Debug, Clone, Copy, PartialEq, Eq, Structural)]
pub enum ExecutionStatus {
    Pending,
    Running,
    Completed,
    Failed,
}

/// The canonical spelling of a status.
pub open spec fn status_text(status: ExecutionStatus) -> Seq<char> {
    match status {
        ExecutionStatus::Pending => "pending"@,
        ExecutionStatus::Running => "running"@,
        ExecutionStatus::Completed => "completed"@,
        ExecutionStatus::Failed => "failed"@,
    }
}

/// The status that a text spells, if it spells one.
pub open spec fn parsed_status(text: Seq<char>) -> Option<ExecutionStatus> {
    if text == "pending"@ {
        Some(ExecutionStatus::Pending)
    } else if text == "running"@ {
        Some(ExecutionStatus::Running)
    } else if text == "completed"@ {
        Some(ExecutionStatus::Completed)
    } else if text == "failed"@ {
        Some(ExecutionStatus::Failed)
    } else {
        None
    }
}

impl ExecutionStatus {
    pub fn as_str(self) -> (r: &'static str)
        ensures
            r@ == status_text(self),
    {
        match self {
            Self::Pending => "pending",
            Self::Running => "running",
            Self::Completed => "completed",
            Self::Failed => "failed",
        }
    }

    pub fn parse(value: &str) -> (r: Option<Self>)
        ensures
            r == parsed_status(value@),
    {
        if same_text(value, "pending") {
            Some(Self::Pending)
        } else if same_text(value, "running") {
            Some(Self::Running)
        } else if same_text(value, "completed") {
            Some(Self::Completed)
        } else if same_text(value, "failed") {
            Some(Self::Failed)
        } else {
            None
        }
    }

    /// The status as displayed.
    pub fn to_text(self) -> (r: String)
        ensures
            r@ == status_text(self),
    {
        self.as_str().to_owned()
    }
}

/// A status reads back from its spelling, and nothing else spells it.
pub proof fn status_spelling_round_trips(status: ExecutionStatus, text: Seq<char>)
    ensures
        parsed_status(status_text(status)) == Some(status),
        parsed_status(text) == Some(status) <==> text == status_text(status),
{
    reveal_strlit("pending");
    reveal_strlit("running");
    reveal_strlit("completed");
    reveal_strlit("failed");
    assert("pending"@.len() == 7 && "running"@.len() == 7 && "completed"@.len() == 9
        && "failed"@.len() == 6);
    assert("pending"@[0] != "running"@[0]);
}

/// A submitted job, as accepted: available while it has no dispatch token.
#[derive(Debug, PartialEq, Eq)]
pub struct AcceptedJob {
    pub id: i64,
    pub queue_name: String,
    pub payload: Vec<u8>,
    pub dispatch_id: Option<String>,
    pub created_at: i64,
    pub updated_at: i64,
}

/// What an accepted job holds.
#[verifier::ext_equal]
pub struct AcceptedJobView {
    pub id: int,
    pub queue_name: Seq<char>,
    pub payload: Seq<u8>,
    pub dispatch_id: Option<Seq<char>>,
    pub created_at: int,
    pub updated_at: int,
}

impl View for AcceptedJob {
    type V = AcceptedJobView;

    open spec fn view(&self) -> AcceptedJobView {
        AcceptedJobView {
            id: self.id as int,
            queue_name: self.queue_name@,
            payload: self.payload@,
            dispatch_id: text_view(self.dispatch_id),
            created_at: self.created_at as int,
            updated_at: self.updated_at as int,
        }
    }
}

impl Clone for AcceptedJob {
    fn clone(&self) -> (r: Self)
        ensures
            r@ == self@,
    {
        AcceptedJob {
            id: self.id,
            queue_name: self.queue_name.clone(),
            payload: copy_bytes(&self.payload),
            dispatch_id: copy_optional_text(&self.dispatch_id),
            created_at: self.created_at,
            updated_at: self.updated_at,
        }
    }
}

/// A job that has been accepted at `now` and not been stored yet.
pub open spec fn fresh_job(queue_name: Seq<char>, payload: Seq<u8>, now: int) -> AcceptedJobView {
    AcceptedJobView {
        id: 0,
        queue_name,
        payload,
        dispatch_id: None,
        created_at: now,
        updated_at: now,
    }
}

impl AcceptedJob {
    /// A job for `queue_name` that was accepted at `now`.
    pub fn new_at(queue_name: &str, payload: Vec<u8>, now: i64) -> (r: Self)
        ensures
            r@ == fresh_job(queue_name@, payload@, now as int),
    {
        AcceptedJob {
            id: 0,
            queue_name: queue_name.to_owned(),
            payload,
            dispatch_id: None,
            created_at: now,
            updated_at: now,
        }
    }

    /// A job for `queue_name`, accepted now.
    pub fn new(queue_name: &str, payload: Vec<u8>) -> (r: Self)
        ensures
            r@ == fresh_job(queue_name@, payload@, r.created_at as int),
    {
        let now = unix_now();
        Self::new_at(queue_name, payload, now)
    }
}

/// The latest attempt at a job.
#[derive(Debug, PartialEq, Eq)]
pub struct Execution {
    pub id: i64,
    pub job_id: i64,
    pub queue_name: String,
    pub status: ExecutionStatus,
    pub execution_count: u32,
    pub lease_expires_at: Option<i64>,
    pub dispatch_id: String,
    pub result_payload: Option<Vec<u8>>,
    pub result_error: Option<String>,
    pub created_at: i64,
    pub updated_at: i64,
}

/// What an attempt holds.
#[verifier::ext_equal]
pub struct ExecutionView {
    pub id: int,
    pub job_id: int,
    pub queue_name: Seq<char>,
    pub status: ExecutionStatus,
    pub execution_count: int,
    pub lease_expires_at: Option<i64>,
    pub dispatch_id: Seq<char>,
    pub result_payload: Option<Seq<u8>>,
    pub result_error: Option<Seq<char>>,
    pub created_at: int,
    pub updated_at: int,
}

impl View for Execution {
    type V = ExecutionView;

    open spec fn view(&self) -> ExecutionView {
        ExecutionView {
            id: self.id as int,
            job_id: self.job_id as int,
            queue_name: self.queue_name@,
            status: self.status,
            execution_count: self.execution_count as int,
            lease_expires_at: self.lease_expires_at,
            dispatch_id: self.dispatch_id@,
            result_payload: bytes_view(self.result_payload),
            result_error: text_view(self.result_error),
            created_at: self.created_at as int,
            updated_at: self.updated_at as int,
        }
    }
}

impl Clone for Execution {
    fn clone(&self) -> (r: Self)
        ensures
            r@ == self@,
    {
        Execution {
            id: self.id,
            job_id: self.job_id,
            queue_name: self.queue_name.clone(),
            status: self.status,
            execution_count: self.execution_count,
            lease_expires_at: self.lease_expires_at,
            dispatch_id: self.dispatch_id.clone(),
            result_payload: copy_optional_bytes(&self.result_payload),
            result_error: copy_optional_text(&self.result_error),
            created_at: self.created_at,
            updated_at: self.updated_at,
        }
    }
}

/// Queue configuration as persisted.
#[derive(Debug, PartialEq, Eq)]
pub struct JobQueue {
    pub name: String,
    pub max_retries: u32,
    pub timeout_secs: u64,
    pub created_at: i64,
    pub updated_at: i64,
}

/// What a queue configuration holds.
#[verifier::ext_equal]
pub struct JobQueueView {
    pub name: Seq<char>,
    pub max_retries: int,
    pub timeout_secs: int,
    pub created_at: int,
    pub updated_at: int,
}

impl View for JobQueue {
    type V = JobQueueView;

    open spec fn view(&self) -> JobQueueView {
        JobQueueView {
            name: self.name@,
            max_retries: self.max_retries as int,
            timeout_secs: self.timeout_secs as int,
            created_at: self.created_at as int,
            updated_at: self.updated_at as int,
        }
    }
}

impl Clone for JobQueue {
    fn clone(&self) -> (r: Self)
        ensures
            r@ == self@,
    {
        JobQueue {
            name: self.name.clone(),
            max_retries: self.max_retries,
            timeout_secs: self.timeout_secs,
            created_at: self.created_at,
            updated_at: self.updated_at,
        }
    }
}

/// A queue with the standard policy: three retries, a lease of one minute.
pub open spec fn standard_queue(name: Seq<char>, now: int) -> JobQueueView {
    JobQueueView { name, max_retries: 3, timeout_secs: 60, created_at: now, updated_at: now }
}

impl JobQueue {
    /// A queue with the standard policy, configured at `now`.
    pub fn new_at(name: &str, now: i64) -> (r: Self)
        ensures
            r@ == standard_queue(name@, now as int),
    {
        JobQueue {
            name: name.to_owned(),
            max_retries: 3,
            timeout_secs: 60,
            created_at: now,
            updated_at: now,
        }
    }

    /// A queue with the standard policy, configured now.
    pub fn new(name: &str) -> (r: Self)
        ensures
            r@ == standard_queue(name@, r.created_at as int),
    {
        let now = unix_now();
        Self::new_at(name, now)
    }
}

/// An attempt with the queue configuration that governs it.
#[derive(Debug, PartialEq, Eq)]
pub struct ExecutionWithQueueConfig {
    pub execution: Execution,
    pub queue: JobQueue,
}

/// What an attempt with its queue configuration holds.
#[verifier::ext_equal]
pub struct ExecutionWithQueueConfigView {
    pub execution: ExecutionView,
    pub queue: JobQueueView,
}

impl View for ExecutionWithQueueConfig {
    type V = ExecutionWithQueueConfigView;

    open spec fn view(&self) -> ExecutionWithQueueConfigView {
        ExecutionWithQueueConfigView { execution: self.execution@, queue: self.queue@ }
    }
}

impl Clone for ExecutionWithQueueConfig {
    fn clone(&self) -> (r: Self)
        ensures
            r@ == self@,
    {
        ExecutionWithQueueConfig { execution: self.execution.clone(), queue: self.queue.clone() }
    }
}

/// A job as callers see it: the accepted job together with its latest attempt.
#[derive(Debug, PartialEq, Eq)]
pub struct Job {
    pub id: i64,
    pub name: String,
    pub status: ExecutionStatus,
    pub payload: Vec<u8>,
    pub execution_count: u32,
    pub lease_expires_at: Option<i64>,
    pub dispatch_id: Option<String>,
    pub result_payload: Option<Vec<u8>>,
    pub result_error: Option<String>,
    pub created_at: i64,
    pub updated_at: i64,
}

/// What a job holds.
#[verifier::ext_equal]
pub struct JobModel {
    pub id: int,
    pub name: Seq<char>,
    pub status: ExecutionStatus,
    pub payload: Seq<u8>,
    pub execution_count: int,
    pub lease_expires_at: Option<i64>,
    pub dispatch_id: Option<Seq<char>>,
    pub result_payload: Option<Seq<u8>>,
    pub result_error: Option<Seq<char>>,
    pub created_at: int,
    pub updated_at: int,
}

impl View for Job {
    type V = JobModel;

    open spec fn view(&self) -> JobModel {
        JobModel {
            id: self.id as int,
            name: self.name@,
            status: self.status,
            payload: self.payload@,
            execution_count: self.execution_count as int,
            lease_expires_at: self.lease_expires_at,
            dispatch_id: text_view(self.dispatch_id),
            result_payload: bytes_view(self.result_payload),
            result_error: text_view(self.result_error),
            created_at: self.created_at as int,
            updated_at: self.updated_at as int,
        }
    }
}

impl Clone for Job {
    fn clone(&self) -> (r: Self)
        ensures
            r@ == self@,
    {
        Job {
            id: self.id,
            name: self.name.clone(),
            status: self.status,
            payload: copy_bytes(&self.payload),
            execution_count: self.execution_count,
            lease_expires_at: self.lease_expires_at,
            dispatch_id: copy_optional_text(&self.dispatch_id),
            result_payload: copy_optional_bytes(&self.result_payload),
            result_error: copy_optional_text(&self.result_error),
            created_at: self.created_at,
            updated_at: self.updated_at,
        }
    }
}

/// The status of a job: a failed attempt at a job that has been made
/// available again leaves the job pending.
pub open spec fn merged_status(
    accepted: AcceptedJobView,
    execution: Option<ExecutionView>,
) -> ExecutionStatus {
    match execution {
        None => ExecutionStatus::Pending,
        Some(e) => if e.status == ExecutionStatus::Failed && accepted.dispatch_id is None {
            ExecutionStatus::Pending
        } else {
            e.status
        },
    }
}

/// The job that an accepted job and its latest attempt make up.
pub open spec fn merged_job(accepted: AcceptedJobView, execution: Option<ExecutionView>) -> JobModel {
    JobModel {
        id: accepted.id,
        name: accepted.queue_name,
        status: merged_status(accepted, execution),
        payload: accepted.payload,
        execution_count: match execution {
            Some(e) => e.execution_count,
            None => 0,
        },
        lease_expires_at: match execution {
            Some(e) => e.lease_expires_at,
            None => None,
        },
        dispatch_id: match execution {
            Some(e) => Some(e.dispatch_id),
            None => accepted.dispatch_id,
        },
        result_payload: match execution {
            Some(e) => e.result_payload,
            None => None,
        },
        result_error: match execution {
            Some(e) => e.result_error,
            None => None,
        },
        created_at: accepted.created_at,
        updated_at: match execution {
            Some(e) => e.updated_at,
            None => accepted.updated_at,
        },
    }
}

/// What an optional attempt holds.
pub open spec fn execution_view(execution: Option<&Execution>) -> Option<ExecutionView> {
    match execution {
        Some(e) => Some(e@),
        None => None,
    }
}

impl Job {
    /// The job that `accepted` and its latest attempt make up.
    pub fn from_accepted(accepted: AcceptedJob, execution: Option<&Execution>) -> (r: Self)
        ensures
            r@ == merged_job(accepted@, execution_view(execution)),
            execution matches Some(attempt) ==> {
                &&& r.status == (if attempt.status == ExecutionStatus::Failed
                    && accepted.dispatch_id is None {
                    ExecutionStatus::Pending
                } else {
                    attempt.status
                })
                &&& r.execution_count == attempt.execution_count
                &&& r.lease_expires_at == attempt.lease_expires_at
            },
            execution is None ==> r.status == ExecutionStatus::Pending,
            r.id == accepted.id,
            r.name@ == accepted.queue_name@,
            r.payload@ == accepted.payload@,
    {
        let available = accepted.dispatch_id.is_none();
        let mut job = Job {
            id: accepted.id,
            name: accepted.queue_name,
            status: ExecutionStatus::Pending,
            payload: accepted.payload,
            execution_count: 0,
            lease_expires_at: None,
            dispatch_id: accepted.dispatch_id,
            result_payload: None,
            result_error: None,
            created_at: accepted.created_at,
            updated_at: accepted.updated_at,
        };
        match execution {
            None => job,
            Some(execution) => {
                job.execution_count = execution.execution_count;
                job.lease_expires_at = execution.lease_expires_at;
                job.dispatch_id = Some(execution.dispatch_id.clone());
                job.result_payload = copy_optional_bytes(&execution.result_payload);
                job.result_error = copy_optional_text(&execution.result_error);
                job.updated_at = execution.updated_at;
                job.status = if execution.status == ExecutionStatus::Failed && available {
                    ExecutionStatus::Pending
                } else {
                    execution.status
                };
                job
            },
        }
    }
}

/// What a durable store reports when it cannot serve a request.
#[derive(Debug, PartialEq, Eq)]
pub enum StoreError {
    NotFound(i64),
    QueueNotFound(String),
    Internal(String),
}

/// What a store error says.
pub enum StoreErrorView {
    NotFound(int),
    QueueNotFound(Seq<char>),
    Internal(Seq<char>),
}

impl View for StoreError {
    type V = StoreErrorView;

    open spec fn view(&self) -> StoreErrorView {
        match *self {
            StoreError::NotFound(id) => StoreErrorView::NotFound(id as int),
            StoreError::QueueNotFound(name) => StoreErrorView::QueueNotFound(name@),
            StoreError::Internal(message) => StoreErrorView::Internal(message@),
        }
    }
}

impl Clone for StoreError {
    fn clone(&self) -> (r: Self)
        ensures
            r@ == self@,
    {
        match self {
            StoreError::NotFound(id) => StoreError::NotFound(*id),
            StoreError::QueueNotFound(name) => StoreError::QueueNotFound(name.clone()),
            StoreError::Internal(message) => StoreError::Internal(message.clone()),
        }
    }
}

/// The message of a store error.
pub open spec fn store_error_text(error: StoreErrorView) -> Seq<char> {
    match error {
        StoreErrorView::NotFound(id) => "job not found: "@ + signed_decimal(id),
        StoreErrorView::QueueNotFound(name) => "queue not found: "@ + name,
        StoreErrorView::Internal(message) => "internal store error: "@ + message,
    }
}

impl StoreError {
    /// The message that this error displays.
    pub fn to_text(&self) -> (r: String)
        ensures
            r@ == store_error_text(self@),
    {
        match self {
            StoreError::NotFound(id) => {
                let digits = signed_decimal_text(*id);
                concat("job not found: ", digits.as_str())
            },
            StoreError::QueueNotFound(name) => concat("queue not found: ", name.as_str()),
            StoreError::Internal(message) => concat("internal store error: ", message.as_str()),
        }
    }
}

/// A job reads as its attempt stands: it keeps the id, the queue, the payload
/// and the time of its acceptance, and shows everything else of the attempt. The
/// one exception is a failed attempt at a job that may be claimed again, which
/// reads as waiting. In particular a job whose attempt runs reads as running.
pub proof fn jobs_read_as_their_attempt(accepted: AcceptedJobView, attempt: ExecutionView)
    ensures
        ({
            let job = merged_job(accepted, Some(attempt));
            &&& job.id == accepted.id
            &&& job.name == accepted.queue_name
            &&& job.payload == accepted.payload
            &&& job.created_at == accepted.created_at
            &&& job.execution_count == attempt.execution_count
            &&& job.lease_expires_at == attempt.lease_expires_at
            &&& job.dispatch_id == Some(attempt.dispatch_id)
            &&& job.result_payload == attempt.result_payload
            &&& job.result_error == attempt.result_error
            &&& job.updated_at == attempt.updated_at
            &&& attempt.status == ExecutionStatus::Pending ==> job.status
                == ExecutionStatus::Pending
            &&& attempt.status == ExecutionStatus::Running ==> job.status
                == ExecutionStatus::Running
            &&& attempt.status == ExecutionStatus::Completed ==> job.status
                == ExecutionStatus::Completed
            &&& attempt.status == ExecutionStatus::Failed && accepted.dispatch_id is Some
                ==> job.status == ExecutionStatus::Failed
            &&& attempt.status == ExecutionStatus::Failed && accepted.dispatch_id is None
                ==> job.status == ExecutionStatus::Pending
        }),
{
}

/// A job that nobody has tried to run reads as waiting, with nothing to show
/// but what was submitted.
pub proof fn untried_jobs_read_as_submitted(accepted: AcceptedJobView)
    ensures
        ({
            let job = merged_job(accepted, None);
            &&& job.id == accepted.id
            &&& job.name == accepted.queue_name
            &&& job.status == ExecutionStatus::Pending
            &&& job.payload == accepted.payload
            &&& job.execution_count == 0
            &&& job.lease_expires_at is None
            &&& job.dispatch_id == accepted.dispatch_id
            &&& job.result_payload is None
            &&& job.result_error is None
            &&& job.created_at == accepted.created_at
            &&& job.updated_at == accepted.updated_at
        }),
{
}

/// Values that look the same hold the same: nothing of a job, an attempt or a
/// queue escapes what contracts say of it.
pub proof fn records_are_seen_whole(
    job: Job,
    accepted: AcceptedJob,
    attempt: Execution,
    queue: JobQueue,
)
    ensures
        job@.id == job.id,
        job@.name == job.name@,
        job@.status == job.status,
        job@.payload == job.payload@,
        job@.execution_count == job.execution_count,
        job@.lease_expires_at == job.lease_expires_at,
        job@.dispatch_id is Some == job.dispatch_id is Some,
        job.dispatch_id is Some ==> job@.dispatch_id->Some_0 == job.dispatch_id->Some_0@,
        job@.result_payload is Some == job.result_payload is Some,
        job.result_payload is Some ==> job@.result_payload->Some_0 == job.result_payload->Some_0@,
        job@.result_error is Some == job.result_error is Some,
        job.result_error is Some ==> job@.result_error->Some_0 == job.result_error->Some_0@,
        job@.created_at == job.created_at,
        job@.updated_at == job.updated_at,
        accepted@.id == accepted.id,
        accepted@.queue_name == accepted.queue_name@,
        accepted@.payload == accepted.payload@,
        accepted@.dispatch_id is Some == accepted.dispatch_id is Some,
        accepted.dispatch_id is Some ==> accepted@.dispatch_id->Some_0
            == accepted.dispatch_id->Some_0@,
        accepted@.created_at == accepted.created_at,
        accepted@.updated_at == accepted.updated_at,
        attempt@.id == attempt.id,
        attempt@.job_id == attempt.job_id,
        attempt@.queue_name == attempt.queue_name@,
        attempt@.status == attempt.status,
        attempt@.execution_count == attempt.execution_count,
        attempt@.lease_expires_at == attempt.lease_expires_at,
        attempt@.dispatch_id == attempt.dispatch_id@,
        attempt@.result_payload is Some == attempt.result_payload is Some,
        attempt.result_payload is Some ==> attempt@.result_payload->Some_0
            == attempt.result_payload->Some_0@,
        attempt@.result_error is Some == attempt.result_error is Some,
        attempt.result_error is Some ==> attempt@.result_error->Some_0
            == attempt.result_error->Some_0@,
        attempt@.created_at == attempt.created_at,
        attempt@.updated_at == attempt.updated_at,
        queue@.name == queue.name@,
        queue@.max_retries == queue.max_retries,
        queue@.timeout_secs == queue.timeout_secs,
        queue@.created_at == queue.created_at,
        queue@.updated_at == queue.updated_at,
{
}

/// A queue that says nothing of its policy retries three times and leases for
/// a minute.
pub proof fn queues_start_with_the_standard_policy(name: Seq<char>, now: int)
    ensures
        standard_queue(name, now).name == name,
        standard_queue(name, now).max_retries == 3,
        standard_queue(name, now).timeout_secs == 60,
        standard_queue(name, now).created_at == now,
        standard_queue(name, now).updated_at == now,
{
}

/// How statuses and errors read.
pub proof fn statuses_and_errors_are_spelled_out(id: int, text: Seq<char>)
    ensures
        status_text(ExecutionStatus::Pending) == "pending"@,
        status_text(ExecutionStatus::Running) == "running"@,
        status_text(ExecutionStatus::Completed) == "completed"@,
        status_text(ExecutionStatus::Failed) == "failed"@,
        store_error_text(StoreErrorView::NotFound(id)) == "job not found: "@ + signed_decimal(id),
        store_error_text(StoreErrorView::QueueNotFound(text)) == "queue not found: "@ + text,
        store_error_text(StoreErrorView::Internal(text)) == "internal store error: "@ + text,
{
}

/// A job that is submitted has its payload and its queue, no id yet and no
/// token, and is as old as the submission.
pub proof fn submissions_are_fresh(queue_name: Seq<char>, payload: Seq<u8>, now: int)
    ensures
        fresh_job(queue_name, payload, now).id == 0,
        fresh_job(queue_name, payload, now).queue_name == queue_name,
        fresh_job(queue_name, payload, now).payload == payload,
        fresh_job(queue_name, payload, now).dispatch_id is None,
        fresh_job(queue_name, payload, now).created_at == now,
        fresh_job(queue_name, payload, now).updated_at == now,
{
}

/// A timestamp is the reading of the clock in milliseconds. A later reading is
/// a later timestamp, and a clock that is set before the epoch reads zero.
pub proof fn timestamps_follow_the_clock(earlier: u128, later: u128)
    requires
        earlier <= later <= i64::MAX,
    ensures
        timestamp_at(Some(earlier)) == earlier,
        timestamp_at(Some(earlier)) <= timestamp_at(Some(later)),
        timestamp_at(None) == 0,
{
}

} // verus!
