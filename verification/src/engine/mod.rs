//! Job lifecycle, queue scheduling and the types that the durable store and
//! the worker dispatcher share.

pub mod adaptive;
pub mod pass;
pub mod scheduler;
pub mod types;

use crate::engine::types::{
    copy_bytes, fresh_job, AcceptedJob, ExecutionStatus, Job, StoreError, StoreErrorView,
};
use crate::span::Span;
use crate::text::{concat, signed_decimal, signed_decimal_text};
use vstd::prelude::*;

verus! {

/// The largest single durable claim. This bounds a scheduler pass even when a
/// caller supplies an excessively large dispatch batch configuration.
pub const MAX_CLAIM_BATCH_SIZE: usize = 16_384;

/// A worker outcome fenced by the dispatch lease that produced it.
#[derive(Debug, PartialEq, Eq)]
pub enum JobOutcome {
    Succeeded(Vec<u8>),
    Failed(String),
}

/// What an outcome holds.
#[verifier::ext_equal]
pub enum JobOutcomeView {
    Succeeded(Seq<u8>),
    Failed(Seq<char>),
}

impl View for JobOutcome {
    type V = JobOutcomeView;

    open spec fn view(&self) -> JobOutcomeView {
        match *self {
            JobOutcome::Succeeded(payload) => JobOutcomeView::Succeeded(payload@),
            JobOutcome::Failed(message) => JobOutcomeView::Failed(message@),
        }
    }
}

impl Clone for JobOutcome {
    fn clone(&self) -> (r: Self)
        ensures
            r@ == self@,
    {
        match self {
            JobOutcome::Succeeded(payload) => JobOutcome::Succeeded(copy_bytes(payload)),
            JobOutcome::Failed(message) => JobOutcome::Failed(message.clone()),
        }
    }
}

/// An outcome together with the job and the dispatch lease it belongs to.
#[derive(Debug, Clone, PartialEq, Eq)]
pub struct WorkerResult {
    pub job_id: i64,
    pub dispatch_id: String,
    pub outcome: JobOutcome,
}

/// What the dispatcher tells the engine.
#[derive(Debug, Clone, PartialEq, Eq)]
pub enum WorkerEvent {
    Registered { queue_name: String },
    Result { queue_name: String, result: WorkerResult },
}

/// Why the engine cannot serve a request.
#[derive(Debug, PartialEq, Eq)]
pub enum EngineError {
    UnknownQueue(String),
    JobNotFound(i64),
    Storage { source: StoreError },
    Payload(String),
}

/// What an engine error says.
pub enum EngineErrorView {
    UnknownQueue(Seq<char>),
    JobNotFound(int),
    Storage(StoreErrorView),
    Payload(Seq<char>),
}

impl View for EngineError {
    type V = EngineErrorView;

    open spec fn view(&self) -> EngineErrorView {
        match *self {
            EngineError::UnknownQueue(name) => EngineErrorView::UnknownQueue(name@),
            EngineError::JobNotFound(id) => EngineErrorView::JobNotFound(id as int),
            EngineError::Storage { source } => EngineErrorView::Storage(source@),
            EngineError::Payload(reason) => EngineErrorView::Payload(reason@),
        }
    }
}

/// The message of an engine error. What went wrong in the store is not told.
pub open spec fn engine_error_text(error: EngineErrorView) -> Seq<char> {
    match error {
        EngineErrorView::UnknownQueue(name) => "unknown job queue: "@ + name,
        EngineErrorView::JobNotFound(id) => "job not found: "@ + signed_decimal(id),
        EngineErrorView::Storage(_) => "engine storage is unavailable"@,
        EngineErrorView::Payload(reason) => "failed to serialize payload: "@ + reason,
    }
}

impl EngineError {
    /// The message that this error displays.
    pub fn to_text(&self) -> (r: String)
        ensures
            r@ == engine_error_text(self@),
    {
        match self {
            EngineError::UnknownQueue(name) => concat("unknown job queue: ", name.as_str()),
            EngineError::JobNotFound(id) => {
                let digits = signed_decimal_text(*id);
                concat("job not found: ", digits.as_str())
            },
            EngineError::Storage { .. } => "engine storage is unavailable".to_owned(),
            EngineError::Payload(reason) => concat(
                "failed to serialize payload: ",
                reason.as_str(),
            ),
        }
    }
}

/// How the engine reports a store error.
pub open spec fn engine_error_of(error: StoreError) -> EngineError {
    match error {
        StoreError::QueueNotFound(name) => EngineError::UnknownQueue(name),
        StoreError::NotFound(id) => EngineError::JobNotFound(id),
        StoreError::Internal(_) => EngineError::Storage { source: error },
    }
}

impl From<StoreError> for EngineError {
    fn from(error: StoreError) -> (r: Self) {
        match error {
            StoreError::QueueNotFound(name) => EngineError::UnknownQueue(name),
            StoreError::NotFound(id) => EngineError::JobNotFound(id),
            StoreError::Internal(message) => EngineError::Storage {
                source: StoreError::Internal(message),
            },
        }
    }
}

impl vstd::std_specs::convert::FromSpecImpl<StoreError> for EngineError {
    open spec fn obeys_from_spec() -> bool {
        true
    }

    open spec fn from_spec(error: StoreError) -> EngineError {
        engine_error_of(error)
    }
}

/// Why a job was not delivered.
#[derive(Debug, PartialEq, Eq)]
pub enum DispatchError {
    NoCapacity,
    Internal(String),
}

/// What a delivery error says.
pub enum DispatchErrorView {
    NoCapacity,
    Internal(Seq<char>),
}

impl View for DispatchError {
    type V = DispatchErrorView;

    open spec fn view(&self) -> DispatchErrorView {
        match *self {
            DispatchError::NoCapacity => DispatchErrorView::NoCapacity,
            DispatchError::Internal(reason) => DispatchErrorView::Internal(reason@),
        }
    }
}

/// The message of a delivery error.
pub open spec fn dispatch_error_text(error: DispatchErrorView) -> Seq<char> {
    match error {
        DispatchErrorView::NoCapacity => "no worker capacity is currently available"@,
        DispatchErrorView::Internal(reason) => "dispatcher error: "@ + reason,
    }
}

impl DispatchError {
    /// The message that this error displays.
    pub fn to_text(&self) -> (r: String)
        ensures
            r@ == dispatch_error_text(self@),
    {
        match self {
            DispatchError::NoCapacity => "no worker capacity is currently available".to_owned(),
            DispatchError::Internal(reason) => concat("dispatcher error: ", reason.as_str()),
        }
    }
}

/// A request for `count` worker slots of one queue.
#[derive(Debug, Clone, PartialEq, Eq)]
pub struct QueueReservation {
    pub queue_name: String,
    pub count: usize,
}

/// Opaque worker-capacity reservation. The engine can carry it but never
/// learns which worker or slot owns it.
pub trait DispatchPermit: Send {

}

/// A reservation for a worker of one queue.
pub struct ReservedDispatch<P: DispatchPermit> {
    pub queue_name: String,
    pub permit: P,
}

impl<P: DispatchPermit> ReservedDispatch<P> {
    pub fn new(queue_name: String, permit: P) -> (r: Self)
        ensures
            r.queue_name == queue_name,
            r.permit == permit,
    {
        ReservedDispatch { queue_name, permit }
    }

    /// Hands the reservation back to the dispatcher.
    pub fn into_permit(self) -> (r: P)
        ensures
            r == self.permit,
    {
        self.permit
    }
}

/// A job as a caller submits it: the queue it is for, and its payload as JSON
/// text.
#[derive(Debug, Clone, PartialEq, Eq)]
pub struct SubmitJob {
    pub name: String,
    pub payload: String,
}

/// A job as a caller sees it.
#[derive(Debug, Clone, PartialEq, Eq)]
pub struct JobView {
    pub id: i64,
    pub name: String,
    pub status: ExecutionStatus,
}

impl JobView {
    /// What a caller sees of `job`.
    pub fn of(job: &Job) -> (r: Self)
        ensures
            r.id == job.id,
            r.name@ == job.name@,
            r.status == job.status,
    {
        JobView { id: job.id, name: job.name.clone(), status: job.status }
    }

    /// What a caller sees of a job that has just been accepted.
    pub fn of_accepted(job: &AcceptedJob) -> (r: Self)
        ensures
            r.id == job.id,
            r.name@ == job.queue_name@,
            r.status == ExecutionStatus::Pending,
    {
        JobView { id: job.id, name: job.queue_name.clone(), status: ExecutionStatus::Pending }
    }
}

/// The bytes that `serde_json` writes for the value that a JSON text stands
/// for, or why it cannot.
pub uninterp spec fn json_bytes_of(text: Seq<char>) -> Result<Seq<u8>, Seq<char>>;

/// `serde_json::to_vec` on the value that `text` stands for: the same bytes
/// for the same text, or the message of the error.
#[verifier::external_body]
fn json_bytes(text: &str) -> (r: Result<Vec<u8>, String>)
    ensures
        match (r, json_bytes_of(text@)) {
            (Ok(bytes), Ok(expected)) => bytes@ == expected,
            (Err(message), Err(expected)) => message@ == expected,
            _ => false,
        },
{
    serde_json::from_str::<serde_json::Value>(text)
        .and_then(|value| serde_json::to_vec(&value))
        .map_err(|error| error.to_string())
}

/// The job that a submission becomes once its payload has been encoded.
pub fn accept_encoded(name: &str, encoded: Result<Vec<u8>, String>, now: i64) -> (r: Result<
    AcceptedJob,
    EngineError,
>)
    ensures
        match (r, encoded) {
            (Ok(job), Ok(bytes)) => job@ == fresh_job(name@, bytes@, now as int),
            (Err(error), Err(message)) => error@ == EngineErrorView::Payload(message@),
            _ => false,
        },
{
    match encoded {
        Ok(bytes) => Ok(AcceptedJob::new_at(name, bytes, now)),
        Err(message) => Err(EngineError::Payload(message)),
    }
}

impl SubmitJob {
    /// The job that this submission becomes at `now`.
    pub fn accept_at(&self, now: i64) -> (r: Result<AcceptedJob, EngineError>)
        ensures
            match (r, json_bytes_of(self.payload@)) {
                (Ok(job), Ok(bytes)) => job@ == fresh_job(self.name@, bytes, now as int),
                (Err(error), Err(message)) => error@ == EngineErrorView::Payload(message),
                _ => false,
            },
    {
        let encoded = json_bytes(self.payload.as_str());
        accept_encoded(self.name.as_str(), encoded, now)
    }
}

/// How far a scheduler pass may go.
#[derive(Debug, Clone, Copy, PartialEq, Eq, Structural)]
pub struct DispatchOptions {
    /// How many worker slots a pass asks for per queue.
    pub batch_size_max: usize,
    /// How many deliveries may be under way at once.
    pub max_delivery_in_flight: usize,
    /// How often queues that nothing has woken are looked at.
    pub idle_probe_interval: Span,
    /// How many worker slots such a look asks for per queue.
    pub idle_probe_batch_size: usize,
}

impl Default for DispatchOptions {
    fn default() -> (r: Self)
        ensures
            dispatch_fault(r) is None,
            r.batch_size_max == 8_192,
            r.max_delivery_in_flight == 1_024,
            r.idle_probe_interval.nanos == 1_000_000_000,
            r.idle_probe_batch_size == 64,
    {
        DispatchOptions {
            batch_size_max: 8_192,
            max_delivery_in_flight: 1_024,
            idle_probe_interval: Span::from_millis(1_000),
            idle_probe_batch_size: 64,
        }
    }
}

/// What is wrong with the options, if anything: the first fault.
pub open spec fn dispatch_fault(options: DispatchOptions) -> Option<Seq<char>> {
    if options.batch_size_max == 0 || options.batch_size_max > MAX_CLAIM_BATCH_SIZE {
        Some("dispatch.batch_size_max must be in 1..=16384"@)
    } else if options.max_delivery_in_flight == 0 {
        Some("dispatch.max_delivery_in_flight must be greater than zero"@)
    } else if options.idle_probe_interval.nanos == 0 {
        Some("dispatch.idle_probe_interval_ms must be greater than zero"@)
    } else if options.idle_probe_batch_size == 0 {
        Some("dispatch.idle_probe_batch_size must be greater than zero"@)
    } else {
        None
    }
}

impl DispatchOptions {
    /// Checks the options.
    pub fn validate(&self) -> (r: Result<(), String>)
        ensures
            match (r, dispatch_fault(*self)) {
                (Ok(()), None) => true,
                (Err(message), Some(fault)) => message@ == fault,
                _ => false,
            },
    {
        if self.batch_size_max == 0 || self.batch_size_max > MAX_CLAIM_BATCH_SIZE {
            return Err("dispatch.batch_size_max must be in 1..=16384".to_owned());
        }
        if self.max_delivery_in_flight == 0 {
            return Err("dispatch.max_delivery_in_flight must be greater than zero".to_owned());
        }
        if self.idle_probe_interval.is_zero() {
            return Err("dispatch.idle_probe_interval_ms must be greater than zero".to_owned());
        }
        if self.idle_probe_batch_size == 0 {
            return Err("dispatch.idle_probe_batch_size must be greater than zero".to_owned());
        }
        Ok(())
    }
}

/// How the engine's errors read. What went wrong in the store is not told.
pub proof fn errors_are_spelled_out(name: Seq<char>, id: int, source: StoreErrorView)
    ensures
        engine_error_text(EngineErrorView::UnknownQueue(name)) == "unknown job queue: "@ + name,
        engine_error_text(EngineErrorView::JobNotFound(id)) == "job not found: "@ + signed_decimal(
            id,
        ),
        engine_error_text(EngineErrorView::Storage(source)) == "engine storage is unavailable"@,
        engine_error_text(EngineErrorView::Payload(name)) == "failed to serialize payload: "@
            + name,
        dispatch_error_text(DispatchErrorView::NoCapacity)
            == "no worker capacity is currently available"@,
        dispatch_error_text(DispatchErrorView::Internal(name)) == "dispatcher error: "@ + name,
{
}

/// A store error keeps its meaning: a queue that is not known is an unknown
/// queue, a job that is not known is not found, and everything else is trouble
/// with the storage.
pub proof fn store_errors_keep_their_meaning(error: StoreError)
    ensures
        match error {
            StoreError::QueueNotFound(name) => engine_error_of(error) matches
                EngineError::UnknownQueue(told) && told == name,
            StoreError::NotFound(id) => engine_error_of(error) matches EngineError::JobNotFound(
                told,
            ) && told == id,
            StoreError::Internal(_) => engine_error_of(error) matches EngineError::Storage {
                source,
            } && source == error,
        },
{
}

/// Options are accepted exactly if a pass asks for at least one slot and at
/// most one batch of them, deliveries may be under way, and probes happen and ask
/// for something.
pub proof fn accepted_options_let_work_flow(options: DispatchOptions)
    ensures
        dispatch_fault(options) is None <==> {
            &&& 1 <= options.batch_size_max <= 16_384
            &&& options.max_delivery_in_flight >= 1
            &&& options.idle_probe_interval.nanos >= 1
            &&& options.idle_probe_batch_size >= 1
        },
        !(1 <= options.batch_size_max <= 16_384) ==> dispatch_fault(options) == Some(
            "dispatch.batch_size_max must be in 1..=16384"@,
        ),
{
}

} // verus!
