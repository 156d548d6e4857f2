//! The HTTP interface: what is asked, and what is answered with which status.

use crate::client::{hoped_for, Question};
use crate::engine::types::status_text;
use crate::engine::{engine_error_text, EngineError, EngineErrorView, JobView, SubmitJob};
use vstd::prelude::*;

verus! {

pub const OK: u16 = 200;

pub const CREATED: u16 = 201;

pub const NO_CONTENT: u16 = 204;

pub const BAD_REQUEST: u16 = 400;

pub const NOT_FOUND: u16 = 404;

pub const INTERNAL_SERVER_ERROR: u16 = 500;

/// What is sent to submit a job. The payload is the text of a JSON value.
#[derive(Debug, Clone, PartialEq, Eq)]
pub struct JobRequest {
    pub name: String,
    pub payload: String,
}

impl JobRequest {
    /// The submission that the request stands for.
    pub fn into_submission(self) -> (r: SubmitJob)
        ensures
            r.name == self.name,
            r.payload == self.payload,
    {
        SubmitJob { name: self.name, payload: self.payload }
    }
}

/// What is answered about a job.
#[derive(Debug, Clone, PartialEq, Eq)]
pub struct JobResponse {
    pub id: i64,
    pub name: String,
    pub status: String,
}

/// What is answered where something went wrong.
#[derive(Debug, Clone, PartialEq, Eq)]
pub struct ErrorBody {
    pub error: String,
}

/// What is answered about a job.
pub fn to_response(job: JobView) -> (r: JobResponse)
    ensures
        r.id == job.id,
        r.name@ == job.name@,
        r.status@ == status_text(job.status),
{
    JobResponse { id: job.id, name: job.name, status: job.status.to_text() }
}

/// The status that goes with an error.
pub open spec fn status_of(error: EngineErrorView) -> u16 {
    match error {
        EngineErrorView::UnknownQueue(_) => BAD_REQUEST,
        EngineErrorView::Payload(_) => BAD_REQUEST,
        EngineErrorView::JobNotFound(_) => NOT_FOUND,
        EngineErrorView::Storage(_) => INTERNAL_SERVER_ERROR,
    }
}

/// An error on its way to the caller.
#[derive(Debug, Clone, PartialEq, Eq)]
pub struct ApiError {
    pub status: u16,
    pub message: String,
}

impl ApiError {
    /// What a caller is told of an error.
    pub fn of(error: &EngineError) -> (r: Self)
        ensures
            r.status == status_of(error@),
            r.message@ == engine_error_text(error@),
    {
        let status = match error {
            EngineError::UnknownQueue(_) => BAD_REQUEST,
            EngineError::Payload(_) => BAD_REQUEST,
            EngineError::JobNotFound(_) => NOT_FOUND,
            EngineError::Storage { .. } => INTERNAL_SERVER_ERROR,
        };
        ApiError { status, message: error.to_text() }
    }

    /// The body that carries the error.
    pub fn into_body(self) -> (r: ErrorBody)
        ensures
            r.error == self.message,
    {
        ErrorBody { error: self.message }
    }
}

/// A whole answer.
pub enum Reply {
    Job { status: u16, body: JobResponse },
    Error { status: u16, body: ErrorBody },
}

/// Whether an answer is the one that is due for a result, with the status
/// `success` for a job.
pub open spec fn answers(reply: Reply, success: u16, result: Result<JobView, EngineError>) -> bool {
    match (reply, result) {
        (Reply::Job { status, body }, Ok(job)) => {
            &&& status == success
            &&& body.id == job.id
            &&& body.name@ == job.name@
            &&& body.status@ == status_text(job.status)
        },
        (Reply::Error { status, body }, Err(error)) => {
            &&& status == status_of(error@)
            &&& body.error@ == engine_error_text(error@)
        },
        _ => false,
    }
}

/// The answer to a request, with the status `success` for a job.
fn reply_to(success: u16, result: Result<JobView, EngineError>) -> (r: Reply)
    ensures
        answers(r, success, result),
{
    match result {
        Ok(job) => Reply::Job { status: success, body: to_response(job) },
        Err(error) => {
            let told = ApiError::of(&error);
            Reply::Error { status: told.status, body: told.into_body() }
        },
    }
}

/// The answer to a submission.
pub fn submit_job(result: Result<JobView, EngineError>) -> (r: Reply)
    ensures
        answers(r, CREATED, result),
        r matches Reply::Job { status, body } ==> status == hoped_for(Question::Enqueue),
{
    reply_to(CREATED, result)
}

/// The answer to the question for a job.
pub fn get_job(result: Result<JobView, EngineError>) -> (r: Reply)
    ensures
        answers(r, OK, result),
        r matches Reply::Job { status, body } ==> status == hoped_for(Question::GetJob),
{
    reply_to(OK, result)
}

/// A reply tells success and failure apart: what went wrong is never answered
/// with the status of a success.
pub proof fn failures_are_told(reply: Reply, success: u16, result: Result<JobView, EngineError>)
    requires
        answers(reply, success, result),
        success < BAD_REQUEST,
    ensures
        match reply {
            Reply::Job { status, .. } => status < BAD_REQUEST && result is Ok,
            Reply::Error { status, .. } => status >= BAD_REQUEST && result is Err,
        },
{
}

/// Requests for a queue that is not known, or with a payload that cannot be
/// encoded, are at fault themselves; a job that is not known is not found; and
/// trouble with the storage is the fault of the service.
pub proof fn errors_are_told_by_their_status(
    name: Seq<char>,
    id: int,
    source: crate::engine::types::StoreErrorView,
)
    ensures
        status_of(EngineErrorView::UnknownQueue(name)) == 400,
        status_of(EngineErrorView::Payload(name)) == 400,
        status_of(EngineErrorView::JobNotFound(id)) == 404,
        status_of(EngineErrorView::Storage(source)) == 500,
        OK == 200,
        CREATED == 201,
        NO_CONTENT == 204,
{
}

/// A job is answered with its id, its queue and its status; an error with its
/// message.
pub proof fn answers_carry_the_result(
    reply: Reply,
    success: u16,
    result: Result<JobView, EngineError>,
)
    requires
        answers(reply, success, result),
    ensures
        match (reply, result) {
            (Reply::Job { status, body }, Ok(job)) => {
                &&& status == success
                &&& body.id == job.id
                &&& body.name@ == job.name@
                &&& job.status == crate::engine::types::ExecutionStatus::Pending ==> body.status@
                    == "pending"@
                &&& job.status == crate::engine::types::ExecutionStatus::Running ==> body.status@
                    == "running"@
                &&& job.status == crate::engine::types::ExecutionStatus::Completed ==> body.status@
                    == "completed"@
                &&& job.status == crate::engine::types::ExecutionStatus::Failed ==> body.status@
                    == "failed"@
            },
            (Reply::Error { status, body }, Err(error)) => {
                &&& error is UnknownQueue || error is Payload ==> status == 400
                &&& error is JobNotFound ==> status == 404
                &&& error is Storage ==> status == 500
                &&& body.error@ == engine_error_text(error@)
            },
            _ => false,
        },
{
}

} // verus!
