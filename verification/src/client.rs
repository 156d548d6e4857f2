//! The side that asks: which addresses there are, and what an answer means.

use crate::api::{ErrorBody, JobResponse, CREATED, NO_CONTENT, OK};
use crate::text::{
    concat, concat3, decimal, decimal_text, signed_decimal, signed_decimal_text, trim_end_char,
    without_trailing,
};
use vstd::prelude::*;

verus! {

/// Where the service is, without slashes at the end.
#[derive(Debug, Clone, PartialEq, Eq)]
pub struct BaseUrl {
    pub text: String,
}

impl BaseUrl {
    pub fn new(base_url: &str) -> (r: Self)
        ensures
            r.text@ == without_trailing(base_url@, '/'),
    {
        BaseUrl { text: trim_end_char(base_url, '/') }
    }

    /// The address of a path.
    pub fn url(&self, path: &str) -> (r: String)
        ensures
            r@ == self.text@ + path@,
    {
        concat(self.text.as_str(), path)
    }

    /// Where the service is asked whether it is up.
    pub fn health_url(&self) -> (r: String)
        ensures
            r@ == self.text@ + "/health"@,
    {
        self.url("/health")
    }

    /// Where jobs are submitted.
    pub fn jobs_url(&self) -> (r: String)
        ensures
            r@ == self.text@ + "/jobs"@,
    {
        self.url("/jobs")
    }

    /// Where a job is asked for.
    pub fn job_url(&self, id: i64) -> (r: String)
        ensures
            r@ == self.text@ + ("/jobs/"@ + signed_decimal(id as int)),
    {
        let digits = signed_decimal_text(id);
        let path = concat("/jobs/", digits.as_str());
        self.url(path.as_str())
    }
}

/// Why a request came to nothing.
#[derive(Debug, Clone, PartialEq, Eq)]
pub enum HttpError {
    /// The request or the answer did not get through.
    Transport(String),
    /// The service answered that it did not do it.
    Api { status: u16, message: String },
}

/// The text of an error.
pub open spec fn http_error_text(error: HttpError) -> Seq<char> {
    match error {
        HttpError::Transport(message) => message@,
        HttpError::Api { status, message } => "maqistor http "@ + decimal(status as nat) + ": "@
            + message@,
    }
}

impl HttpError {
    pub fn to_text(&self) -> (r: String)
        ensures
            r@ == http_error_text(*self),
    {
        match self {
            HttpError::Transport(message) => message.clone(),
            HttpError::Api { status, message } => {
                let digits = decimal_text(*status as u64);
                let head = concat3("maqistor http ", digits.as_str(), ": ");
                concat(head.as_str(), message.as_str())
            },
        }
    }

    /// The error for an answer with a status that was not hoped for. Where its
    /// body cannot be read, the reason for that is told.
    pub fn from_response(status: u16, body: Result<ErrorBody, String>) -> (r: Self)
        ensures
            refuses(r, status, body),
    {
        match body {
            Ok(body) => HttpError::Api { status, message: body.error },
            Err(message) => HttpError::Api { status, message },
        }
    }
}

/// Whether an error is the one for an answer that was not hoped for.
pub open spec fn refuses(error: HttpError, status: u16, body: Result<ErrorBody, String>) -> bool {
    match error {
        HttpError::Api { status: told, message } => told == status && message@ == (match body {
            Ok(body) => body.error@,
            Err(reason) => reason@,
        }),
        HttpError::Transport(_) => false,
    }
}

/// What is asked.
#[derive(Debug, Clone, Copy, PartialEq, Eq, Structural)]
pub enum Question {
    Health,
    Enqueue,
    GetJob,
}

/// The status that means that all went well.
pub open spec fn hoped_for(question: Question) -> u16 {
    match question {
        Question::Health => NO_CONTENT,
        Question::Enqueue => CREATED,
        Question::GetJob => OK,
    }
}

impl Question {
    /// Whether a status means that all went well.
    pub fn succeeded(self, status: u16) -> (r: bool)
        ensures
            r == (status == hoped_for(self)),
    {
        match self {
            Question::Health => status == NO_CONTENT,
            Question::Enqueue => status == CREATED,
            Question::GetJob => status == OK,
        }
    }
}

/// What the answer to a question for a job means. The body is `job` where the
/// status is the one hoped for, and `refusal` where it is not; a body that could
/// not be read is an error of the transport in the first case.
pub fn judge_job(
    question: Question,
    status: u16,
    job: Result<JobResponse, String>,
    refusal: Result<ErrorBody, String>,
) -> (r: Result<JobResponse, HttpError>)
    ensures
        match r {
            Ok(told) => status == hoped_for(question) && job == Ok::<JobResponse, String>(told),
            Err(error) => if status == hoped_for(question) {
                job is Err && error == HttpError::Transport(job->Err_0)
            } else {
                refuses(error, status, refusal)
            },
        },
{
    if question.succeeded(status) {
        match job {
            Ok(told) => Ok(told),
            Err(message) => Err(HttpError::Transport(message)),
        }
    } else {
        Err(HttpError::from_response(status, refusal))
    }
}

/// What the answer to the question means whether the service is up.
pub fn judge_health(status: u16, refusal: Result<ErrorBody, String>) -> (r: Result<(), HttpError>)
    ensures
        match r {
            Ok(()) => status == NO_CONTENT,
            Err(error) => status != NO_CONTENT && refuses(error, status, refusal),
        },
{
    if Question::Health.succeeded(status) {
        Ok(())
    } else {
        Err(HttpError::from_response(status, refusal))
    }
}

/// Each question has one status that means success. Any other is an error that
/// keeps the status and tells what the service said, or why that could not be
/// read.
pub proof fn other_statuses_are_errors(status: u16, body: Result<ErrorBody, String>, error: HttpError)
    requires
        refuses(error, status, body),
    ensures
        hoped_for(Question::Health) == 204,
        hoped_for(Question::Enqueue) == 201,
        hoped_for(Question::GetJob) == 200,
        error matches HttpError::Api { status: told, message } && told == status && (body matches
            Ok(said) ==> message@ == said.error@) && (body matches Err(reason) ==> message@
            == reason@),
{
}

/// How errors read.
pub proof fn errors_are_spelled_out(status: u16, message: String)
    ensures
        http_error_text(HttpError::Transport(message)) == message@,
        http_error_text(HttpError::Api { status, message }) == "maqistor http "@ + decimal(
            status as nat,
        ) + ": "@ + message@,
{
}

} // verus!
