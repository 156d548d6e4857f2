//! The worker's side of a session: what it says, what it does about what it is
//! told, and when it may leave.

use crate::dispatcher::connection::{connections_start_with_a_registration, introduced};
use crate::dispatcher::registry::{
    delivers, heard, instances_distinct, workers_speak_for_themselves, Reaction, RegisteredWorker,
    SessionError,
};
use crate::engine::{JobOutcome, WorkerEvent};
use crate::protocol::{
    protocol_error_text, JobResult, ProtocolError, ProtocolErrorView, WorkerMessage,
};
use crate::span::Span;
use crate::text::{concat, concat3, same_text};
use vstd::prelude::*;

verus! {

/// A dispatched job with its payload decoded.
#[derive(Debug, PartialEq, Eq)]
pub struct Job<T> {
    pub id: i64,
    pub dispatch_id: String,
    pub execution_count: u32,
    pub payload: T,
}

/// Where Maqistor is, and what the worker shows to get in.
#[derive(Debug, Clone, PartialEq, Eq)]
pub struct WorkerConnection {
    pub maqistor_addr: String,
    pub server_name: String,
    pub ca_cert_path: String,
    pub client_cert_path: String,
    pub client_key_path: String,
}

/// Why a session has ended.
#[derive(Debug, PartialEq, Eq)]
pub enum WorkerRunError {
    Stopped,
    Configuration(String),
    Remote { code: String, message: String },
    Protocol(ProtocolError),
    Io(String),
    Tls(String),
}

/// What the end of a session says.
pub enum WorkerRunErrorView {
    Stopped,
    Configuration(Seq<char>),
    Remote(Seq<char>, Seq<char>),
    Protocol(ProtocolErrorView),
    Io(Seq<char>),
    Tls(Seq<char>),
}

impl View for WorkerRunError {
    type V = WorkerRunErrorView;

    open spec fn view(&self) -> WorkerRunErrorView {
        match *self {
            WorkerRunError::Stopped => WorkerRunErrorView::Stopped,
            WorkerRunError::Configuration(reason) => WorkerRunErrorView::Configuration(reason@),
            WorkerRunError::Remote { code, message } => WorkerRunErrorView::Remote(code@, message@),
            WorkerRunError::Protocol(error) => WorkerRunErrorView::Protocol(error@),
            WorkerRunError::Io(reason) => WorkerRunErrorView::Io(reason@),
            WorkerRunError::Tls(reason) => WorkerRunErrorView::Tls(reason@),
        }
    }
}

/// The message of the end of a session.
pub open spec fn run_error_text(error: WorkerRunErrorView) -> Seq<char> {
    match error {
        WorkerRunErrorView::Stopped => "worker stopped"@,
        WorkerRunErrorView::Configuration(reason) => "worker configuration error: "@ + reason,
        WorkerRunErrorView::Remote(code, message) => "remote worker error "@ + code + ": "@
            + message,
        WorkerRunErrorView::Protocol(error) => "protocol error: "@ + protocol_error_text(error),
        WorkerRunErrorView::Io(reason) => "I/O error: "@ + reason,
        WorkerRunErrorView::Tls(reason) => "TLS error: "@ + reason,
    }
}

impl WorkerRunError {
    /// The message that this error displays.
    pub fn to_text(&self) -> (r: String)
        ensures
            r@ == run_error_text(self@),
    {
        match self {
            WorkerRunError::Stopped => "worker stopped".to_owned(),
            WorkerRunError::Configuration(reason) => concat(
                "worker configuration error: ",
                reason.as_str(),
            ),
            WorkerRunError::Remote { code, message } => {
                let head = concat3("remote worker error ", code.as_str(), ": ");
                concat(head.as_str(), message.as_str())
            },
            WorkerRunError::Protocol(error) => {
                let text = error.to_text();
                concat("protocol error: ", text.as_str())
            },
            WorkerRunError::Io(reason) => concat("I/O error: ", reason.as_str()),
            WorkerRunError::Tls(reason) => concat("TLS error: ", reason.as_str()),
        }
    }
}

/// Whether a message opens a session of an idle worker for `queue_name` that
/// runs up to `concurrency` jobs at a time.
pub open spec fn opens(
    message: WorkerMessage,
    instance_id: u128,
    queue_name: Seq<char>,
    concurrency: u32,
) -> bool {
    match message {
        WorkerMessage::Register { instance_id: id, queue_name: name, running_jobs, free_slots } => {
            &&& id == instance_id
            &&& name@ == queue_name
            &&& running_jobs == 0
            &&& free_slots == concurrency
        },
        _ => false,
    }
}

/// Whether a message reports `result` of a job under its token, from a worker of
/// `concurrency` slots of which `free_slots` are free.
pub open spec fn reports(
    message: WorkerMessage,
    concurrency: u32,
    free_slots: u32,
    job_id: i64,
    dispatch_id: String,
    result: Result<Vec<u8>, String>,
) -> bool {
    match message {
        WorkerMessage::JobResult {
            job_id: id,
            dispatch_id: token,
            result: told,
            running_jobs,
            free_slots: free,
        } => {
            &&& id == job_id
            &&& token == dispatch_id
            &&& free == free_slots
            &&& running_jobs == (if free_slots <= concurrency {
                concurrency - free_slots
            } else {
                0
            })
            &&& match (told, result) {
                (JobResult::Succeeded { payload }, Ok(done)) => payload == done,
                (JobResult::Failed { message: reason }, Err(why)) => reason == why,
                _ => false,
            }
        },
        _ => false,
    }
}

/// Whether a step runs the job that a message brings.
pub open spec fn runs(step: SessionStep, message: WorkerMessage) -> bool {
    match (step, message) {
        (
            SessionStep::Run { job_id, dispatch_id, execution_count, payload },
            WorkerMessage::JobDispatch {
                job_id: sent_id,
                dispatch_id: sent_token,
                execution_count: sent_count,
                payload: sent,
            },
        ) => {
            &&& job_id == sent_id
            &&& dispatch_id == sent_token
            &&& execution_count == sent_count
            &&& payload == sent
        },
        _ => false,
    }
}

/// The message that opens a session: the worker is idle, with all its slots
/// free.
pub fn registration(instance_id: u128, queue_name: &str, concurrency: u32) -> (r: WorkerMessage)
    ensures
        match r {
            WorkerMessage::Register { instance_id: id, queue_name: name, running_jobs, free_slots } => {
                &&& id == instance_id
                &&& name@ == queue_name@
                &&& running_jobs == 0
                &&& free_slots == concurrency
            },
            _ => false,
        },
        opens(r, instance_id, queue_name@, concurrency),
{
    WorkerMessage::Register {
        instance_id,
        queue_name: queue_name.to_owned(),
        running_jobs: 0,
        free_slots: concurrency,
    }
}

/// The message that reports what a job came to, with the worker's complete
/// account of its capacity.
pub fn report(
    concurrency: u32,
    free_slots: u32,
    job_id: i64,
    dispatch_id: String,
    result: Result<Vec<u8>, String>,
) -> (r: WorkerMessage)
    ensures
        r == (WorkerMessage::JobResult {
            job_id,
            dispatch_id,
            result: match result {
                Ok(payload) => JobResult::Succeeded { payload },
                Err(message) => JobResult::Failed { message },
            },
            running_jobs: if free_slots <= concurrency {
                (concurrency - free_slots) as u32
            } else {
                0
            },
            free_slots,
        }),
        reports(r, concurrency, free_slots, job_id, dispatch_id, result),
{
    let result = match result {
        Ok(payload) => JobResult::Succeeded { payload },
        Err(message) => JobResult::Failed { message },
    };
    WorkerMessage::JobResult {
        job_id,
        dispatch_id,
        result,
        running_jobs: concurrency.saturating_sub(free_slots),
        free_slots,
    }
}

/// What is reported of a job whose payload cannot be decoded.
pub fn invalid_payload(reason: &str) -> (r: String)
    ensures
        r@ == "invalid job payload: "@ + reason@,
{
    concat("invalid job payload: ", reason)
}

/// How far a session has come.
#[derive(Debug, Clone, Copy, PartialEq, Eq, Structural)]
pub enum SessionState {
    /// Jobs are taken.
    Serving,
    /// The worker has asked for no more jobs. Some may still be on their way.
    AwaitingDrain,
    /// No more jobs will come. Those that are there are finished.
    Draining,
}

/// A session.
pub struct Session {
    pub queue_name: String,
    pub state: SessionState,
    /// How many jobs are under way.
    pub jobs: u64,
}

/// What to do about a message.
#[derive(Debug, PartialEq, Eq)]
pub enum SessionStep {
    /// Nothing.
    Continue,
    /// Run this job.
    Run { job_id: i64, dispatch_id: String, execution_count: u32, payload: Vec<u8> },
}

/// What a job that was run came to.
#[derive(Debug, PartialEq, Eq)]
pub enum JobEnd {
    /// Its result was reported.
    Reported,
    /// Its result could not be reported.
    Failed(WorkerRunError),
    /// It did not come to an end.
    Aborted,
}

/// Whether a message is one that a session in `state` may be told.
pub open spec fn expected(queue_name: Seq<char>, state: SessionState, message: WorkerMessage) -> bool {
    match message {
        WorkerMessage::Registered { queue_name: registered } => registered@ == queue_name,
        WorkerMessage::JobDispatch { .. } => state != SessionState::Draining,
        WorkerMessage::Draining => state == SessionState::AwaitingDrain,
        WorkerMessage::Heartbeat => true,
        _ => false,
    }
}

impl Session {
    /// A session for `queue_name` that has just been opened.
    pub fn new(queue_name: &str) -> (r: Self)
        ensures
            r.queue_name@ == queue_name@,
            r.state == SessionState::Serving,
            r.jobs == 0,
    {
        Session { queue_name: queue_name.to_owned(), state: SessionState::Serving, jobs: 0 }
    }

    /// Whether the session may end well: no more jobs will come, and those
    /// that came are finished.
    pub open spec fn done(self) -> bool {
        self.state == SessionState::Draining && self.jobs == 0
    }

    /// Whether `step` leads from this session to `after`.
    pub open spec fn makes(self, step: SessionMove, after: Session) -> bool {
        moved(self.state, self.jobs as int, step) == Some((after.state, after.jobs as int))
    }

    pub fn is_done(&self) -> (r: bool)
        ensures
            r == self.done(),
    {
        self.state == SessionState::Draining && self.jobs == 0
    }

    /// Whether a request to shut down is still listened for.
    pub fn may_shut_down(&self) -> (r: bool)
        ensures
            r == (self.state == SessionState::Serving),
    {
        self.state == SessionState::Serving
    }

    /// Takes a request to shut down, and gives the message to be sent.
    pub fn shut_down(&mut self) -> (r: WorkerMessage)
        requires
            old(self).state == SessionState::Serving,
        ensures
            r == WorkerMessage::Drain,
            *final(self) == (Session { state: SessionState::AwaitingDrain, ..*old(self) }),
            old(self).makes(SessionMove::ShutDown, *final(self)),
    {
        self.state = SessionState::AwaitingDrain;
        WorkerMessage::Drain
    }

    /// Notes that a job has ended. One whose result was not reported ends the
    /// session.
    pub fn job_ended(&mut self, end: JobEnd) -> (r: Result<(), WorkerRunError>)
        requires
            old(self).jobs > 0,
        ensures
            *final(self) == (Session { jobs: (old(self).jobs - 1) as u64, ..*old(self) }),
            old(self).makes(SessionMove::Ended, *final(self)),
            r == (match end {
                JobEnd::Reported => Ok(()),
                JobEnd::Failed(error) => Err(error),
                JobEnd::Aborted => Err(WorkerRunError::Stopped),
            }),
    {
        self.jobs = self.jobs - 1;
        match end {
            JobEnd::Reported => Ok(()),
            JobEnd::Failed(error) => Err(error),
            JobEnd::Aborted => Err(WorkerRunError::Stopped),
        }
    }

    /// Decides what to do about a message. A job is run unless no more should
    /// have come; the acknowledgement of a drain is awaited; an error from the
    /// other side ends the session, and so does anything unexpected.
    pub fn on_message(&mut self, message: WorkerMessage) -> (r: Result<SessionStep, WorkerRunError>)
        requires
            old(self).jobs < u64::MAX,
        ensures
            final(self).queue_name == old(self).queue_name,
            message is JobDispatch ==> (r matches Ok(step) ==> runs(step, message)),
            r matches Ok(step) ==> {
                ||| message is JobDispatch && old(self).makes(SessionMove::Started, *final(self))
                ||| message is Draining && old(self).makes(SessionMove::Acknowledged, *final(self))
                ||| *final(self) == *old(self)
            },
            match message {
                WorkerMessage::Error { code, message } => {
                    &&& r == Err::<SessionStep, WorkerRunError>(
                        WorkerRunError::Remote { code, message },
                    )
                    &&& *final(self) == *old(self)
                },
                _ => {
                    &&& !expected(old(self).queue_name@, old(self).state, message) ==> {
                        &&& r is Err
                        &&& r->Err_0@ == WorkerRunErrorView::Configuration(
                            "unexpected worker frame"@,
                        )
                        &&& *final(self) == *old(self)
                    }
                    &&& expected(old(self).queue_name@, old(self).state, message) ==> {
                        &&& r is Ok
                        &&& match message {
                            WorkerMessage::JobDispatch {
                                job_id,
                                dispatch_id,
                                execution_count,
                                payload,
                            } => {
                                &&& r->Ok_0 == (SessionStep::Run {
                                    job_id,
                                    dispatch_id,
                                    execution_count,
                                    payload,
                                })
                                &&& *final(self) == (Session {
                                    jobs: (old(self).jobs + 1) as u64,
                                    ..*old(self)
                                })
                            },
                            WorkerMessage::Draining => {
                                &&& r->Ok_0 == SessionStep::Continue
                                &&& *final(self) == (Session {
                                    state: SessionState::Draining,
                                    ..*old(self)
                                })
                            },
                            _ => r->Ok_0 == SessionStep::Continue && *final(self) == *old(self),
                        }
                    }
                },
            },
    {
        match message {
            WorkerMessage::Registered { queue_name } => if same_text(
                queue_name.as_str(),
                self.queue_name.as_str(),
            ) {
                return Ok(SessionStep::Continue);
            },
            WorkerMessage::JobDispatch { job_id, dispatch_id, execution_count, payload } => {
                if self.state != SessionState::Draining {
                    self.jobs = self.jobs + 1;
                    return Ok(SessionStep::Run { job_id, dispatch_id, execution_count, payload });
                }
            },
            WorkerMessage::Draining => {
                if self.state == SessionState::AwaitingDrain {
                    self.state = SessionState::Draining;
                    return Ok(SessionStep::Continue);
                }
            },
            WorkerMessage::Error { code, message } => {
                return Err(WorkerRunError::Remote { code, message });
            },
            WorkerMessage::Heartbeat => {
                return Ok(SessionStep::Continue);
            },
            _ => {},
        }
        Err(WorkerRunError::Configuration("unexpected worker frame".to_owned()))
    }
}

/// How a session moves.
pub enum SessionMove {
    ShutDown,
    Started,
    Acknowledged,
    Ended,
}

/// The state and the number of jobs after a move, where the move is possible.
pub open spec fn moved(state: SessionState, jobs: int, step: SessionMove) -> Option<
    (SessionState, int),
> {
    match step {
        SessionMove::ShutDown => if state == SessionState::Serving {
            Some((SessionState::AwaitingDrain, jobs))
        } else {
            None
        },
        SessionMove::Started => if state != SessionState::Draining {
            Some((state, jobs + 1))
        } else {
            None
        },
        SessionMove::Acknowledged => if state == SessionState::AwaitingDrain {
            Some((SessionState::Draining, jobs))
        } else {
            None
        },
        SessionMove::Ended => if jobs > 0 {
            Some((state, jobs - 1))
        } else {
            None
        },
    }
}

/// The state and the number of jobs after several moves, where all of them
/// are possible.
pub open spec fn moved_through(steps: Seq<SessionMove>) -> Option<(SessionState, int)>
    decreases steps.len(),
{
    if steps.len() == 0 {
        Some((SessionState::Serving, 0))
    } else {
        match moved_through(steps.drop_last()) {
            Some((state, jobs)) => moved(state, jobs, steps.last()),
            None => None,
        }
    }
}

/// How often a move of one kind was made.
pub open spec fn count_of(steps: Seq<SessionMove>, started: bool) -> int
    decreases steps.len(),
{
    if steps.len() == 0 {
        0
    } else {
        count_of(steps.drop_last(), started) + if (started && steps.last() is Started) || (!started
            && steps.last() is Ended) {
            1int
        } else {
            0int
        }
    }
}

/// Draining finishes what was begun: whenever a session may end well, it was
/// asked to shut down, that was acknowledged, and every job that was started
/// has ended, those that came before the acknowledgement among them.
pub proof fn drained_sessions_finished_every_job(steps: Seq<SessionMove>)
    ensures
        moved_through(steps) matches Some((state, jobs)) ==> {
            &&& jobs == count_of(steps, true) - count_of(steps, false)
            &&& jobs >= 0
            &&& state == SessionState::Draining && jobs == 0 ==> count_of(steps, true) == count_of(
                steps,
                false,
            )
            &&& state != SessionState::Serving ==> exists|i: int|
                0 <= i < steps.len() && #[trigger] steps[i] is ShutDown
            &&& state == SessionState::Draining ==> exists|i: int|
                0 <= i < steps.len() && #[trigger] steps[i] is Acknowledged
        },
    decreases steps.len(),
{
    if steps.len() > 0 {
        let fewer = steps.drop_last();
        drained_sessions_finished_every_job(fewer);
        if moved_through(steps) is Some {
            let (state, jobs) = moved_through(fewer)->Some_0;
            if state != SessionState::Serving {
                let i = choose|i: int| 0 <= i < fewer.len() && #[trigger] fewer[i] is ShutDown;
                assert(steps[i] is ShutDown);
            } else if steps.last() is ShutDown {
                assert(steps[steps.len() - 1] is ShutDown);
            }
            if state == SessionState::Draining {
                let i = choose|i: int| 0 <= i < fewer.len() && #[trigger] fewer[i] is Acknowledged;
                assert(steps[i] is Acknowledged);
            } else if steps.last() is Acknowledged {
                assert(steps[steps.len() - 1] is Acknowledged);
            }
        }
    }
}

/// What a session may be told: that it is registered for its own queue; jobs,
/// until a drain has been acknowledged; that acknowledgement, once it has asked
/// for it; and heartbeats. Nothing else.
pub proof fn sessions_are_told_what_they_expect(
    queue_name: Seq<char>,
    state: SessionState,
    message: WorkerMessage,
)
    ensures
        expected(queue_name, state, message) <==> match message {
            WorkerMessage::Registered { queue_name: registered } => registered@ == queue_name,
            WorkerMessage::JobDispatch { .. } => state == SessionState::Serving || state
                == SessionState::AwaitingDrain,
            WorkerMessage::Draining => state == SessionState::AwaitingDrain,
            WorkerMessage::Heartbeat => true,
            WorkerMessage::Register { .. } => false,
            WorkerMessage::JobResult { .. } => false,
            WorkerMessage::Drain => false,
            WorkerMessage::Error { .. } => false,
        },
{
}

/// A session asks for a drain once, takes jobs until the drain is
/// acknowledged, and then only finishes those it has.
pub proof fn sessions_drain_in_order(state: SessionState, jobs: int)
    ensures
        moved(state, jobs, SessionMove::ShutDown) is Some <==> state == SessionState::Serving,
        state == SessionState::Serving ==> moved(state, jobs, SessionMove::ShutDown) == Some(
            (SessionState::AwaitingDrain, jobs),
        ),
        moved(state, jobs, SessionMove::Acknowledged) is Some <==> state
            == SessionState::AwaitingDrain,
        state == SessionState::AwaitingDrain ==> moved(state, jobs, SessionMove::Acknowledged)
            == Some((SessionState::Draining, jobs)),
        moved(state, jobs, SessionMove::Started) is Some <==> state != SessionState::Draining,
        state != SessionState::Draining ==> moved(state, jobs, SessionMove::Started) == Some(
            (state, jobs + 1),
        ),
        jobs > 0 ==> moved(state, jobs, SessionMove::Ended) == Some((state, jobs - 1)),
        jobs <= 0 ==> moved(state, jobs, SessionMove::Ended) is None,
{
}

/// A session may end well exactly if the drain was acknowledged and no job is
/// left.
pub proof fn sessions_end_without_jobs(session: Session)
    ensures
        session.done() <==> session.state == SessionState::Draining && session.jobs == 0,
{
}

/// How the end of a session reads.
pub proof fn ends_are_spelled_out(a: Seq<char>, b: Seq<char>, error: ProtocolErrorView)
    ensures
        run_error_text(WorkerRunErrorView::Stopped) == "worker stopped"@,
        run_error_text(WorkerRunErrorView::Configuration(a)) == "worker configuration error: "@ + a,
        run_error_text(WorkerRunErrorView::Remote(a, b)) == "remote worker error "@ + a + ": "@ + b,
        run_error_text(WorkerRunErrorView::Protocol(error)) == "protocol error: "@
            + protocol_error_text(error),
        run_error_text(WorkerRunErrorView::Io(a)) == "I/O error: "@ + a,
        run_error_text(WorkerRunErrorView::Tls(a)) == "TLS error: "@ + a,
{
}

/// A job is run as it was sent: what a worker runs for a message that takes a
/// job to it is that job, under its token and with its payload.
pub proof fn jobs_are_run_as_they_were_sent(
    job: crate::engine::types::Job,
    message: WorkerMessage,
    step: SessionStep,
)
    requires
        delivers(message, job),
        runs(step, message),
    ensures
        match step {
            SessionStep::Run { job_id, dispatch_id, execution_count, payload } => {
                &&& job_id == job.id
                &&& job.dispatch_id == Some(dispatch_id)
                &&& execution_count == job.execution_count
                &&& payload == job.payload
            },
            SessionStep::Continue => false,
        },
{
}

/// A worker that opens a session for a queue that is allowed is taken to be
/// idle: everything it can run at a time is free, and nothing is running.
pub proof fn sessions_open_idle(
    before: Seq<RegisteredWorker>,
    allowed: Seq<Seq<char>>,
    message: WorkerMessage,
    instance_id: u128,
    queue_name: Seq<char>,
    concurrency: u32,
    now: Span,
    after: Seq<RegisteredWorker>,
    instance: Option<u128>,
    result: Result<Reaction, SessionError>,
)
    requires
        opens(message, instance_id, queue_name, concurrency),
        introduced(before, allowed, message, now, after, instance, result),
        result is Ok,
    ensures
        instance == Some(instance_id),
        after.last().instance_id == instance_id,
        after.last().state.queue_name@ == queue_name,
        after.last().state.running_jobs == 0,
        after.last().state.free_slots == concurrency,
        after.last().state.reserved_slots == 0,
        !after.last().state.draining,
{
    connections_start_with_a_registration(
        before,
        allowed,
        message,
        now,
        after,
        instance,
        result,
    );
}

/// A report reaches the engine as the worker meant it: the same job, token and
/// outcome. The worker is then on record with the slots it has free, and with all
/// its others running.
pub proof fn reports_arrive_as_they_were_meant(
    before: Seq<RegisteredWorker>,
    at: int,
    message: WorkerMessage,
    concurrency: u32,
    free_slots: u32,
    job_id: i64,
    dispatch_id: String,
    outcome: Result<Vec<u8>, String>,
    now: Span,
    after: Seq<RegisteredWorker>,
    result: Result<Reaction, SessionError>,
)
    requires
        instances_distinct(before),
        0 <= at < before.len(),
        free_slots <= concurrency,
        reports(message, concurrency, free_slots, job_id, dispatch_id, outcome),
        heard(before, before[at].instance_id, message, now, after, result),
    ensures
        after[at].state.free_slots == free_slots,
        after[at].state.running_jobs + free_slots == concurrency,
        result is Ok,
        match result->Ok_0.event {
            Some(WorkerEvent::Result { queue_name, result: told }) => {
                &&& queue_name == before[at].state.queue_name
                &&& told.job_id == job_id
                &&& told.dispatch_id == dispatch_id
                &&& match (told.outcome, outcome) {
                    (JobOutcome::Succeeded(payload), Ok(done)) => payload == done,
                    (JobOutcome::Failed(reason), Err(why)) => reason == why,
                    _ => false,
                }
            },
            _ => false,
        },
{
    workers_speak_for_themselves(before, at, message, now, after, result);
}

} // verus!
