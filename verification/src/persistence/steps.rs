//! How the operations that touch both databases go, step by step: each step asks
//! one database for one thing, and what it answers decides about the next.

use crate::engine::types::{
    is_text, merged_job, AcceptedJob, AcceptedJobView, Execution, ExecutionView, Job, JobModel,
    StoreError, StoreErrorView,
};
use crate::engine::JobOutcome;
use crate::persistence::ingest::{
    all_repended, job_of, pair_views, repended, IngestClaimed, IngestClaimedView, IngestView,
};
use crate::persistence::queues::{lemma_views_push, views, MAX_TIMEOUT_SECS};
use crate::persistence::results::{
    abandoned_rows, disposition, execution_of, recovered_stale, settle_chunk,
    Completion, CompletionDisposition, CompletionView, DispatchInsert, DispatchInsertView, DispatchedExecution,
    DispatchedExecutionView, RecoveredStale, RecoveredStaleView, ResultsView,
};
use crate::persistence::store::{
    after_expiry, after_release, after_report, claim_pairs, complete_reply, dispatch_rows,
    dispatches_of, flag_reply, follow_up, jobs_from_claimed, jobs_reply, lemma_follow_up_ends,
    lemma_single_report, merge_job, optional_job_reply, release_reply, running_jobs, SplitStore,
    StoreView,
};
use vstd::prelude::*;

verus! {

/// What one of the databases is asked.
pub enum StoreCall {
    /// Claim jobs.
    Claim { queue_name: String, limit: usize },
    /// Start attempts.
    Dispatch { rows: Vec<DispatchInsert> },
    /// Apply a report.
    Complete { job_id: i64, dispatch_id: String, outcome: JobOutcome },
    /// Give up an attempt.
    Abandon { job_id: i64, dispatch_id: String },
    /// Fail the attempts whose lease has run out.
    RecoverStale { now: i64 },
    /// Make a job available again.
    Repend { job_id: i64, dispatch_id: String },
    /// Read a job.
    Accepted { job_id: i64 },
    /// Read the attempt at a job.
    Execution { job_id: i64 },
}

/// What a database is asked, as plain values.
pub enum CallModel {
    Claim { queue_name: Seq<char>, limit: int },
    Dispatch { rows: Seq<DispatchInsertView> },
    Complete { item: CompletionView },
    Abandon { job_id: int, dispatch_id: Seq<char> },
    RecoverStale { now: i64 },
    Repend { job_id: int, dispatch_id: Seq<char> },
    Accepted { job_id: int },
    Execution { job_id: int },
}

impl View for StoreCall {
    type V = CallModel;

    open spec fn view(&self) -> CallModel {
        match *self {
            StoreCall::Claim { queue_name, limit } => CallModel::Claim {
                queue_name: queue_name@,
                limit: limit as int,
            },
            StoreCall::Dispatch { rows } => CallModel::Dispatch { rows: views(rows@) },
            StoreCall::Complete { job_id, dispatch_id, outcome } => CallModel::Complete {
                item: CompletionView {
                    job_id: job_id as int,
                    dispatch_id: dispatch_id@,
                    outcome: outcome@,
                },
            },
            StoreCall::Abandon { job_id, dispatch_id } => CallModel::Abandon {
                job_id: job_id as int,
                dispatch_id: dispatch_id@,
            },
            StoreCall::RecoverStale { now } => CallModel::RecoverStale { now },
            StoreCall::Repend { job_id, dispatch_id } => CallModel::Repend {
                job_id: job_id as int,
                dispatch_id: dispatch_id@,
            },
            StoreCall::Accepted { job_id } => CallModel::Accepted { job_id: job_id as int },
            StoreCall::Execution { job_id } => CallModel::Execution { job_id: job_id as int },
        }
    }
}

/// What a database answers.
pub enum StoreAnswer {
    Claimed(Result<Vec<IngestClaimed>, StoreError>),
    Dispatched(Result<Vec<DispatchedExecution>, StoreError>),
    Completed(Result<CompletionDisposition, StoreError>),
    Abandoned(Result<(), StoreError>),
    Recovered(Result<Vec<RecoveredStale>, StoreError>),
    Repended(Result<(), StoreError>),
    Accepted(Result<AcceptedJob, StoreError>),
    Execution(Result<Option<Execution>, StoreError>),
}

/// What a database answers, as plain values.
pub enum AnswerModel {
    Claimed(Result<Seq<IngestClaimedView>, StoreErrorView>),
    Dispatched(Result<Seq<DispatchedExecutionView>, StoreErrorView>),
    Completed(Result<CompletionDisposition, StoreErrorView>),
    Abandoned(Result<(), StoreErrorView>),
    Recovered(Result<Seq<RecoveredStaleView>, StoreErrorView>),
    Repended(Result<(), StoreErrorView>),
    Accepted(Result<AcceptedJobView, StoreErrorView>),
    Execution(Result<Option<ExecutionView>, StoreErrorView>),
}

/// What a result with several values says.
pub open spec fn all_or_error<T: View>(r: Result<Vec<T>, StoreError>) -> Result<
    Seq<T::V>,
    StoreErrorView,
> {
    match r {
        Ok(values) => Ok(views(values@)),
        Err(error) => Err(error@),
    }
}

/// What a result without a value says.
pub open spec fn done_or_error(r: Result<(), StoreError>) -> Result<(), StoreErrorView> {
    match r {
        Ok(()) => Ok(()),
        Err(error) => Err(error@),
    }
}

impl View for StoreAnswer {
    type V = AnswerModel;

    open spec fn view(&self) -> AnswerModel {
        match *self {
            StoreAnswer::Claimed(r) => AnswerModel::Claimed(all_or_error(r)),
            StoreAnswer::Dispatched(r) => AnswerModel::Dispatched(all_or_error(r)),
            StoreAnswer::Completed(r) => AnswerModel::Completed(
                match r {
                    Ok(disposition) => Ok(disposition),
                    Err(error) => Err(error@),
                },
            ),
            StoreAnswer::Abandoned(r) => AnswerModel::Abandoned(done_or_error(r)),
            StoreAnswer::Recovered(r) => AnswerModel::Recovered(all_or_error(r)),
            StoreAnswer::Repended(r) => AnswerModel::Repended(done_or_error(r)),
            StoreAnswer::Accepted(r) => AnswerModel::Accepted(
                match r {
                    Ok(job) => Ok(job@),
                    Err(error) => Err(error@),
                },
            ),
            StoreAnswer::Execution(r) => AnswerModel::Execution(
                match r {
                    Ok(Some(execution)) => Ok(Some(execution@)),
                    Ok(None) => Ok(None),
                    Err(error) => Err(error@),
                },
            ),
        }
    }
}

/// What an operation answers.
pub enum StoreReply {
    Job(Result<Option<Job>, StoreError>),
    Jobs(Result<Vec<Job>, StoreError>),
    Flag(Result<bool, StoreError>),
}

/// What an operation answers, as plain values.
pub enum ReplyModel {
    Job(Result<Option<JobModel>, StoreErrorView>),
    Jobs(Result<Seq<JobModel>, StoreErrorView>),
    Flag(Result<bool, StoreErrorView>),
}

impl View for StoreReply {
    type V = ReplyModel;

    open spec fn view(&self) -> ReplyModel {
        match *self {
            StoreReply::Job(r) => ReplyModel::Job(optional_job_reply(r)),
            StoreReply::Jobs(r) => ReplyModel::Jobs(jobs_reply(r)),
            StoreReply::Flag(r) => ReplyModel::Flag(flag_reply(r)),
        }
    }
}

/// Jobs that are made available again, as far as they should be, and then read.
pub struct FollowUp {
    pub items: Vec<RecoveredStale>,
    /// Which of them it is the turn of.
    pub at: usize,
    /// The jobs that have been read.
    pub done: Vec<Job>,
    /// Whether there is one job, and the answer is that job.
    pub single: bool,
}

/// The jobs that are still to be followed up, and those that have been.
#[verifier::ext_equal]
pub struct FollowModel {
    pub items: Seq<RecoveredStaleView>,
    pub done: Seq<JobModel>,
    pub single: bool,
}

impl View for FollowUp {
    type V = FollowModel;

    open spec fn view(&self) -> FollowModel {
        FollowModel {
            items: views(self.items@).skip(self.at as int),
            done: views(self.done@),
            single: self.single,
        }
    }
}

/// An operation that waits for an answer.
pub enum StoreTask {
    /// Jobs are being claimed.
    Claim,
    /// Attempts at claimed jobs are being started.
    Start { claimed: Vec<IngestClaimed> },
    /// A claim is being undone, and those from `at` on are still to be.
    Undo { pairs: Vec<(i64, String)>, at: usize, error: StoreError },
    /// A report is being applied. The answer is the job, or else whether it is
    /// available again.
    Report { job_id: i64, dispatch_id: String, full: bool },
    /// The job is being looked at whose claim is given back.
    Check { job_id: i64, dispatch_id: String },
    /// Its attempt is being given up.
    Abandon { job_id: i64, dispatch_id: String },
    /// A job is being made available again.
    Free,
    /// Attempts whose lease has run out are being failed.
    Recover,
    /// The job at hand is being made available again.
    FreeItem { follow: FollowUp },
    /// The job at hand is being read.
    ReadItem { follow: FollowUp },
    /// The attempt at it is being read.
    MergeItem { follow: FollowUp, accepted: AcceptedJob },
}

/// What an operation that waits knows.
pub enum TaskModel {
    Claim,
    Start { claimed: Seq<IngestClaimedView> },
    Undo { pairs: Seq<(int, Seq<char>)>, error: StoreErrorView },
    Report { job_id: int, dispatch_id: Seq<char>, full: bool },
    Check { job_id: int, dispatch_id: Seq<char> },
    Abandon { job_id: int, dispatch_id: Seq<char> },
    Free,
    Recover,
    FreeItem { follow: FollowModel },
    ReadItem { follow: FollowModel },
    MergeItem { follow: FollowModel, accepted: AcceptedJobView },
}

impl View for StoreTask {
    type V = TaskModel;

    open spec fn view(&self) -> TaskModel {
        match *self {
            StoreTask::Claim => TaskModel::Claim,
            StoreTask::Start { claimed } => TaskModel::Start { claimed: views(claimed@) },
            StoreTask::Undo { pairs, at, error } => TaskModel::Undo {
                pairs: pair_views(pairs@).skip(at as int),
                error: error@,
            },
            StoreTask::Report { job_id, dispatch_id, full } => TaskModel::Report {
                job_id: job_id as int,
                dispatch_id: dispatch_id@,
                full,
            },
            StoreTask::Check { job_id, dispatch_id } => TaskModel::Check {
                job_id: job_id as int,
                dispatch_id: dispatch_id@,
            },
            StoreTask::Abandon { job_id, dispatch_id } => TaskModel::Abandon {
                job_id: job_id as int,
                dispatch_id: dispatch_id@,
            },
            StoreTask::Free => TaskModel::Free,
            StoreTask::Recover => TaskModel::Recover,
            StoreTask::FreeItem { follow } => TaskModel::FreeItem { follow: follow@ },
            StoreTask::ReadItem { follow } => TaskModel::ReadItem { follow: follow@ },
            StoreTask::MergeItem { follow, accepted } => TaskModel::MergeItem {
                follow: follow@,
                accepted: accepted@,
            },
        }
    }
}

/// What an operation does next.
pub enum StoreStep {
    /// Make the call, and take the step that its answer leads to.
    Call { call: StoreCall, task: StoreTask },
    /// The operation is over.
    Reply(StoreReply),
}

/// What an operation does next, as plain values.
pub enum StepModel {
    Call { call: CallModel, task: TaskModel },
    Reply(ReplyModel),
}

impl View for StoreStep {
    type V = StepModel;

    open spec fn view(&self) -> StepModel {
        match *self {
            StoreStep::Call { call, task } => StepModel::Call { call: call@, task: task@ },
            StoreStep::Reply(reply) => StepModel::Reply(reply@),
        }
    }
}

/// The answer of a follow-up that an error ends.
pub open spec fn failed_follow_up(single: bool, error: StoreErrorView) -> StepModel {
    if single {
        StepModel::Reply(ReplyModel::Job(Err(error)))
    } else {
        StepModel::Reply(ReplyModel::Jobs(Err(error)))
    }
}

/// What a follow-up does for the next job, or answers after the last.
pub open spec fn followed(follow: FollowModel) -> StepModel {
    if follow.items.len() > 0 {
        let item = follow.items[0];
        if item.should_repend {
            StepModel::Call {
                call: CallModel::Repend { job_id: item.job_id, dispatch_id: item.dispatch_id },
                task: TaskModel::FreeItem { follow },
            }
        } else {
            StepModel::Call {
                call: CallModel::Accepted { job_id: item.job_id },
                task: TaskModel::ReadItem { follow },
            }
        }
    } else if follow.single {
        StepModel::Reply(
            ReplyModel::Job(
                Ok(
                    if follow.done.len() > 0 {
                        Some(follow.done.last())
                    } else {
                        None
                    },
                ),
            ),
        )
    } else {
        StepModel::Reply(ReplyModel::Jobs(Ok(follow.done)))
    }
}

/// How claims are undone after `error`: one by one, whatever comes of it.
pub open spec fn undone(pairs: Seq<(int, Seq<char>)>, error: StoreErrorView) -> StepModel {
    if pairs.len() > 0 {
        StepModel::Call {
            call: CallModel::Repend { job_id: pairs[0].0, dispatch_id: pairs[0].1 },
            task: TaskModel::Undo { pairs: pairs.skip(1), error },
        }
    } else {
        StepModel::Reply(ReplyModel::Jobs(Err(error)))
    }
}

/// Whether an answer is one to the call that an operation waits for.
pub open spec fn is_answer(task: TaskModel, answer: AnswerModel) -> bool {
    match task {
        TaskModel::Claim => answer matches AnswerModel::Claimed(r) && (r matches Ok(claimed)
            ==> forall|i: int|
            0 <= i < claimed.len() ==> (#[trigger] claimed[i]).timeout_secs <= MAX_TIMEOUT_SECS),
        TaskModel::Start { .. } => answer is Dispatched,
        TaskModel::Undo { .. } => answer is Repended,
        TaskModel::Report { .. } => answer is Completed,
        TaskModel::Check { .. } => answer is Accepted,
        TaskModel::Abandon { .. } => answer is Abandoned,
        TaskModel::Free => answer is Repended,
        TaskModel::Recover => answer is Recovered,
        TaskModel::FreeItem { .. } => answer is Repended,
        TaskModel::ReadItem { .. } => answer is Accepted,
        TaskModel::MergeItem { .. } => answer is Execution,
    }
}

/// The step that an answer at `now` leads to.
pub open spec fn next_step(task: TaskModel, answer: AnswerModel, now: int) -> StepModel {
    match (task, answer) {
        (TaskModel::Claim, AnswerModel::Claimed(r)) => match r {
            Ok(claimed) => if claimed.len() == 0 {
                StepModel::Reply(ReplyModel::Jobs(Ok(Seq::empty())))
            } else {
                StepModel::Call {
                    call: CallModel::Dispatch { rows: dispatches_of(claimed, now) },
                    task: TaskModel::Start { claimed },
                }
            },
            Err(error) => StepModel::Reply(ReplyModel::Jobs(Err(error))),
        },
        (TaskModel::Start { claimed }, AnswerModel::Dispatched(r)) => match r {
            Ok(started) => StepModel::Reply(ReplyModel::Jobs(Ok(running_jobs(claimed, started)))),
            Err(error) => undone(claim_pairs(claimed), error),
        },
        (TaskModel::Undo { pairs, error }, AnswerModel::Repended(_)) => undone(pairs, error),
        (
            TaskModel::Report { job_id, dispatch_id, full },
            AnswerModel::Completed(r),
        ) => match r {
            Ok(verdict) => if full {
                if verdict == CompletionDisposition::Ignored {
                    StepModel::Reply(ReplyModel::Job(Ok(None)))
                } else {
                    followed(
                        FollowModel {
                            items: seq![
                                RecoveredStaleView {
                                    job_id,
                                    dispatch_id,
                                    should_repend: verdict == CompletionDisposition::Repend,
                                },
                            ],
                            done: Seq::empty(),
                            single: true,
                        },
                    )
                }
            } else if verdict == CompletionDisposition::Repend {
                StepModel::Call {
                    call: CallModel::Repend { job_id, dispatch_id },
                    task: TaskModel::Free,
                }
            } else {
                StepModel::Reply(ReplyModel::Flag(Ok(false)))
            },
            Err(error) => if full {
                StepModel::Reply(ReplyModel::Job(Err(error)))
            } else {
                StepModel::Reply(ReplyModel::Flag(Err(error)))
            },
        },
        (TaskModel::Check { job_id, dispatch_id }, AnswerModel::Accepted(r)) => match r {
            Ok(accepted) => if accepted.dispatch_id == Some(dispatch_id) {
                StepModel::Call {
                    call: CallModel::Abandon { job_id, dispatch_id },
                    task: TaskModel::Abandon { job_id, dispatch_id },
                }
            } else {
                StepModel::Reply(ReplyModel::Flag(Ok(false)))
            },
            Err(error) => StepModel::Reply(ReplyModel::Flag(Err(error))),
        },
        (TaskModel::Abandon { job_id, dispatch_id }, AnswerModel::Abandoned(r)) => match r {
            Ok(()) => StepModel::Call {
                call: CallModel::Repend { job_id, dispatch_id },
                task: TaskModel::Free,
            },
            Err(error) => StepModel::Reply(ReplyModel::Flag(Err(error))),
        },
        (TaskModel::Free, AnswerModel::Repended(r)) => match r {
            Ok(()) => StepModel::Reply(ReplyModel::Flag(Ok(true))),
            Err(error) => StepModel::Reply(ReplyModel::Flag(Err(error))),
        },
        (TaskModel::Recover, AnswerModel::Recovered(r)) => match r {
            Ok(items) => followed(FollowModel { items, done: Seq::empty(), single: false }),
            Err(error) => StepModel::Reply(ReplyModel::Jobs(Err(error))),
        },
        (TaskModel::FreeItem { follow }, AnswerModel::Repended(r)) => match r {
            Ok(()) => StepModel::Call {
                call: CallModel::Accepted { job_id: follow.items[0].job_id },
                task: TaskModel::ReadItem { follow },
            },
            Err(error) => failed_follow_up(follow.single, error),
        },
        (TaskModel::ReadItem { follow }, AnswerModel::Accepted(r)) => match r {
            Ok(accepted) => StepModel::Call {
                call: CallModel::Execution { job_id: follow.items[0].job_id },
                task: TaskModel::MergeItem { follow, accepted },
            },
            Err(error) => failed_follow_up(follow.single, error),
        },
        (TaskModel::MergeItem { follow, accepted }, AnswerModel::Execution(r)) => match r {
            Ok(execution) => followed(
                FollowModel {
                    items: follow.items.skip(1),
                    done: follow.done.push(merged_job(accepted, execution)),
                    ..follow
                },
            ),
            Err(error) => failed_follow_up(follow.single, error),
        },
        _ => StepModel::Reply(ReplyModel::Flag(Ok(false))),
    }
}

impl FollowUp {
    /// Says what to do for the next job, or answers after the last.
    fn go_on(self) -> (r: StoreStep)
        requires
            self.at <= self.items@.len(),
        ensures
            r@ == followed(self@),
            r matches StoreStep::Call { task, .. } ==> task.wf(),
    {
        let ghost model = self@;
        if self.at < self.items.len() {
            let item = &self.items[self.at];
            proof {
                assert(model.items[0] == item@);
            }
            let job_id = item.job_id;
            if item.should_repend {
                let dispatch_id = item.dispatch_id.clone();
                return StoreStep::Call {
                    call: StoreCall::Repend { job_id, dispatch_id },
                    task: StoreTask::FreeItem { follow: self },
                };
            }
            return StoreStep::Call {
                call: StoreCall::Accepted { job_id },
                task: StoreTask::ReadItem { follow: self },
            };
        }
        let mut done = self.done;
        if self.single {
            let job = done.pop();
            StoreStep::Reply(StoreReply::Job(Ok(job)))
        } else {
            StoreStep::Reply(StoreReply::Jobs(Ok(done)))
        }
    }

    /// Answers with an error.
    fn fail(self, error: StoreError) -> (r: StoreStep)
        ensures
            r@ == failed_follow_up(self@.single, error@),
            r is Reply,
    {
        if self.single {
            StoreStep::Reply(StoreReply::Job(Err(error)))
        } else {
            StoreStep::Reply(StoreReply::Jobs(Err(error)))
        }
    }
}

/// Undoes the claim at `at` of `pairs`, or answers with `error` after the last.
fn undo(pairs: Vec<(i64, String)>, at: usize, error: StoreError) -> (r: StoreStep)
    requires
        at <= pairs@.len(),
    ensures
        r@ == undone(pair_views(pairs@).skip(at as int), error@),
        r matches StoreStep::Call { task, .. } ==> task.wf(),
{
    if at < pairs.len() {
        let job_id = pairs[at].0;
        let dispatch_id = pairs[at].1.clone();
        proof {
            let all = pair_views(pairs@);
            assert(all.skip(at as int)[0] == (job_id as int, dispatch_id@));
            assert(all.skip(at as int).skip(1) =~= all.skip(at + 1));
        }
        StoreStep::Call {
            call: StoreCall::Repend { job_id, dispatch_id },
            task: StoreTask::Undo { pairs, at: at + 1, error },
        }
    } else {
        StoreStep::Reply(StoreReply::Jobs(Err(error)))
    }
}

impl StoreTask {
    /// A follow-up that waits is about a job.
    pub open spec fn wf(self) -> bool {
        match self {
            StoreTask::Undo { pairs, at, .. } => at <= pairs@.len(),
            StoreTask::FreeItem { follow } => follow.at < follow.items.len(),
            StoreTask::ReadItem { follow } => follow.at < follow.items.len(),
            StoreTask::MergeItem { follow, .. } => follow.at < follow.items.len(),
            _ => true,
        }
    }

    /// Begins to claim up to `limit` jobs of `queue_name`.
    pub fn claim_batch(queue_name: &str, limit: usize) -> (r: StoreStep)
        ensures
            r@ == (StepModel::Call {
                call: CallModel::Claim { queue_name: queue_name@, limit: limit as int },
                task: TaskModel::Claim,
            }),
            r matches StoreStep::Call { task, .. } && task.wf(),
    {
        StoreStep::Call {
            call: StoreCall::Claim { queue_name: queue_name.to_owned(), limit },
            task: StoreTask::Claim,
        }
    }

    /// Begins to record what a worker reports of a job. The answer is the job
    /// (`full`), or else whether it is available again.
    pub fn complete(job_id: i64, dispatch_id: &str, outcome: JobOutcome, full: bool) -> (r:
        StoreStep)
        ensures
            r@ == reporting(
                CompletionView {
                    job_id: job_id as int,
                    dispatch_id: dispatch_id@,
                    outcome: outcome@,
                },
                full,
            ),
            r matches StoreStep::Call { task, .. } && task.wf(),
    {
        StoreStep::Call {
            call: StoreCall::Complete { job_id, dispatch_id: dispatch_id.to_owned(), outcome },
            task: StoreTask::Report { job_id, dispatch_id: dispatch_id.to_owned(), full },
        }
    }

    /// Begins to give a claimed job back.
    pub fn release_claim(job_id: i64, dispatch_id: &str) -> (r: StoreStep)
        ensures
            r@ == releasing(job_id as int, dispatch_id@),
            r matches StoreStep::Call { task, .. } && task.wf(),
    {
        StoreStep::Call {
            call: StoreCall::Accepted { job_id },
            task: StoreTask::Check { job_id, dispatch_id: dispatch_id.to_owned() },
        }
    }

    /// Begins to recover the leases that have run out at `now`.
    pub fn recover_stale_leases(now: i64) -> (r: StoreStep)
        ensures
            r@ == recovering(now),
            r matches StoreStep::Call { task, .. } && task.wf(),
    {
        StoreStep::Call { call: StoreCall::RecoverStale { now }, task: StoreTask::Recover }
    }

    /// Takes the step that an answer at `now` leads to.
    pub fn step(self, answer: StoreAnswer, now: i64) -> (r: StoreStep)
        requires
            self.wf(),
            is_answer(self@, answer@),
        ensures
            r@ == next_step(self@, answer@, now as int),
            r matches StoreStep::Call { task, .. } ==> task.wf(),
    {
        match (self, answer) {
            (StoreTask::Claim, StoreAnswer::Claimed(r)) => match r {
                Ok(claimed) => {
                    if claimed.len() == 0 {
                        let jobs: Vec<Job> = Vec::new();
                        proof {
                            assert(views(jobs@) =~= Seq::<JobModel>::empty());
                        }
                        return StoreStep::Reply(StoreReply::Jobs(Ok(jobs)));
                    }
                    proof {
                        assert forall|i: int| 0 <= i < claimed@.len() implies (
                        #[trigger] claimed@[i]).timeout_secs <= MAX_TIMEOUT_SECS by {
                            assert(views(claimed@)[i].timeout_secs <= MAX_TIMEOUT_SECS);
                        }
                    }
                    let rows = dispatch_rows(&claimed, now);
                    StoreStep::Call {
                        call: StoreCall::Dispatch { rows },
                        task: StoreTask::Start { claimed },
                    }
                },
                Err(error) => StoreStep::Reply(StoreReply::Jobs(Err(error))),
            },
            (StoreTask::Start { claimed }, StoreAnswer::Dispatched(r)) => match r {
                Ok(started) => {
                    let jobs = jobs_from_claimed(&claimed, &started);
                    StoreStep::Reply(StoreReply::Jobs(Ok(jobs)))
                },
                Err(error) => {
                    let mut pairs: Vec<(i64, String)> = Vec::new();
                    let mut i: usize = 0;
                    while i < claimed.len()
                        invariant
                            i <= claimed@.len(),
                            pairs@.len() == i,
                            forall|k: int|
                                0 <= k < i ==> (#[trigger] pairs@[k]).0 == claimed@[k].id
                                    && pairs@[k].1@ == claimed@[k].dispatch_id@,
                        decreases claimed.len() - i,
                    {
                        pairs.push((claimed[i].id, claimed[i].dispatch_id.clone()));
                        i += 1;
                    }
                    proof {
                        assert(pair_views(pairs@).skip(0) =~= claim_pairs(views(claimed@)));
                    }
                    undo(pairs, 0, error)
                },
            },
            (StoreTask::Undo { pairs, at, error }, StoreAnswer::Repended(_)) => undo(
                pairs,
                at,
                error,
            ),
            (
                StoreTask::Report { job_id, dispatch_id, full },
                StoreAnswer::Completed(r),
            ) => match r {
                Ok(verdict) => {
                    if !full {
                        if verdict == CompletionDisposition::Repend {
                            return StoreStep::Call {
                                call: StoreCall::Repend { job_id, dispatch_id },
                                task: StoreTask::Free,
                            };
                        }
                        return StoreStep::Reply(StoreReply::Flag(Ok(false)));
                    }
                    if verdict == CompletionDisposition::Ignored {
                        return StoreStep::Reply(StoreReply::Job(Ok(None)));
                    }
                    let mut items: Vec<RecoveredStale> = Vec::new();
                    items.push(
                        RecoveredStale {
                            job_id,
                            dispatch_id,
                            should_repend: verdict == CompletionDisposition::Repend,
                        },
                    );
                    let follow = FollowUp { items, at: 0, done: Vec::new(), single: true };
                    proof {
                        assert(follow@.items =~= seq![items@[0]@]);
                        assert(follow@.done =~= Seq::<JobModel>::empty());
                    }
                    follow.go_on()
                },
                Err(error) => if full {
                    StoreStep::Reply(StoreReply::Job(Err(error)))
                } else {
                    StoreStep::Reply(StoreReply::Flag(Err(error)))
                },
            },
            (StoreTask::Check { job_id, dispatch_id }, StoreAnswer::Accepted(r)) => match r {
                Ok(accepted) => if is_text(&accepted.dispatch_id, dispatch_id.as_str()) {
                    StoreStep::Call {
                        call: StoreCall::Abandon { job_id, dispatch_id: dispatch_id.clone() },
                        task: StoreTask::Abandon { job_id, dispatch_id },
                    }
                } else {
                    StoreStep::Reply(StoreReply::Flag(Ok(false)))
                },
                Err(error) => StoreStep::Reply(StoreReply::Flag(Err(error))),
            },
            (StoreTask::Abandon { job_id, dispatch_id }, StoreAnswer::Abandoned(r)) => match r {
                Ok(()) => StoreStep::Call {
                    call: StoreCall::Repend { job_id, dispatch_id },
                    task: StoreTask::Free,
                },
                Err(error) => StoreStep::Reply(StoreReply::Flag(Err(error))),
            },
            (StoreTask::Free, StoreAnswer::Repended(r)) => match r {
                Ok(()) => StoreStep::Reply(StoreReply::Flag(Ok(true))),
                Err(error) => StoreStep::Reply(StoreReply::Flag(Err(error))),
            },
            (StoreTask::Recover, StoreAnswer::Recovered(r)) => match r {
                Ok(items) => {
                    let follow = FollowUp { items, at: 0, done: Vec::new(), single: false };
                    proof {
                        assert(follow@.items =~= views(items@));
                        assert(follow@.done =~= Seq::<JobModel>::empty());
                    }
                    follow.go_on()
                },
                Err(error) => StoreStep::Reply(StoreReply::Jobs(Err(error))),
            },
            (StoreTask::FreeItem { follow }, StoreAnswer::Repended(r)) => match r {
                Ok(()) => {
                    proof {
                        assert(follow@.items[0] == follow.items@[follow.at as int]@);
                    }
                    let job_id = follow.items[follow.at].job_id;
                    StoreStep::Call {
                        call: StoreCall::Accepted { job_id },
                        task: StoreTask::ReadItem { follow },
                    }
                },
                Err(error) => follow.fail(error),
            },
            (StoreTask::ReadItem { follow }, StoreAnswer::Accepted(r)) => match r {
                Ok(accepted) => {
                    proof {
                        assert(follow@.items[0] == follow.items@[follow.at as int]@);
                    }
                    let job_id = follow.items[follow.at].job_id;
                    StoreStep::Call {
                        call: StoreCall::Execution { job_id },
                        task: StoreTask::MergeItem { follow, accepted },
                    }
                },
                Err(error) => follow.fail(error),
            },
            (StoreTask::MergeItem { follow, accepted }, StoreAnswer::Execution(r)) => match r {
                Ok(execution) => {
                    let ghost before = follow@;
                    let mut follow = follow;
                    let job = merge_job(accepted, execution);
                    proof {
                        lemma_views_push(follow.done@, job);
                        assert(views(follow.items@).skip(follow.at as int).skip(1) =~= views(
                            follow.items@,
                        ).skip(follow.at + 1));
                    }
                    follow.done.push(job);
                    follow.at = follow.at + 1;
                    follow.go_on()
                },
                Err(error) => follow.fail(error),
            },
            _ => StoreStep::Reply(StoreReply::Flag(Ok(false))),
        }
    }
}

/// The first step of recording a report.
pub open spec fn reporting(item: CompletionView, full: bool) -> StepModel {
    StepModel::Call {
        call: CallModel::Complete { item },
        task: TaskModel::Report { job_id: item.job_id, dispatch_id: item.dispatch_id, full },
    }
}

/// The first step of giving a claimed job back.
pub open spec fn releasing(job_id: int, dispatch_id: Seq<char>) -> StepModel {
    StepModel::Call {
        call: CallModel::Accepted { job_id },
        task: TaskModel::Check { job_id, dispatch_id },
    }
}

/// The first step of recovering the leases that have run out at `now`.
pub open spec fn recovering(now: i64) -> StepModel {
    StepModel::Call { call: CallModel::RecoverStale { now }, task: TaskModel::Recover }
}

/// What a call at `now` does to both databases, and what is answered. Claiming
/// and starting jobs is left out.
pub open spec fn performed(store: StoreView, call: CallModel, now: int) -> (
    StoreView,
    AnswerModel,
) {
    match call {
        CallModel::Complete { item } => (
            StoreView {
                results: ResultsView {
                    executions: settle_chunk(store.results.executions, seq![item], now),
                    ..store.results
                },
                ..store
            },
            AnswerModel::Completed(Ok(disposition(store.results.executions, item))),
        ),
        CallModel::Abandon { job_id, dispatch_id } => (
            StoreView {
                results: ResultsView {
                    executions: abandoned_rows(store.results.executions, job_id, dispatch_id, now),
                    ..store.results
                },
                ..store
            },
            AnswerModel::Abandoned(Ok(())),
        ),
        CallModel::RecoverStale { now } => (
            after_expiry(store, now),
            AnswerModel::Recovered(Ok(recovered_stale(store.results.executions, now))),
        ),
        CallModel::Repend { job_id, dispatch_id } => (
            StoreView {
                ingest: IngestView {
                    jobs: repended(store.ingest.jobs, job_id, dispatch_id, now),
                    ..store.ingest
                },
                ..store
            },
            AnswerModel::Repended(Ok(())),
        ),
        CallModel::Accepted { job_id } => (
            store,
            AnswerModel::Accepted(
                match job_of(store.ingest.jobs, job_id) {
                    Some(job) => Ok(job),
                    None => Err(StoreErrorView::NotFound(job_id)),
                },
            ),
        ),
        CallModel::Execution { job_id } => (
            store,
            AnswerModel::Execution(Ok(execution_of(store.results.executions, job_id))),
        ),
        _ => (store, AnswerModel::Repended(Ok(()))),
    }
}

/// How many kinds of steps may still come.
pub open spec fn phase(step: StepModel) -> nat {
    match step {
        StepModel::Call { task, .. } => match task {
            TaskModel::Report { .. } => 2,
            TaskModel::Check { .. } => 2,
            TaskModel::Recover => 2,
            TaskModel::Abandon { .. } => 1,
            _ => 0,
        },
        StepModel::Reply(_) => 0,
    }
}

/// How many steps of the last kind may still come.
pub open spec fn left(step: StepModel) -> nat {
    match step {
        StepModel::Call { task, .. } => match task {
            TaskModel::FreeItem { follow } => 3 * follow.items.len(),
            TaskModel::ReadItem { follow } => (3 * follow.items.len() - 1) as nat,
            TaskModel::MergeItem { follow, .. } => (3 * follow.items.len() - 2) as nat,
            TaskModel::Undo { pairs, .. } => pairs.len() + 1,
            _ => 1,
        },
        StepModel::Reply(_) => 0,
    }
}

/// Where both databases stand after all steps of an operation at `now`, and what
/// it answers.
pub open spec fn finish(store: StoreView, step: StepModel, now: int) -> (StoreView, ReplyModel)
    decreases phase(step), left(step),
{
    match step {
        StepModel::Reply(reply) => (store, reply),
        StepModel::Call { call, task } => {
            let (after, answer) = performed(store, call, now);
            let next = next_step(task, answer, now);
            if phase(next) < phase(step) || (phase(next) == phase(step) && left(next) < left(
                step,
            )) {
                finish(after, next, now)
            } else {
                (after, ReplyModel::Flag(Ok(false)))
            }
        },
    }
}

/// Whether a call is the one that an operation waits for, other than those by
/// which jobs are claimed and started.
pub open spec fn waits_for(task: TaskModel, call: CallModel) -> bool {
    match task {
        TaskModel::Undo { .. } => call is Repend,
        TaskModel::Report { .. } => call is Complete,
        TaskModel::Check { .. } => call is Accepted,
        TaskModel::Abandon { .. } => call is Abandon,
        TaskModel::Free => call is Repend,
        TaskModel::Recover => call is RecoverStale,
        TaskModel::FreeItem { follow } => call is Repend && follow.items.len() > 0,
        TaskModel::ReadItem { follow } => call is Accepted && follow.items.len() > 0,
        TaskModel::MergeItem { follow, .. } => call is Execution && follow.items.len() > 0,
        _ => false,
    }
}

/// Every step leads on, and to another of the same operation.
proof fn lemma_step_leads_on(store: StoreView, call: CallModel, task: TaskModel, now: int)
    requires
        waits_for(task, call),
    ensures
        ({
            let step = StepModel::Call { call, task };
            let answer = performed(store, call, now).1;
            let next = next_step(task, answer, now);
            &&& is_answer(task, answer)
            &&& phase(next) < phase(step) || (phase(next) == phase(step) && left(next) < left(step))
            &&& next matches StepModel::Call { call, task } ==> waits_for(task, call)
        }),
{
}

/// Recording a report step by step comes to what it does as a whole.
pub proof fn reports_go_step_by_step(store: StoreView, item: CompletionView, now: int)
    ensures
        finish(store, reporting(item, true), now) == (
            after_report(store, item, now),
            ReplyModel::Job(complete_reply(store, item, now)),
        ),
        finish(store, reporting(item, false), now) == (
            after_report(store, item, now),
            ReplyModel::Flag(
                Ok(
                    disposition(store.results.executions, item) == CompletionDisposition::Repend,
                ),
            ),
        ),
{
    reveal_with_fuel(finish, 5);
    let after = after_report(store, item, now);
    let full = finish(store, reporting(item, true), now);
    let short = finish(store, reporting(item, false), now);
    assert(full.0.ingest =~= after.ingest);
    assert(full.0.results =~= after.results);
    assert(short.0.ingest =~= after.ingest);
    assert(short.0.results =~= after.results);
}

/// Giving a claimed job back step by step comes to what it does as a whole.
pub proof fn releases_go_step_by_step(
    store: StoreView,
    job_id: int,
    dispatch_id: Seq<char>,
    now: int,
)
    ensures
        finish(store, releasing(job_id, dispatch_id), now) == (
            if release_reply(store, job_id, dispatch_id) == Ok::<bool, StoreErrorView>(true) {
                after_release(store, job_id, dispatch_id, now)
            } else {
                store
            },
            ReplyModel::Flag(release_reply(store, job_id, dispatch_id)),
        ),
{
    reveal_with_fuel(finish, 4);
}

/// The store with its accepted jobs replaced.
pub open spec fn with_jobs(store: StoreView, jobs: Seq<AcceptedJobView>) -> StoreView {
    StoreView { ingest: IngestView { jobs, ..store.ingest }, ..store }
}

/// From the job at `i` on, following up goes on as it does as a whole.
proof fn lemma_follow_up_goes_on(
    store: StoreView,
    items: Seq<RecoveredStaleView>,
    i: int,
    now: int,
)
    requires
        0 <= i <= items.len(),
        follow_up(store, items.take(i), now).1 is Ok,
    ensures
        ({
            let (jobs, found) = follow_up(store, items.take(i), now);
            let follow = FollowModel { items: items.skip(i), done: found->Ok_0, single: false };
            let (last, reply) = follow_up(store, items, now);
            finish(with_jobs(store, jobs), followed(follow), now) == (
                with_jobs(store, last),
                ReplyModel::Jobs(reply),
            )
        }),
    decreases items.len() - i,
{
    let (jobs, found) = follow_up(store, items.take(i), now);
    let done = found->Ok_0;
    let follow = FollowModel { items: items.skip(i), done, single: false };
    let held = with_jobs(store, jobs);
    if i == items.len() {
        assert(items.take(i) =~= items);
    } else {
        let item = items[i];
        assert(items.take(i + 1).drop_last() =~= items.take(i));
        assert(items.take(i + 1).last() == item);
        assert(follow.items[0] == item);
        let next = if item.should_repend {
            repended(jobs, item.job_id, item.dispatch_id, now)
        } else {
            jobs
        };
        let freed = with_jobs(store, next);
        let read = StepModel::Call {
            call: CallModel::Accepted { job_id: item.job_id },
            task: TaskModel::ReadItem { follow },
        };
        assert(finish(held, followed(follow), now) == finish(freed, read, now)) by {
            reveal_with_fuel(finish, 2);
            if item.should_repend {
                assert(performed(held, CallModel::Repend {
                    job_id: item.job_id,
                    dispatch_id: item.dispatch_id,
                }, now).0 =~= freed);
            }
        }
        match job_of(next, item.job_id) {
            Some(accepted) => {
                let job = merged_job(
                    accepted,
                    execution_of(store.results.executions, item.job_id),
                );
                let after = FollowModel {
                    items: items.skip(i).skip(1),
                    done: done.push(job),
                    single: false,
                };
                assert(items.skip(i).skip(1) =~= items.skip(i + 1));
                assert(finish(freed, read, now) == finish(freed, followed(after), now)) by {
                    reveal_with_fuel(finish, 3);
                }
                lemma_follow_up_goes_on(store, items, i + 1, now);
            },
            None => {
                lemma_follow_up_ends(store, items, i + 1, now);
                reveal_with_fuel(finish, 2);
            },
        }
    }
}

/// Recovering the leases that have run out step by step comes to what it does as
/// a whole.
pub proof fn recoveries_go_step_by_step(store: StoreView, now: i64)
    ensures
        ({
            let expired = after_expiry(store, now);
            let items = recovered_stale(store.results.executions, now);
            let (jobs, reply) = follow_up(expired, items, now as int);
            finish(store, recovering(now), now as int) == (
                with_jobs(expired, jobs),
                ReplyModel::Jobs(reply),
            )
        }),
{
    let expired = after_expiry(store, now);
    let items = recovered_stale(store.results.executions, now);
    assert(items.take(0) =~= Seq::<RecoveredStaleView>::empty());
    assert(items.skip(0) =~= items);
    assert(with_jobs(expired, expired.ingest.jobs) =~= expired);
    lemma_follow_up_goes_on(expired, items, 0, now as int);
    let follow = FollowModel { items, done: Seq::empty(), single: false };
    assert(finish(store, recovering(now), now as int) == finish(
        expired,
        followed(follow),
        now as int,
    ));
}

/// Claims can be undone from the first on as well as up to the last.
proof fn lemma_all_repended_from_first(
    jobs: Seq<AcceptedJobView>,
    pairs: Seq<(int, Seq<char>)>,
    now: int,
)
    requires
        pairs.len() > 0,
    ensures
        all_repended(jobs, pairs, now) == all_repended(
            repended(jobs, pairs[0].0, pairs[0].1, now),
            pairs.skip(1),
            now,
        ),
    decreases pairs.len(),
{
    reveal_with_fuel(all_repended, 2);
    if pairs.len() == 1 {
        assert(pairs.drop_last() =~= Seq::<(int, Seq<char>)>::empty());
        assert(pairs.skip(1) =~= Seq::<(int, Seq<char>)>::empty());
    } else {
        lemma_all_repended_from_first(jobs, pairs.drop_last(), now);
        assert(pairs.drop_last()[0] == pairs[0]);
        assert(pairs.drop_last().skip(1) =~= pairs.skip(1).drop_last());
        assert(pairs.skip(1).last() == pairs.last());
    }
}

/// Undoing claims step by step comes to what it does as a whole.
pub proof fn undoing_goes_step_by_step(
    store: StoreView,
    pairs: Seq<(int, Seq<char>)>,
    error: StoreErrorView,
    now: int,
)
    ensures
        finish(store, undone(pairs, error), now) == (
            with_jobs(store, all_repended(store.ingest.jobs, pairs, now)),
            ReplyModel::Jobs(Err(error)),
        ),
    decreases pairs.len(),
{
    if pairs.len() == 0 {
        assert(with_jobs(store, store.ingest.jobs) =~= store);
    } else {
        let freed = with_jobs(store, repended(store.ingest.jobs, pairs[0].0, pairs[0].1, now));
        undoing_goes_step_by_step(freed, pairs.skip(1), error, now);
        lemma_all_repended_from_first(store.ingest.jobs, pairs, now);
        assert(finish(store, undone(pairs, error), now) == finish(
            freed,
            undone(pairs.skip(1), error),
            now,
        ));
    }
}

impl SplitStore {
    /// Makes one call at `now`.
    fn perform(&mut self, call: StoreCall, now: i64) -> (r: StoreAnswer)
        requires
            old(self).wf(),
            !(call is Claim),
            !(call is Dispatch),
        ensures
            final(self).wf(),
            (final(self)@, r@) == performed(old(self)@, call@, now as int),
    {
        match call {
            StoreCall::Complete { job_id, dispatch_id, outcome } => {
                let mut batch: Vec<Completion> = Vec::new();
                batch.push(Completion { job_id, dispatch_id, outcome });
                proof {
                    assert(views(batch@) =~= seq![batch@[0]@]);
                    lemma_single_report(self@.results, batch@[0]@, now as int);
                }
                let verdicts = self.results.complete_batch(&batch, now);
                StoreAnswer::Completed(Ok(verdicts[0]))
            },
            StoreCall::Abandon { job_id, dispatch_id } => {
                self.results.abandon(job_id, dispatch_id.as_str(), now);
                StoreAnswer::Abandoned(Ok(()))
            },
            StoreCall::RecoverStale { now } => {
                let items = self.results.recover_stale(now);
                StoreAnswer::Recovered(Ok(items))
            },
            StoreCall::Repend { job_id, dispatch_id } => {
                self.ingest.repend(job_id, dispatch_id.as_str(), now);
                StoreAnswer::Repended(Ok(()))
            },
            StoreCall::Accepted { job_id } => StoreAnswer::Accepted(
                self.ingest.accepted_job(job_id),
            ),
            StoreCall::Execution { job_id } => StoreAnswer::Execution(
                Ok(self.results.execution(job_id)),
            ),
            _ => StoreAnswer::Repended(Ok(())),
        }
    }

    /// Takes all steps of an operation at `now`.
    pub(crate) fn run(&mut self, first: StoreStep, now: i64) -> (r: StoreReply)
        requires
            old(self).wf(),
            first matches StoreStep::Call { call, task } ==> task.wf() && waits_for(task@, call@),
        ensures
            final(self).wf(),
            (final(self)@, r@) == finish(old(self)@, first@, now as int),
    {
        let mut step = first;
        loop
            invariant
                self.wf(),
                step matches StoreStep::Call { call, task } ==> task.wf() && waits_for(
                    task@,
                    call@,
                ),
                finish(self@, step@, now as int) == finish(old(self)@, first@, now as int),
            decreases phase(step@), left(step@),
        {
            match step {
                StoreStep::Reply(reply) => {
                    return reply;
                },
                StoreStep::Call { call, task } => {
                    proof {
                        lemma_step_leads_on(self@, call@, task@, now as int);
                    }
                    let answer = self.perform(call, now);
                    step = task.step(answer, now);
                },
            }
        }
    }
}

} // verus!
