//! The store as a whole: accepted jobs in one database, attempts in another,
//! and the order of steps that keeps the two in agreement.

use crate::engine::types::{
    copy_bytes, merged_job, AcceptedJob, AcceptedJobView, Execution, ExecutionStatus, Job,
    JobModel, JobQueue, JobQueueView, StoreError, StoreErrorView,
};
use crate::engine::JobOutcome;
use crate::persistence::ingest::{
    all_repended, claim_limit, claim_of, claim_tokens, claimable, claimed_rows, enqueue_reply,
    first_available, freed, is_token, job_of, repended, reply_matches, retained_jobs,
    IngestClaimed, IngestClaimedView, IngestTable, IngestView,
};
use crate::persistence::queues::{
    configured, lemma_views_push, names_ordered, out_of_range_text, queue_map, views,
    MAX_TIMEOUT_SECS,
};
use crate::persistence::results::{
    abandoned_rows, batch_disposition, completed_rows, disposition, execution_of, first_idle,
    idle_dispatch_text, lemma_started_len, of_kind, recovered_rows, recovered_stale,
    retained_executions, settle_chunk, token_at, whole_dispatch, CompletionDisposition,
    CompletionView, DispatchInsert, DispatchInsertView, DispatchedExecution,
    DispatchedExecutionView, RecoveredStaleView, ResultsTable, ResultsView,
};
use crate::persistence::steps::{
    recoveries_go_step_by_step, releases_go_step_by_step, reports_go_step_by_step,
    undoing_goes_step_by_step, StoreAnswer, StoreCall, StoreReply, StoreStep, StoreTask,
};
use vstd::prelude::*;

verus! {

/// Both databases.
pub struct SplitStore {
    pub ingest: IngestTable,
    pub results: ResultsTable,
}

/// What both databases hold.
#[verifier::ext_equal]
pub struct StoreView {
    pub ingest: IngestView,
    pub results: ResultsView,
}

impl View for SplitStore {
    type V = StoreView;

    open spec fn view(&self) -> StoreView {
        StoreView { ingest: self.ingest@, results: self.results@ }
    }
}

/// What a reply with a job says.
pub open spec fn job_reply(r: Result<Job, StoreError>) -> Result<JobModel, StoreErrorView> {
    match r {
        Ok(job) => Ok(job@),
        Err(error) => Err(error@),
    }
}

/// What a reply with perhaps a job says.
pub open spec fn optional_job_reply(r: Result<Option<Job>, StoreError>) -> Result<
    Option<JobModel>,
    StoreErrorView,
> {
    match r {
        Ok(Some(job)) => Ok(Some(job@)),
        Ok(None) => Ok(None),
        Err(error) => Err(error@),
    }
}

/// What a reply with jobs says.
pub open spec fn jobs_reply(r: Result<Vec<Job>, StoreError>) -> Result<
    Seq<JobModel>,
    StoreErrorView,
> {
    match r {
        Ok(jobs) => Ok(views(jobs@)),
        Err(error) => Err(error@),
    }
}

/// What a reply of yes or no says.
pub open spec fn flag_reply(r: Result<bool, StoreError>) -> Result<bool, StoreErrorView> {
    match r {
        Ok(flag) => Ok(flag),
        Err(error) => Err(error@),
    }
}

/// The job with id `id`, put together from both databases.
pub open spec fn composed_job(store: StoreView, id: int) -> Result<JobModel, StoreErrorView> {
    match job_of(store.ingest.jobs, id) {
        Some(accepted) => Ok(merged_job(accepted, execution_of(store.results.executions, id))),
        None => Err(StoreErrorView::NotFound(id)),
    }
}

/// When a lease of `timeout_secs` taken at `now` runs out: at the end of time
/// where it would go beyond.
pub open spec fn lease_end(now: int, timeout_secs: int) -> int {
    let millis = if timeout_secs * 1000 > i64::MAX {
        i64::MAX as int
    } else {
        timeout_secs * 1000
    };
    if now + millis > i64::MAX {
        i64::MAX as int
    } else {
        now + millis
    }
}

/// When a lease of `timeout_secs` taken at `now` runs out.
pub fn lease_expires_at(now: i64, timeout_secs: u64) -> (r: i64)
    requires
        timeout_secs <= MAX_TIMEOUT_SECS,
    ensures
        r == lease_end(now as int, timeout_secs as int),
{
    let millis: i128 = timeout_secs as i128 * 1000;
    let millis: i64 = if millis > i64::MAX as i128 {
        i64::MAX
    } else {
        millis as i64
    };
    let end: i128 = now as i128 + millis as i128;
    if end > i64::MAX as i128 {
        i64::MAX
    } else {
        end as i64
    }
}

/// The dispatches that claims lead to.
pub open spec fn dispatches_of(claimed: Seq<IngestClaimedView>, claimed_at: int) -> Seq<
    DispatchInsertView,
> {
    Seq::new(
        claimed.len(),
        |i: int|
            DispatchInsertView {
                job_id: claimed[i].id,
                queue_name: claimed[i].name,
                dispatch_id: claimed[i].dispatch_id,
                lease_expires_at: lease_end(claimed_at, claimed[i].timeout_secs) as i64,
            },
    )
}

/// The dispatches that claims made at `claimed_at` lead to.
pub fn dispatch_rows(claimed: &Vec<IngestClaimed>, claimed_at: i64) -> (r: Vec<DispatchInsert>)
    requires
        forall|i: int|
            0 <= i < claimed@.len() ==> (#[trigger] claimed@[i]).timeout_secs <= MAX_TIMEOUT_SECS,
    ensures
        views(r@) == dispatches_of(views(claimed@), claimed_at as int),
{
    let mut rows: Vec<DispatchInsert> = Vec::new();
    let mut i: usize = 0;
    while i < claimed.len()
        invariant
            i <= claimed.len(),
            forall|k: int|
                0 <= k < claimed@.len() ==> (#[trigger] claimed@[k]).timeout_secs
                    <= MAX_TIMEOUT_SECS,
            views(rows@) == dispatches_of(views(claimed@), claimed_at as int).take(i as int),
        decreases claimed.len() - i,
    {
        let row = &claimed[i];
        let insert = DispatchInsert {
            job_id: row.id,
            queue_name: row.name.clone(),
            dispatch_id: row.dispatch_id.clone(),
            lease_expires_at: lease_expires_at(claimed_at, row.timeout_secs),
        };
        proof {
            let all = dispatches_of(views(claimed@), claimed_at as int);
            assert(all[i as int] == insert@);
            lemma_views_push(rows@, insert);
            assert(all.take(i + 1) =~= all.take(i as int).push(insert@));
        }
        rows.push(insert);
        i += 1;
    }
    proof {
        let all = dispatches_of(views(claimed@), claimed_at as int);
        assert(all.take(claimed@.len() as int) =~= all);
    }
    rows
}

/// The running job that a claim and the attempt started for it make up.
pub open spec fn running_job(
    claimed: IngestClaimedView,
    started: DispatchedExecutionView,
) -> JobModel {
    JobModel {
        id: claimed.id,
        name: claimed.name,
        status: ExecutionStatus::Running,
        payload: claimed.payload,
        execution_count: started.execution_count,
        lease_expires_at: Some(started.lease_expires_at),
        dispatch_id: Some(started.dispatch_id),
        result_payload: None,
        result_error: None,
        created_at: claimed.created_at,
        updated_at: started.updated_at,
    }
}

/// The running job that a claim and the attempt started for it make up.
pub fn job_from_claimed(claimed: &IngestClaimed, started: &DispatchedExecution) -> (r: Job)
    ensures
        r@ == running_job(claimed@, started@),
{
    Job {
        id: claimed.id,
        name: claimed.name.clone(),
        status: ExecutionStatus::Running,
        payload: copy_bytes(&claimed.payload),
        execution_count: started.execution_count,
        lease_expires_at: Some(started.lease_expires_at),
        dispatch_id: Some(started.dispatch_id.clone()),
        result_payload: None,
        result_error: None,
        created_at: claimed.created_at,
        updated_at: started.updated_at,
    }
}

/// The running jobs that claims and the attempts started for them make up, as
/// far as there are both.
pub open spec fn running_jobs(
    claimed: Seq<IngestClaimedView>,
    started: Seq<DispatchedExecutionView>,
) -> Seq<JobModel> {
    Seq::new(
        if claimed.len() <= started.len() {
            claimed.len()
        } else {
            started.len()
        },
        |i: int| running_job(claimed[i], started[i]),
    )
}

/// The running jobs that claims and the attempts started for them make up, as
/// far as there are both.
pub fn jobs_from_claimed(claimed: &Vec<IngestClaimed>, started: &Vec<DispatchedExecution>) -> (r:
    Vec<Job>)
    ensures
        views(r@) == running_jobs(views(claimed@), views(started@)),
{
    let mut jobs: Vec<Job> = Vec::new();
    let mut i: usize = 0;
    while i < claimed.len() && i < started.len()
        invariant
            i <= claimed@.len(),
            i <= started@.len(),
            jobs@.len() == i,
            forall|k: int|
                0 <= k < i ==> (#[trigger] jobs@[k])@ == running_job(claimed@[k]@, started@[k]@),
        decreases claimed.len() - i,
    {
        jobs.push(job_from_claimed(&claimed[i], &started[i]));
        i += 1;
    }
    proof {
        assert(views(jobs@) =~= running_jobs(views(claimed@), views(started@)));
    }
    jobs
}

/// The job and the token of each claim.
pub open spec fn claim_pairs(claimed: Seq<IngestClaimedView>) -> Seq<(int, Seq<char>)> {
    Seq::new(claimed.len(), |i: int| (claimed[i].id, claimed[i].dispatch_id))
}

/// The claims that `picked` become under `tokens`.
pub open spec fn claims_of(
    picked: Seq<AcceptedJobView>,
    tokens: Seq<Seq<char>>,
    timeout_secs: int,
) -> Seq<IngestClaimedView> {
    Seq::new(picked.len(), |i: int| claim_of(picked[i], tokens[i], timeout_secs))
}

/// What a claim on `queue` under `tokens` does to the store, and what it
/// answers. Where no attempt could be started the claims are undone.
pub open spec fn claim_effect(
    before: StoreView,
    queue: Seq<char>,
    limit: int,
    tokens: Seq<Seq<char>>,
    now: int,
    after: StoreView,
    reply: Result<Seq<JobModel>, StoreErrorView>,
) -> bool {
    let picked = claimable(before.ingest.jobs, queue, claim_limit(limit));
    let claims = claims_of(picked, tokens, before.ingest.queues[queue].timeout_secs);
    let taken = claimed_rows(before.ingest.jobs, picked, tokens, now);
    let inserts = dispatches_of(claims, now);
    let run = whole_dispatch(before.results, inserts, now);
    &&& first_available(before.ingest.jobs, queue, claim_limit(limit), picked)
    &&& tokens.len() == picked.len()
    &&& forall|i: int| 0 <= i < tokens.len() ==> is_token(#[trigger] tokens[i])
    &&& after.ingest.queues == before.ingest.queues
    &&& after.results.queues == before.results.queues
    &&& after.results.executions == (if run.failure is Some {
        before.results.executions
    } else {
        run.rows
    })
    &&& match reply {
        Ok(jobs) => {
            &&& run.failure is None
            &&& after.ingest.jobs == taken
            &&& jobs.len() == picked.len()
            &&& run.started.len() == picked.len()
            &&& forall|i: int|
                0 <= i < jobs.len() ==> run.started[i] is Some && #[trigger] jobs[i]
                    == running_job(claims[i], run.started[i]->Some_0)
        },
        Err(error) => {
            &&& after.ingest.jobs == all_repended(taken, claim_pairs(claims), now)
            &&& match run.failure {
                Some(failure) => error == failure,
                None => exists|i: int| #[trigger]
                    first_idle(run.started, i) && error == StoreErrorView::Internal(
                        idle_dispatch_text(inserts[i].job_id),
                    ),
            }
        },
    }
}

/// The store once a report has been applied.
pub open spec fn after_report(before: StoreView, item: CompletionView, now: int) -> StoreView {
    StoreView {
        ingest: IngestView {
            jobs: if disposition(before.results.executions, item)
                == CompletionDisposition::Repend {
                repended(before.ingest.jobs, item.job_id, item.dispatch_id, now)
            } else {
                before.ingest.jobs
            },
            ..before.ingest
        },
        results: ResultsView {
            executions: settle_chunk(before.results.executions, seq![item], now),
            ..before.results
        },
    }
}

/// A single report is judged and applied by itself.
pub proof fn lemma_single_report(before: ResultsView, item: CompletionView, now: int)
    ensures
        completed_rows(before.executions, seq![item], now) == settle_chunk(
            before.executions,
            seq![item],
            now,
        ),
        batch_disposition(before.executions, seq![item], now, 0) == disposition(
            before.executions,
            item,
        ),
{
    let batch = seq![item];
    reveal(Seq::filter);
    reveal_with_fuel(Seq::filter, 3);
    assert(batch.drop_last() =~= Seq::<CompletionView>::empty());
    assert(batch.take(0) =~= Seq::<CompletionView>::empty());
    let rows = before.executions;
    let same = item.outcome is Succeeded;
    assert(of_kind(batch, same) =~= batch);
    assert(of_kind(batch, !same) =~= Seq::<CompletionView>::empty());
    assert(of_kind(batch.take(0), same).len() == 0);
    reveal_with_fuel(crate::persistence::results::settle, 2);
    reveal_with_fuel(crate::persistence::results::dispositions, 2);
    assert(batch.take(1) =~= batch);
    assert(batch.skip(1) =~= Seq::<CompletionView>::empty());
}

/// Whether a job is claimed under a token that no attempt has.
pub open spec fn orphaned(job: AcceptedJobView, store: ResultsView) -> bool {
    match job.dispatch_id {
        Some(token) => forall|at: int| !#[trigger] token_at(store.executions, token, at),
        None => false,
    }
}

/// The jobs once every orphaned claim has been undone.
pub open spec fn healed(
    jobs: Seq<AcceptedJobView>,
    results: ResultsView,
    now: int,
) -> Seq<AcceptedJobView> {
    Seq::new(
        jobs.len(),
        |i: int|
            if orphaned(jobs[i], results) {
                freed(jobs[i], now)
            } else {
                jobs[i]
            },
    )
}

/// The accepted jobs after the lapsed attempts `items` have been followed up,
/// and what is answered. The first job that is not known ends it.
pub open spec fn follow_up(
    store: StoreView,
    items: Seq<RecoveredStaleView>,
    now: int,
) -> (Seq<AcceptedJobView>, Result<Seq<JobModel>, StoreErrorView>)
    decreases items.len(),
{
    if items.len() == 0 {
        (store.ingest.jobs, Ok(Seq::empty()))
    } else {
        let (jobs, reply) = follow_up(store, items.drop_last(), now);
        let item = items.last();
        match reply {
            Err(error) => (jobs, Err(error)),
            Ok(found) => {
                let next = if item.should_repend {
                    repended(jobs, item.job_id, item.dispatch_id, now)
                } else {
                    jobs
                };
                match job_of(next, item.job_id) {
                    Some(accepted) => (
                        next,
                        Ok(
                            found.push(
                                merged_job(
                                    accepted,
                                    execution_of(store.results.executions, item.job_id),
                                ),
                            ),
                        ),
                    ),
                    None => (next, Err(StoreErrorView::NotFound(item.job_id))),
                }
            },
        }
    }
}

/// An error ends the follow-up for good.
pub proof fn lemma_follow_up_ends(
    store: StoreView,
    items: Seq<RecoveredStaleView>,
    n: int,
    now: int,
)
    requires
        0 <= n <= items.len(),
        follow_up(store, items.take(n), now).1 is Err,
    ensures
        follow_up(store, items, now) == follow_up(store, items.take(n), now),
    decreases items.len(),
{
    if n == items.len() {
        assert(items.take(n) =~= items);
    } else {
        assert(items.drop_last().take(n) =~= items.take(n));
        lemma_follow_up_ends(store, items.drop_last(), n, now);
    }
}

/// The store once the leases that have run out at `now` are recovered.
pub open spec fn after_expiry(before: StoreView, now: i64) -> StoreView {
    StoreView {
        results: ResultsView {
            executions: recovered_rows(before.results.executions, now),
            ..before.results
        },
        ..before
    }
}

/// What an optional attempt holds.
fn as_optional_ref(execution: &Option<Execution>) -> (r: Option<&Execution>)
    ensures
        match (*execution, r) {
            (Some(a), Some(b)) => a == *b,
            (None, None) => true,
            _ => false,
        },
{
    match execution {
        Some(execution) => Some(execution),
        None => None,
    }
}

/// The job that an accepted job and its attempt make up.
pub fn merge_job(accepted: AcceptedJob, execution: Option<Execution>) -> (r: Job)
    ensures
        r@ == merged_job(
            accepted@,
            match execution {
                Some(e) => Some(e@),
                None => None,
            },
        ),
{
    Job::from_accepted(accepted, as_optional_ref(&execution))
}

impl SplitStore {
    /// Each database is well-formed.
    pub open spec fn wf(self) -> bool {
        &&& self.ingest.wf()
        &&& self.results.wf()
    }

    /// A store without queues and jobs.
    pub fn new() -> (r: Self)
        ensures
            r.wf(),
            r@.ingest.queues == Map::<Seq<char>, JobQueueView>::empty(),
            r@.results.queues == Map::<Seq<char>, JobQueueView>::empty(),
            r@.ingest.jobs.len() == 0,
            r@.results.executions.len() == 0,
    {
        SplitStore { ingest: IngestTable::new(), results: ResultsTable::new() }
    }

    /// A store of both databases as they were read: every claim that was
    /// never recorded as an attempt is undone.
    pub fn open(ingest: IngestTable, results: ResultsTable, now: i64) -> (r: Self)
        requires
            ingest.wf(),
            results.wf(),
        ensures
            r.wf(),
            r@.results == results@,
            r@.ingest.queues == ingest@.queues,
            r@.ingest.jobs == healed(ingest@.jobs, results@, now as int),
    {
        let mut store = SplitStore { ingest, results };
        store.heal_orphan_claims(now);
        store
    }

    /// Undoes every claim whose token no attempt has.
    pub fn heal_orphan_claims(&mut self, now: i64)
        requires
            old(self).wf(),
        ensures
            final(self).wf(),
            final(self).results == old(self).results,
            final(self)@.ingest.queues == old(self)@.ingest.queues,
            final(self)@.ingest.jobs == healed(
                old(self)@.ingest.jobs,
                old(self)@.results,
                now as int,
            ),
    {
        let ghost rows = self@.ingest.jobs;
        let ghost after = healed(rows, self@.results, now as int);
        let mut i: usize = 0;
        while i < self.ingest.jobs.len()
            invariant
                i <= self.ingest.jobs@.len(),
                self.results == old(self).results,
                self.ingest.queues == old(self).ingest.queues,
                self.ingest.jobs@.len() == rows.len(),
                after == healed(rows, old(self)@.results, now as int),
                forall|k: int| 0 <= k < i ==> (#[trigger] self.ingest.jobs@[k])@ == after[k],
                forall|k: int| i <= k < rows.len() ==> (#[trigger] self.ingest.jobs@[k])@ == rows[k],
            decreases self.ingest.jobs.len() - i,
        {
            proof {
                assert(self.ingest.jobs@[i as int]@ == rows[i as int]);
            }
            let orphan = match &self.ingest.jobs[i].dispatch_id {
                Some(token) => {
                    let recorded = self.results.has_token(token.as_str());
                    proof {
                        assert(rows[i as int].dispatch_id == Some(token@));
                        if !recorded {
                            assert(orphaned(rows[i as int], old(self)@.results));
                        } else {
                            let kept = old(self)@.results.executions;
                            let at = choose|at: int| token_at(kept, token@, at);
                            assert(token_at(kept, rows[i as int].dispatch_id->Some_0, at));
                        }
                    }
                    !recorded
                },
                None => {
                    proof {
                        assert(rows[i as int].dispatch_id is None);
                    }
                    false
                },
            };
            proof {
                assert(orphan == orphaned(rows[i as int], old(self)@.results));
            }
            if orphan {
                let mut job = self.ingest.jobs[i].clone();
                job.dispatch_id = None;
                job.updated_at = now;
                self.ingest.jobs.set(i, job);
            }
            i += 1;
        }
        proof {
            assert(self@.ingest.jobs =~= after);
            assert forall|i: int, j: int| 0 <= i < j < after.len() implies (#[trigger] after[i]).id
                < (#[trigger] after[j]).id by {
                assert(rows[i].id < rows[j].id);
            }
        }
    }

    /// Configures `queue` at `now` in both databases.
    pub fn upsert_queue(&mut self, queue: JobQueue, now: i64) -> (r: Result<JobQueue, StoreError>)
        requires
            old(self).wf(),
        ensures
            final(self).wf(),
            final(self)@.ingest.jobs == old(self)@.ingest.jobs,
            final(self)@.results.executions == old(self)@.results.executions,
            queue.timeout_secs > MAX_TIMEOUT_SECS ==> {
                &&& r is Err
                &&& r->Err_0@ == StoreErrorView::Internal(out_of_range_text())
                &&& final(self)@ == old(self)@
            },
            queue.timeout_secs <= MAX_TIMEOUT_SECS ==> {
                let stored = configured(old(self)@.ingest.queues, queue@, now as int);
                &&& r is Ok
                &&& r->Ok_0@ == stored
                &&& final(self)@.ingest.queues == old(self)@.ingest.queues.insert(
                    queue@.name,
                    stored,
                )
                &&& final(self)@.results.queues == old(self)@.results.queues.insert(
                    queue@.name,
                    configured(old(self)@.results.queues, stored, now as int),
                )
            },
    {
        let queue = match self.ingest.upsert_queue(queue, now) {
            Ok(queue) => queue,
            Err(error) => {
                return Err(error);
            },
        };
        match self.results.upsert_queue(queue.clone(), now) {
            Ok(_) => Ok(queue),
            Err(error) => Err(error),
        }
    }

    /// The configuration of `name`, if it has one.
    pub fn get_queue(&self, name: &str) -> (r: Option<JobQueue>)
        requires
            self.wf(),
        ensures
            match r {
                Some(queue) => self@.ingest.queues.dom().contains(name@) && queue@
                    == self@.ingest.queues[name@],
                None => !self@.ingest.queues.dom().contains(name@),
            },
    {
        self.ingest.queues.get(name)
    }

    /// Every queue, in the order of the names.
    pub fn list_queues(&self) -> (r: Vec<JobQueue>)
        requires
            self.wf(),
        ensures
            names_ordered(views(r@)),
            queue_map(views(r@)) == self@.ingest.queues,
    {
        self.ingest.queues.list()
    }

    /// Accepts one job.
    pub fn enqueue(&mut self, job: AcceptedJob) -> (r: Result<AcceptedJob, StoreError>)
        requires
            old(self).wf(),
        ensures
            final(self).wf(),
            final(self)@.results == old(self)@.results,
            final(self)@.ingest.queues == old(self)@.ingest.queues,
            reply_matches(r, enqueue_reply(old(self)@.ingest, seq![job@], 0)),
            final(self)@.ingest.jobs == (match r {
                Ok(stored) => old(self)@.ingest.jobs.push(
                    AcceptedJobView { dispatch_id: None, ..stored@ },
                ),
                Err(_) => old(self)@.ingest.jobs,
            }),
    {
        self.ingest.enqueue(job)
    }

    /// The job with id `job_id`.
    pub fn get_job(&self, job_id: i64) -> (r: Result<Job, StoreError>)
        requires
            self.wf(),
        ensures
            job_reply(r) == composed_job(self@, job_id as int),
    {
        match self.ingest.accepted_job(job_id) {
            Ok(accepted) => {
                let execution = self.results.execution(job_id);
                Ok(merge_job(accepted, execution))
            },
            Err(error) => Err(error),
        }
    }

    /// The status of the job with id `job_id`.
    pub fn status(&self, job_id: i64) -> (r: Result<ExecutionStatus, StoreError>)
        requires
            self.wf(),
        ensures
            match (r, composed_job(self@, job_id as int)) {
                (Ok(status), Ok(job)) => status == job.status,
                (Err(error), Err(expected)) => error@ == expected,
                _ => false,
            },
    {
        match self.get_job(job_id) {
            Ok(job) => Ok(job.status),
            Err(error) => Err(error),
        }
    }

    /// Claims the head of the line in `queue_name` and starts an attempt for
    /// each job of it.
    pub fn claim_batch(&mut self, queue_name: &str, limit: usize, now: i64) -> (r: Result<
        Vec<Job>,
        StoreError,
    >)
        requires
            old(self).wf(),
        ensures
            final(self).wf(),
            !old(self)@.ingest.queues.dom().contains(queue_name@) ==> {
                &&& r is Err
                &&& r->Err_0@ == StoreErrorView::QueueNotFound(queue_name@)
                &&& final(self)@ == old(self)@
            },
            old(self)@.ingest.queues.dom().contains(queue_name@) ==> exists|
                tokens: Seq<Seq<char>>,
            | #[trigger]
                claim_effect(
                    old(self)@,
                    queue_name@,
                    limit as int,
                    tokens,
                    now as int,
                    final(self)@,
                    jobs_reply(r),
                ),
    {
        let ghost before = self@;
        let claimed = match self.ingest.claim_batch(queue_name, limit, now) {
            Ok(claimed) => claimed,
            Err(error) => {
                return Err(error);
            },
        };
        let ghost picked = claimable(before.ingest.jobs, queue_name@, claim_limit(limit as int));
        let ghost tokens = claim_tokens(claimed@);
        let ghost timeout_secs = before.ingest.queues[queue_name@].timeout_secs;
        let ghost claims = claims_of(picked, tokens, timeout_secs);
        let ghost taken = self@.ingest.jobs;
        proof {
            assert(views(claimed@) =~= claims);
            assert forall|i: int| 0 <= i < claimed@.len() implies (
            #[trigger] claimed@[i]).timeout_secs <= MAX_TIMEOUT_SECS by {
                assert(claimed@[i]@ == claims[i]);
                old(self).ingest.queues.lemma_timeouts_fit(queue_name@);
            }
        }
        let ghost inserts = dispatches_of(claims, now as int);
        let ghost run = whole_dispatch(before.results, inserts, now as int);
        proof {
            lemma_started_len(before.results, inserts, now as int);
        }
        let ghost middle = self@;
        let (rows, task) = match StoreTask::Claim.step(StoreAnswer::Claimed(Ok(claimed)), now) {
            StoreStep::Call { call: StoreCall::Dispatch { rows }, task } => (rows, task),
            StoreStep::Reply(StoreReply::Jobs(reply)) => {
                proof {
                    assert(inserts =~= Seq::<DispatchInsertView>::empty());
                    assert(run.rows == before.results.executions);
                    assert(claim_effect(
                        before,
                        queue_name@,
                        limit as int,
                        tokens,
                        now as int,
                        self@,
                        jobs_reply(reply),
                    ));
                }
                return reply;
            },
            _ => {
                return Ok(Vec::new());
            },
        };
        let started = self.results.dispatch_batch(&rows, now);
        let ghost outcome = started;
        let step = task.step(StoreAnswer::Dispatched(started), now);
        let ghost written = self@;
        proof {
            match outcome {
                Ok(attempts) => {
                    assert(views(attempts@).len() == attempts@.len());
                    assert forall|i: int| 0 <= i < picked.len() implies run.started[i] is Some
                        && #[trigger] running_jobs(claims, views(attempts@))[i] == running_job(
                        claims[i],
                        run.started[i]->Some_0,
                    ) by {
                        assert(run.started[i] == Some(attempts@[i]@));
                    }
                },
                Err(error) => {
                    undoing_goes_step_by_step(written, claim_pairs(claims), error@, now as int);
                },
            }
        }
        match self.run(step, now) {
            StoreReply::Jobs(reply) => {
                proof {
                    assert(claim_effect(
                        before,
                        queue_name@,
                        limit as int,
                        tokens,
                        now as int,
                        self@,
                        jobs_reply(reply),
                    ));
                }
                reply
            },
            _ => Ok(Vec::new()),
        }
    }

    /// Claims the first job in `queue_name`, if one is available.
    pub fn claim_next(&mut self, queue_name: &str, now: i64) -> (r: Result<Option<Job>, StoreError>)
        requires
            old(self).wf(),
        ensures
            final(self).wf(),
            !old(self)@.ingest.queues.dom().contains(queue_name@) ==> {
                &&& r is Err
                &&& r->Err_0@ == StoreErrorView::QueueNotFound(queue_name@)
                &&& final(self)@ == old(self)@
            },
            old(self)@.ingest.queues.dom().contains(queue_name@) ==> exists|
                tokens: Seq<Seq<char>>,
            | #[trigger]
                claim_effect(
                    old(self)@,
                    queue_name@,
                    1,
                    tokens,
                    now as int,
                    final(self)@,
                    next_as_batch(r),
                ),
    {
        match self.claim_batch(queue_name, 1, now) {
            Ok(jobs) => {
                let mut jobs = jobs;
                let ghost all = jobs@;
                proof {
                    assert(all.len() <= 1);
                }
                let job = jobs.pop();
                proof {
                    if job is Some {
                        assert(views(all) =~= seq![job->Some_0@]);
                    } else {
                        assert(views(all) =~= Seq::<JobModel>::empty());
                    }
                }
                Ok(job)
            },
            Err(error) => Err(error),
        }
    }

    /// Records what a worker reports of a job, and answers with the job as it
    /// then stands. A report of an attempt that is not running is ignored.
    pub fn complete(
        &mut self,
        job_id: i64,
        dispatch_id: &str,
        outcome: JobOutcome,
        now: i64,
    ) -> (r: Result<Option<Job>, StoreError>)
        requires
            old(self).wf(),
        ensures
            final(self).wf(),
            ({
                let item = CompletionView {
                    job_id: job_id as int,
                    dispatch_id: dispatch_id@,
                    outcome: outcome@,
                };
                &&& final(self)@ == after_report(old(self)@, item, now as int)
                &&& optional_job_reply(r) == complete_reply(old(self)@, item, now as int)
            }),
    {
        proof {
            let item = CompletionView {
                job_id: job_id as int,
                dispatch_id: dispatch_id@,
                outcome: outcome@,
            };
            reports_go_step_by_step(self@, item, now as int);
        }
        match self.run(StoreTask::complete(job_id, dispatch_id, outcome, true), now) {
            StoreReply::Job(reply) => reply,
            _ => Ok(None),
        }
    }

    /// Records what a worker reports of a job, and answers whether the job is
    /// available again.
    pub fn complete_worker_result(
        &mut self,
        job_id: i64,
        dispatch_id: &str,
        outcome: JobOutcome,
        now: i64,
    ) -> (r: bool)
        requires
            old(self).wf(),
        ensures
            final(self).wf(),
            ({
                let item = CompletionView {
                    job_id: job_id as int,
                    dispatch_id: dispatch_id@,
                    outcome: outcome@,
                };
                &&& final(self)@ == after_report(old(self)@, item, now as int)
                &&& r == (disposition(old(self)@.results.executions, item)
                    == CompletionDisposition::Repend)
            }),
    {
        proof {
            let item = CompletionView {
                job_id: job_id as int,
                dispatch_id: dispatch_id@,
                outcome: outcome@,
            };
            reports_go_step_by_step(self@, item, now as int);
        }
        match self.run(StoreTask::complete(job_id, dispatch_id, outcome, false), now) {
            StoreReply::Flag(Ok(again)) => again,
            _ => false,
        }
    }

    /// Gives a claimed job back that could not be delivered, and answers
    /// whether the claim was still in force.
    pub fn release_claim(&mut self, job_id: i64, dispatch_id: &str, now: i64) -> (r: Result<
        bool,
        StoreError,
    >)
        requires
            old(self).wf(),
        ensures
            final(self).wf(),
            flag_reply(r) == release_reply(old(self)@, job_id as int, dispatch_id@),
            final(self)@ == (if r == Ok::<bool, StoreError>(true) {
                after_release(old(self)@, job_id as int, dispatch_id@, now as int)
            } else {
                old(self)@
            }),
    {
        proof {
            releases_go_step_by_step(self@, job_id as int, dispatch_id@, now as int);
        }
        match self.run(StoreTask::release_claim(job_id, dispatch_id), now) {
            StoreReply::Flag(reply) => reply,
            _ => Ok(false),
        }
    }

    /// Fails the attempts whose lease has run out at `now`, makes their jobs
    /// available again as far as they may be retried, and answers with the
    /// jobs as they then stand.
    pub fn recover_stale_leases(&mut self, now: i64) -> (r: Result<Vec<Job>, StoreError>)
        requires
            old(self).wf(),
        ensures
            final(self).wf(),
            ({
                let expired = after_expiry(old(self)@, now);
                let items = recovered_stale(old(self)@.results.executions, now);
                &&& final(self)@.results == expired.results
                &&& final(self)@.ingest.queues == old(self)@.ingest.queues
                &&& (final(self)@.ingest.jobs, jobs_reply(r)) == follow_up(
                    expired,
                    items,
                    now as int,
                )
            }),
    {
        proof {
            recoveries_go_step_by_step(self@, now);
        }
        match self.run(StoreTask::recover_stale_leases(now), now) {
            StoreReply::Jobs(reply) => reply,
            _ => Ok(Vec::new()),
        }
    }

    /// Deletes what is older than `cutoff` from both databases, and says how
    /// many records went.
    pub fn cleanup_expired_records(&mut self, cutoff: i64) -> (r: u128)
        requires
            old(self).wf(),
        ensures
            final(self).wf(),
            final(self)@.ingest.queues == old(self)@.ingest.queues,
            final(self)@.results.queues == old(self)@.results.queues,
            final(self)@.ingest.jobs == retained_jobs(old(self)@.ingest.jobs, cutoff as int),
            final(self)@.results.executions == retained_executions(
                old(self)@.results.executions,
                cutoff as int,
            ),
            r == (old(self)@.ingest.jobs.len() - final(self)@.ingest.jobs.len()) + (old(
                self,
            )@.results.executions.len() - final(self)@.results.executions.len()),
    {
        let jobs = self.ingest.cleanup_expired_records(cutoff);
        let attempts = self.results.cleanup_expired_records(cutoff);
        jobs as u128 + attempts as u128
    }
}

/// A claim on one job, as a claim on up to one job answers it.
pub open spec fn next_as_batch(r: Result<Option<Job>, StoreError>) -> Result<
    Seq<JobModel>,
    StoreErrorView,
> {
    match r {
        Ok(Some(job)) => Ok(seq![job@]),
        Ok(None) => Ok(Seq::empty()),
        Err(error) => Err(error@),
    }
}

/// What is answered to a report.
pub open spec fn complete_reply(before: StoreView, item: CompletionView, now: int) -> Result<
    Option<JobModel>,
    StoreErrorView,
> {
    if disposition(before.results.executions, item) == CompletionDisposition::Ignored {
        Ok(None)
    } else {
        match composed_job(after_report(before, item, now), item.job_id) {
            Ok(job) => Ok(Some(job)),
            Err(error) => Err(error),
        }
    }
}

/// What is answered when a claim is given back.
pub open spec fn release_reply(before: StoreView, job_id: int, token: Seq<char>) -> Result<
    bool,
    StoreErrorView,
> {
    match job_of(before.ingest.jobs, job_id) {
        Some(job) => Ok(job.dispatch_id == Some(token)),
        None => Err(StoreErrorView::NotFound(job_id)),
    }
}

/// The store once a claim in force has been given back.
pub open spec fn after_release(
    before: StoreView,
    job_id: int,
    token: Seq<char>,
    now: int,
) -> StoreView {
    StoreView {
        ingest: IngestView {
            jobs: repended(before.ingest.jobs, job_id, token, now),
            ..before.ingest
        },
        results: ResultsView {
            executions: abandoned_rows(before.results.executions, job_id, token, now),
            ..before.results
        },
    }
}

/// What is handed out and what is recorded for a claim both come from the
/// claim: the job has its id, its queue, its payload and its age, and the
/// dispatch has its job, its queue, its token, and a lease that lasts for its
/// timeout.
pub proof fn claims_become_jobs_and_dispatches(
    claimed: Seq<IngestClaimedView>,
    started: Seq<DispatchedExecutionView>,
    now: int,
    i: int,
)
    requires
        0 <= i < claimed.len(),
        claimed.len() == started.len(),
    ensures
        running_jobs(claimed, started).len() == claimed.len(),
        ({
            let job = running_jobs(claimed, started)[i];
            &&& job.id == claimed[i].id
            &&& job.name == claimed[i].name
            &&& job.payload == claimed[i].payload
            &&& job.created_at == claimed[i].created_at
            &&& job.status == ExecutionStatus::Running
            &&& job.execution_count == started[i].execution_count
            &&& job.lease_expires_at == Some(started[i].lease_expires_at)
            &&& job.dispatch_id == Some(started[i].dispatch_id)
            &&& job.result_payload is None
            &&& job.result_error is None
            &&& job.updated_at == started[i].updated_at
        }),
        dispatches_of(claimed, now).len() == claimed.len(),
        ({
            let row = dispatches_of(claimed, now)[i];
            &&& row.job_id == claimed[i].id
            &&& row.queue_name == claimed[i].name
            &&& row.dispatch_id == claimed[i].dispatch_id
            &&& 0 <= now && 0 <= claimed[i].timeout_secs && now + claimed[i].timeout_secs * 1000
                <= i64::MAX ==> row.lease_expires_at == now + claimed[i].timeout_secs * 1000
        }),
        claim_pairs(claimed).len() == claimed.len(),
        claim_pairs(claimed)[i] == (claimed[i].id, claimed[i].dispatch_id),
{
}

/// Answers are seen whole, and errors too.
pub proof fn answers_are_seen_whole(job: Job, jobs: Vec<Job>, flag: bool, error: StoreError)
    ensures
        job_reply(Ok(job)) == Ok::<JobModel, StoreErrorView>(job@),
        job_reply(Err(error)) == Err::<JobModel, StoreErrorView>(error@),
        optional_job_reply(Ok(Some(job))) == Ok::<Option<JobModel>, StoreErrorView>(Some(job@)),
        optional_job_reply(Ok(None)) == Ok::<Option<JobModel>, StoreErrorView>(None),
        optional_job_reply(Err(error)) == Err::<Option<JobModel>, StoreErrorView>(error@),
        jobs_reply(Ok(jobs)) == Ok::<Seq<JobModel>, StoreErrorView>(views(jobs@)),
        jobs_reply(Err(error)) == Err::<Seq<JobModel>, StoreErrorView>(error@),
        flag_reply(Ok(flag)) == Ok::<bool, StoreErrorView>(flag),
        flag_reply(Err(error)) == Err::<bool, StoreErrorView>(error@),
        match error {
            StoreError::NotFound(id) => error@ == StoreErrorView::NotFound(id as int),
            StoreError::QueueNotFound(name) => error@ == StoreErrorView::QueueNotFound(name@),
            StoreError::Internal(message) => error@ == StoreErrorView::Internal(message@),
        },
{
}

} // verus!
