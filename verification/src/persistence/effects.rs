//! What each operation of the store does to the rows it touches, field by
//! field, and that it touches no others.

use crate::engine::types::{
    merged_job, AcceptedJobView, ExecutionStatus, ExecutionWithQueueConfigView, JobModel,
    JobQueueView, StoreErrorView,
};
use crate::engine::JobOutcomeView;
use crate::persistence::ingest::{
    accepted_rows, all_repended, available, claim_limit, claimable, claimed_rows, enqueue_reply,
    first_available, ids_ascend, last_id, lemma_accepted_rows_ascend, lemma_job_of, precedes,
    repended, row_has_id, IngestView,
};
use crate::persistence::laws::{lemma_settle_one, stale_reports_are_ignored};
use crate::persistence::queues::configured;
use crate::persistence::results::{
    attempts_at, close_statement, dispatch_one, dispatch_run, disposition, execution_of,
    keys_distinct, last_execution_id, lemma_added_keys, lemma_execution_of, lemma_replaced_keys,
    recovered_rows, recovered_stale, runs_at, settle_chunk, token_at, whole_dispatch,
    CompletionDisposition, CompletionView, DispatchInsertView, DispatchedExecutionView,
    RecoveredStaleView, ResultsView,
};
use crate::persistence::store::{
    after_expiry, after_release, after_report, claim_effect, claim_pairs, claims_of,
    complete_reply, composed_job, dispatches_of, follow_up, healed, orphaned, release_reply,
    running_job, StoreView,
};
use vstd::prelude::*;

verus! {

/// Whether the row at `i` runs on a lease that ended before `now`.
spec fn late_at(rows: Seq<ExecutionWithQueueConfigView>, now: i64, i: int) -> bool {
    &&& 0 <= i < rows.len()
    &&& rows[i].execution.status == ExecutionStatus::Running
    &&& rows[i].execution.lease_expires_at is Some
    &&& rows[i].execution.lease_expires_at->Some_0 < now
}

/// What is told of an attempt whose lease has run out.
spec fn told_of(row: ExecutionWithQueueConfigView) -> RecoveredStaleView {
    RecoveredStaleView {
        job_id: row.execution.job_id,
        dispatch_id: row.execution.dispatch_id,
        should_repend: row.execution.execution_count <= row.queue.max_retries,
    }
}

/// Whether `item` tells of a row that runs late.
spec fn tells_of_late(
    rows: Seq<ExecutionWithQueueConfigView>,
    now: i64,
    item: RecoveredStaleView,
) -> bool {
    exists|i: int| #[trigger] late_at(rows, now, i) && item == told_of(rows[i])
}

proof fn lemma_stale_list(rows: Seq<ExecutionWithQueueConfigView>, now: i64)
    ensures
        forall|k: int|
            0 <= k < recovered_stale(rows, now).len() ==> tells_of_late(
                rows,
                now,
                #[trigger] recovered_stale(rows, now)[k],
            ),
        forall|i: int| #[trigger]
            late_at(rows, now, i) ==> recovered_stale(rows, now).contains(told_of(rows[i])),
    decreases rows.len(),
{
    if rows.len() > 0 {
        let fewer = rows.drop_last();
        lemma_stale_list(fewer, now);
        let list = recovered_stale(rows, now);
        let before = recovered_stale(fewer, now);
        let last = rows.len() - 1;
        assert(late_at(rows, now, last) ==> list == before.push(told_of(rows[last])));
        assert(!late_at(rows, now, last) ==> list == before);
        assert forall|k: int| 0 <= k < list.len() implies tells_of_late(
            rows,
            now,
            #[trigger] list[k],
        ) by {
            if k < before.len() {
                assert(list[k] == before[k]);
                assert(tells_of_late(fewer, now, before[k]));
                let i = choose|i: int| #[trigger]
                    late_at(fewer, now, i) && before[k] == told_of(fewer[i]);
                assert(rows[i] == fewer[i]);
                assert(late_at(rows, now, i));
            } else {
                assert(late_at(rows, now, last));
            }
        }
        assert forall|i: int| #[trigger] late_at(rows, now, i) implies list.contains(
            told_of(rows[i]),
        ) by {
            if i < last {
                assert(late_at(fewer, now, i));
                let k = choose|k: int| 0 <= k < before.len() && before[k] == told_of(fewer[i]);
                assert(list[k] == told_of(rows[i]));
            } else {
                assert(list[list.len() - 1] == told_of(rows[i]));
            }
        }
    }
}

/// Where jobs do not occur twice, neither do they among the lapsed leases.
proof fn lemma_stale_jobs_differ(rows: Seq<ExecutionWithQueueConfigView>, now: i64)
    requires
        keys_distinct(rows),
    ensures
        forall|j: int, k: int|
            0 <= j < k < recovered_stale(rows, now).len() ==> (#[trigger] recovered_stale(
                rows,
                now,
            )[j]).job_id != (#[trigger] recovered_stale(rows, now)[k]).job_id,
    decreases rows.len(),
{
    if rows.len() > 0 {
        let fewer = rows.drop_last();
        assert(keys_distinct(fewer)) by {
            assert forall|i: int, j: int|
                #![trigger fewer[i], fewer[j]]
                0 <= i < j < fewer.len() implies {
                &&& fewer[i].execution.id < fewer[j].execution.id
                &&& fewer[i].execution.job_id != fewer[j].execution.job_id
                &&& fewer[i].execution.dispatch_id != fewer[j].execution.dispatch_id
            } by {
                assert(rows[i].execution.id < rows[j].execution.id);
            }
        }
        lemma_stale_jobs_differ(fewer, now);
        lemma_stale_list(fewer, now);
        let list = recovered_stale(rows, now);
        let before = recovered_stale(fewer, now);
        let last = rows.len() - 1;
        assert forall|j: int, k: int| 0 <= j < k < list.len() implies (#[trigger] list[j]).job_id
            != (#[trigger] list[k]).job_id by {
            assert(list[j] == before[j]);
            if k < before.len() {
                assert(list[k] == before[k]);
            } else {
                assert(tells_of_late(fewer, now, before[j]));
                let i = choose|i: int| #[trigger]
                    late_at(fewer, now, i) && before[j] == told_of(fewer[i]);
                assert(rows[i] == fewer[i]);
                assert(rows[i].execution.job_id != rows[last].execution.job_id);
            }
        }
    }
}

/// Recovery fails exactly the attempts that run on a lease which ended before
/// `now`: they lose the lease, are marked as failed with `lease expired`, and
/// keep everything else. An attempt that has ended, one without a lease, and one
/// whose lease still lasts stay as they are.
pub proof fn live_leases_are_left_alone(rows: Seq<ExecutionWithQueueConfigView>, now: i64)
    ensures
        recovered_rows(rows, now).len() == rows.len(),
        forall|i: int|
            0 <= i < rows.len() ==> {
                let before = rows[i].execution;
                let row = #[trigger] recovered_rows(rows, now)[i];
                let over = before.status == ExecutionStatus::Running && before.lease_expires_at
                    is Some && before.lease_expires_at->Some_0 < now;
                &&& row != rows[i] <==> over
                &&& row.queue == rows[i].queue
                &&& over ==> {
                    &&& row.execution.status == ExecutionStatus::Failed
                    &&& row.execution.lease_expires_at is None
                    &&& row.execution.result_error == Some("lease expired"@)
                    &&& row.execution.updated_at == now
                    &&& row.execution.id == before.id
                    &&& row.execution.job_id == before.job_id
                    &&& row.execution.queue_name == before.queue_name
                    &&& row.execution.execution_count == before.execution_count
                    &&& row.execution.dispatch_id == before.dispatch_id
                    &&& row.execution.result_payload == before.result_payload
                    &&& row.execution.created_at == before.created_at
                }
            },
{
    assert forall|i: int| 0 <= i < rows.len() implies (#[trigger] recovered_rows(rows, now)[i]
        != rows[i] <==> (rows[i].execution.status == ExecutionStatus::Running
        && rows[i].execution.lease_expires_at is Some
        && rows[i].execution.lease_expires_at->Some_0 < now)) by {
        if rows[i].execution.status == ExecutionStatus::Running
            && rows[i].execution.lease_expires_at is Some
            && rows[i].execution.lease_expires_at->Some_0 < now {
            assert(recovered_rows(rows, now)[i].execution.status == ExecutionStatus::Failed);
        }
    }
}

/// Recovery reports each attempt whose lease has run out, once, under its job
/// and token, and says whether the job may be tried again: as long as the
/// attempts so far do not exceed the retries of its queue. No other job is
/// reported.
pub proof fn lapsed_leases_are_reported_once(rows: Seq<ExecutionWithQueueConfigView>, now: i64)
    requires
        keys_distinct(rows),
    ensures
        forall|i: int|
            0 <= i < rows.len() ==> ((exists|k: int|
                0 <= k < recovered_stale(rows, now).len() && (#[trigger] recovered_stale(
                    rows,
                    now,
                )[k]).job_id == rows[i].execution.job_id) <==> ((
            #[trigger] rows[i]).execution.status == ExecutionStatus::Running
                && rows[i].execution.lease_expires_at is Some
                && rows[i].execution.lease_expires_at->Some_0 < now)),
        forall|i: int, k: int|
            0 <= i < rows.len() && 0 <= k < recovered_stale(rows, now).len() && (
            #[trigger] recovered_stale(rows, now)[k]).job_id == (
            #[trigger] rows[i]).execution.job_id ==> {
                &&& recovered_stale(rows, now)[k].dispatch_id == rows[i].execution.dispatch_id
                &&& recovered_stale(rows, now)[k].should_repend <==> (
                rows[i].execution.execution_count <= rows[i].queue.max_retries)
            },
        forall|j: int, k: int|
            0 <= j < k < recovered_stale(rows, now).len() ==> (#[trigger] recovered_stale(
                rows,
                now,
            )[j]).job_id != (#[trigger] recovered_stale(rows, now)[k]).job_id,
{
    let list = recovered_stale(rows, now);
    lemma_stale_list(rows, now);
    lemma_stale_jobs_differ(rows, now);
    assert forall|i: int, k: int|
        0 <= i < rows.len() && 0 <= k < list.len() && (#[trigger] list[k]).job_id == (
        #[trigger] rows[i]).execution.job_id implies late_at(rows, now, i) && list[k] == told_of(
        rows[i],
    ) by {
        assert(tells_of_late(rows, now, list[k]));
        let j = choose|j: int| #[trigger] late_at(rows, now, j) && list[k] == told_of(rows[j]);
        if i < j {
            assert(rows[i].execution.job_id != rows[j].execution.job_id);
        } else if j < i {
            assert(rows[j].execution.job_id != rows[i].execution.job_id);
        }
    }
    assert forall|i: int| #[trigger] late_at(rows, now, i) implies exists|k: int|
        0 <= k < list.len() && (#[trigger] list[k]).job_id == rows[i].execution.job_id by {
        let k = choose|k: int| 0 <= k < list.len() && list[k] == told_of(rows[i]);
        assert(list[k].job_id == rows[i].execution.job_id);
    }
    assert forall|i: int| 0 <= i < rows.len() implies ((exists|k: int|
        0 <= k < list.len() && (#[trigger] list[k]).job_id == rows[i].execution.job_id) <==> ((
    #[trigger] rows[i]).execution.status == ExecutionStatus::Running
        && rows[i].execution.lease_expires_at is Some && rows[i].execution.lease_expires_at->Some_0
        < now)) by {
        assert(late_at(rows, now, i) <==> (rows[i].execution.status == ExecutionStatus::Running
            && rows[i].execution.lease_expires_at is Some
            && rows[i].execution.lease_expires_at->Some_0 < now));
    }
}

/// A report on a running attempt, under its job and its token, ends it: with
/// success it holds the payload and no error, with failure the message and
/// nothing else new. It no longer has a lease. The accepted job is claimed
/// no more only where the attempt failed and its queue has retries left. Every
/// other attempt and every other job stays as it is.
pub proof fn reports_end_the_attempt_they_name(
    store: StoreView,
    item: CompletionView,
    now: int,
    at: int,
)
    requires
        keys_distinct(store.results.executions),
        0 <= at < store.results.executions.len(),
        store.results.executions[at].execution.job_id == item.job_id,
        store.results.executions[at].execution.dispatch_id == item.dispatch_id,
        store.results.executions[at].execution.status == ExecutionStatus::Running,
    ensures
        ({
            let row = store.results.executions[at];
            let after = after_report(store, item, now);
            let retried = item.outcome is Failed && row.execution.execution_count
                <= row.queue.max_retries;
            let ended = after.results.executions[at].execution;
            &&& after.ingest.queues == store.ingest.queues
            &&& after.results.queues == store.results.queues
            &&& after.results.executions.len() == store.results.executions.len()
            &&& forall|k: int|
                0 <= k < store.results.executions.len() && k != at
                    ==> #[trigger] after.results.executions[k] == store.results.executions[k]
            &&& after.results.executions[at].queue == row.queue
            &&& ended.id == row.execution.id
            &&& ended.job_id == row.execution.job_id
            &&& ended.queue_name == row.execution.queue_name
            &&& ended.execution_count == row.execution.execution_count
            &&& ended.dispatch_id == row.execution.dispatch_id
            &&& ended.created_at == row.execution.created_at
            &&& ended.updated_at == now
            &&& ended.lease_expires_at is None
            &&& match item.outcome {
                JobOutcomeView::Succeeded(payload) => {
                    &&& ended.status == ExecutionStatus::Completed
                    &&& ended.result_payload == Some(payload)
                    &&& ended.result_error is None
                },
                JobOutcomeView::Failed(message) => {
                    &&& ended.status == ExecutionStatus::Failed
                    &&& ended.result_payload == row.execution.result_payload
                    &&& ended.result_error == Some(message)
                },
            }
            &&& disposition(store.results.executions, item) == (if retried {
                CompletionDisposition::Repend
            } else {
                CompletionDisposition::Completed
            })
            &&& after.ingest.jobs.len() == store.ingest.jobs.len()
            &&& forall|k: int|
                0 <= k < store.ingest.jobs.len() ==> {
                    let job = store.ingest.jobs[k];
                    let left = #[trigger] after.ingest.jobs[k];
                    if retried && job.id == item.job_id && job.dispatch_id == Some(
                        item.dispatch_id,
                    ) {
                        &&& left.id == job.id
                        &&& left.queue_name == job.queue_name
                        &&& left.payload == job.payload
                        &&& left.dispatch_id is None
                        &&& left.created_at == job.created_at
                        &&& left.updated_at == now
                    } else {
                        left == job
                    }
                }
        }),
{
    let rows = store.results.executions;
    let after = settle_chunk(rows, seq![item], now);
    assert(runs_at(rows, item.job_id, item.dispatch_id, at));
    let chosen = choose|k: int| runs_at(rows, item.job_id, item.dispatch_id, k);
    assert(runs_at(rows, item.job_id, item.dispatch_id, chosen));
    if chosen < at {
        assert(rows[chosen].execution.job_id != rows[at].execution.job_id);
    } else if at < chosen {
        assert(rows[at].execution.job_id != rows[chosen].execution.job_id);
    }
    assert forall|k: int| 0 <= k < rows.len() && k != at implies #[trigger] after[k]
        == rows[k] by {
        lemma_settle_one(rows[k], item, now);
        if k < at {
            assert(rows[k].execution.job_id != rows[at].execution.job_id);
        } else {
            assert(rows[at].execution.job_id != rows[k].execution.job_id);
        }
    }
    lemma_settle_one(rows[at], item, now);
}

/// A report that names no running attempt by both its job and its token is
/// ignored: nothing in either database changes.
pub proof fn reports_without_an_attempt_change_nothing(
    store: StoreView,
    item: CompletionView,
    now: int,
)
    requires
        forall|k: int|
            0 <= k < store.results.executions.len() ==> {
                ||| (#[trigger] store.results.executions[k]).execution.job_id != item.job_id
                ||| store.results.executions[k].execution.dispatch_id != item.dispatch_id
                ||| store.results.executions[k].execution.status != ExecutionStatus::Running
            },
    ensures
        disposition(store.results.executions, item) == CompletionDisposition::Ignored,
        after_report(store, item, now) == store,
        complete_reply(store, item, now) == Ok::<Option<JobModel>, StoreErrorView>(None),
{
    let rows = store.results.executions;
    assert forall|k: int| !runs_at(rows, item.job_id, item.dispatch_id, k) by {
        if 0 <= k < rows.len() {
            assert(rows[k].execution.job_id != item.job_id || rows[k].execution.dispatch_id
                != item.dispatch_id || rows[k].execution.status != ExecutionStatus::Running);
        }
    }
    stale_reports_are_ignored(store, item, now);
}

/// Who reports on a running attempt is shown the job as it now stands: done
/// with the payload; or, after a failure, waiting again where retries are left,
/// and failed with the message where none are.
pub proof fn reporters_see_the_job(store: StoreView, item: CompletionView, now: int, at: int, k: int)
    requires
        keys_distinct(store.results.executions),
        ids_ascend(store.ingest.jobs),
        0 <= at < store.results.executions.len(),
        store.results.executions[at].execution.job_id == item.job_id,
        store.results.executions[at].execution.dispatch_id == item.dispatch_id,
        store.results.executions[at].execution.status == ExecutionStatus::Running,
        0 <= k < store.ingest.jobs.len(),
        store.ingest.jobs[k].id == item.job_id,
        store.ingest.jobs[k].dispatch_id == Some(item.dispatch_id),
    ensures
        ({
            let row = store.results.executions[at];
            let accepted = store.ingest.jobs[k];
            &&& complete_reply(store, item, now) matches Ok(Some(job))
            &&& job.id == item.job_id
            &&& job.name == accepted.queue_name
            &&& job.payload == accepted.payload
            &&& job.created_at == accepted.created_at
            &&& job.execution_count == row.execution.execution_count
            &&& job.dispatch_id == Some(item.dispatch_id)
            &&& job.lease_expires_at is None
            &&& job.updated_at == now
            &&& match item.outcome {
                JobOutcomeView::Succeeded(payload) => {
                    &&& job.status == ExecutionStatus::Completed
                    &&& job.result_payload == Some(payload)
                    &&& job.result_error is None
                },
                JobOutcomeView::Failed(message) => {
                    &&& job.status == (if row.execution.execution_count <= row.queue.max_retries {
                        ExecutionStatus::Pending
                    } else {
                        ExecutionStatus::Failed
                    })
                    &&& job.result_error == Some(message)
                },
            }
            &&& composed_job(after_report(store, item, now), item.job_id) == Ok::<
                JobModel,
                StoreErrorView,
            >(job)
        }),
{
    reports_end_the_attempt_they_name(store, item, now, at);
    let after = after_report(store, item, now);
    let rows = store.results.executions;
    assert(keys_distinct(after.results.executions)) by {
        assert forall|i: int, j: int|
            #![trigger after.results.executions[i], after.results.executions[j]]
            0 <= i < j < after.results.executions.len() implies {
            &&& after.results.executions[i].execution.id < after.results.executions[j].execution.id
            &&& after.results.executions[i].execution.job_id
                != after.results.executions[j].execution.job_id
            &&& after.results.executions[i].execution.dispatch_id
                != after.results.executions[j].execution.dispatch_id
        } by {
            assert(rows[i].execution.id < rows[j].execution.id);
        }
    }
    assert(ids_ascend(after.ingest.jobs)) by {
        assert forall|i: int, j: int| 0 <= i < j < after.ingest.jobs.len() implies (
        #[trigger] after.ingest.jobs[i]).id < (#[trigger] after.ingest.jobs[j]).id by {
            assert(store.ingest.jobs[i].id < store.ingest.jobs[j].id);
        }
    }
    lemma_execution_of(after.results.executions, at);
    lemma_job_of(after.ingest.jobs, k);
}

/// Giving a claim back ends the attempt under its token with `abandoned`, and
/// makes the job available where the token is the one it was claimed under.
/// Nothing else changes, and no attempt is counted back.
pub proof fn releases_undo_one_claim(store: StoreView, job_id: int, token: Seq<char>, now: int)
    ensures
        ({
            let after = after_release(store, job_id, token, now);
            &&& after.ingest.queues == store.ingest.queues
            &&& after.results.queues == store.results.queues
            &&& after.ingest.jobs.len() == store.ingest.jobs.len()
            &&& after.results.executions.len() == store.results.executions.len()
            &&& forall|k: int|
                0 <= k < store.ingest.jobs.len() ==> {
                    let job = store.ingest.jobs[k];
                    let left = #[trigger] after.ingest.jobs[k];
                    if job.id == job_id && job.dispatch_id == Some(token) {
                        &&& left.id == job.id
                        &&& left.queue_name == job.queue_name
                        &&& left.payload == job.payload
                        &&& left.dispatch_id is None
                        &&& left.created_at == job.created_at
                        &&& left.updated_at == now
                    } else {
                        left == job
                    }
                }
            &&& forall|k: int|
                0 <= k < store.results.executions.len() ==> {
                    let before = store.results.executions[k];
                    let row = #[trigger] after.results.executions[k];
                    if before.execution.job_id == job_id && before.execution.dispatch_id == token
                        && before.execution.status == ExecutionStatus::Running {
                        &&& row.queue == before.queue
                        &&& row.execution.status == ExecutionStatus::Failed
                        &&& row.execution.lease_expires_at is None
                        &&& row.execution.result_error == Some("abandoned"@)
                        &&& row.execution.updated_at == now
                        &&& row.execution.id == before.execution.id
                        &&& row.execution.job_id == before.execution.job_id
                        &&& row.execution.queue_name == before.execution.queue_name
                        &&& row.execution.execution_count == before.execution.execution_count
                        &&& row.execution.dispatch_id == before.execution.dispatch_id
                        &&& row.execution.result_payload == before.execution.result_payload
                        &&& row.execution.created_at == before.execution.created_at
                    } else {
                        row == before
                    }
                }
        }),
{
}

/// A claim is given back exactly if the job is still claimed under that token;
/// a job that is not known is an error.
pub proof fn releases_answer_for_the_claim(store: StoreView, job_id: int, token: Seq<char>, k: int)
    requires
        ids_ascend(store.ingest.jobs),
    ensures
        0 <= k < store.ingest.jobs.len() && store.ingest.jobs[k].id == job_id ==> release_reply(
            store,
            job_id,
            token,
        ) == Ok::<bool, StoreErrorView>(store.ingest.jobs[k].dispatch_id == Some(token)),
        (forall|i: int|
            0 <= i < store.ingest.jobs.len() ==> (#[trigger] store.ingest.jobs[i]).id != job_id)
            ==> release_reply(store, job_id, token) == Err::<bool, StoreErrorView>(
            StoreErrorView::NotFound(job_id),
        ),
{
    if 0 <= k < store.ingest.jobs.len() && store.ingest.jobs[k].id == job_id {
        lemma_job_of(store.ingest.jobs, k);
    }
    if forall|i: int|
        0 <= i < store.ingest.jobs.len() ==> (#[trigger] store.ingest.jobs[i]).id != job_id {
        assert forall|i: int| !row_has_id(store.ingest.jobs, job_id, i) by {
            if 0 <= i < store.ingest.jobs.len() {
                assert(store.ingest.jobs[i].id != job_id);
            }
        }
    }
}

/// A store that is opened frees the jobs whose token no attempt has, and no
/// others: what has been recorded as an attempt stays claimed.
pub proof fn only_orphans_are_healed(jobs: Seq<AcceptedJobView>, results: ResultsView, now: int)
    ensures
        healed(jobs, results, now).len() == jobs.len(),
        forall|k: int|
            0 <= k < jobs.len() ==> {
                let job = jobs[k];
                let left = #[trigger] healed(jobs, results, now)[k];
                let recorded = exists|i: int|
                    0 <= i < results.executions.len() && (
                    #[trigger] results.executions[i]).execution.dispatch_id
                        == job.dispatch_id->Some_0;
                if job.dispatch_id is Some && !recorded {
                    &&& left.id == job.id
                    &&& left.queue_name == job.queue_name
                    &&& left.payload == job.payload
                    &&& left.dispatch_id is None
                    &&& left.created_at == job.created_at
                    &&& left.updated_at == now
                } else {
                    left == job
                }
            },
{
    assert forall|k: int| 0 <= k < jobs.len() && jobs[k].dispatch_id is Some implies (
    #[trigger] orphaned(jobs[k], results) <==> !exists|i: int|
        0 <= i < results.executions.len() && (
        #[trigger] results.executions[i]).execution.dispatch_id
            == jobs[k].dispatch_id->Some_0) by {
        let token = jobs[k].dispatch_id->Some_0;
        if exists|i: int|
            0 <= i < results.executions.len() && (
            #[trigger] results.executions[i]).execution.dispatch_id == token {
            let i = choose|i: int|
                0 <= i < results.executions.len() && (
                #[trigger] results.executions[i]).execution.dispatch_id == token;
            assert(token_at(results.executions, token, i));
        } else {
            assert forall|i: int| !#[trigger] token_at(results.executions, token, i) by {
                if 0 <= i < results.executions.len() {
                    assert(results.executions[i].execution.dispatch_id != token);
                }
            }
        }
    }
}

/// A configured queue has the policy it was given and the time of this
/// configuration; the time of the first one stays.
pub proof fn configuring_replaces_the_policy(
    known: Map<Seq<char>, JobQueueView>,
    queue: JobQueueView,
    now: int,
)
    ensures
        configured(known, queue, now).name == queue.name,
        configured(known, queue, now).max_retries == queue.max_retries,
        configured(known, queue, now).timeout_secs == queue.timeout_secs,
        configured(known, queue, now).updated_at == now,
        known.dom().contains(queue.name) ==> configured(known, queue, now).created_at
            == known[queue.name].created_at,
        !known.dom().contains(queue.name) ==> configured(known, queue, now).created_at
            == queue.created_at,
{
}

/// A job reads back by its id, with its attempt where it has one; an id that
/// no job has is an error.
pub proof fn jobs_read_back_by_id(store: StoreView, k: int, id: int)
    requires
        keys_distinct(store.results.executions),
        ids_ascend(store.ingest.jobs),
    ensures
        (forall|i: int|
            0 <= i < store.ingest.jobs.len() ==> (#[trigger] store.ingest.jobs[i]).id != id)
            ==> composed_job(store, id) == Err::<JobModel, StoreErrorView>(
            StoreErrorView::NotFound(id),
        ),
        0 <= k < store.ingest.jobs.len() ==> {
            let accepted = store.ingest.jobs[k];
            let untried = forall|i: int|
                0 <= i < store.results.executions.len() ==> (
                #[trigger] store.results.executions[i]).execution.job_id != accepted.id;
            &&& composed_job(store, accepted.id) matches Ok(job)
            &&& job.id == accepted.id
            &&& job.name == accepted.queue_name
            &&& job.payload == accepted.payload
            &&& job.created_at == accepted.created_at
            &&& untried ==> {
                &&& job.status == ExecutionStatus::Pending
                &&& job.execution_count == 0
                &&& job.lease_expires_at is None
                &&& job.dispatch_id == accepted.dispatch_id
                &&& job.result_payload is None
                &&& job.result_error is None
                &&& job.updated_at == accepted.updated_at
            }
            &&& forall|i: int|
                0 <= i < store.results.executions.len() && (
                #[trigger] store.results.executions[i]).execution.job_id == accepted.id ==> {
                    let attempt = store.results.executions[i].execution;
                    &&& job.status == (if attempt.status == ExecutionStatus::Failed
                        && accepted.dispatch_id is None {
                        ExecutionStatus::Pending
                    } else {
                        attempt.status
                    })
                    &&& job.execution_count == attempt.execution_count
                    &&& job.lease_expires_at == attempt.lease_expires_at
                    &&& job.dispatch_id == Some(attempt.dispatch_id)
                    &&& job.result_payload == attempt.result_payload
                    &&& job.result_error == attempt.result_error
                    &&& job.updated_at == attempt.updated_at
                }
        },
{
    let rows = store.results.executions;
    let jobs = store.ingest.jobs;
    if forall|i: int| 0 <= i < jobs.len() ==> (#[trigger] jobs[i]).id != id {
        assert forall|i: int| !row_has_id(jobs, id, i) by {
            if 0 <= i < jobs.len() {
                assert(jobs[i].id != id);
            }
        }
    }
    if 0 <= k < jobs.len() {
        lemma_job_of(jobs, k);
        let wanted = jobs[k].id;
        if exists|i: int| attempts_at(rows, wanted, i) {
            let i = choose|i: int| attempts_at(rows, wanted, i);
            assert(rows[i].execution.job_id == wanted);
        }
        assert forall|i: int|
            0 <= i < rows.len() && (#[trigger] rows[i]).execution.job_id
                == wanted implies execution_of(rows, wanted) == Some(rows[i].execution) by {
            lemma_execution_of(rows, i);
        }
    }
}

/// One row put in the place of another under the same job shows in its stead.
proof fn lemma_replaced_attempt(
    rows: Seq<ExecutionWithQueueConfigView>,
    at: int,
    row: ExecutionWithQueueConfigView,
)
    requires
        keys_distinct(rows),
        keys_distinct(rows.update(at, row)),
        0 <= at < rows.len(),
        row.execution.job_id == rows[at].execution.job_id,
    ensures
        execution_of(rows.update(at, row), row.execution.job_id) == Some(row.execution),
        forall|job: int|
            job != row.execution.job_id ==> #[trigger] execution_of(rows.update(at, row), job)
                == execution_of(rows, job),
{
    let after = rows.update(at, row);
    assert(after[at] == row);
    lemma_execution_of(after, at);
    assert forall|job: int| job != row.execution.job_id implies #[trigger] execution_of(after, job)
        == execution_of(rows, job) by {
        if exists|k: int| attempts_at(rows, job, k) {
            let k = choose|k: int| attempts_at(rows, job, k);
            assert(attempts_at(rows, job, k));
            assert(after[k] == rows[k]);
            lemma_execution_of(rows, k);
            lemma_execution_of(after, k);
        } else if exists|k: int| attempts_at(after, job, k) {
            let k = choose|k: int| attempts_at(after, job, k);
            assert(attempts_at(after, job, k));
            assert(attempts_at(rows, job, k));
        }
    }
}

/// One more row shows under its own job only.
proof fn lemma_added_attempt(
    rows: Seq<ExecutionWithQueueConfigView>,
    row: ExecutionWithQueueConfigView,
)
    requires
        keys_distinct(rows),
        keys_distinct(rows.push(row)),
    ensures
        execution_of(rows.push(row), row.execution.job_id) == Some(row.execution),
        forall|job: int|
            job != row.execution.job_id ==> #[trigger] execution_of(rows.push(row), job)
                == execution_of(rows, job),
{
    let after = rows.push(row);
    assert(after[rows.len() as int] == row);
    lemma_execution_of(after, rows.len() as int);
    assert forall|job: int| job != row.execution.job_id implies #[trigger] execution_of(after, job)
        == execution_of(rows, job) by {
        if exists|k: int| attempts_at(rows, job, k) {
            let k = choose|k: int| attempts_at(rows, job, k);
            assert(attempts_at(rows, job, k));
            assert(after[k] == rows[k]);
            lemma_execution_of(rows, k);
            lemma_execution_of(after, k);
        } else if exists|k: int| attempts_at(after, job, k) {
            let k = choose|k: int| attempts_at(after, job, k);
            assert(attempts_at(after, job, k));
            assert(attempts_at(rows, job, k));
        }
    }
}

/// A batch of dispatches that was written, and started an attempt for each of
/// its jobs, leaves these attempts running under the tokens and the leases asked
/// for. Each counts one more than the attempts before it, which had ended without
/// success. Attempts at other jobs stay.
#[verifier::rlimit(60)]
proof fn lemma_dispatches_run(table: ResultsView, inserts: Seq<DispatchInsertView>, now: int)
    requires
        keys_distinct(table.executions),
        forall|i: int, j: int|
            0 <= i < j < inserts.len() ==> (#[trigger] inserts[i]).job_id != (
            #[trigger] inserts[j]).job_id,
        dispatch_run(table, inserts, now).failure is None,
        !dispatch_run(table, inserts, now).queue_missing,
        !dispatch_run(table, inserts, now).count_exhausted,
        forall|i: int|
            0 <= i < dispatch_run(table, inserts, now).started.len() ==> (
            #[trigger] dispatch_run(table, inserts, now).started[i]) is Some,
    ensures
        ({
            let run = dispatch_run(table, inserts, now);
            &&& keys_distinct(run.rows)
            &&& run.started.len() == inserts.len()
            &&& forall|job: int|
                (forall|i: int| 0 <= i < inserts.len() ==> (#[trigger] inserts[i]).job_id != job)
                    ==> #[trigger] execution_of(run.rows, job) == execution_of(
                    table.executions,
                    job,
                )
            &&& forall|i: int|
                0 <= i < inserts.len() ==> {
                    let insert = #[trigger] inserts[i];
                    let started = run.started[i]->Some_0;
                    let attempt = execution_of(run.rows, insert.job_id)->Some_0;
                    let last = execution_of(table.executions, insert.job_id);
                    &&& execution_of(run.rows, insert.job_id) is Some
                    &&& attempt.job_id == insert.job_id
                    &&& attempt.status == ExecutionStatus::Running
                    &&& attempt.dispatch_id == insert.dispatch_id
                    &&& attempt.lease_expires_at == Some(insert.lease_expires_at)
                    &&& attempt.result_payload is None
                    &&& attempt.result_error is None
                    &&& attempt.updated_at == now
                    &&& attempt.execution_count == (match last {
                        Some(e) => e.execution_count + 1,
                        None => 1,
                    })
                    &&& last is Some ==> last->Some_0.status == ExecutionStatus::Failed
                        || last->Some_0.status == ExecutionStatus::Pending
                    &&& started.job_id == insert.job_id
                    &&& started.execution_count == attempt.execution_count
                    &&& started.dispatch_id == insert.dispatch_id
                    &&& started.lease_expires_at == insert.lease_expires_at
                    &&& started.updated_at == now
                }
        }),
    decreases inserts.len(),
{
    let run = dispatch_run(table, inserts, now);
    if inserts.len() > 0 {
        let fewer = inserts.drop_last();
        let before = dispatch_run(table, fewer, now);
        let n = inserts.len() - 1;
        let insert = inserts[n];
        assert(before.failure is None && !before.queue_missing && !before.count_exhausted);
        assert(close_statement(before) == before);
        assert(run == dispatch_one(table.queues, before, insert, now));
        assert(run.started.drop_last() =~= before.started);
        assert forall|i: int| 0 <= i < before.started.len() implies (
        #[trigger] before.started[i]) is Some by {
            assert(run.started[i] is Some);
        }
        lemma_dispatches_run(table, fewer, now);
        assert(run.started[n] is Some);
        assert forall|i: int| 0 <= i < fewer.len() implies (#[trigger] fewer[i]).job_id
            != insert.job_id by {
            assert(inserts[i].job_id != inserts[n].job_id);
        }
        assert(execution_of(before.rows, insert.job_id) == execution_of(
            table.executions,
            insert.job_id,
        ));
        if exists|at: int| attempts_at(before.rows, insert.job_id, at) {
            let at = choose|at: int| attempts_at(before.rows, insert.job_id, at);
            assert(attempts_at(before.rows, insert.job_id, at));
            let row = before.rows[at];
            let next = run.rows[at];
            lemma_execution_of(before.rows, at);
            assert(next.execution.id == row.execution.id);
            assert(next.execution.dispatch_id == insert.dispatch_id);
            lemma_replaced_keys(before.rows, at, next);
            lemma_replaced_attempt(before.rows, at, next);
        } else {
            let first = run.rows.last();
            assert(run.rows =~= before.rows.push(first));
            lemma_added_keys(before.rows, first);
            lemma_added_attempt(before.rows, first);
        }
        assert forall|i: int| 0 <= i < n implies run.started[i] == before.started[i]
            && execution_of(run.rows, (#[trigger] inserts[i]).job_id) == execution_of(
            before.rows,
            fewer[i].job_id,
        ) by {
            assert(inserts[i].job_id != inserts[n].job_id);
            assert(fewer[i] == inserts[i]);
        }
        assert forall|job: int|
            (forall|i: int|
                0 <= i < inserts.len() ==> (#[trigger] inserts[i]).job_id
                    != job) implies #[trigger] execution_of(run.rows, job) == execution_of(
            table.executions,
            job,
        ) by {
            assert(inserts[n].job_id != job);
            assert forall|i: int| 0 <= i < fewer.len() implies (#[trigger] fewer[i]).job_id
                != job by {
                assert(inserts[i].job_id != job);
            }
            assert(execution_of(before.rows, job) == execution_of(table.executions, job));
        }
    }
}

/// The jobs that a claim hands out are the accepted ones at the head of the
/// line, one for one: each with the id, the queue, the payload and the time of
/// acceptance of the row it was claimed from, running, under the token of the
/// claim, and for the first time or one more time than before. What is handed
/// out is also what reads back afterwards.
#[verifier::rlimit(60)]
pub proof fn claims_hand_out_what_was_accepted(
    before: StoreView,
    queue: Seq<char>,
    limit: int,
    tokens: Seq<Seq<char>>,
    now: i64,
    after: StoreView,
    jobs: Seq<JobModel>,
)
    requires
        keys_distinct(before.results.executions),
        ids_ascend(before.ingest.jobs),
        before.ingest.queues.dom().contains(queue),
        before.ingest.queues[queue].timeout_secs >= 0,
        claim_effect(
            before,
            queue,
            limit,
            tokens,
            now as int,
            after,
            Ok::<Seq<JobModel>, StoreErrorView>(jobs),
        ),
    ensures
        ({
            let picked = claimable(before.ingest.jobs, queue, claim_limit(limit));
            let timeout = before.ingest.queues[queue].timeout_secs;
            &&& jobs.len() == picked.len()
            &&& forall|i: int|
                0 <= i < jobs.len() ==> {
                    let job = #[trigger] jobs[i];
                    let last = execution_of(before.results.executions, picked[i].id);
                    &&& before.ingest.jobs.contains(picked[i])
                    &&& job.id == picked[i].id
                    &&& job.name == picked[i].queue_name
                    &&& job.payload == picked[i].payload
                    &&& job.created_at == picked[i].created_at
                    &&& job.status == ExecutionStatus::Running
                    &&& job.dispatch_id == Some(tokens[i])
                    &&& job.result_payload is None
                    &&& job.result_error is None
                    &&& job.updated_at == now
                    &&& job.execution_count == (match last {
                        Some(e) => e.execution_count + 1,
                        None => 1,
                    })
                    &&& job.lease_expires_at is Some
                    &&& timeout * 1000 <= i64::MAX || now >= 0 ==> job.lease_expires_at->Some_0
                        == (if now + timeout * 1000 <= i64::MAX {
                        now + timeout * 1000
                    } else {
                        i64::MAX as int
                    })
                    &&& composed_job(after, job.id) == Ok::<JobModel, StoreErrorView>(job)
                }
        }),
{
    let rows = before.ingest.jobs;
    let picked = claimable(rows, queue, claim_limit(limit));
    let timeout = before.ingest.queues[queue].timeout_secs;
    let claims = claims_of(picked, tokens, timeout);
    let inserts = dispatches_of(claims, now as int);
    let run = whole_dispatch(before.results, inserts, now as int);
    let taken = claimed_rows(rows, picked, tokens, now as int);
    assert(run == dispatch_run(before.results, inserts, now as int));
    assert forall|i: int, j: int| 0 <= i < j < inserts.len() implies (
    #[trigger] inserts[i]).job_id != (#[trigger] inserts[j]).job_id by {
        lemma_picked_ids_differ(rows, queue, claim_limit(limit), picked, i, j);
    }
    assert forall|i: int| 0 <= i < run.started.len() implies (#[trigger] run.started[i]) is Some by {
        assert(jobs[i] == running_job(claims[i], run.started[i]->Some_0));
    }
    lemma_dispatches_run(before.results, inserts, now as int);
    assert(ids_ascend(taken)) by {
        assert forall|i: int, j: int| 0 <= i < j < taken.len() implies (#[trigger] taken[i]).id < (
        #[trigger] taken[j]).id by {
            assert(rows[i].id < rows[j].id);
        }
    }
    assert forall|i: int| 0 <= i < jobs.len() implies {
        let job = #[trigger] jobs[i];
        let last = execution_of(before.results.executions, picked[i].id);
        &&& rows.contains(picked[i])
        &&& job.id == picked[i].id
        &&& job.name == picked[i].queue_name
        &&& job.payload == picked[i].payload
        &&& job.created_at == picked[i].created_at
        &&& job.status == ExecutionStatus::Running
        &&& job.dispatch_id == Some(tokens[i])
        &&& job.result_payload is None
        &&& job.result_error is None
        &&& job.updated_at == now
        &&& job.execution_count == (match last {
            Some(e) => e.execution_count + 1,
            None => 1,
        })
        &&& job.lease_expires_at is Some
        &&& timeout * 1000 <= i64::MAX || now >= 0 ==> job.lease_expires_at->Some_0 == (if now
            + timeout * 1000 <= i64::MAX {
            now + timeout * 1000
        } else {
            i64::MAX as int
        })
        &&& composed_job(after, job.id) == Ok::<JobModel, StoreErrorView>(job)
    } by {
        assert(jobs[i] == running_job(claims[i], run.started[i]->Some_0));
        assert(inserts[i].job_id == picked[i].id);
        assert(rows.contains(picked[i]));
        let k = choose|k: int| 0 <= k < rows.len() && rows[k] == picked[i];
        assert(picked.contains(rows[k]));
        let j = picked.index_of(rows[k]);
        assert(picked[j] == picked[i]);
        if i < j {
            lemma_picked_ids_differ(rows, queue, claim_limit(limit), picked, i, j);
        } else if j < i {
            lemma_picked_ids_differ(rows, queue, claim_limit(limit), picked, j, i);
        }
        lemma_job_of(taken, k);
        let attempt = execution_of(run.rows, picked[i].id);
        assert(composed_job(after, picked[i].id) == Ok::<JobModel, StoreErrorView>(
            merged_job(taken[k], attempt),
        ));
        assert(merged_job(taken[k], attempt) =~= jobs[i]);
    }
}

/// No job is in the line twice.
proof fn lemma_picked_ids_differ(
    rows: Seq<AcceptedJobView>,
    queue: Seq<char>,
    limit: int,
    picked: Seq<AcceptedJobView>,
    i: int,
    j: int,
)
    requires
        ids_ascend(rows),
        first_available(rows, queue, limit, picked),
        0 <= i < j < picked.len(),
    ensures
        picked[i].id != picked[j].id,
{
    assert(precedes(picked[i], picked[j]));
    assert(rows.contains(picked[i]) && rows.contains(picked[j]));
    let a = choose|a: int| 0 <= a < rows.len() && rows[a] == picked[i];
    let b = choose|b: int| 0 <= b < rows.len() && rows[b] == picked[j];
    if a < b {
        assert(rows[a].id < rows[b].id);
    } else if b < a {
        assert(rows[b].id < rows[a].id);
    }
}

/// A claim takes the jobs that have waited longest in the queue, by the time of
/// their acceptance and then by their ids, in that order, and as many as are
/// asked for: at least one, and never more than one batch. It marks them with
/// its tokens and leaves every other job as it is.
pub proof fn claims_take_the_oldest_first(
    before: StoreView,
    queue: Seq<char>,
    limit: int,
    tokens: Seq<Seq<char>>,
    now: i64,
    after: StoreView,
    jobs: Seq<JobModel>,
)
    requires
        keys_distinct(before.results.executions),
        ids_ascend(before.ingest.jobs),
        before.ingest.queues.dom().contains(queue),
        before.ingest.queues[queue].timeout_secs >= 0,
        claim_effect(
            before,
            queue,
            limit,
            tokens,
            now as int,
            after,
            Ok::<Seq<JobModel>, StoreErrorView>(jobs),
        ),
    ensures
        ({
            let most = if limit < 1 {
                1
            } else if limit > 16_384 {
                16_384
            } else {
                limit
            };
            &&& jobs.len() <= most
            &&& after.ingest.jobs.len() == before.ingest.jobs.len()
            &&& forall|i: int, j: int|
                0 <= i < j < jobs.len() ==> (#[trigger] jobs[i]).created_at < (
                #[trigger] jobs[j]).created_at || jobs[i].created_at == jobs[j].created_at
                    && jobs[i].id < jobs[j].id
            &&& forall|k: int, i: int|
                0 <= k < before.ingest.jobs.len() && 0 <= i < jobs.len() && (
                #[trigger] jobs[i]).id == (#[trigger] before.ingest.jobs[k]).id ==> {
                    let row = before.ingest.jobs[k];
                    let left = after.ingest.jobs[k];
                    &&& row.queue_name == queue
                    &&& row.dispatch_id is None
                    &&& left.id == row.id
                    &&& left.queue_name == row.queue_name
                    &&& left.payload == row.payload
                    &&& left.dispatch_id == Some(tokens[i])
                    &&& left.created_at == row.created_at
                    &&& left.updated_at == now
                }
            &&& forall|k: int|
                0 <= k < before.ingest.jobs.len() && (forall|i: int|
                    0 <= i < jobs.len() ==> (#[trigger] jobs[i]).id != before.ingest.jobs[k].id)
                    ==> {
                    let row = #[trigger] before.ingest.jobs[k];
                    &&& after.ingest.jobs[k] == row
                    &&& row.queue_name == queue && row.dispatch_id is None ==> {
                        &&& jobs.len() == most
                        &&& forall|i: int|
                            0 <= i < jobs.len() ==> (#[trigger] jobs[i]).created_at
                                < row.created_at || jobs[i].created_at == row.created_at
                                && jobs[i].id < row.id
                    }
                }
        }),
{
    claims_hand_out_what_was_accepted(before, queue, limit, tokens, now, after, jobs);
    let rows = before.ingest.jobs;
    let most = claim_limit(limit);
    let picked = claimable(rows, queue, most);
    assert forall|i: int, j: int| 0 <= i < j < jobs.len() implies (#[trigger] jobs[i]).created_at
        < (#[trigger] jobs[j]).created_at || jobs[i].created_at == jobs[j].created_at && jobs[i].id
        < jobs[j].id by {
        assert(precedes(picked[i], picked[j]));
    }
    assert forall|k: int, i: int|
        0 <= k < rows.len() && 0 <= i < jobs.len() && (#[trigger] jobs[i]).id == (
        #[trigger] rows[k]).id implies {
        let row = rows[k];
        let left = after.ingest.jobs[k];
        &&& row.queue_name == queue
        &&& row.dispatch_id is None
        &&& left.id == row.id
        &&& left.queue_name == row.queue_name
        &&& left.payload == row.payload
        &&& left.dispatch_id == Some(tokens[i])
        &&& left.created_at == row.created_at
        &&& left.updated_at == now
    } by {
        lemma_picked_row(rows, queue, most, picked, i, k);
    }
    assert forall|k: int|
        0 <= k < rows.len() && (forall|i: int|
            0 <= i < jobs.len() ==> (#[trigger] jobs[i]).id != rows[k].id) implies {
        let row = #[trigger] rows[k];
        &&& after.ingest.jobs[k] == row
        &&& row.queue_name == queue && row.dispatch_id is None ==> {
            &&& jobs.len() == most
            &&& forall|i: int|
                0 <= i < jobs.len() ==> (#[trigger] jobs[i]).created_at < row.created_at
                    || jobs[i].created_at == row.created_at && jobs[i].id < row.id
        }
    } by {
        if picked.contains(rows[k]) {
            let i = choose|i: int| 0 <= i < picked.len() && picked[i] == rows[k];
            assert(jobs[i].id == rows[k].id);
        }
        if rows[k].queue_name == queue && rows[k].dispatch_id is None {
            assert(available(rows[k], queue));
            assert forall|i: int| 0 <= i < jobs.len() implies (#[trigger] jobs[i]).created_at
                < rows[k].created_at || jobs[i].created_at == rows[k].created_at && jobs[i].id
                < rows[k].id by {
                assert(precedes(picked[i], rows[k]));
            }
        }
    }
}

/// The row that a job in the line was picked from is the one with its id.
proof fn lemma_picked_row(
    rows: Seq<AcceptedJobView>,
    queue: Seq<char>,
    limit: int,
    picked: Seq<AcceptedJobView>,
    i: int,
    k: int,
)
    requires
        ids_ascend(rows),
        first_available(rows, queue, limit, picked),
        0 <= i < picked.len(),
        0 <= k < rows.len(),
        picked[i].id == rows[k].id,
    ensures
        picked[i] == rows[k],
        picked.index_of(rows[k]) == i,
        available(rows[k], queue),
        picked.contains(rows[k]),
{
    assert(rows.contains(picked[i]));
    let at = choose|at: int| 0 <= at < rows.len() && rows[at] == picked[i];
    if at < k {
        assert(rows[at].id < rows[k].id);
    } else if k < at {
        assert(rows[k].id < rows[at].id);
    }
    let j = picked.index_of(rows[k]);
    assert(picked.contains(rows[k]));
    assert(picked[j] == rows[k]);
    if i < j {
        lemma_picked_ids_differ(rows, queue, limit, picked, i, j);
    } else if j < i {
        lemma_picked_ids_differ(rows, queue, limit, picked, j, i);
    }
}

/// Undoing claims frees the jobs that are claimed as named, and no others.
pub proof fn undone_claims_are_the_named_ones(
    jobs: Seq<AcceptedJobView>,
    pairs: Seq<(int, Seq<char>)>,
    now: int,
)
    ensures
        all_repended(jobs, pairs, now).len() == jobs.len(),
        forall|k: int|
            0 <= k < jobs.len() ==> {
                let job = jobs[k];
                let left = #[trigger] all_repended(jobs, pairs, now)[k];
                &&& left.id == job.id
                &&& left.queue_name == job.queue_name
                &&& left.payload == job.payload
                &&& left.created_at == job.created_at
                &&& job.dispatch_id is Some && pairs.contains((job.id, job.dispatch_id->Some_0))
                    ==> left.dispatch_id is None && left.updated_at == now
                &&& !(job.dispatch_id is Some && pairs.contains(
                    (job.id, job.dispatch_id->Some_0),
                )) ==> left == job
            },
    decreases pairs.len(),
{
    if pairs.len() > 0 {
        let fewer = pairs.drop_last();
        undone_claims_are_the_named_ones(jobs, fewer, now);
        let before = all_repended(jobs, fewer, now);
        let (id, token) = pairs.last();
        assert forall|k: int| 0 <= k < jobs.len() implies {
            let job = jobs[k];
            let left = #[trigger] all_repended(jobs, pairs, now)[k];
            &&& left.id == job.id
            &&& left.queue_name == job.queue_name
            &&& left.payload == job.payload
            &&& left.created_at == job.created_at
            &&& job.dispatch_id is Some && pairs.contains((job.id, job.dispatch_id->Some_0))
                ==> left.dispatch_id is None && left.updated_at == now
            &&& !(job.dispatch_id is Some && pairs.contains((job.id, job.dispatch_id->Some_0)))
                ==> left == job
        } by {
            let job = jobs[k];
            let pair = (job.id, job.dispatch_id->Some_0);
            assert(before[k].id == job.id);
            if fewer.contains(pair) {
                let j = choose|j: int| 0 <= j < fewer.len() && fewer[j] == pair;
                assert(pairs[j] == pair);
            } else if pairs.contains(pair) {
                let j = choose|j: int| 0 <= j < pairs.len() && pairs[j] == pair;
                if j < fewer.len() {
                    assert(fewer[j] == pair);
                }
                assert(pairs.last() == pair);
            } else {
                assert(pairs[pairs.len() - 1] != pair);
            }
        }
    }
}

/// A claim that fails leaves every job where it was: whoever waited still
/// waits, in the same place, and whoever was claimed still is.
pub proof fn failed_claims_put_jobs_back(
    before: StoreView,
    queue: Seq<char>,
    limit: int,
    tokens: Seq<Seq<char>>,
    now: i64,
    after: StoreView,
    error: StoreErrorView,
)
    requires
        ids_ascend(before.ingest.jobs),
        before.ingest.queues.dom().contains(queue),
        claim_effect(
            before,
            queue,
            limit,
            tokens,
            now as int,
            after,
            Err::<Seq<JobModel>, StoreErrorView>(error),
        ),
    ensures
        after.ingest.queues == before.ingest.queues,
        after.results.queues == before.results.queues,
        after.ingest.jobs.len() == before.ingest.jobs.len(),
        forall|k: int|
            0 <= k < before.ingest.jobs.len() ==> {
                let row = before.ingest.jobs[k];
                let left = #[trigger] after.ingest.jobs[k];
                &&& left.id == row.id
                &&& left.queue_name == row.queue_name
                &&& left.payload == row.payload
                &&& left.dispatch_id == row.dispatch_id
                &&& left.created_at == row.created_at
                &&& row.queue_name != queue || row.dispatch_id is Some ==> left == row
            },
{
    let rows = before.ingest.jobs;
    let most = claim_limit(limit);
    let picked = claimable(rows, queue, most);
    let claims = claims_of(picked, tokens, before.ingest.queues[queue].timeout_secs);
    let taken = claimed_rows(rows, picked, tokens, now as int);
    let pairs = claim_pairs(claims);
    undone_claims_are_the_named_ones(taken, pairs, now as int);
    assert forall|k: int| 0 <= k < rows.len() implies {
        let row = rows[k];
        let left = #[trigger] after.ingest.jobs[k];
        &&& left.id == row.id
        &&& left.queue_name == row.queue_name
        &&& left.payload == row.payload
        &&& left.dispatch_id == row.dispatch_id
        &&& left.created_at == row.created_at
        &&& row.queue_name != queue || row.dispatch_id is Some ==> left == row
    } by {
        if picked.contains(rows[k]) {
            let i = choose|i: int| 0 <= i < picked.len() && picked[i] == rows[k];
            lemma_picked_row(rows, queue, most, picked, i, k);
            assert(pairs[i] == (rows[k].id, tokens[i]));
        } else {
            assert(taken[k] == rows[k]);
            let pair = (rows[k].id, rows[k].dispatch_id->Some_0);
            if pairs.contains(pair) {
                let i = choose|i: int| 0 <= i < pairs.len() && pairs[i] == pair;
                assert(picked[i].id == rows[k].id);
                lemma_picked_row(rows, queue, most, picked, i, k);
            }
        }
    }
}

/// Jobs are accepted in the order in which they come, each under the next id,
/// with the payload, the queue and the time it came with, and waiting. A job for
/// a queue that is not known is not accepted, and uses up no id.
pub proof fn accepted_jobs_are_stored_as_they_came(
    queues: Map<Seq<char>, JobQueueView>,
    batch: Seq<AcceptedJobView>,
    job: AcceptedJobView,
    last: int,
)
    ensures
        accepted_rows(queues, Seq::empty(), last).len() == 0,
        ({
            let before = accepted_rows(queues, batch, last);
            let after = accepted_rows(queues, batch.push(job), last);
            let row = after.last();
            &&& !queues.dom().contains(job.queue_name) ==> after == before
            &&& queues.dom().contains(job.queue_name) ==> {
                &&& after.len() == before.len() + 1
                &&& after.drop_last() == before
                &&& row.id == last + after.len()
                &&& row.queue_name == job.queue_name
                &&& row.payload == job.payload
                &&& row.dispatch_id is None
                &&& row.created_at == job.created_at
                &&& row.updated_at == job.updated_at
            }
        }),
{
    assert(batch.push(job).drop_last() =~= batch);
    assert(batch.push(job).last() == job);
    if queues.dom().contains(job.queue_name) {
        assert(accepted_rows(queues, batch.push(job), last).drop_last() =~= accepted_rows(
            queues,
            batch,
            last,
        ));
    }
}

/// The rows that a batch adds begin with those that its first jobs add.
proof fn lemma_accepted_prefix(
    queues: Map<Seq<char>, JobQueueView>,
    batch: Seq<AcceptedJobView>,
    n: int,
    last: int,
)
    requires
        0 <= n <= batch.len(),
    ensures
        accepted_rows(queues, batch.take(n), last).len() <= accepted_rows(
            queues,
            batch,
            last,
        ).len(),
        accepted_rows(queues, batch.take(n), last) == accepted_rows(queues, batch, last).take(
            accepted_rows(queues, batch.take(n), last).len() as int,
        ),
    decreases batch.len(),
{
    let all = accepted_rows(queues, batch, last);
    if n == batch.len() {
        assert(batch.take(n) =~= batch);
        assert(all.take(all.len() as int) =~= all);
    } else {
        let fewer = batch.drop_last();
        lemma_accepted_prefix(queues, fewer, n, last);
        assert(fewer.take(n) =~= batch.take(n));
        let some = accepted_rows(queues, batch.take(n), last);
        assert(all.take(some.len() as int) =~= some);
    }
}

/// Who submits a job is told the id under which it is stored. The row under
/// that id holds the payload and the queue that were submitted, and waits.
pub proof fn submitters_are_told_the_id(table: IngestView, batch: Seq<AcceptedJobView>, i: int)
    requires
        0 <= i < batch.len(),
    ensures
        !table.queues.dom().contains(batch[i].queue_name) ==> enqueue_reply(table, batch, i)
            == Err::<AcceptedJobView, StoreErrorView>(
            StoreErrorView::QueueNotFound(batch[i].queue_name),
        ),
        table.queues.dom().contains(batch[i].queue_name) ==> match enqueue_reply(
            table,
            batch,
            i,
        ) {
            Ok(told) => {
                &&& last_id(table.jobs) < told.id <= i64::MAX
                &&& told.queue_name == batch[i].queue_name
                &&& told.payload == batch[i].payload
                &&& told.created_at == batch[i].created_at
                &&& exists|at: int|
                    0 <= at < accepted_rows(table.queues, batch, last_id(table.jobs)).len() && {
                        let row = #[trigger] accepted_rows(
                            table.queues,
                            batch,
                            last_id(table.jobs),
                        )[at];
                        &&& row.id == told.id
                        &&& row.queue_name == batch[i].queue_name
                        &&& row.payload == batch[i].payload
                        &&& row.dispatch_id is None
                        &&& row.created_at == batch[i].created_at
                        &&& row.updated_at == batch[i].updated_at
                    }
            },
            Err(error) => {
                &&& error == StoreErrorView::Internal("job ids are exhausted"@)
                &&& last_id(table.jobs) + accepted_rows(
                    table.queues,
                    batch,
                    last_id(table.jobs),
                ).len() > i64::MAX
            },
        },
{
    let last = last_id(table.jobs);
    if table.queues.dom().contains(batch[i].queue_name) {
        let all = accepted_rows(table.queues, batch, last);
        let fewer = accepted_rows(table.queues, batch.take(i), last);
        let some = accepted_rows(table.queues, batch.take(i + 1), last);
        assert(batch.take(i).push(batch[i]) =~= batch.take(i + 1));
        accepted_jobs_are_stored_as_they_came(table.queues, batch.take(i), batch[i], last);
        lemma_accepted_prefix(table.queues, batch, i + 1, last);
        assert(some[some.len() - 1] == all[some.len() - 1]);
        assert(all[fewer.len() as int].id == last + fewer.len() + 1);
    }
}

/// A batch of dispatches that was written, and started an attempt for each of
/// its jobs, leaves these attempts running under the tokens and the leases asked
/// for, without results. Each counts one more than the attempts before it, which
/// had ended without success. Attempts at other jobs stay as they are.
pub proof fn dispatched_attempts_run(
    table: ResultsView,
    inserts: Seq<DispatchInsertView>,
    now: int,
    i: int,
    other: int,
)
    requires
        keys_distinct(table.executions),
        forall|i: int, j: int|
            0 <= i < j < inserts.len() ==> (#[trigger] inserts[i]).job_id != (
            #[trigger] inserts[j]).job_id,
        whole_dispatch(table, inserts, now).failure is None,
        forall|i: int|
            0 <= i < whole_dispatch(table, inserts, now).started.len() ==> (
            #[trigger] whole_dispatch(table, inserts, now).started[i]) is Some,
        0 <= i < inserts.len(),
        forall|i: int| 0 <= i < inserts.len() ==> (#[trigger] inserts[i]).job_id != other,
    ensures
        ({
            let rows = whole_dispatch(table, inserts, now).rows;
            let started = whole_dispatch(table, inserts, now).started[i]->Some_0;
            let attempt = execution_of(rows, inserts[i].job_id)->Some_0;
            let last = execution_of(table.executions, inserts[i].job_id);
            &&& execution_of(rows, other) == execution_of(table.executions, other)
            &&& execution_of(rows, inserts[i].job_id) is Some
            &&& attempt.job_id == inserts[i].job_id
            &&& attempt.status == ExecutionStatus::Running
            &&& attempt.dispatch_id == inserts[i].dispatch_id
            &&& attempt.lease_expires_at == Some(inserts[i].lease_expires_at)
            &&& attempt.result_payload is None
            &&& attempt.result_error is None
            &&& attempt.updated_at == now
            &&& last is None ==> attempt.execution_count == 1
            &&& last is Some ==> {
                &&& attempt.execution_count == last->Some_0.execution_count + 1
                &&& last->Some_0.status == ExecutionStatus::Failed || last->Some_0.status
                    == ExecutionStatus::Pending
            }
            &&& started.job_id == inserts[i].job_id
            &&& started.execution_count == attempt.execution_count
            &&& started.dispatch_id == inserts[i].dispatch_id
            &&& started.lease_expires_at == inserts[i].lease_expires_at
            &&& started.updated_at == now
        }),
{
    assert(whole_dispatch(table, inserts, now) == dispatch_run(table, inserts, now));
    lemma_dispatches_run(table, inserts, now);
}

/// An attempt that runs or has succeeded is never replaced by a dispatch, and
/// every attempt that a dispatch starts is governed by the policy that its queue
/// has then.
pub proof fn dispatches_respect_what_is_there(
    table: ResultsView,
    inserts: Seq<DispatchInsertView>,
    now: int,
)
    ensures
        ({
            let rows = whole_dispatch(table, inserts, now).rows;
            &&& rows.len() >= table.executions.len()
            &&& forall|k: int|
                0 <= k < table.executions.len() && ((
                #[trigger] table.executions[k]).execution.status == ExecutionStatus::Running
                    || table.executions[k].execution.status == ExecutionStatus::Completed)
                    ==> rows[k] == table.executions[k]
            &&& forall|k: int|
                0 <= k < rows.len() ==> {
                    ||| k < table.executions.len() && #[trigger] rows[k] == table.executions[k]
                    ||| table.queues.dom().contains(rows[k].execution.queue_name)
                        ==> rows[k].queue == table.queues[rows[k].execution.queue_name]
                }
        }),
    decreases inserts.len(),
{
    if inserts.len() > 0 {
        let fewer = inserts.drop_last();
        dispatches_respect_what_is_there(table, fewer, now);
        let before = dispatch_run(table, fewer, now);
        assert(whole_dispatch(table, fewer, now).rows == before.rows);
        let run = dispatch_run(table, inserts, now);
        assert(whole_dispatch(table, inserts, now).rows == run.rows);
        let job_id = inserts.last().job_id;
        if exists|at: int| attempts_at(before.rows, job_id, at) {
            let at = choose|at: int| attempts_at(before.rows, job_id, at);
            assert(attempts_at(before.rows, job_id, at));
        }
    }
}

/// Whether a job with id `id` has been accepted.
pub open spec fn is_accepted(jobs: Seq<AcceptedJobView>, id: int) -> bool {
    exists|k: int| 0 <= k < jobs.len() && (#[trigger] jobs[k]).id == id
}

/// What a follow-up does to the accepted jobs, and which jobs it shows.
#[verifier::rlimit(60)]
proof fn lemma_followed_up(store: StoreView, items: Seq<RecoveredStaleView>, now: int)
    requires
        ids_ascend(store.ingest.jobs),
        forall|i: int, j: int|
            0 <= i < j < items.len() ==> (#[trigger] items[i]).job_id != (
            #[trigger] items[j]).job_id,
        forall|i: int|
            0 <= i < items.len() ==> is_accepted(store.ingest.jobs, (#[trigger] items[i]).job_id),
    ensures
        ({
            let (jobs, reply) = follow_up(store, items, now);
            &&& jobs.len() == store.ingest.jobs.len()
            &&& ids_ascend(jobs)
            &&& forall|k: int|
                0 <= k < jobs.len() ==> (#[trigger] jobs[k]).id == store.ingest.jobs[k].id
            &&& forall|k: int, i: int|
                0 <= k < jobs.len() && 0 <= i < items.len() && (#[trigger] jobs[k]).id == (
                #[trigger] items[i]).job_id ==> jobs[k] == (if items[i].should_repend
                    && store.ingest.jobs[k].dispatch_id == Some(items[i].dispatch_id) {
                    AcceptedJobView { dispatch_id: None, updated_at: now, ..store.ingest.jobs[k] }
                } else {
                    store.ingest.jobs[k]
                })
            &&& forall|k: int|
                0 <= k < jobs.len() && (forall|i: int|
                    0 <= i < items.len() ==> (#[trigger] items[i]).job_id != jobs[k].id)
                    ==> #[trigger] jobs[k] == store.ingest.jobs[k]
            &&& reply is Ok
            &&& reply->Ok_0.len() == items.len()
            &&& forall|k: int, i: int|
                0 <= k < jobs.len() && 0 <= i < items.len() && (#[trigger] jobs[k]).id == (
                #[trigger] items[i]).job_id ==> reply->Ok_0[i] == merged_job(
                    jobs[k],
                    execution_of(store.results.executions, items[i].job_id),
                )
        }),
    decreases items.len(),
{
    if items.len() > 0 {
        let fewer = items.drop_last();
        let n = items.len() - 1;
        let item = items[n];
        assert forall|i: int| 0 <= i < fewer.len() implies is_accepted(
            store.ingest.jobs,
            (#[trigger] fewer[i]).job_id,
        ) by {
            assert(fewer[i] == items[i]);
        }
        lemma_followed_up(store, fewer, now);
        let (before, told) = follow_up(store, fewer, now);
        let (jobs, reply) = follow_up(store, items, now);
        let next = if item.should_repend {
            repended(before, item.job_id, item.dispatch_id, now)
        } else {
            before
        };
        assert forall|i: int| 0 <= i < fewer.len() implies (#[trigger] fewer[i]).job_id
            != item.job_id by {
            assert(items[i].job_id != items[n].job_id);
        }
        assert(ids_ascend(next)) by {
            assert forall|i: int, j: int| 0 <= i < j < next.len() implies (#[trigger] next[i]).id
                < (#[trigger] next[j]).id by {
                assert(before[i].id < before[j].id);
            }
        }
        assert(is_accepted(store.ingest.jobs, items[n].job_id));
        let at = choose|k: int|
            0 <= k < store.ingest.jobs.len() && (#[trigger] store.ingest.jobs[k]).id
                == items[n].job_id;
        assert(before[at].id == item.job_id);
        assert(next[at].id == item.job_id);
        lemma_job_of(next, at);
        assert(jobs == next);
        assert forall|k: int| 0 <= k < jobs.len() && (#[trigger] jobs[k]).id != item.job_id implies
            jobs[k] == before[k] by {}
        assert forall|k: int, i: int|
            0 <= k < jobs.len() && 0 <= i < items.len() && (#[trigger] jobs[k]).id == (
            #[trigger] items[i]).job_id implies jobs[k] == (if items[i].should_repend
            && store.ingest.jobs[k].dispatch_id == Some(items[i].dispatch_id) {
            AcceptedJobView { dispatch_id: None, updated_at: now, ..store.ingest.jobs[k] }
        } else {
            store.ingest.jobs[k]
        }) && reply->Ok_0[i] == merged_job(
            jobs[k],
            execution_of(store.results.executions, items[i].job_id),
        ) by {
            if i < n {
                assert(fewer[i] == items[i]);
                assert(fewer[i].job_id != item.job_id);
                assert(jobs[k] == before[k]);
                assert(reply->Ok_0[i] == told->Ok_0[i]);
            } else {
                assert(before[k].id == item.job_id);
                assert(before[k] == store.ingest.jobs[k]);
                if k < at {
                    assert(next[k].id < next[at].id);
                } else if at < k {
                    assert(next[at].id < next[k].id);
                }
            }
        }
        assert forall|k: int|
            0 <= k < jobs.len() && (forall|i: int|
                0 <= i < items.len() ==> (#[trigger] items[i]).job_id
                    != jobs[k].id) implies #[trigger] jobs[k] == store.ingest.jobs[k] by {
            assert(items[n].job_id != jobs[k].id);
            assert(jobs[k] == before[k]);
            assert forall|i: int| 0 <= i < fewer.len() implies (#[trigger] fewer[i]).job_id
                != before[k].id by {
                assert(items[i].job_id != jobs[k].id);
            }
        }
    }
}

/// Recovery of a store whose attempts are all at accepted jobs: a job waits
/// again exactly if it is claimed under a token whose lease has run out and its
/// queue has retries left. Every other job stays as it is, and one job is shown
/// for each lease that has run out: waiting again, or failed for good, with
/// `lease expired` as the error.
#[verifier::rlimit(60)]
pub proof fn expired_jobs_wait_again_or_fail(store: StoreView, now: i64)
    requires
        keys_distinct(store.results.executions),
        ids_ascend(store.ingest.jobs),
        forall|i: int|
            0 <= i < store.results.executions.len() ==> is_accepted(
                store.ingest.jobs,
                (#[trigger] store.results.executions[i]).execution.job_id,
            ),
    ensures
        ({
            let stale = recovered_stale(store.results.executions, now);
            let (jobs, reply) = follow_up(after_expiry(store, now), stale, now as int);
            &&& jobs.len() == store.ingest.jobs.len()
            &&& reply is Ok
            &&& reply->Ok_0.len() == stale.len()
            &&& forall|k: int, i: int|
                0 <= k < jobs.len() && 0 <= i < store.results.executions.len() && (
                #[trigger] store.ingest.jobs[k]).id == (
                #[trigger] store.results.executions[i]).execution.job_id ==> {
                    let job = store.ingest.jobs[k];
                    let row = store.results.executions[i];
                    let over = row.execution.status == ExecutionStatus::Running
                        && row.execution.lease_expires_at is Some
                        && row.execution.lease_expires_at->Some_0 < now;
                    if over && row.execution.execution_count <= row.queue.max_retries
                        && job.dispatch_id == Some(row.execution.dispatch_id) {
                        &&& jobs[k].id == job.id
                        &&& jobs[k].queue_name == job.queue_name
                        &&& jobs[k].payload == job.payload
                        &&& jobs[k].dispatch_id is None
                        &&& jobs[k].created_at == job.created_at
                        &&& jobs[k].updated_at == now
                    } else {
                        jobs[k] == job
                    }
                }
            &&& forall|j: int, k: int|
                0 <= j < stale.len() && 0 <= k < jobs.len() && (#[trigger] jobs[k]).id == (
                #[trigger] stale[j]).job_id ==> {
                    let shown = reply->Ok_0[j];
                    &&& shown.id == jobs[k].id
                    &&& shown.name == jobs[k].queue_name
                    &&& shown.payload == jobs[k].payload
                    &&& shown.dispatch_id == Some(stale[j].dispatch_id)
                    &&& shown.lease_expires_at is None
                    &&& shown.result_error == Some("lease expired"@)
                    &&& shown.updated_at == now
                    &&& shown.status == (if jobs[k].dispatch_id is None {
                        ExecutionStatus::Pending
                    } else {
                        ExecutionStatus::Failed
                    })
                }
        }),
{
    let rows = store.results.executions;
    let stale = recovered_stale(rows, now);
    let expired = after_expiry(store, now);
    let after = expired.results.executions;
    lemma_stale_list(rows, now);
    lapsed_leases_are_reported_once(rows, now);
    live_leases_are_left_alone(rows, now);
    assert forall|j: int| 0 <= j < stale.len() implies is_accepted(
        store.ingest.jobs,
        (#[trigger] stale[j]).job_id,
    ) by {
        assert(tells_of_late(rows, now, stale[j]));
        let i = choose|i: int| #[trigger] late_at(rows, now, i) && stale[j] == told_of(rows[i]);
        assert(is_accepted(store.ingest.jobs, rows[i].execution.job_id));
    }
    lemma_followed_up(expired, stale, now as int);
    let (jobs, reply) = follow_up(expired, stale, now as int);
    assert(keys_distinct(after)) by {
        assert forall|i: int, j: int|
            #![trigger after[i], after[j]]
            0 <= i < j < after.len() implies {
            &&& after[i].execution.id < after[j].execution.id
            &&& after[i].execution.job_id != after[j].execution.job_id
            &&& after[i].execution.dispatch_id != after[j].execution.dispatch_id
        } by {
            assert(rows[i].execution.id < rows[j].execution.id);
        }
    }
    assert forall|k: int, i: int|
        0 <= k < jobs.len() && 0 <= i < rows.len() && (#[trigger] store.ingest.jobs[k]).id == (
        #[trigger] rows[i]).execution.job_id implies jobs[k] == (if late_at(rows, now, i)
        && rows[i].execution.execution_count <= rows[i].queue.max_retries
        && store.ingest.jobs[k].dispatch_id == Some(rows[i].execution.dispatch_id) {
        AcceptedJobView { dispatch_id: None, updated_at: now as int, ..store.ingest.jobs[k] }
    } else {
        store.ingest.jobs[k]
    }) by {
        assert(jobs[k].id == store.ingest.jobs[k].id);
        if late_at(rows, now, i) {
            assert(stale.contains(told_of(rows[i])));
            let j = choose|j: int| 0 <= j < stale.len() && stale[j] == told_of(rows[i]);
            assert(jobs[k].id == stale[j].job_id);
        } else {
            assert forall|j: int| 0 <= j < stale.len() implies (#[trigger] stale[j]).job_id
                != jobs[k].id by {
                if stale[j].job_id == rows[i].execution.job_id {
                    assert(rows[i].execution.status == ExecutionStatus::Running
                        && rows[i].execution.lease_expires_at is Some
                        && rows[i].execution.lease_expires_at->Some_0 < now);
                }
            }
        }
    }
    assert forall|j: int, k: int|
        0 <= j < stale.len() && 0 <= k < jobs.len() && (#[trigger] jobs[k]).id == (
        #[trigger] stale[j]).job_id implies {
        let shown = reply->Ok_0[j];
        &&& shown.id == jobs[k].id
        &&& shown.name == jobs[k].queue_name
        &&& shown.payload == jobs[k].payload
        &&& shown.dispatch_id == Some(stale[j].dispatch_id)
        &&& shown.lease_expires_at is None
        &&& shown.result_error == Some("lease expired"@)
        &&& shown.updated_at == now
        &&& shown.status == (if jobs[k].dispatch_id is None {
            ExecutionStatus::Pending
        } else {
            ExecutionStatus::Failed
        })
    } by {
        assert(tells_of_late(rows, now, stale[j]));
        let i = choose|i: int| #[trigger] late_at(rows, now, i) && stale[j] == told_of(rows[i]);
        assert(after[i].execution.job_id == stale[j].job_id);
        lemma_execution_of(after, i);
        assert(reply->Ok_0[j] == merged_job(jobs[k], Some(after[i].execution)));
    }
}

/// A dispatch starts nothing at a job that runs or is done, and is refused
/// where its token belongs to another attempt, where its job is new and there is
/// no id left for it or its queue is not configured, and where its job has been
/// tried as often as can be counted. A refused dispatch leaves every attempt as
/// it is.
pub proof fn dispatches_are_refused_for_a_reason(
    table: ResultsView,
    insert: DispatchInsertView,
    now: int,
    k: int,
)
    requires
        keys_distinct(table.executions),
    ensures
        ({
            let rows = table.executions;
            let run = whole_dispatch(table, seq![insert], now);
            let untried = forall|i: int|
                0 <= i < rows.len() ==> (#[trigger] rows[i]).execution.job_id != insert.job_id;
            let shared = exists|i: int|
                0 <= i < rows.len() && (#[trigger] rows[i]).execution.job_id != insert.job_id
                    && rows[i].execution.dispatch_id == insert.dispatch_id;
            let at = 0 <= k < rows.len() && rows[k].execution.job_id == insert.job_id;
            let busy = rows[k].execution.status == ExecutionStatus::Running
                || rows[k].execution.status == ExecutionStatus::Completed;
            let clash = StoreErrorView::Internal(
                "UNIQUE constraint failed: executions.dispatch_id"@,
            );
            &&& at && busy ==> {
                &&& run.failure is None
                &&& run.rows == rows
                &&& run.started == seq![None::<DispatchedExecutionView>]
            }
            &&& at && !busy && shared ==> run.failure == Some(clash)
            &&& at && !busy && !shared && rows[k].execution.execution_count >= u32::MAX
                ==> run.failure == Some(
                StoreErrorView::Internal("out of range integral type conversion attempted"@),
            )
            &&& at && !busy && !shared && rows[k].execution.execution_count < u32::MAX ==> {
                &&& run.failure is None
                &&& run.started.len() == 1
                &&& run.started[0] is Some
            }
            &&& untried && shared ==> run.failure == Some(clash)
            &&& untried && !shared && last_execution_id(rows) >= i64::MAX ==> run.failure == Some(
                StoreErrorView::Internal("execution ids are exhausted"@),
            )
            &&& untried && !shared && last_execution_id(rows) < i64::MAX
                && !table.queues.dom().contains(insert.queue_name) ==> run.failure == Some(
                StoreErrorView::Internal("FOREIGN KEY constraint failed"@),
            )
            &&& untried && !shared && last_execution_id(rows) < i64::MAX
                && table.queues.dom().contains(insert.queue_name) ==> {
                &&& run.failure is None
                &&& run.started.len() == 1
                &&& run.started[0] is Some
            }
        }),
{
    let rows = table.executions;
    let inserts = seq![insert];
    assert(inserts.drop_last() =~= Seq::<DispatchInsertView>::empty());
    assert(inserts.last() == insert);
    reveal_with_fuel(dispatch_run, 2);
    let start = dispatch_run(table, Seq::empty(), now);
    assert(close_statement(start) == start);
    let run = dispatch_one(table.queues, start, insert, now);
    assert(dispatch_run(table, inserts, now) == run);
    if 0 <= k < rows.len() && rows[k].execution.job_id == insert.job_id {
        assert(attempts_at(rows, insert.job_id, k));
        let at = choose|at: int| attempts_at(rows, insert.job_id, at);
        assert(attempts_at(rows, insert.job_id, at));
        if at < k {
            assert(rows[at].execution.job_id != rows[k].execution.job_id);
        } else if k < at {
            assert(rows[k].execution.job_id != rows[at].execution.job_id);
        }
        assert forall|i: int| #[trigger] token_at(rows, insert.dispatch_id, i) && i != k implies
            rows[i].execution.job_id != insert.job_id by {
            if i < k {
                assert(rows[i].execution.job_id != rows[k].execution.job_id);
            } else {
                assert(rows[k].execution.job_id != rows[i].execution.job_id);
            }
        }
    }
    if forall|i: int|
        0 <= i < rows.len() ==> (#[trigger] rows[i]).execution.job_id != insert.job_id {
        assert forall|i: int| !#[trigger] attempts_at(rows, insert.job_id, i) by {
            if 0 <= i < rows.len() {
                assert(rows[i].execution.job_id != insert.job_id);
            }
        }
        if exists|i: int| token_at(rows, insert.dispatch_id, i) {
            let i = choose|i: int| token_at(rows, insert.dispatch_id, i);
            assert(rows[i].execution.job_id != insert.job_id);
        }
    }
    if exists|i: int|
        0 <= i < rows.len() && (#[trigger] rows[i]).execution.job_id != insert.job_id
            && rows[i].execution.dispatch_id == insert.dispatch_id {
        let i = choose|i: int|
            0 <= i < rows.len() && (#[trigger] rows[i]).execution.job_id != insert.job_id
                && rows[i].execution.dispatch_id == insert.dispatch_id;
        assert(token_at(rows, insert.dispatch_id, i));
    }
}

/// A job that has been accepted reads back under the id that its submitter was
/// told: waiting, not tried yet, and with the payload that was submitted.
pub proof fn submitted_jobs_read_back(
    store: StoreView,
    batch: Seq<AcceptedJobView>,
    i: int,
    after: StoreView,
)
    requires
        ids_ascend(store.ingest.jobs),
        keys_distinct(store.results.executions),
        forall|k: int|
            0 <= k < store.results.executions.len() ==> (
            #[trigger] store.results.executions[k]).execution.job_id <= last_id(store.ingest.jobs),
        0 <= i < batch.len(),
        enqueue_reply(store.ingest, batch, i) is Ok,
        after.results == store.results,
        after.ingest.jobs == store.ingest.jobs + accepted_rows(
            store.ingest.queues,
            batch,
            last_id(store.ingest.jobs),
        ),
    ensures
        ({
            let told = enqueue_reply(store.ingest, batch, i)->Ok_0;
            let read = composed_job(after, told.id);
            &&& read is Ok
            &&& read->Ok_0.id == told.id
            &&& read->Ok_0.name == batch[i].queue_name
            &&& read->Ok_0.payload == batch[i].payload
            &&& read->Ok_0.status == ExecutionStatus::Pending
            &&& read->Ok_0.execution_count == 0
            &&& read->Ok_0.dispatch_id is None
            &&& read->Ok_0.result_payload is None
            &&& read->Ok_0.result_error is None
            &&& read->Ok_0.created_at == batch[i].created_at
        }),
{
    let jobs = store.ingest.jobs;
    let last = last_id(jobs);
    let added = accepted_rows(store.ingest.queues, batch, last);
    let told = enqueue_reply(store.ingest, batch, i)->Ok_0;
    submitters_are_told_the_id(store.ingest, batch, i);
    lemma_accepted_rows_ascend(store.ingest.queues, batch, last);
    assert(ids_ascend(after.ingest.jobs)) by {
        assert forall|a: int, b: int| 0 <= a < b < after.ingest.jobs.len() implies (
        #[trigger] after.ingest.jobs[a]).id < (#[trigger] after.ingest.jobs[b]).id by {
            if b < jobs.len() {
                assert(jobs[a].id < jobs[b].id);
            } else {
                let y = added[b - jobs.len()];
                if a < jobs.len() {
                    if a < jobs.len() - 1 {
                        assert(jobs[a].id < jobs[jobs.len() - 1].id);
                    }
                    assert(jobs[a].id <= last);
                } else {
                    let x = added[a - jobs.len()];
                    assert(x.id < y.id);
                }
            }
        }
    }
    let at = choose|at: int|
        0 <= at < added.len() && (#[trigger] added[at]).id == told.id && added[at].queue_name
            == batch[i].queue_name && added[at].payload == batch[i].payload
            && added[at].dispatch_id is None && added[at].created_at == batch[i].created_at
            && added[at].updated_at == batch[i].updated_at;
    let k = jobs.len() + at;
    assert(after.ingest.jobs[k] == added[at]);
    jobs_read_back_by_id(after, k, told.id);
    assert forall|e: int| 0 <= e < after.results.executions.len() implies (
    #[trigger] after.results.executions[e]).execution.job_id != told.id by {
        assert(store.results.executions[e].execution.job_id <= last);
    }
}

/// A job that was claimed and is reported as a success under the token of its
/// claim is done: it reads back as completed, with the payload it was submitted
/// with and the payload of its result.
pub proof fn claimed_jobs_run_to_completion(
    before: StoreView,
    queue: Seq<char>,
    limit: int,
    tokens: Seq<Seq<char>>,
    now: i64,
    after: StoreView,
    jobs: Seq<JobModel>,
    i: int,
    payload: Seq<u8>,
    later: int,
)
    requires
        keys_distinct(before.results.executions),
        ids_ascend(before.ingest.jobs),
        before.ingest.queues.dom().contains(queue),
        before.ingest.queues[queue].timeout_secs >= 0,
        claim_effect(
            before,
            queue,
            limit,
            tokens,
            now as int,
            after,
            Ok::<Seq<JobModel>, StoreErrorView>(jobs),
        ),
        0 <= i < jobs.len(),
    ensures
        ({
            let report = CompletionView {
                job_id: jobs[i].id,
                dispatch_id: tokens[i],
                outcome: JobOutcomeView::Succeeded(payload),
            };
            let done = composed_job(after_report(after, report, later), jobs[i].id);
            &&& done is Ok
            &&& done->Ok_0.status == ExecutionStatus::Completed
            &&& done->Ok_0.id == jobs[i].id
            &&& done->Ok_0.name == jobs[i].name
            &&& done->Ok_0.payload == jobs[i].payload
            &&& done->Ok_0.execution_count == jobs[i].execution_count
            &&& done->Ok_0.result_payload == Some(payload)
            &&& done->Ok_0.result_error is None
            &&& done->Ok_0.lease_expires_at is None
            &&& done->Ok_0.updated_at == later
        }),
{
    claims_hand_out_what_was_accepted(before, queue, limit, tokens, now, after, jobs);
    claims_take_the_oldest_first(before, queue, limit, tokens, now, after, jobs);
    let rows = before.ingest.jobs;
    let picked = claimable(rows, queue, claim_limit(limit));
    let timeout = before.ingest.queues[queue].timeout_secs;
    let claims = claims_of(picked, tokens, timeout);
    let inserts = dispatches_of(claims, now as int);
    let run = whole_dispatch(before.results, inserts, now as int);
    assert(run == dispatch_run(before.results, inserts, now as int));
    assert forall|a: int, b: int| 0 <= a < b < inserts.len() implies (
    #[trigger] inserts[a]).job_id != (#[trigger] inserts[b]).job_id by {
        lemma_picked_ids_differ(rows, queue, claim_limit(limit), picked, a, b);
    }
    assert forall|a: int| 0 <= a < run.started.len() implies (
    #[trigger] run.started[a]) is Some by {
        assert(jobs[a] == running_job(claims[a], run.started[a]->Some_0));
    }
    lemma_dispatches_run(before.results, inserts, now as int);
    let id = jobs[i].id;
    assert(inserts[i].job_id == id);
    let at = choose|at: int| attempts_at(run.rows, id, at);
    assert(attempts_at(run.rows, id, at));
    lemma_execution_of(run.rows, at);
    assert(rows.contains(picked[i]));
    let k = choose|k: int| 0 <= k < rows.len() && rows[k] == picked[i];
    assert(jobs[i].id == rows[k].id);
    assert(after.ingest.jobs[k].id == id);
    assert(ids_ascend(after.ingest.jobs)) by {
        assert forall|a: int, b: int| 0 <= a < b < after.ingest.jobs.len() implies (
        #[trigger] after.ingest.jobs[a]).id < (#[trigger] after.ingest.jobs[b]).id by {
            assert(rows[a].id < rows[b].id);
        }
    }
    let report = CompletionView {
        job_id: id,
        dispatch_id: tokens[i],
        outcome: JobOutcomeView::Succeeded(payload),
    };
    reporters_see_the_job(after, report, later, at, k);
}

} // verus!
