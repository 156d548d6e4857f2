//! What holds of the store as a whole.

use crate::engine::types::{
    AcceptedJobView, ExecutionStatus, ExecutionWithQueueConfigView, JobQueueView, StoreErrorView,
};
use crate::engine::JobOutcomeView;
use crate::persistence::ingest::{
    accepted_rows, all_repended, available, claimed_rows, first_available, freed, ids_ascend,
    job_of, lemma_job_of, precedes, repended, retained_jobs, row_has_id, tokened,
};
use crate::persistence::results::{
    attempts_at, close_statement, dispatch_one, dispatch_run, disposition, execution_of,
    first_report, keys_distinct, lapsed, last_execution_id, lemma_execution_of, next_attempt,
    recovered_rows, recovered_stale, reports_on, restartable, retained_executions, retryable,
    runs_at, settle_chunk, settle_row, settled, token_at, whole_dispatch, CompletionDisposition,
    CompletionView, DispatchInsertView, DispatchRun, DispatchedExecutionView, ResultsView,
};
use crate::persistence::store::{
    after_release, after_report, composed_job, healed, lease_end, orphaned, release_reply, StoreView,
};
use vstd::prelude::*;

verus! {

/// A single report settles the rows it speaks of and no others.
pub proof fn lemma_settle_one(row: ExecutionWithQueueConfigView, item: CompletionView, now: int)
    ensures
        settle_row(row, seq![item], now) == (if reports_on(item, row) {
            settled(row, item.outcome, now)
        } else {
            row
        }),
{
    let items = seq![item];
    if reports_on(item, row) {
        assert(first_report(items, row, 0));
        let k = choose|k: int| first_report(items, row, k);
        assert(first_report(items, row, k));
        assert(k == 0);
    } else if exists|k: int| first_report(items, row, k) {
        let k = choose|k: int| first_report(items, row, k);
        assert(reports_on(items[k], row));
    }
}

/// A report whose token does not belong to a running attempt at its job
/// changes nothing at all: neither a late, nor a duplicate, nor a forged
/// report has an effect.
pub proof fn stale_reports_are_ignored(store: StoreView, item: CompletionView, now: int)
    requires
        forall|at: int| !runs_at(store.results.executions, item.job_id, item.dispatch_id, at),
    ensures
        disposition(store.results.executions, item) == CompletionDisposition::Ignored,
        after_report(store, item, now) == store,
{
    let rows = store.results.executions;
    let after = settle_chunk(rows, seq![item], now);
    assert forall|i: int| 0 <= i < rows.len() implies #[trigger] after[i] == rows[i] by {
        assert(!runs_at(rows, item.job_id, item.dispatch_id, i));
        lemma_settle_one(rows[i], item, now);
    }
    assert(after =~= rows);
    assert(after_report(store, item, now) =~= store);
}

/// Once a report has been applied, every further report under the same token
/// is ignored, whatever it says.
pub proof fn a_token_counts_once(
    store: StoreView,
    item: CompletionView,
    now: int,
    again: CompletionView,
    later: int,
)
    requires
        keys_distinct(store.results.executions),
        again.job_id == item.job_id,
        again.dispatch_id == item.dispatch_id,
    ensures
        disposition(after_report(store, item, now).results.executions, again)
            == CompletionDisposition::Ignored,
        after_report(after_report(store, item, now), again, later) == after_report(store, item, now),
{
    let after = after_report(store, item, now);
    let rows = store.results.executions;
    assert forall|at: int| !runs_at(
        after.results.executions,
        again.job_id,
        again.dispatch_id,
        at,
    ) by {
        if 0 <= at < rows.len() {
            lemma_settle_one(rows[at], item, now);
        }
    }
    stale_reports_are_ignored(after, again, later);
}

/// A report that speaks of a running attempt touches that attempt alone.
proof fn lemma_report_effect(store: StoreView, item: CompletionView, now: int, at: int)
    requires
        keys_distinct(store.results.executions),
        runs_at(store.results.executions, item.job_id, item.dispatch_id, at),
    ensures
        after_report(store, item, now).results.executions == store.results.executions.update(
            at,
            settled(store.results.executions[at], item.outcome, now),
        ),
        keys_distinct(after_report(store, item, now).results.executions),
        disposition(store.results.executions, item) == (if item.outcome is Failed && retryable(
            store.results.executions[at],
        ) {
            CompletionDisposition::Repend
        } else {
            CompletionDisposition::Completed
        }),
{
    let rows = store.results.executions;
    let after = settle_chunk(rows, seq![item], now);
    assert forall|i: int| 0 <= i < rows.len() implies #[trigger] after[i] == rows.update(
        at,
        settled(rows[at], item.outcome, now),
    )[i] by {
        lemma_settle_one(rows[i], item, now);
        if i < at {
            assert(rows[i].execution.job_id != rows[at].execution.job_id);
        } else if at < i {
            assert(rows[at].execution.job_id != rows[i].execution.job_id);
        }
    }
    assert(after =~= rows.update(at, settled(rows[at], item.outcome, now)));
    assert forall|i: int, j: int|
        #![trigger after[i], after[j]]
        0 <= i < j < after.len() implies {
        &&& after[i].execution.id < after[j].execution.id
        &&& after[i].execution.job_id != after[j].execution.job_id
        &&& after[i].execution.dispatch_id != after[j].execution.dispatch_id
    } by {
        assert(rows[i].execution.job_id != rows[j].execution.job_id);
    }
    let chosen = choose|k: int| runs_at(rows, item.job_id, item.dispatch_id, k);
    assert(runs_at(rows, item.job_id, item.dispatch_id, chosen));
    if chosen < at {
        assert(rows[chosen].execution.job_id != rows[at].execution.job_id);
    } else if at < chosen {
        assert(rows[at].execution.job_id != rows[chosen].execution.job_id);
    }
}

/// A success under the token of a running attempt completes the job and keeps
/// the payload that was reported.
pub proof fn success_completes_the_job(
    store: StoreView,
    item: CompletionView,
    payload: Seq<u8>,
    now: int,
    at: int,
)
    requires
        keys_distinct(store.results.executions),
        runs_at(store.results.executions, item.job_id, item.dispatch_id, at),
        item.outcome == JobOutcomeView::Succeeded(payload),
        job_of(store.ingest.jobs, item.job_id) is Some,
    ensures
        composed_job(after_report(store, item, now), item.job_id) is Ok,
        ({
            let job = composed_job(after_report(store, item, now), item.job_id)->Ok_0;
            &&& job.status == ExecutionStatus::Completed
            &&& job.result_payload == Some(payload)
            &&& job.result_error is None
            &&& job.lease_expires_at is None
            &&& job.execution_count == store.results.executions[at].execution.execution_count
        }),
{
    lemma_report_effect(store, item, now, at);
    let after = after_report(store, item, now);
    lemma_execution_of(after.results.executions, at);
}

/// A failure leaves the job pending, and available at its old place, as long
/// as the attempt is within the retry limit that it was dispatched under.
/// Beyond it the job has failed for good. Either way the count stays.
pub proof fn failure_is_retried_within_the_limit(
    store: StoreView,
    item: CompletionView,
    message: Seq<char>,
    now: int,
    at: int,
    row: int,
)
    requires
        keys_distinct(store.results.executions),
        ids_ascend(store.ingest.jobs),
        runs_at(store.results.executions, item.job_id, item.dispatch_id, at),
        item.outcome == JobOutcomeView::Failed(message),
        row_has_id(store.ingest.jobs, item.job_id, row),
        store.ingest.jobs[row].dispatch_id == Some(item.dispatch_id),
    ensures
        composed_job(after_report(store, item, now), item.job_id) is Ok,
        ({
            let after = after_report(store, item, now);
            let job = composed_job(after, item.job_id)->Ok_0;
            let attempt = store.results.executions[at];
            &&& job.execution_count == attempt.execution.execution_count
            &&& job.result_error == Some(message)
            &&& if attempt.execution.execution_count <= attempt.queue.max_retries {
                &&& job.status == ExecutionStatus::Pending
                &&& after.ingest.jobs[row] == freed(store.ingest.jobs[row], now)
                &&& available(after.ingest.jobs[row], store.ingest.jobs[row].queue_name)
            } else {
                &&& job.status == ExecutionStatus::Failed
                &&& after.ingest.jobs == store.ingest.jobs
            }
        }),
{
    lemma_report_effect(store, item, now, at);
    let after = after_report(store, item, now);
    lemma_execution_of(after.results.executions, at);
    let jobs = after.ingest.jobs;
    assert forall|i: int, j: int| 0 <= i < j < jobs.len() implies (#[trigger] jobs[i]).id < (
    #[trigger] jobs[j]).id by {
        assert(store.ingest.jobs[i].id < store.ingest.jobs[j].id);
    }
    lemma_job_of(jobs, row);
}

/// The policy that an attempt was dispatched under decides whether its job is
/// tried again, whatever the queue is configured to in the meantime; the next
/// attempt is under the policy then in force.
pub proof fn policy_is_fixed_at_dispatch(
    before: ResultsView,
    queue: JobQueueView,
    item: CompletionView,
    row: ExecutionWithQueueConfigView,
    insert: DispatchInsertView,
    now: int,
)
    requires
        row.execution.queue_name == queue.name,
    ensures
        ({
            let after = ResultsView { queues: before.queues.insert(queue.name, queue), ..before };
            &&& disposition(after.executions, item) == disposition(before.executions, item)
            &&& next_attempt(after.queues, row, insert, now).queue == queue
        }),
{
}

/// Every attempt has a count of at least one.
pub open spec fn counts_positive(rows: Seq<ExecutionWithQueueConfigView>) -> bool {
    forall|i: int| 0 <= i < rows.len() ==> (#[trigger] rows[i]).execution.execution_count >= 1
}

/// Dispatching keeps every count at one or more, and lowers none.
pub proof fn dispatching_lowers_no_count(
    table: ResultsView,
    inserts: Seq<DispatchInsertView>,
    now: int,
)
    requires
        counts_positive(table.executions),
    ensures
        counts_positive(whole_dispatch(table, inserts, now).rows),
        dispatch_run(table, inserts, now).rows.len() >= table.executions.len(),
        forall|i: int|
            0 <= i < table.executions.len() ==> (#[trigger] whole_dispatch(
                table,
                inserts,
                now,
            ).rows[i]).execution.execution_count >= table.executions[i].execution.execution_count,
    decreases inserts.len(),
{
    if inserts.len() > 0 {
        dispatching_lowers_no_count(table, inserts.drop_last(), now);
        let before = dispatch_run(table, inserts.drop_last(), now);
        let insert = inserts.last();
        if exists|at: int| attempts_at(before.rows, insert.job_id, at) {
            let at = choose|at: int| attempts_at(before.rows, insert.job_id, at);
            assert(attempts_at(before.rows, insert.job_id, at));
        }
    }
}

/// The first attempt at a job has count one, and each further one the count
/// after the last.
pub proof fn each_attempt_counts_one(
    queues: Map<Seq<char>, JobQueueView>,
    run: DispatchRun,
    insert: DispatchInsertView,
    now: int,
)
    requires
        keys_distinct(run.rows),
        run.failure is None,
        dispatch_one(queues, run, insert, now).failure is None,
        dispatch_one(queues, run, insert, now).started.last() is Some,
    ensures
        match execution_of(run.rows, insert.job_id) {
            None => dispatch_one(queues, run, insert, now).started.last()->Some_0.execution_count
                == 1,
            Some(last) => last.execution_count < u32::MAX ==> dispatch_one(
                queues,
                run,
                insert,
                now,
            ).started.last()->Some_0.execution_count == last.execution_count + 1,
        },
{
}

/// Retries are bounded: an attempt that may be followed by another is within
/// the limit, so that a job runs at most once more often than its policy
/// allows retries; and without retries it runs exactly once.
pub proof fn attempts_are_bounded(
    queues: Map<Seq<char>, JobQueueView>,
    row: ExecutionWithQueueConfigView,
    insert: DispatchInsertView,
    now: int,
)
    requires
        1 <= row.execution.execution_count < u32::MAX,
    ensures
        next_attempt(queues, row, insert, now).execution.execution_count
            == row.execution.execution_count + 1,
        retryable(row) ==> next_attempt(queues, row, insert, now).execution.execution_count
            <= row.queue.max_retries + 1,
        row.queue.max_retries == 0 ==> !retryable(row),
{
}

/// Recovering leases fails exactly the attempts whose lease has run out, and
/// changes no count. Nothing is left to recover, and a second recovery at the
/// same time does nothing.
pub proof fn recovery_is_complete(rows: Seq<ExecutionWithQueueConfigView>, now: i64)
    ensures
        forall|i: int|
            0 <= i < rows.len() ==> {
                let after = #[trigger] recovered_rows(rows, now)[i];
                &&& !lapsed(after, now)
                &&& after.execution.execution_count == rows[i].execution.execution_count
                &&& after.queue == rows[i].queue
                &&& lapsed(rows[i], now) ==> after.execution.status == ExecutionStatus::Failed
                &&& !lapsed(rows[i], now) ==> after == rows[i]
            },
        recovered_stale(recovered_rows(rows, now), now).len() == 0,
    decreases rows.len(),
{
    if rows.len() > 0 {
        recovery_is_complete(rows.drop_last(), now);
        assert(recovered_rows(rows, now).drop_last() =~= recovered_rows(rows.drop_last(), now));
    }
}

/// A job that has been claimed is not handed out again: no later claim on its
/// queue includes it, until it is made available.
pub proof fn claimed_jobs_leave_the_line(
    jobs: Seq<AcceptedJobView>,
    queue: Seq<char>,
    limit: int,
    picked: Seq<AcceptedJobView>,
    tokens: Seq<Seq<char>>,
    now: int,
    other_limit: int,
    other: Seq<AcceptedJobView>,
)
    requires
        ids_ascend(jobs),
        first_available(jobs, queue, limit, picked),
        first_available(claimed_rows(jobs, picked, tokens, now), queue, other_limit, other),
    ensures
        forall|i: int, j: int|
            0 <= i < picked.len() && 0 <= j < other.len() ==> (#[trigger] picked[i]).id != (
            #[trigger] other[j]).id,
{
    let after = claimed_rows(jobs, picked, tokens, now);
    assert forall|i: int, j: int| 0 <= i < picked.len() && 0 <= j < other.len() implies (
    #[trigger] picked[i]).id != (#[trigger] other[j]).id by {
        assert(jobs.contains(picked[i]));
        let a = jobs.index_of(picked[i]);
        assert(after.contains(other[j]));
        let b = after.index_of(other[j]);
        assert(after[b] == other[j]);
        assert(available(other[j], queue));
        assert(after[b].id == jobs[b].id);
        if picked[i].id == other[j].id {
            if a < b {
                assert(jobs[a].id < jobs[b].id);
            } else if b < a {
                assert(jobs[b].id < jobs[a].id);
            }
            assert(picked.contains(jobs[b]));
        }
    }
}

/// The claims of `picked` under `tokens`, to be undone.
pub open spec fn picked_pairs(picked: Seq<AcceptedJobView>, tokens: Seq<Seq<char>>) -> Seq<
    (int, Seq<char>),
> {
    Seq::new(picked.len(), |i: int| (picked[i].id, tokens[i]))
}

proof fn lemma_released_rows(
    jobs: Seq<AcceptedJobView>,
    queue: Seq<char>,
    limit: int,
    picked: Seq<AcceptedJobView>,
    tokens: Seq<Seq<char>>,
    now: int,
    later: int,
    n: int,
)
    requires
        ids_ascend(jobs),
        first_available(jobs, queue, limit, picked),
        tokens.len() == picked.len(),
        0 <= n <= picked.len(),
    ensures
        all_repended(
            claimed_rows(jobs, picked, tokens, now),
            picked_pairs(picked, tokens).take(n),
            later,
        ).len() == jobs.len(),
        forall|i: int|
            0 <= i < jobs.len() ==> #[trigger] all_repended(
                claimed_rows(jobs, picked, tokens, now),
                picked_pairs(picked, tokens).take(n),
                later,
            )[i] == (if picked.take(n).contains(jobs[i]) {
                freed(jobs[i], later)
            } else {
                claimed_rows(jobs, picked, tokens, now)[i]
            }),
    decreases n,
{
    let claimed = claimed_rows(jobs, picked, tokens, now);
    let pairs = picked_pairs(picked, tokens);
    if n == 0 {
        assert(pairs.take(0) =~= Seq::<(int, Seq<char>)>::empty());
    } else {
        lemma_released_rows(jobs, queue, limit, picked, tokens, now, later, n - 1);
        assert(pairs.take(n).drop_last() =~= pairs.take(n - 1));
        let before = all_repended(claimed, pairs.take(n - 1), later);
        let after = all_repended(claimed, pairs.take(n), later);
        assert(after == repended(before, picked[n - 1].id, tokens[n - 1], later));
        assert forall|i: int| 0 <= i < jobs.len() implies #[trigger] after[i] == (if picked.take(
            n,
        ).contains(jobs[i]) {
            freed(jobs[i], later)
        } else {
            claimed[i]
        }) by {
            assert(before[i].id == jobs[i].id);
            if picked.take(n - 1).contains(jobs[i]) {
                let k = picked.take(n - 1).index_of(jobs[i]);
                assert(picked.take(n)[k] == jobs[i]);
            } else if picked[n - 1] == jobs[i] {
                assert(picked.take(n)[n - 1] == jobs[i]);
                assert(picked.contains(jobs[i]));
                let k = picked.index_of(jobs[i]);
                if k < n - 1 {
                    assert(precedes(picked[k], picked[n - 1]));
                } else if k > n - 1 {
                    assert(precedes(picked[n - 1], picked[k]));
                }
                assert(claimed[i] == tokened(jobs[i], tokens[n - 1], now));
            } else {
                if picked.take(n).contains(jobs[i]) {
                    let k = picked.take(n).index_of(jobs[i]);
                    assert(picked.take(n)[k] == jobs[i]);
                    if k < n - 1 {
                        assert(picked.take(n - 1)[k] == jobs[i]);
                    }
                }
                if jobs[i].id == picked[n - 1].id {
                    assert(jobs.contains(picked[n - 1]));
                    let a = jobs.index_of(picked[n - 1]);
                    if a < i {
                        assert(jobs[a].id < jobs[i].id);
                    } else if i < a {
                        assert(jobs[i].id < jobs[a].id);
                    }
                }
            }
        }
    }
}

/// Jobs that are claimed and then given back stand where they stood: the next
/// claim hands out the same jobs in the same order.
pub proof fn released_jobs_keep_their_place(
    jobs: Seq<AcceptedJobView>,
    queue: Seq<char>,
    limit: int,
    picked: Seq<AcceptedJobView>,
    tokens: Seq<Seq<char>>,
    now: int,
    later: int,
)
    requires
        ids_ascend(jobs),
        first_available(jobs, queue, limit, picked),
        tokens.len() == picked.len(),
    ensures
        first_available(
            all_repended(
                claimed_rows(jobs, picked, tokens, now),
                picked_pairs(picked, tokens),
                later,
            ),
            queue,
            limit,
            Seq::new(picked.len(), |i: int| freed(picked[i], later)),
        ),
{
    let pairs = picked_pairs(picked, tokens);
    let released = all_repended(claimed_rows(jobs, picked, tokens, now), pairs, later);
    let again = Seq::new(picked.len(), |i: int| freed(picked[i], later));
    lemma_released_rows(
        jobs,
        queue,
        limit,
        picked,
        tokens,
        now,
        later,
        picked.len() as int,
    );
    assert(pairs.take(picked.len() as int) =~= pairs);
    assert(picked.take(picked.len() as int) =~= picked);
    assert forall|i: int| 0 <= i < jobs.len() implies #[trigger] released[i] == (if picked.contains(
        jobs[i],
    ) {
        freed(jobs[i], later)
    } else {
        jobs[i]
    }) by {
    }
    assert forall|i: int, j: int| 0 <= i < j < again.len() implies #[trigger] precedes(
        again[i],
        again[j],
    ) by {
        assert(precedes(picked[i], picked[j]));
    }
    assert forall|i: int| 0 <= i < again.len() implies released.contains(#[trigger] again[i])
        && available(again[i], queue) by {
        assert(jobs.contains(picked[i]));
        let k = jobs.index_of(picked[i]);
        assert(picked.contains(jobs[k]));
        assert(released[k] == again[i]);
    }
    assert forall|k: int|
        0 <= k < released.len() && available(#[trigger] released[k], queue) && !again.contains(
            released[k],
        ) implies again.len() == limit && forall|i: int|
        0 <= i < again.len() ==> #[trigger] precedes(again[i], released[k]) by {
        if picked.contains(jobs[k]) {
            let i = picked.index_of(jobs[k]);
            assert(again[i] == released[k]);
        }
        assert(released[k] == jobs[k]);
        assert forall|i: int| 0 <= i < again.len() implies #[trigger] precedes(
            again[i],
            released[k],
        ) by {
            assert(precedes(picked[i], jobs[k]));
        }
    }
}

/// Giving back a claim in force makes the job available, and the claim can be
/// given back only once.
pub proof fn release_frees_the_job_once(
    store: StoreView,
    token: Seq<char>,
    now: int,
    row: int,
)
    requires
        ids_ascend(store.ingest.jobs),
        0 <= row < store.ingest.jobs.len(),
        store.ingest.jobs[row].dispatch_id == Some(token),
    ensures
        ({
            let id = store.ingest.jobs[row].id;
            let after = after_release(store, id, token, now);
            &&& release_reply(store, id, token) == Ok::<bool, StoreErrorView>(true)
            &&& after.ingest.jobs[row] == freed(store.ingest.jobs[row], now)
            &&& release_reply(after, id, token) == Ok::<bool, StoreErrorView>(false)
            &&& forall|at: int| !#[trigger] runs_at(after.results.executions, id, token, at)
        }),
{
    let id = store.ingest.jobs[row].id;
    lemma_job_of(store.ingest.jobs, row);
    let jobs = after_release(store, id, token, now).ingest.jobs;
    assert forall|i: int, j: int| 0 <= i < j < jobs.len() implies (#[trigger] jobs[i]).id < (
    #[trigger] jobs[j]).id by {
        assert(store.ingest.jobs[i].id < store.ingest.jobs[j].id);
    }
    lemma_job_of(jobs, row);
}

/// After healing no job is claimed under a token that no attempt has, and
/// every other job is as it was.
pub proof fn healing_leaves_no_orphans(
    jobs: Seq<AcceptedJobView>,
    results: ResultsView,
    now: int,
    later: int,
)
    ensures
        forall|i: int|
            0 <= i < jobs.len() ==> {
                &&& !orphaned(#[trigger] healed(jobs, results, now)[i], results)
                &&& !orphaned(jobs[i], results) ==> healed(jobs, results, now)[i] == jobs[i]
            },
        healed(healed(jobs, results, now), results, later) == healed(jobs, results, now),
{
    let once = healed(jobs, results, now);
    assert(healed(once, results, later) =~= once);
}

/// A job that has been accepted reads back as it was stored, and the jobs
/// before it read as before.
pub proof fn accepted_jobs_read_back(jobs: Seq<AcceptedJobView>, row: AcceptedJobView, other: int)
    requires
        ids_ascend(jobs),
        jobs.len() > 0 ==> row.id > jobs.last().id,
    ensures
        job_of(jobs.push(row), row.id) == Some(row),
        other != row.id ==> job_of(jobs.push(row), other) == job_of(jobs, other),
{
    let after = jobs.push(row);
    assert forall|i: int, j: int| 0 <= i < j < after.len() implies (#[trigger] after[i]).id < (
    #[trigger] after[j]).id by {
        if j < jobs.len() {
            assert(jobs[i].id < jobs[j].id);
        } else if i < jobs.len() - 1 {
            assert(jobs[i].id < jobs[jobs.len() - 1].id);
        }
    }
    assert(after[jobs.len() as int] == row);
    lemma_job_of(after, jobs.len() as int);
    if other != row.id {
        if exists|at: int| row_has_id(jobs, other, at) {
            let at = choose|at: int| row_has_id(jobs, other, at);
            lemma_job_of(jobs, at);
            assert(after[at] == jobs[at]);
            lemma_job_of(after, at);
        } else if exists|at: int| row_has_id(after, other, at) {
            let at = choose|at: int| row_has_id(after, other, at);
            assert(row_has_id(jobs, other, at));
        }
    }
}

/// Ids are handed out one after another, without a gap.
pub proof fn accepted_ids_are_sequential(
    queues: Map<Seq<char>, JobQueueView>,
    batch: Seq<AcceptedJobView>,
    last: int,
)
    ensures
        forall|i: int|
            0 <= i < accepted_rows(queues, batch, last).len() ==> (#[trigger] accepted_rows(
                queues,
                batch,
                last,
            )[i]).id == last + i + 1,
    decreases batch.len(),
{
    if batch.len() > 0 {
        accepted_ids_are_sequential(queues, batch.drop_last(), last);
    }
}

/// A job for an unknown queue has no effect on the others of its batch.
pub proof fn unknown_queues_hold_up_no_other(
    queues: Map<Seq<char>, JobQueueView>,
    before: Seq<AcceptedJobView>,
    job: AcceptedJobView,
    after: Seq<AcceptedJobView>,
    last: int,
)
    requires
        !queues.dom().contains(job.queue_name),
    ensures
        accepted_rows(queues, before.push(job) + after, last) == accepted_rows(
            queues,
            before + after,
            last,
        ),
    decreases after.len(),
{
    if after.len() == 0 {
        assert((before.push(job) + after).drop_last() =~= before);
        assert(before.push(job) + after =~= before.push(job));
        assert(before + after =~= before);
    } else {
        unknown_queues_hold_up_no_other(queues, before, job, after.drop_last(), last);
        assert((before.push(job) + after).drop_last() =~= before.push(job) + after.drop_last());
        assert((before + after).drop_last() =~= before + after.drop_last());
    }
}

/// Cleaning up keeps exactly the records that are not older than the cutoff.
pub proof fn cleanup_keeps_recent_records(
    jobs: Seq<AcceptedJobView>,
    rows: Seq<ExecutionWithQueueConfigView>,
    cutoff: int,
    job: AcceptedJobView,
    row: ExecutionWithQueueConfigView,
)
    ensures
        retained_jobs(jobs, cutoff).contains(job) <==> jobs.contains(job) && job.created_at
            >= cutoff,
        retained_executions(rows, cutoff).contains(row) <==> rows.contains(row)
            && row.execution.updated_at >= cutoff,
{
    broadcast use vstd::seq_lib::group_filter_ensures;

    let recent = |j: AcceptedJobView| j.created_at >= cutoff;
    let changed = |r: ExecutionWithQueueConfigView| r.execution.updated_at >= cutoff;
    if jobs.contains(job) && job.created_at >= cutoff {
        let i = jobs.index_of(job);
        jobs.lemma_filter_contains(recent, i);
    }
    if jobs.filter(recent).contains(job) {
        let i = jobs.filter(recent).index_of(job);
        jobs.lemma_filter_pred(recent, i);
        jobs.lemma_filter_contains_rev(recent, job);
    }
    if rows.contains(row) && row.execution.updated_at >= cutoff {
        let i = rows.index_of(row);
        rows.lemma_filter_contains(changed, i);
    }
    if rows.filter(changed).contains(row) {
        let i = rows.filter(changed).index_of(row);
        rows.lemma_filter_pred(changed, i);
        rows.lemma_filter_contains_rev(changed, row);
    }
}

/// A lease lasts as long as its queue says, unless it would outlast time.
pub proof fn leases_last_their_timeout(now: int, timeout_secs: int)
    requires
        0 <= timeout_secs,
        now + timeout_secs * 1000 <= i64::MAX,
        timeout_secs * 1000 <= i64::MAX,
    ensures
        lease_end(now, timeout_secs) == now + timeout_secs * 1000,
{
}

/// Whether a batch of dispatches meets no obstacle: queues are configured,
/// jobs and tokens do not repeat, tokens are new, attempts that are there have
/// ended without success and can be counted, and there are ids enough.
pub open spec fn dispatchable(table: ResultsView, inserts: Seq<DispatchInsertView>) -> bool {
    &&& forall|i: int|
        0 <= i < inserts.len() ==> table.queues.dom().contains((#[trigger] inserts[i]).queue_name)
    &&& forall|i: int, j: int|
        0 <= i < j < inserts.len() ==> (#[trigger] inserts[i]).job_id != (
        #[trigger] inserts[j]).job_id && inserts[i].dispatch_id != inserts[j].dispatch_id
    &&& forall|i: int, k: int|
        0 <= i < inserts.len() ==> !#[trigger] token_at(
            table.executions,
            inserts[i].dispatch_id,
            k,
        )
    &&& forall|i: int, k: int|
        0 <= i < inserts.len() && #[trigger] attempts_at(table.executions, inserts[i].job_id, k)
            ==> restartable(table.executions[k]) && table.executions[k].execution.execution_count
            < u32::MAX
    &&& last_execution_id(table.executions) + inserts.len() <= i64::MAX
}

/// What a dispatch that meets no obstacle is answered: an attempt at the job
/// under the token and the lease asked for, the first one or one more than there
/// were.
pub open spec fn start_of(
    rows: Seq<ExecutionWithQueueConfigView>,
    insert: DispatchInsertView,
    now: int,
) -> DispatchedExecutionView {
    DispatchedExecutionView {
        job_id: insert.job_id,
        execution_count: match execution_of(rows, insert.job_id) {
            Some(last) => last.execution_count + 1,
            None => 1,
        },
        dispatch_id: insert.dispatch_id,
        lease_expires_at: insert.lease_expires_at,
        updated_at: now,
    }
}

/// What the rows of an unobstructed run have in common with the rows before.
proof fn lemma_dispatch_proceeds(table: ResultsView, inserts: Seq<DispatchInsertView>, now: int)
    requires
        keys_distinct(table.executions),
        dispatchable(table, inserts),
    ensures
        ({
            let run = dispatch_run(table, inserts, now);
            &&& run.failure is None
            &&& !run.queue_missing
            &&& !run.count_exhausted
            &&& run.started.len() == inserts.len()
            &&& forall|i: int|
                0 <= i < inserts.len() ==> #[trigger] run.started[i] == Some(
                    start_of(table.executions, inserts[i], now),
                )
            &&& forall|k: int|
                0 <= k < table.executions.len() ==> (#[trigger] run.rows[k]).execution.job_id
                    == table.executions[k].execution.job_id
            &&& last_execution_id(run.rows) <= last_execution_id(table.executions) + inserts.len()
            &&& run.rows.len() >= table.executions.len()
            &&& forall|k: int|
                0 <= k < table.executions.len() ==> {
                    ||| #[trigger] run.rows[k] == table.executions[k]
                    ||| exists|i: int|
                        0 <= i < inserts.len() && (#[trigger] inserts[i]).job_id
                            == run.rows[k].execution.job_id && inserts[i].dispatch_id
                            == run.rows[k].execution.dispatch_id
                }
            &&& forall|k: int|
                table.executions.len() <= k < run.rows.len() ==> exists|i: int|
                    0 <= i < inserts.len() && (#[trigger] inserts[i]).job_id == (
                    #[trigger] run.rows[k]).execution.job_id && inserts[i].dispatch_id
                        == run.rows[k].execution.dispatch_id
        }),
    decreases inserts.len(),
{
    if inserts.len() > 0 {
        let fewer = inserts.drop_last();
        assert(dispatchable(table, fewer)) by {
            assert forall|i: int, k: int| 0 <= i < fewer.len() implies !#[trigger] token_at(
                table.executions,
                fewer[i].dispatch_id,
                k,
            ) by {
                assert(!token_at(table.executions, inserts[i].dispatch_id, k));
            }
            assert forall|i: int, k: int|
                0 <= i < fewer.len() && #[trigger] attempts_at(
                    table.executions,
                    fewer[i].job_id,
                    k,
                ) implies restartable(table.executions[k])
                && table.executions[k].execution.execution_count < u32::MAX by {
                assert(attempts_at(table.executions, inserts[i].job_id, k));
            }
        }
        lemma_dispatch_proceeds(table, fewer, now);
        let before = dispatch_run(table, fewer, now);
        let n = inserts.len() - 1;
        let insert = inserts[n];
        assert(close_statement(before) == before);
        let run = dispatch_one(table.queues, before, insert, now);
        assert(run == dispatch_run(table, inserts, now));
        assert(table.queues.dom().contains(inserts[n].queue_name));
        assert forall|k: int| !#[trigger] token_at(before.rows, insert.dispatch_id, k) by {
            if 0 <= k < before.rows.len() {
                if k < table.executions.len() && before.rows[k] == table.executions[k] {
                    assert(!token_at(table.executions, inserts[n].dispatch_id, k));
                } else {
                    let i = choose|i: int|
                        0 <= i < fewer.len() && (#[trigger] fewer[i]).job_id
                            == before.rows[k].execution.job_id && fewer[i].dispatch_id
                            == before.rows[k].execution.dispatch_id;
                    assert(fewer[i] == inserts[i]);
                    assert(inserts[i].dispatch_id != inserts[n].dispatch_id);
                }
            }
        }
        assert forall|k: int| #[trigger] attempts_at(before.rows, insert.job_id, k) implies k
            < table.executions.len() && before.rows[k] == table.executions[k] by {
            if !(k < table.executions.len() && before.rows[k] == table.executions[k]) {
                let i = choose|i: int|
                    0 <= i < fewer.len() && (#[trigger] fewer[i]).job_id
                        == before.rows[k].execution.job_id && fewer[i].dispatch_id
                        == before.rows[k].execution.dispatch_id;
                assert(fewer[i] == inserts[i]);
                assert(inserts[i].job_id != inserts[n].job_id);
            }
        }
        if exists|at: int| attempts_at(before.rows, insert.job_id, at) {
            let at = choose|at: int| attempts_at(before.rows, insert.job_id, at);
            assert(attempts_at(before.rows, insert.job_id, at));
            assert(attempts_at(table.executions, inserts[n].job_id, at));
            assert(inserts[n].job_id == run.rows[at].execution.job_id && inserts[n].dispatch_id
                == run.rows[at].execution.dispatch_id);
            lemma_execution_of(table.executions, at);
        } else {
            assert forall|k: int| !#[trigger] attempts_at(
                table.executions,
                insert.job_id,
                k,
            ) by {
                if attempts_at(table.executions, insert.job_id, k) {
                    assert(before.rows[k].execution.job_id == insert.job_id);
                    assert(attempts_at(before.rows, insert.job_id, k));
                }
            }
            assert(inserts[n].job_id == run.rows.last().execution.job_id
                && inserts[n].dispatch_id == run.rows.last().execution.dispatch_id);
        }
        assert forall|k: int| 0 <= k < run.rows.len() implies {
            ||| k < table.executions.len() && #[trigger] run.rows[k] == table.executions[k]
            ||| exists|i: int|
                0 <= i < inserts.len() && (#[trigger] inserts[i]).job_id
                    == run.rows[k].execution.job_id && inserts[i].dispatch_id
                    == run.rows[k].execution.dispatch_id
        } by {
            if k < before.rows.len() && run.rows[k] == before.rows[k] {
                if !(k < table.executions.len() && before.rows[k] == table.executions[k]) {
                    let i = choose|i: int|
                        0 <= i < fewer.len() && (#[trigger] fewer[i]).job_id
                            == before.rows[k].execution.job_id && fewer[i].dispatch_id
                            == before.rows[k].execution.dispatch_id;
                    assert(fewer[i] == inserts[i]);
                }
            } else {
                assert(inserts[n].job_id == run.rows[k].execution.job_id && inserts[n].dispatch_id
                    == run.rows[k].execution.dispatch_id);
            }
        }
        assert forall|i: int| 0 <= i < inserts.len() implies #[trigger] run.started[i] == Some(
            start_of(table.executions, inserts[i], now),
        ) by {
            if i < n {
                assert(before.started[i] == Some(start_of(table.executions, fewer[i], now)));
            }
        }
    }
}

/// A batch of dispatches that meets no obstacle is written as a whole. For every
/// job of it an attempt is started under the token and the lease asked for, the
/// first one or one more than there were, and the attempts at other jobs stay as
/// they are.
pub proof fn unobstructed_dispatches_start(
    table: ResultsView,
    inserts: Seq<DispatchInsertView>,
    now: int,
)
    requires
        keys_distinct(table.executions),
        dispatchable(table, inserts),
    ensures
        whole_dispatch(table, inserts, now).failure is None,
        whole_dispatch(table, inserts, now).started.len() == inserts.len(),
        forall|i: int|
            0 <= i < inserts.len() ==> #[trigger] whole_dispatch(table, inserts, now).started[i]
                == Some(start_of(table.executions, inserts[i], now)),
        whole_dispatch(table, inserts, now).rows.len() >= table.executions.len(),
        forall|k: int|
            0 <= k < table.executions.len() && (forall|i: int|
                0 <= i < inserts.len() ==> (#[trigger] inserts[i]).job_id
                    != table.executions[k].execution.job_id) ==> #[trigger] whole_dispatch(
                table,
                inserts,
                now,
            ).rows[k] == table.executions[k],
        forall|k: int|
            table.executions.len() <= k < whole_dispatch(table, inserts, now).rows.len()
                ==> exists|i: int|
                0 <= i < inserts.len() && (#[trigger] inserts[i]).job_id == (
                #[trigger] whole_dispatch(table, inserts, now).rows[k]).execution.job_id,
{
    lemma_dispatch_proceeds(table, inserts, now);
    let run = dispatch_run(table, inserts, now);
    assert forall|k: int|
        0 <= k < table.executions.len() && (forall|i: int|
            0 <= i < inserts.len() ==> (#[trigger] inserts[i]).job_id
                != table.executions[k].execution.job_id) implies #[trigger] run.rows[k]
        == table.executions[k] by {
        assert(run.rows[k].execution.job_id == table.executions[k].execution.job_id);
    }
}

} // verus!
