//! What a batch of reports comes to, whatever statements it is cut into.

use crate::engine::types::{ExecutionStatus, ExecutionWithQueueConfigView};
use crate::engine::JobOutcomeView;
use crate::persistence::results::{
    batch_disposition, completed_rows, dispositions, first_report, keys_distinct,
    lemma_disposition, lemma_of_kind_step, lemma_settle_chunk_keeps_keys, lemma_settle_row_step,
    of_kind, reports_on, runs_at, settle, settle_chunk, settle_row, settled, statement_rows,
    CompletionDisposition, CompletionView,
};
use vstd::prelude::*;

verus! {

/// Reports that speak of other attempts leave a row as it is.
proof fn lemma_unreported_row(
    row: ExecutionWithQueueConfigView,
    items: Seq<CompletionView>,
    now: int,
)
    requires
        forall|k: int| 0 <= k < items.len() ==> !reports_on(#[trigger] items[k], row),
    ensures
        settle_row(row, items, now) == row,
{
    if exists|k: int| first_report(items, row, k) {
        let k = choose|k: int| first_report(items, row, k);
        assert(reports_on(items[k], row));
    }
}

/// Reports applied in two goes settle a row as they do in one.
proof fn lemma_settle_row_in_goes(
    row: ExecutionWithQueueConfigView,
    a: Seq<CompletionView>,
    b: Seq<CompletionView>,
    now: int,
)
    ensures
        settle_row(settle_row(row, a, now), b, now) == settle_row(row, a + b, now),
    decreases b.len(),
{
    let after = settle_row(row, a, now);
    if b.len() == 0 {
        assert(a + b =~= a);
        lemma_unreported_row(after, b, now);
    } else {
        let k = b.len() - 1;
        lemma_settle_row_in_goes(row, a, b.take(k), now);
        lemma_settle_row_step(after, b, k, now);
        lemma_settle_row_step(row, a + b, a.len() + k, now);
        assert(b.take(k + 1) =~= b);
        assert((a + b).take(a.len() + k) =~= a + b.take(k));
        assert((a + b).take(a.len() + k + 1) =~= a + b);
        assert((a + b)[a.len() + k] == b[k]);
    }
}

/// How reports are cut into statements makes no difference to the rows.
pub proof fn statements_make_no_difference(
    rows: Seq<ExecutionWithQueueConfigView>,
    items: Seq<CompletionView>,
    now: int,
)
    ensures
        settle(rows, items, now) == settle_chunk(rows, items, now),
    decreases items.len(),
{
    if items.len() == 0 {
        assert forall|i: int| 0 <= i < rows.len() implies #[trigger] settle_chunk(
            rows,
            items,
            now,
        )[i] == rows[i] by {
            lemma_unreported_row(rows[i], items, now);
        }
        assert(settle_chunk(rows, items, now) =~= rows);
    } else {
        let n = statement_rows(items.len() as int);
        let first = settle_chunk(rows, items.take(n), now);
        statements_make_no_difference(first, items.skip(n), now);
        assert(items.take(n) + items.skip(n) =~= items);
        assert forall|i: int| 0 <= i < rows.len() implies #[trigger] settle_chunk(
            first,
            items.skip(n),
            now,
        )[i] == settle_chunk(rows, items, now)[i] by {
            lemma_settle_row_in_goes(rows[i], items.take(n), items.skip(n), now);
        }
        assert(settle_chunk(first, items.skip(n), now) =~= settle_chunk(rows, items, now));
    }
}

/// Among the reports of one kind, those of other jobs or tokens leave a row as
/// it is.
proof fn lemma_unreported_kind(
    row: ExecutionWithQueueConfigView,
    batch: Seq<CompletionView>,
    success: bool,
    now: int,
)
    requires
        forall|k: int|
            0 <= k < batch.len() && (#[trigger] batch[k]).outcome is Succeeded == success
                ==> !reports_on(batch[k], row),
    ensures
        settle_row(row, of_kind(batch, success), now) == row,
{
    let kind = |item: CompletionView| item.outcome is Succeeded == success;
    let items = of_kind(batch, success);
    assert(items == batch.filter(kind));
    assert forall|k: int| 0 <= k < items.len() implies !reports_on(#[trigger] items[k], row) by {
        batch.lemma_filter_pred(kind, k);
        assert(batch.filter(kind).contains(items[k]));
        batch.lemma_filter_contains_rev(kind, items[k]);
        let j = choose|j: int| 0 <= j < batch.len() && batch[j] == items[k];
        assert(!reports_on(batch[j], row));
    }
    lemma_unreported_row(row, items, now);
}

/// Among the reports of one kind, the first to speak of a row settles it.
proof fn lemma_first_of_kind(
    row: ExecutionWithQueueConfigView,
    batch: Seq<CompletionView>,
    success: bool,
    s: int,
    now: int,
)
    requires
        0 <= s < batch.len(),
        batch[s].outcome is Succeeded == success,
        reports_on(batch[s], row),
        forall|k: int|
            0 <= k < s && (#[trigger] batch[k]).outcome is Succeeded == success ==> !reports_on(
                batch[k],
                row,
            ),
    ensures
        settle_row(row, of_kind(batch, success), now) == settled(row, batch[s].outcome, now),
    decreases batch.len(),
{
    let n = batch.len() - 1;
    let fewer = batch.take(n);
    let items = of_kind(batch, success);
    let before = of_kind(fewer, success);
    lemma_of_kind_step(batch, n);
    assert(batch.take(n + 1) =~= batch);
    if s < n {
        lemma_first_of_kind(row, fewer, success, s, now);
        if batch[n].outcome is Succeeded == success {
            assert(items == before.push(batch[n]));
            lemma_settle_row_step(row, items, before.len() as int, now);
            assert(items.take(before.len() as int) =~= before);
            assert(items.take(before.len() as int + 1) =~= items);
        } else {
            assert(items == before);
        }
    } else {
        assert(items == before.push(batch[n]));
        lemma_unreported_kind(row, fewer, success, now);
        lemma_settle_row_step(row, items, before.len() as int, now);
        assert(items.take(before.len() as int) =~= before);
        assert(items.take(before.len() as int + 1) =~= items);
    }
}

/// An attempt that a batch says has succeeded is completed with the payload of
/// the first such report, whatever else the batch says of it.
pub proof fn success_in_a_batch_completes(
    rows: Seq<ExecutionWithQueueConfigView>,
    batch: Seq<CompletionView>,
    now: int,
    i: int,
    s: int,
)
    requires
        0 <= i < rows.len(),
        rows[i].execution.status == ExecutionStatus::Running,
        0 <= s < batch.len(),
        batch[s].outcome is Succeeded,
        batch[s].job_id == rows[i].execution.job_id,
        batch[s].dispatch_id == rows[i].execution.dispatch_id,
        forall|k: int|
            0 <= k < s && (#[trigger] batch[k]).outcome is Succeeded ==> batch[k].job_id
                != rows[i].execution.job_id || batch[k].dispatch_id
                != rows[i].execution.dispatch_id,
    ensures
        ({
            let row = completed_rows(rows, batch, now)[i];
            &&& completed_rows(rows, batch, now).len() == rows.len()
            &&& row.queue == rows[i].queue
            &&& row.execution.status == ExecutionStatus::Completed
            &&& row.execution.result_payload == Some(batch[s].outcome->Succeeded_0)
            &&& row.execution.result_error is None
            &&& row.execution.lease_expires_at is None
            &&& row.execution.updated_at == now
            &&& row.execution.id == rows[i].execution.id
            &&& row.execution.job_id == rows[i].execution.job_id
            &&& row.execution.queue_name == rows[i].execution.queue_name
            &&& row.execution.execution_count == rows[i].execution.execution_count
            &&& row.execution.dispatch_id == rows[i].execution.dispatch_id
            &&& row.execution.created_at == rows[i].execution.created_at
        }),
{
    let first = settle(rows, of_kind(batch, true), now);
    statements_make_no_difference(rows, of_kind(batch, true), now);
    statements_make_no_difference(first, of_kind(batch, false), now);
    lemma_first_of_kind(rows[i], batch, true, s, now);
    lemma_unreported_kind(first[i], batch, false, now);
}

/// An attempt of which a batch tells no success fails with the message of the
/// first failure that the batch tells of it.
pub proof fn failure_in_a_batch_fails(
    rows: Seq<ExecutionWithQueueConfigView>,
    batch: Seq<CompletionView>,
    now: int,
    i: int,
    s: int,
)
    requires
        0 <= i < rows.len(),
        rows[i].execution.status == ExecutionStatus::Running,
        0 <= s < batch.len(),
        batch[s].outcome is Failed,
        batch[s].job_id == rows[i].execution.job_id,
        batch[s].dispatch_id == rows[i].execution.dispatch_id,
        forall|k: int|
            0 <= k < batch.len() && (k < s || (#[trigger] batch[k]).outcome is Succeeded)
                ==> batch[k].job_id != rows[i].execution.job_id || batch[k].dispatch_id
                != rows[i].execution.dispatch_id,
    ensures
        ({
            let row = completed_rows(rows, batch, now)[i];
            &&& completed_rows(rows, batch, now).len() == rows.len()
            &&& row.queue == rows[i].queue
            &&& row.execution.status == ExecutionStatus::Failed
            &&& row.execution.result_payload == rows[i].execution.result_payload
            &&& row.execution.result_error == Some(batch[s].outcome->Failed_0)
            &&& row.execution.lease_expires_at is None
            &&& row.execution.updated_at == now
            &&& row.execution.id == rows[i].execution.id
            &&& row.execution.job_id == rows[i].execution.job_id
            &&& row.execution.queue_name == rows[i].execution.queue_name
            &&& row.execution.execution_count == rows[i].execution.execution_count
            &&& row.execution.dispatch_id == rows[i].execution.dispatch_id
            &&& row.execution.created_at == rows[i].execution.created_at
        }),
{
    let first = settle(rows, of_kind(batch, true), now);
    statements_make_no_difference(rows, of_kind(batch, true), now);
    statements_make_no_difference(first, of_kind(batch, false), now);
    lemma_unreported_kind(rows[i], batch, true, now);
    assert(first[i] == rows[i]);
    lemma_first_of_kind(rows[i], batch, false, s, now);
}

/// An attempt that does not run, or that no report of a batch names by both its
/// job and its token, stays as it is.
pub proof fn batches_leave_other_attempts_alone(
    rows: Seq<ExecutionWithQueueConfigView>,
    batch: Seq<CompletionView>,
    now: int,
    i: int,
)
    requires
        0 <= i < rows.len(),
        rows[i].execution.status != ExecutionStatus::Running || forall|k: int|
            0 <= k < batch.len() ==> (#[trigger] batch[k]).job_id != rows[i].execution.job_id
                || batch[k].dispatch_id != rows[i].execution.dispatch_id,
    ensures
        completed_rows(rows, batch, now).len() == rows.len(),
        completed_rows(rows, batch, now)[i] == rows[i],
{
    let first = settle(rows, of_kind(batch, true), now);
    statements_make_no_difference(rows, of_kind(batch, true), now);
    statements_make_no_difference(first, of_kind(batch, false), now);
    lemma_unreported_kind(rows[i], batch, true, now);
    assert(first[i] == rows[i]);
    lemma_unreported_kind(rows[i], batch, false, now);
}

/// What no row runs under is not running after any reports either.
proof fn lemma_nothing_starts_running(
    rows: Seq<ExecutionWithQueueConfigView>,
    items: Seq<CompletionView>,
    now: int,
    job_id: int,
    token: Seq<char>,
)
    requires
        forall|at: int| !runs_at(rows, job_id, token, at),
    ensures
        forall|at: int| !runs_at(settle_chunk(rows, items, now), job_id, token, at),
{
    assert forall|at: int| !runs_at(settle_chunk(rows, items, now), job_id, token, at) by {
        if 0 <= at < rows.len() {
            assert(!runs_at(rows, job_id, token, at));
        }
    }
}

proof fn lemma_ignored(
    rows: Seq<ExecutionWithQueueConfigView>,
    items: Seq<CompletionView>,
    now: int,
    k: int,
)
    requires
        0 <= k < items.len(),
        forall|at: int| !runs_at(rows, items[k].job_id, items[k].dispatch_id, at),
    ensures
        dispositions(rows, items, now).len() == items.len(),
        dispositions(rows, items, now)[k] == CompletionDisposition::Ignored,
    decreases items.len(),
{
    lemma_dispositions_len(rows, items, now);
    let n = statement_rows(items.len() as int);
    if k >= n {
        let rest = items.skip(n);
        assert(rest[k - n] == items[k]);
        lemma_nothing_starts_running(
            rows,
            items.take(n),
            now,
            items[k].job_id,
            items[k].dispatch_id,
        );
        lemma_ignored(settle_chunk(rows, items.take(n), now), rest, now, k - n);
    }
}

proof fn lemma_dispositions_len(
    rows: Seq<ExecutionWithQueueConfigView>,
    items: Seq<CompletionView>,
    now: int,
)
    ensures
        dispositions(rows, items, now).len() == items.len(),
    decreases items.len(),
{
    if items.len() > 0 {
        let n = statement_rows(items.len() as int);
        lemma_dispositions_len(settle_chunk(rows, items.take(n), now), items.skip(n), now);
    }
}

/// A report that no other report shares its job and token with is judged by
/// the row that runs under them.
proof fn lemma_judged(
    rows: Seq<ExecutionWithQueueConfigView>,
    items: Seq<CompletionView>,
    now: int,
    k: int,
    at: int,
)
    requires
        keys_distinct(rows),
        0 <= k < items.len(),
        runs_at(rows, items[k].job_id, items[k].dispatch_id, at),
        forall|j: int|
            0 <= j < items.len() && j != k ==> (#[trigger] items[j]).job_id != items[k].job_id
                || items[j].dispatch_id != items[k].dispatch_id,
    ensures
        dispositions(rows, items, now)[k] == (if items[k].outcome is Failed
            && rows[at].execution.execution_count <= rows[at].queue.max_retries {
            CompletionDisposition::Repend
        } else {
            CompletionDisposition::Completed
        }),
    decreases items.len(),
{
    lemma_dispositions_len(rows, items, now);
    lemma_disposition(rows, items[k], at);
    let n = statement_rows(items.len() as int);
    if k >= n {
        let rest = items.skip(n);
        let next = settle_chunk(rows, items.take(n), now);
        assert(rest[k - n] == items[k]);
        assert forall|j: int| 0 <= j < n implies !reports_on(
            #[trigger] items.take(n)[j],
            rows[at],
        ) by {
            assert(items.take(n)[j] == items[j]);
        }
        lemma_unreported_row(rows[at], items.take(n), now);
        lemma_settle_chunk_keeps_keys(rows, items.take(n), now);
        assert forall|j: int| 0 <= j < rest.len() && j != k - n implies (
        #[trigger] rest[j]).job_id != rest[k - n].job_id || rest[j].dispatch_id
            != rest[k - n].dispatch_id by {
            assert(rest[j] == items[j + n]);
        }
        lemma_judged(next, rest, now, k - n, at);
    }
}

/// Whether `item` stands in `batch` at another place than `i`.
spec fn stands_elsewhere(batch: Seq<CompletionView>, i: int, item: CompletionView) -> bool {
    exists|j: int| 0 <= j < batch.len() && j != i && #[trigger] batch[j] == item
}

/// Where the report at `i` stands among those of its kind.
proof fn lemma_place_in_kind(batch: Seq<CompletionView>, i: int, success: bool)
    requires
        0 <= i < batch.len(),
        batch[i].outcome is Succeeded == success,
    ensures
        ({
            let p = of_kind(batch.take(i), success).len() as int;
            &&& 0 <= p < of_kind(batch, success).len()
            &&& of_kind(batch, success)[p] == batch[i]
            &&& forall|q: int|
                0 <= q < of_kind(batch, success).len() && q != p ==> stands_elsewhere(
                    batch,
                    i,
                    #[trigger] of_kind(batch, success)[q],
                )
        }),
    decreases batch.len(),
{
    let n = batch.len() - 1;
    let fewer = batch.take(n);
    let items = of_kind(batch, success);
    let before = of_kind(fewer, success);
    lemma_of_kind_step(batch, n);
    assert(batch.take(n + 1) =~= batch);
    if i < n {
        assert(fewer.take(i) =~= batch.take(i));
        lemma_place_in_kind(fewer, i, success);
        let p = of_kind(batch.take(i), success).len() as int;
        assert forall|q: int| 0 <= q < items.len() && q != p implies stands_elsewhere(
            batch,
            i,
            #[trigger] items[q],
        ) by {
            if q < before.len() {
                assert(before[q] == items[q]);
                assert(stands_elsewhere(fewer, i, before[q]));
                let j = choose|j: int|
                    0 <= j < fewer.len() && j != i && #[trigger] fewer[j] == before[q];
                assert(batch[j] == items[q]);
            } else {
                assert(batch[n] == items[q]);
            }
        }
    } else {
        let kind = |item: CompletionView| item.outcome is Succeeded == success;
        assert forall|q: int| 0 <= q < items.len() && q != before.len() implies stands_elsewhere(
            batch,
            i,
            #[trigger] items[q],
        ) by {
            assert(before[q] == items[q]);
            assert(fewer.filter(kind).contains(before[q]));
            fewer.lemma_filter_contains_rev(kind, before[q]);
            let j = choose|j: int| 0 <= j < fewer.len() && fewer[j] == before[q];
            assert(batch[j] == items[q]);
        }
    }
}

/// A report that names no running attempt by both its job and its token is
/// ignored, wherever it stands in a batch.
pub proof fn reports_in_a_batch_need_an_attempt(
    rows: Seq<ExecutionWithQueueConfigView>,
    batch: Seq<CompletionView>,
    now: int,
    i: int,
)
    requires
        0 <= i < batch.len(),
        forall|k: int|
            0 <= k < rows.len() ==> {
                ||| (#[trigger] rows[k]).execution.job_id != batch[i].job_id
                ||| rows[k].execution.dispatch_id != batch[i].dispatch_id
                ||| rows[k].execution.status != ExecutionStatus::Running
            },
    ensures
        batch_disposition(rows, batch, now, i) == CompletionDisposition::Ignored,
{
    let success = batch[i].outcome is Succeeded;
    assert forall|at: int| !runs_at(rows, batch[i].job_id, batch[i].dispatch_id, at) by {
        if 0 <= at < rows.len() {
            assert(rows[at].execution.job_id != batch[i].job_id || rows[at].execution.dispatch_id
                != batch[i].dispatch_id || rows[at].execution.status != ExecutionStatus::Running);
        }
    }
    lemma_place_in_kind(batch, i, success);
    let p = of_kind(batch.take(i), success).len() as int;
    if success {
        lemma_ignored(rows, of_kind(batch, true), now, p);
    } else {
        let first = settle(rows, of_kind(batch, true), now);
        statements_make_no_difference(rows, of_kind(batch, true), now);
        lemma_nothing_starts_running(
            rows,
            of_kind(batch, true),
            now,
            batch[i].job_id,
            batch[i].dispatch_id,
        );
        lemma_ignored(first, of_kind(batch, false), now, p);
    }
}

/// A report on a running attempt counts: its job is to be tried again where it
/// failed and the attempts so far do not exceed the retries, and is done with
/// otherwise. What other reports of the batch say makes no difference, as long
/// as they speak of other attempts.
pub proof fn reports_in_a_batch_are_judged_alone(
    rows: Seq<ExecutionWithQueueConfigView>,
    batch: Seq<CompletionView>,
    now: int,
    i: int,
    at: int,
)
    requires
        keys_distinct(rows),
        0 <= i < batch.len(),
        0 <= at < rows.len(),
        rows[at].execution.job_id == batch[i].job_id,
        rows[at].execution.dispatch_id == batch[i].dispatch_id,
        rows[at].execution.status == ExecutionStatus::Running,
        forall|j: int|
            0 <= j < batch.len() && j != i ==> (#[trigger] batch[j]).job_id != batch[i].job_id
                || batch[j].dispatch_id != batch[i].dispatch_id,
    ensures
        batch_disposition(rows, batch, now, i) == (match batch[i].outcome {
            JobOutcomeView::Succeeded(_) => CompletionDisposition::Completed,
            JobOutcomeView::Failed(_) => if rows[at].execution.execution_count
                <= rows[at].queue.max_retries {
                CompletionDisposition::Repend
            } else {
                CompletionDisposition::Completed
            },
        }),
{
    let success = batch[i].outcome is Succeeded;
    lemma_place_in_kind(batch, i, success);
    let p = of_kind(batch.take(i), success).len() as int;
    let items = of_kind(batch, success);
    assert forall|q: int| 0 <= q < items.len() && q != p implies (#[trigger] items[q]).job_id
        != items[p].job_id || items[q].dispatch_id != items[p].dispatch_id by {
        assert(stands_elsewhere(batch, i, items[q]));
        let j = choose|j: int|
            0 <= j < batch.len() && j != i && #[trigger] batch[j] == items[q];
        assert(batch[j].job_id != batch[i].job_id || batch[j].dispatch_id != batch[i].dispatch_id);
    }
    assert(runs_at(rows, items[p].job_id, items[p].dispatch_id, at));
    if success {
        lemma_judged(rows, items, now, p, at);
    } else {
        let done = of_kind(batch, true);
        let first = settle(rows, done, now);
        statements_make_no_difference(rows, done, now);
        lemma_settle_chunk_keeps_keys(rows, done, now);
        lemma_unreported_kind(rows[at], batch, true, now);
        assert(first[at] == rows[at]);
        lemma_judged(first, items, now, p, at);
    }
}

} // verus!
