//! Attempts: dispatching, fenced completion, and the recovery of leases that
//! have run out.

use crate::engine::types::{
    Execution, ExecutionStatus, ExecutionView, ExecutionWithQueueConfig,
    ExecutionWithQueueConfigView, JobQueue, JobQueueView, StoreError, StoreErrorView,
};
use crate::engine::{JobOutcome, JobOutcomeView};
use crate::persistence::queues::{
    configured, lemma_views_push, out_of_range_text, views, QueueTable, MAX_TIMEOUT_SECS,
};
use crate::text::{concat, same_text, signed_decimal, signed_decimal_text};
use vstd::prelude::*;

verus! {

/// How many rows one statement writes.
pub const ROWS_PER_STATEMENT: usize = 64;

/// A claimed job on its way to a worker.
#[derive(Debug, PartialEq, Eq)]
pub struct DispatchInsert {
    pub job_id: i64,
    pub queue_name: String,
    pub dispatch_id: String,
    pub lease_expires_at: i64,
}

/// What such a job holds.
#[verifier::ext_equal]
pub struct DispatchInsertView {
    pub job_id: int,
    pub queue_name: Seq<char>,
    pub dispatch_id: Seq<char>,
    pub lease_expires_at: i64,
}

impl View for DispatchInsert {
    type V = DispatchInsertView;

    open spec fn view(&self) -> DispatchInsertView {
        DispatchInsertView {
            job_id: self.job_id as int,
            queue_name: self.queue_name@,
            dispatch_id: self.dispatch_id@,
            lease_expires_at: self.lease_expires_at,
        }
    }
}

/// An attempt that has been started.
#[derive(Debug, PartialEq, Eq)]
pub struct DispatchedExecution {
    pub job_id: i64,
    pub execution_count: u32,
    pub dispatch_id: String,
    pub lease_expires_at: i64,
    pub updated_at: i64,
}

/// What a started attempt holds.
#[verifier::ext_equal]
pub struct DispatchedExecutionView {
    pub job_id: int,
    pub execution_count: int,
    pub dispatch_id: Seq<char>,
    pub lease_expires_at: i64,
    pub updated_at: int,
}

impl View for DispatchedExecution {
    type V = DispatchedExecutionView;

    open spec fn view(&self) -> DispatchedExecutionView {
        DispatchedExecutionView {
            job_id: self.job_id as int,
            execution_count: self.execution_count as int,
            dispatch_id: self.dispatch_id@,
            lease_expires_at: self.lease_expires_at,
            updated_at: self.updated_at as int,
        }
    }
}

/// What becomes of a reported outcome.
#[derive(Debug, Clone, Copy, PartialEq, Eq, Structural)]
pub enum CompletionDisposition {
    /// The attempt it speaks of is not running: nothing changes.
    Ignored,
    /// The job is done.
    Completed,
    /// The job may be tried again.
    Repend,
}

/// An outcome as a worker reports it.
#[derive(Debug, PartialEq, Eq)]
pub struct Completion {
    pub job_id: i64,
    pub dispatch_id: String,
    pub outcome: JobOutcome,
}

/// What a reported outcome holds.
#[verifier::ext_equal]
pub struct CompletionView {
    pub job_id: int,
    pub dispatch_id: Seq<char>,
    pub outcome: JobOutcomeView,
}

impl View for Completion {
    type V = CompletionView;

    open spec fn view(&self) -> CompletionView {
        CompletionView {
            job_id: self.job_id as int,
            dispatch_id: self.dispatch_id@,
            outcome: self.outcome@,
        }
    }
}

/// A lease that has run out.
#[derive(Debug, PartialEq, Eq)]
pub struct RecoveredStale {
    pub job_id: i64,
    pub dispatch_id: String,
    pub should_repend: bool,
}

/// What a lapsed lease holds.
#[verifier::ext_equal]
pub struct RecoveredStaleView {
    pub job_id: int,
    pub dispatch_id: Seq<char>,
    pub should_repend: bool,
}

impl View for RecoveredStale {
    type V = RecoveredStaleView;

    open spec fn view(&self) -> RecoveredStaleView {
        RecoveredStaleView {
            job_id: self.job_id as int,
            dispatch_id: self.dispatch_id@,
            should_repend: self.should_repend,
        }
    }
}

/// The attempts of one database, in the order of their ids, each with the
/// queue configuration that was in force when it was dispatched.
pub struct ResultsTable {
    pub queues: QueueTable,
    pub executions: Vec<ExecutionWithQueueConfig>,
}

/// What the table holds.
#[verifier::ext_equal]
pub struct ResultsView {
    pub queues: Map<Seq<char>, JobQueueView>,
    pub executions: Seq<ExecutionWithQueueConfigView>,
}

impl View for ResultsTable {
    type V = ResultsView;

    open spec fn view(&self) -> ResultsView {
        ResultsView { queues: self.queues@, executions: views(self.executions@) }
    }
}

/// Ids ascend, and neither a job nor a token occurs twice.
pub open spec fn keys_distinct(rows: Seq<ExecutionWithQueueConfigView>) -> bool {
    forall|i: int, j: int|
        #![trigger rows[i], rows[j]]
        0 <= i < j < rows.len() ==> {
            &&& rows[i].execution.id < rows[j].execution.id
            &&& rows[i].execution.job_id != rows[j].execution.job_id
            &&& rows[i].execution.dispatch_id != rows[j].execution.dispatch_id
        }
}

/// Whether the row is a running attempt at `job_id` under `token`.
pub open spec fn runs_under(row: ExecutionWithQueueConfigView, job_id: int, token: Seq<char>) -> bool {
    &&& row.execution.job_id == job_id
    &&& row.execution.dispatch_id == token
    &&& row.execution.status == ExecutionStatus::Running
}

/// Whether the row at `at` is a running attempt at `job_id` under `token`.
pub open spec fn runs_at(
    rows: Seq<ExecutionWithQueueConfigView>,
    job_id: int,
    token: Seq<char>,
    at: int,
) -> bool {
    0 <= at < rows.len() && runs_under(rows[at], job_id, token)
}

/// Whether the row at `at` is an attempt at `job_id`.
pub open spec fn attempts_at(
    rows: Seq<ExecutionWithQueueConfigView>,
    job_id: int,
    at: int,
) -> bool {
    0 <= at < rows.len() && rows[at].execution.job_id == job_id
}

/// The attempt at `job_id`, if there is one.
pub open spec fn execution_of(
    rows: Seq<ExecutionWithQueueConfigView>,
    job_id: int,
) -> Option<ExecutionView> {
    if exists|at: int| attempts_at(rows, job_id, at) {
        Some(rows[choose|at: int| attempts_at(rows, job_id, at)].execution)
    } else {
        None
    }
}

/// Where jobs do not occur twice, a row is the attempt at its job.
pub proof fn lemma_execution_of(rows: Seq<ExecutionWithQueueConfigView>, at: int)
    requires
        keys_distinct(rows),
        0 <= at < rows.len(),
    ensures
        execution_of(rows, rows[at].execution.job_id) == Some(rows[at].execution),
{
    let job_id = rows[at].execution.job_id;
    assert(attempts_at(rows, job_id, at));
    let chosen = choose|k: int| attempts_at(rows, job_id, k);
    assert(attempts_at(rows, job_id, chosen));
    if chosen < at {
        assert(rows[chosen].execution.job_id != rows[at].execution.job_id);
    } else if at < chosen {
        assert(rows[at].execution.job_id != rows[chosen].execution.job_id);
    }
}

/// Whether the attempt's job may be tried again once the attempt has failed.
pub open spec fn retryable(row: ExecutionWithQueueConfigView) -> bool {
    row.execution.execution_count <= row.queue.max_retries
}

/// An attempt once its outcome is known.
pub open spec fn settled(
    row: ExecutionWithQueueConfigView,
    outcome: JobOutcomeView,
    now: int,
) -> ExecutionWithQueueConfigView {
    ExecutionWithQueueConfigView {
        execution: match outcome {
            JobOutcomeView::Succeeded(payload) => ExecutionView {
                status: ExecutionStatus::Completed,
                lease_expires_at: None,
                result_payload: Some(payload),
                result_error: None,
                updated_at: now,
                ..row.execution
            },
            JobOutcomeView::Failed(message) => ExecutionView {
                status: ExecutionStatus::Failed,
                lease_expires_at: None,
                result_error: Some(message),
                updated_at: now,
                ..row.execution
            },
        },
        ..row
    }
}

/// Whether the report speaks of the row, which is running.
pub open spec fn reports_on(item: CompletionView, row: ExecutionWithQueueConfigView) -> bool {
    runs_under(row, item.job_id, item.dispatch_id)
}

/// Whether the report at `k` is the first of `items` to speak of `row`.
pub open spec fn first_report(
    items: Seq<CompletionView>,
    row: ExecutionWithQueueConfigView,
    k: int,
) -> bool {
    &&& 0 <= k < items.len()
    &&& reports_on(items[k], row)
    &&& forall|j: int| 0 <= j < k ==> !reports_on(#[trigger] items[j], row)
}

/// The row once the reports of one statement have been applied.
pub open spec fn settle_row(
    row: ExecutionWithQueueConfigView,
    items: Seq<CompletionView>,
    now: int,
) -> ExecutionWithQueueConfigView {
    if exists|k: int| first_report(items, row, k) {
        settled(row, items[choose|k: int| first_report(items, row, k)].outcome, now)
    } else {
        row
    }
}

/// The rows once the reports of one statement have been applied.
pub open spec fn settle_chunk(
    rows: Seq<ExecutionWithQueueConfigView>,
    items: Seq<CompletionView>,
    now: int,
) -> Seq<ExecutionWithQueueConfigView> {
    Seq::new(rows.len(), |i: int| settle_row(rows[i], items, now))
}

/// What becomes of a report, as the rows stand.
pub open spec fn disposition(
    rows: Seq<ExecutionWithQueueConfigView>,
    item: CompletionView,
) -> CompletionDisposition {
    if exists|at: int| runs_at(rows, item.job_id, item.dispatch_id, at) {
        let row = rows[choose|at: int| runs_at(rows, item.job_id, item.dispatch_id, at)];
        if item.outcome is Failed && retryable(row) {
            CompletionDisposition::Repend
        } else {
            CompletionDisposition::Completed
        }
    } else {
        CompletionDisposition::Ignored
    }
}

/// How many of `n` reports the next statement takes.
pub open spec fn statement_rows(n: int) -> int {
    if n <= ROWS_PER_STATEMENT {
        n
    } else {
        ROWS_PER_STATEMENT as int
    }
}

/// The rows once `items` have been applied, statement by statement.
pub open spec fn settle(
    rows: Seq<ExecutionWithQueueConfigView>,
    items: Seq<CompletionView>,
    now: int,
) -> Seq<ExecutionWithQueueConfigView>
    decreases items.len(),
{
    if items.len() == 0 {
        rows
    } else {
        let n = statement_rows(items.len() as int);
        settle(settle_chunk(rows, items.take(n), now), items.skip(n), now)
    }
}

/// What becomes of each of `items`, applied statement by statement.
pub open spec fn dispositions(
    rows: Seq<ExecutionWithQueueConfigView>,
    items: Seq<CompletionView>,
    now: int,
) -> Seq<CompletionDisposition>
    decreases items.len(),
{
    if items.len() == 0 {
        Seq::empty()
    } else {
        let n = statement_rows(items.len() as int);
        Seq::new(n as nat, |i: int| disposition(rows, items[i])) + dispositions(
            settle_chunk(rows, items.take(n), now),
            items.skip(n),
            now,
        )
    }
}

/// The reports of a batch that are of success, or of failure.
pub open spec fn of_kind(batch: Seq<CompletionView>, success: bool) -> Seq<CompletionView> {
    batch.filter(|item: CompletionView| item.outcome is Succeeded == success)
}

/// The rows once a batch has been applied: successes first.
pub open spec fn completed_rows(
    rows: Seq<ExecutionWithQueueConfigView>,
    batch: Seq<CompletionView>,
    now: int,
) -> Seq<ExecutionWithQueueConfigView> {
    settle(settle(rows, of_kind(batch, true), now), of_kind(batch, false), now)
}

/// What becomes of the report at `i` of a batch.
pub open spec fn batch_disposition(
    rows: Seq<ExecutionWithQueueConfigView>,
    batch: Seq<CompletionView>,
    now: int,
    i: int,
) -> CompletionDisposition {
    if batch[i].outcome is Succeeded {
        dispositions(rows, of_kind(batch, true), now)[of_kind(batch.take(i), true).len() as int]
    } else {
        dispositions(settle(rows, of_kind(batch, true), now), of_kind(batch, false), now)[of_kind(
            batch.take(i),
            false,
        ).len() as int]
    }
}

/// Reports change no keys.
pub proof fn lemma_settle_chunk_keeps_keys(
    rows: Seq<ExecutionWithQueueConfigView>,
    items: Seq<CompletionView>,
    now: int,
)
    requires
        keys_distinct(rows),
    ensures
        keys_distinct(settle_chunk(rows, items, now)),
{
    let after = settle_chunk(rows, items, now);
    assert forall|i: int, j: int|
        #![trigger after[i], after[j]]
        0 <= i < j < after.len() implies {
        &&& after[i].execution.id < after[j].execution.id
        &&& after[i].execution.job_id != after[j].execution.job_id
        &&& after[i].execution.dispatch_id != after[j].execution.dispatch_id
    } by {
        assert(rows[i].execution.id < rows[j].execution.id);
    }
}

/// One more report settles the rows that it is the first to speak of.
pub proof fn lemma_settle_row_step(
    row: ExecutionWithQueueConfigView,
    items: Seq<CompletionView>,
    k: int,
    now: int,
)
    requires
        0 <= k < items.len(),
    ensures
        settle_row(row, items.take(k + 1), now) == (if reports_on(
            items[k],
            settle_row(row, items.take(k), now),
        ) {
            settled(settle_row(row, items.take(k), now), items[k].outcome, now)
        } else {
            settle_row(row, items.take(k), now)
        }),
{
    let fewer = items.take(k);
    let more = items.take(k + 1);
    if exists|j: int| first_report(fewer, row, j) {
        let j = choose|j: int| first_report(fewer, row, j);
        assert(first_report(more, row, j)) by {
            assert forall|m: int| 0 <= m < j implies !reports_on(#[trigger] more[m], row) by {
                assert(fewer[m] == more[m]);
            }
        }
        let c = choose|c: int| first_report(more, row, c);
        assert(first_report(more, row, c));
        if c < j {
            assert(reports_on(more[c], row));
            assert(fewer[c] == more[c]);
        } else if j < c {
            assert(!reports_on(more[j], row));
        }
    } else {
        assert forall|m: int| 0 <= m < k implies !reports_on(#[trigger] fewer[m], row) by {
            if reports_on(fewer[m], row) {
                lemma_first_report_exists(fewer, row, m);
            }
        }
        if reports_on(items[k], row) {
            assert(first_report(more, row, k)) by {
                assert forall|m: int| 0 <= m < k implies !reports_on(#[trigger] more[m], row) by {
                    assert(fewer[m] == more[m]);
                }
            }
            let c = choose|c: int| first_report(more, row, c);
            assert(first_report(more, row, c));
            if c < k {
                assert(reports_on(more[c], row));
                assert(fewer[c] == more[c]);
            } else if k < c {
                assert(!reports_on(more[k], row));
            }
        } else {
            if exists|c: int| first_report(more, row, c) {
                let c = choose|c: int| first_report(more, row, c);
                assert(reports_on(more[c], row));
                if c < k {
                    assert(fewer[c] == more[c]);
                }
            }
        }
    }
}

proof fn lemma_first_report_exists(
    items: Seq<CompletionView>,
    row: ExecutionWithQueueConfigView,
    k: int,
)
    requires
        0 <= k < items.len(),
        reports_on(items[k], row),
    ensures
        exists|j: int| first_report(items, row, j),
    decreases k,
{
    if forall|j: int| 0 <= j < k ==> !reports_on(#[trigger] items[j], row) {
        assert(first_report(items, row, k));
    } else {
        let j = choose|j: int| 0 <= j < k && reports_on(#[trigger] items[j], row);
        lemma_first_report_exists(items, row, j);
    }
}

/// The row that runs under a job and a token decides what becomes of a report.
pub proof fn lemma_disposition(rows: Seq<ExecutionWithQueueConfigView>, item: CompletionView, at: int)
    requires
        keys_distinct(rows),
        runs_at(rows, item.job_id, item.dispatch_id, at),
    ensures
        disposition(rows, item) == (if item.outcome is Failed && retryable(rows[at]) {
            CompletionDisposition::Repend
        } else {
            CompletionDisposition::Completed
        }),
{
    let chosen = choose|k: int| runs_at(rows, item.job_id, item.dispatch_id, k);
    assert(runs_at(rows, item.job_id, item.dispatch_id, chosen));
    if chosen < at {
        assert(rows[chosen].execution.job_id != rows[at].execution.job_id);
    } else if at < chosen {
        assert(rows[at].execution.job_id != rows[chosen].execution.job_id);
    }
}

/// The reports at `positions`.
pub open spec fn items_at(batch: Seq<CompletionView>, positions: Seq<usize>) -> Seq<CompletionView> {
    Seq::new(positions.len(), |i: int| batch[positions[i] as int])
}

/// Gives an attempt its outcome.
fn apply_outcome(row: &mut ExecutionWithQueueConfig, outcome: &JobOutcome, now: i64)
    ensures
        final(row)@ == settled(old(row)@, outcome@, now as int),
{
    match outcome {
        JobOutcome::Succeeded(payload) => {
            row.execution.status = ExecutionStatus::Completed;
            row.execution.result_payload = Some(crate::engine::types::copy_bytes(payload));
            row.execution.result_error = None;
        },
        JobOutcome::Failed(message) => {
            row.execution.status = ExecutionStatus::Failed;
            row.execution.result_error = Some(message.clone());
        },
    }
    row.execution.lease_expires_at = None;
    row.execution.updated_at = now;
}

impl ResultsTable {
    /// Queues are well-formed and keys are distinct.
    pub open spec fn wf(self) -> bool {
        &&& self.queues.wf()
        &&& keys_distinct(self@.executions)
    }

    /// Where the running attempt at `job_id` under `dispatch_id` stands, if
    /// there is one.
    fn find_running(&self, job_id: i64, dispatch_id: &str) -> (r: Option<usize>)
        ensures
            match r {
                Some(at) => runs_at(
                    self@.executions,
                    job_id as int,
                    dispatch_id@,
                    at as int,
                ),
                None => forall|at: int|
                    !#[trigger] runs_at(self@.executions, job_id as int, dispatch_id@, at),
            },
    {
        let mut i: usize = 0;
        while i < self.executions.len()
            invariant
                i <= self.executions.len(),
                forall|k: int|
                    0 <= k < i ==> !runs_under(
                        (#[trigger] self.executions@[k])@,
                        job_id as int,
                        dispatch_id@,
                    ),
            decreases self.executions.len() - i,
        {
            let row = &self.executions[i].execution;
            if row.job_id == job_id && row.status == ExecutionStatus::Running && same_text(
                row.dispatch_id.as_str(),
                dispatch_id,
            ) {
                return Some(i);
            }
            i += 1;
        }
        proof {
            assert forall|at: int| !#[trigger] runs_at(
                self@.executions,
                job_id as int,
                dispatch_id@,
                at,
            ) by {
                if 0 <= at < self.executions@.len() {
                    assert(!runs_under(self.executions@[at]@, job_id as int, dispatch_id@));
                }
            }
        }
        None
    }

    /// Applies the reports at `positions[from..to]` as one statement does:
    /// every report is judged by the rows as they stood before it.
    fn complete_chunk(
        &mut self,
        batch: &Vec<Completion>,
        positions: &Vec<usize>,
        from: usize,
        to: usize,
        now: i64,
        replies: &mut Vec<CompletionDisposition>,
    )
        requires
            old(self).wf(),
            from <= to <= positions@.len(),
            forall|i: int| 0 <= i < positions@.len() ==> #[trigger] positions@[i] < batch@.len(),
        ensures
            final(self).wf(),
            final(self).queues == old(self).queues,
            final(self)@.executions == settle_chunk(
                old(self)@.executions,
                items_at(views(batch@), positions@).subrange(from as int, to as int),
                now as int,
            ),
            final(replies)@ == old(replies)@ + Seq::new(
                (to - from) as nat,
                |i: int|
                    disposition(
                        old(self)@.executions,
                        items_at(views(batch@), positions@)[from + i],
                    ),
            ),
    {
        let ghost rows = self@.executions;
        let ghost items = items_at(views(batch@), positions@);
        let ghost chunk = items.subrange(from as int, to as int);
        let ghost told = replies@;
        let mut i: usize = from;
        while i < to
            invariant
                from <= i <= to,
                to <= positions@.len(),
                self.wf(),
                self@.executions == rows,
                self.queues == old(self).queues,
                items == items_at(views(batch@), positions@),
                forall|k: int| 0 <= k < positions@.len() ==> #[trigger] positions@[k] < batch@.len(),
                replies@ == told + Seq::new(
                    (i - from) as nat,
                    |k: int| disposition(rows, items[from + k]),
                ),
            decreases to - i,
        {
            let item = &batch[positions[i]];
            proof {
                assert(items[i as int] == item@);
            }
            let reply = match self.find_running(item.job_id, item.dispatch_id.as_str()) {
                None => {
                    CompletionDisposition::Ignored
                },
                Some(at) => {
                    proof {
                        lemma_disposition(rows, item@, at as int);
                    }
                    let row = &self.executions[at];
                    match &item.outcome {
                        JobOutcome::Failed(_) => if row.execution.execution_count
                            <= row.queue.max_retries {
                            CompletionDisposition::Repend
                        } else {
                            CompletionDisposition::Completed
                        },
                        JobOutcome::Succeeded(_) => CompletionDisposition::Completed,
                    }
                },
            };
            proof {
                assert(reply == disposition(rows, items[i as int]));
                assert(Seq::new(
                    (i + 1 - from) as nat,
                    |k: int| disposition(rows, items[from + k]),
                ) =~= Seq::new(
                    (i - from) as nat,
                    |k: int| disposition(rows, items[from + k]),
                ).push(reply));
            }
            replies.push(reply);
            proof {
                assert(replies@ =~= told + Seq::new(
                    (i + 1 - from) as nat,
                    |k: int| disposition(rows, items[from + k]),
                ));
            }
            i += 1;
        }
        let ghost said = replies@;
        let mut j: usize = from;
        proof {
            assert(chunk.take(0) =~= Seq::<CompletionView>::empty());
            assert forall|k: int| 0 <= k < rows.len() implies #[trigger] settle_chunk(
                rows,
                chunk.take(0),
                now as int,
            )[k] == rows[k] by {
            }
            assert(settle_chunk(rows, chunk.take(0), now as int) =~= rows);
        }
        while j < to
            invariant
                from <= j <= to,
                to <= positions@.len(),
                self.wf(),
                self.queues == old(self).queues,
                items == items_at(views(batch@), positions@),
                chunk == items.subrange(from as int, to as int),
                forall|k: int| 0 <= k < positions@.len() ==> #[trigger] positions@[k] < batch@.len(),
                keys_distinct(rows),
                replies@ == said,
                self@.executions == settle_chunk(rows, chunk.take(j - from), now as int),
            decreases to - j,
        {
            let item = &batch[positions[j]];
            let ghost k = j - from;
            let ghost before = self@.executions;
            proof {
                assert(chunk[k] == item@);
                assert forall|m: int| 0 <= m < rows.len() implies #[trigger] settle_chunk(
                    rows,
                    chunk.take(k + 1),
                    now as int,
                )[m] == (if reports_on(chunk[k], before[m]) {
                    settled(before[m], chunk[k].outcome, now as int)
                } else {
                    before[m]
                }) by {
                    lemma_settle_row_step(rows[m], chunk, k, now as int);
                }
                lemma_settle_chunk_keeps_keys(rows, chunk.take(k + 1), now as int);
            }
            match self.find_running(item.job_id, item.dispatch_id.as_str()) {
                None => {
                    proof {
                        assert forall|m: int| 0 <= m < rows.len() implies !reports_on(
                            chunk[k],
                            #[trigger] before[m],
                        ) by {
                            assert(!runs_at(before, item@.job_id, item@.dispatch_id, m));
                        }
                        assert(self@.executions =~= settle_chunk(
                            rows,
                            chunk.take(k + 1),
                            now as int,
                        ));
                    }
                },
                Some(at) => {
                    let mut row = self.executions[at].clone();
                    apply_outcome(&mut row, &item.outcome, now);
                    self.executions.set(at, row);
                    proof {
                        assert forall|m: int| 0 <= m < rows.len() && m != at implies !reports_on(
                            chunk[k],
                            #[trigger] before[m],
                        ) by {
                            if m < at {
                                assert(before[m].execution.job_id
                                    != before[at as int].execution.job_id);
                            } else {
                                assert(before[at as int].execution.job_id
                                    != before[m].execution.job_id);
                            }
                        }
                        assert(self@.executions =~= before.update(at as int, row@));
                        assert(self@.executions =~= settle_chunk(
                            rows,
                            chunk.take(k + 1),
                            now as int,
                        ));
                    }
                },
            }
            j += 1;
        }
        proof {
            assert(chunk.take(to - from) =~= chunk);
            assert(said =~= told + Seq::new(
                (to - from) as nat,
                |i: int| disposition(rows, items[from + i]),
            ));
        }
    }

    /// Applies the reports at `positions`, statement by statement.
    fn complete_list(&mut self, batch: &Vec<Completion>, positions: &Vec<usize>, now: i64) -> (r: Vec<
        CompletionDisposition,
    >)
        requires
            old(self).wf(),
            forall|i: int| 0 <= i < positions@.len() ==> #[trigger] positions@[i] < batch@.len(),
        ensures
            final(self).wf(),
            final(self).queues == old(self).queues,
            final(self)@.executions == settle(
                old(self)@.executions,
                items_at(views(batch@), positions@),
                now as int,
            ),
            r@ == dispositions(
                old(self)@.executions,
                items_at(views(batch@), positions@),
                now as int,
            ),
            r@.len() == positions@.len(),
    {
        let ghost items = items_at(views(batch@), positions@);
        let ghost rows = self@.executions;
        let mut replies: Vec<CompletionDisposition> = Vec::new();
        let mut from: usize = 0;
        proof {
            assert(items.skip(0) =~= items);
        }
        while from < positions.len()
            invariant
                from <= positions@.len(),
                self.wf(),
                self.queues == old(self).queues,
                items == items_at(views(batch@), positions@),
                forall|i: int| 0 <= i < positions@.len() ==> #[trigger] positions@[i] < batch@.len(),
                settle(rows, items, now as int) == settle(
                    self@.executions,
                    items.skip(from as int),
                    now as int,
                ),
                dispositions(rows, items, now as int) == replies@ + dispositions(
                    self@.executions,
                    items.skip(from as int),
                    now as int,
                ),
                replies@.len() == from,
            decreases positions.len() - from,
        {
            let left: usize = positions.len() - from;
            let to: usize = if left <= ROWS_PER_STATEMENT {
                positions.len()
            } else {
                from + ROWS_PER_STATEMENT
            };
            let ghost told = replies@;
            let ghost rest = items.skip(from as int);
            let ghost before = self@.executions;
            self.complete_chunk(batch, positions, from, to, now, &mut replies);
            proof {
                let n = statement_rows(rest.len() as int);
                assert(n == to - from);
                assert(rest.take(n) =~= items.subrange(from as int, to as int));
                assert(rest.skip(n) =~= items.skip(to as int));
                assert(Seq::new(n as nat, |i: int| disposition(before, rest[i])) =~= Seq::new(
                    (to - from) as nat,
                    |i: int| disposition(before, items[from + i]),
                ));
                assert(replies@ + dispositions(
                    self@.executions,
                    items.skip(to as int),
                    now as int,
                ) =~= told + dispositions(before, rest, now as int));
            }
            from = to;
        }
        proof {
            assert(items.skip(from as int) =~= Seq::<CompletionView>::empty());
            assert(replies@ + Seq::<CompletionDisposition>::empty() =~= replies@);
        }
        replies
    }

    /// Applies a batch of reports at `now`, successes before failures, and
    /// says what became of each. A report counts only while the attempt it
    /// speaks of is running under the same token.
    pub fn complete_batch(&mut self, batch: &Vec<Completion>, now: i64) -> (r: Vec<
        CompletionDisposition,
    >)
        requires
            old(self).wf(),
        ensures
            final(self).wf(),
            final(self)@.queues == old(self)@.queues,
            final(self)@.executions == completed_rows(
                old(self)@.executions,
                views(batch@),
                now as int,
            ),
            r@.len() == batch@.len(),
            forall|i: int|
                0 <= i < r@.len() ==> #[trigger] r@[i] == batch_disposition(
                    old(self)@.executions,
                    views(batch@),
                    now as int,
                    i,
                ),
    {
        let ghost items = views(batch@);
        let ghost rows = self@.executions;
        let mut successes: Vec<usize> = Vec::new();
        let mut failures: Vec<usize> = Vec::new();
        let mut i: usize = 0;
        proof {
            reveal(Seq::filter);
            assert(items_at(items, successes@) =~= of_kind(items.take(0), true));
            assert(items_at(items, failures@) =~= of_kind(items.take(0), false));
        }
        while i < batch.len()
            invariant
                i <= batch@.len(),
                items == views(batch@),
                items_at(items, successes@) == of_kind(items.take(i as int), true),
                items_at(items, failures@) == of_kind(items.take(i as int), false),
                forall|k: int| 0 <= k < successes@.len() ==> #[trigger] successes@[k] < batch@.len(),
                forall|k: int| 0 <= k < failures@.len() ==> #[trigger] failures@[k] < batch@.len(),
            decreases batch.len() - i,
        {
            let ghost was = (successes@, failures@);
            proof {
                lemma_of_kind_step(items, i as int);
            }
            match &batch[i].outcome {
                JobOutcome::Succeeded(_) => {
                    successes.push(i);
                    proof {
                        assert(items_at(items, successes@) =~= items_at(items, was.0).push(
                            items[i as int],
                        ));
                    }
                },
                JobOutcome::Failed(_) => {
                    failures.push(i);
                    proof {
                        assert(items_at(items, failures@) =~= items_at(items, was.1).push(
                            items[i as int],
                        ));
                    }
                },
            }
            i += 1;
        }
        proof {
            assert(items.take(batch@.len() as int) =~= items);
        }
        let succeeded = self.complete_list(batch, &successes, now);
        let failed = self.complete_list(batch, &failures, now);
        let mut replies: Vec<CompletionDisposition> = Vec::new();
        let mut s: usize = 0;
        let mut f: usize = 0;
        let mut k: usize = 0;
        proof {
            reveal(Seq::filter);
            assert(of_kind(items.take(0), true).len() == 0);
            assert(of_kind(items.take(0), false).len() == 0);
        }
        while k < batch.len()
            invariant
                k <= batch@.len(),
                items == views(batch@),
                s == of_kind(items.take(k as int), true).len(),
                f == of_kind(items.take(k as int), false).len(),
                succeeded@ == dispositions(rows, of_kind(items, true), now as int),
                succeeded@.len() == of_kind(items, true).len(),
                failed@ == dispositions(
                    settle(rows, of_kind(items, true), now as int),
                    of_kind(items, false),
                    now as int,
                ),
                failed@.len() == of_kind(items, false).len(),
                replies@.len() == k,
                forall|j: int|
                    0 <= j < k ==> #[trigger] replies@[j] == batch_disposition(
                        rows,
                        items,
                        now as int,
                        j,
                    ),
            decreases batch.len() - k,
        {
            proof {
                lemma_of_kind_step(items, k as int);
                lemma_of_kind_grows(items, k + 1, true);
                lemma_of_kind_grows(items, k + 1, false);
            }
            match &batch[k].outcome {
                JobOutcome::Succeeded(_) => {
                    replies.push(succeeded[s]);
                    s += 1;
                },
                JobOutcome::Failed(_) => {
                    replies.push(failed[f]);
                    f += 1;
                },
            }
            k += 1;
        }
        replies
    }

    /// Fails the attempt at `job_id` if it is running under `dispatch_id`: it
    /// never reached its worker.
    pub fn abandon(&mut self, job_id: i64, dispatch_id: &str, now: i64)
        requires
            old(self).wf(),
        ensures
            final(self).wf(),
            final(self)@.queues == old(self)@.queues,
            final(self)@.executions == abandoned_rows(
                old(self)@.executions,
                job_id as int,
                dispatch_id@,
                now as int,
            ),
    {
        let ghost rows = self@.executions;
        let ghost after = abandoned_rows(rows, job_id as int, dispatch_id@, now as int);
        match self.find_running(job_id, dispatch_id) {
            None => {
                proof {
                    assert forall|m: int| 0 <= m < rows.len() implies rows[m] == #[trigger] after[m] by {
                        assert(!runs_at(rows, job_id as int, dispatch_id@, m));
                    }
                    assert(rows =~= after);
                }
            },
            Some(at) => {
                let mut row = self.executions[at].clone();
                row.execution.status = ExecutionStatus::Failed;
                row.execution.lease_expires_at = None;
                row.execution.result_error = Some("abandoned".to_owned());
                row.execution.updated_at = now;
                self.executions.set(at, row);
                proof {
                    assert forall|m: int| 0 <= m < rows.len() && m != at implies rows[m]
                        == #[trigger] after[m] by {
                        if m < at {
                            assert(rows[m].execution.job_id != rows[at as int].execution.job_id);
                        } else {
                            assert(rows[at as int].execution.job_id != rows[m].execution.job_id);
                        }
                    }
                    assert(self@.executions =~= rows.update(at as int, row@));
                    assert(self@.executions =~= after);
                    lemma_same_keys(rows, after);
                }
            },
        }
    }

    /// Fails every attempt whose lease has run out at `now`, and lists them.
    pub fn recover_stale(&mut self, now: i64) -> (r: Vec<RecoveredStale>)
        requires
            old(self).wf(),
        ensures
            final(self).wf(),
            final(self)@.queues == old(self)@.queues,
            final(self)@.executions == recovered_rows(old(self)@.executions, now),
            views(r@) == recovered_stale(old(self)@.executions, now),
    {
        let ghost rows = self@.executions;
        let ghost after = recovered_rows(rows, now);
        let mut recovered: Vec<RecoveredStale> = Vec::new();
        let mut i: usize = 0;
        proof {
            assert(views(recovered@) =~= recovered_stale(rows.take(0), now));
        }
        while i < self.executions.len()
            invariant
                i <= self.executions@.len(),
                self.queues == old(self).queues,
                self.executions@.len() == rows.len(),
                after == recovered_rows(rows, now),
                forall|k: int| 0 <= k < i ==> (#[trigger] self.executions@[k])@ == after[k],
                forall|k: int| i <= k < rows.len() ==> (#[trigger] self.executions@[k])@ == rows[k],
                views(recovered@) == recovered_stale(rows.take(i as int), now),
            decreases self.executions.len() - i,
        {
            proof {
                assert(rows.take(i + 1).drop_last() =~= rows.take(i as int));
                assert(rows.take(i + 1).last() == rows[i as int]);
            }
            let stale = self.executions[i].execution.status == ExecutionStatus::Running
                && match self.executions[i].execution.lease_expires_at {
                Some(lease) => lease < now,
                None => false,
            };
            if stale {
                let mut row = self.executions[i].clone();
                let item = RecoveredStale {
                    job_id: row.execution.job_id,
                    dispatch_id: row.execution.dispatch_id.clone(),
                    should_repend: row.execution.execution_count <= row.queue.max_retries,
                };
                proof {
                    lemma_views_push(recovered@, item);
                }
                recovered.push(item);
                row.execution.status = ExecutionStatus::Failed;
                row.execution.lease_expires_at = None;
                row.execution.result_error = Some("lease expired".to_owned());
                row.execution.updated_at = now;
                self.executions.set(i, row);
            }
            i += 1;
        }
        proof {
            assert(rows.take(rows.len() as int) =~= rows);
            assert(self@.executions =~= after);
            lemma_same_keys(rows, after);
        }
        recovered
    }

    /// Deletes the attempts that last changed before `cutoff`, and says how
    /// many there were.
    pub fn cleanup_expired_records(&mut self, cutoff: i64) -> (r: usize)
        requires
            old(self).wf(),
        ensures
            final(self).wf(),
            final(self)@.queues == old(self)@.queues,
            final(self)@.executions == retained_executions(old(self)@.executions, cutoff as int),
            r == old(self)@.executions.len() - final(self)@.executions.len(),
    {
        let ghost rows = self@.executions;
        let ghost keep = |row: ExecutionWithQueueConfigView| row.execution.updated_at >= cutoff;
        let total: usize = self.executions.len();
        let mut i: usize = 0;
        let ghost mut seen: int = 0;
        proof {
            reveal(Seq::filter);
            assert(rows.take(0).filter(keep) =~= Seq::<ExecutionWithQueueConfigView>::empty());
            assert(self@.executions =~= rows.take(0).filter(keep) + rows.skip(0));
        }
        while i < self.executions.len()
            invariant
                self.queues == old(self).queues,
                0 <= seen <= rows.len(),
                keep == (|row: ExecutionWithQueueConfigView| row.execution.updated_at >= cutoff),
                i == rows.take(seen).filter(keep).len(),
                self@.executions == rows.take(seen).filter(keep) + rows.skip(seen),
                self.executions@.len() == i + rows.len() - seen,
            decreases rows.len() - seen,
        {
            proof {
                reveal(Seq::filter);
                assert(self@.executions[i as int] == rows.skip(seen)[0]);
                assert(self.executions@[i as int]@ == rows[seen]);
                assert(rows.take(seen + 1).drop_last() =~= rows.take(seen));
                assert(rows.take(seen + 1).last() == rows[seen]);
                assert(rows.skip(seen) =~= seq![rows[seen]] + rows.skip(seen + 1));
            }
            let ghost held = self.executions@;
            if self.executions[i].execution.updated_at < cutoff {
                self.executions.remove(i);
                proof {
                    assert forall|k: int| 0 <= k < self.executions@.len() implies
                        #[trigger] self@.executions[k] == (rows.take(seen).filter(keep) + rows.skip(
                        seen + 1,
                    ))[k] by {
                        let was = if k < i { k } else { k + 1 };
                        assert(self.executions@[k] == held[was]);
                        assert(views(held)[was] == (rows.take(seen).filter(keep) + rows.skip(
                            seen,
                        ))[was]);
                    }
                    assert(self@.executions =~= rows.take(seen).filter(keep) + rows.skip(seen + 1));
                }
            } else {
                i += 1;
                proof {
                    assert(rows.take(seen).filter(keep) + rows.skip(seen) =~= rows.take(
                        seen,
                    ).filter(keep).push(rows[seen]) + rows.skip(seen + 1));
                }
            }
            proof {
                seen = seen + 1;
            }
        }
        proof {
            assert(rows.take(seen) =~= rows);
            assert(rows.skip(seen) =~= Seq::<ExecutionWithQueueConfigView>::empty());
            assert(self@.executions =~= rows.filter(keep));
            lemma_filter_keeps_keys(rows, keep);
            rows.lemma_filter_len(keep);
        }
        total - self.executions.len()
    }

    /// The attempt at `job_id`, if there is one.
    pub fn execution(&self, job_id: i64) -> (r: Option<Execution>)
        requires
            self.wf(),
        ensures
            match r {
                Some(execution) => execution_of(self@.executions, job_id as int) == Some(
                    execution@,
                ),
                None => execution_of(self@.executions, job_id as int) is None,
            },
    {
        let mut i: usize = 0;
        while i < self.executions.len()
            invariant
                self.wf(),
                i <= self.executions.len(),
                forall|k: int|
                    0 <= k < i ==> (#[trigger] self.executions@[k]).execution.job_id != job_id,
            decreases self.executions.len() - i,
        {
            if self.executions[i].execution.job_id == job_id {
                proof {
                    lemma_execution_of(self@.executions, i as int);
                }
                return Some(self.executions[i].execution.clone());
            }
            i += 1;
        }
        proof {
            if exists|at: int| attempts_at(self@.executions, job_id as int, at) {
                let at = choose|at: int| attempts_at(self@.executions, job_id as int, at);
                assert(self.executions@[at].execution.job_id == job_id);
            }
        }
        None
    }

    /// A table without queues and attempts.
    pub fn new() -> (r: Self)
        ensures
            r.wf(),
            r@.queues == Map::<Seq<char>, JobQueueView>::empty(),
            r@.executions == Seq::<ExecutionWithQueueConfigView>::empty(),
    {
        let r = ResultsTable { queues: QueueTable::new(), executions: Vec::new() };
        proof {
            assert(r@.executions =~= Seq::<ExecutionWithQueueConfigView>::empty());
        }
        r
    }

    /// A table of rows as they were read, or nothing where ids do not ascend
    /// or a job or a token occurs twice.
    pub fn from_rows(queues: Vec<JobQueue>, executions: Vec<ExecutionWithQueueConfig>) -> (r: Option<
        Self,
    >)
        ensures
            r is Some <==> (QueueTable { rows: queues }).wf() && keys_distinct(views(executions@)),
            r matches Some(table) ==> table.wf() && table.queues.rows == queues
                && table.executions == executions,
    {
        let queues = match QueueTable::from_rows(queues) {
            Some(queues) => queues,
            None => {
                return None;
            },
        };
        let ghost rows = views(executions@);
        let mut j: usize = 0;
        while j < executions.len()
            invariant
                j <= executions.len(),
                rows == views(executions@),
                keys_distinct(rows.take(j as int)),
            decreases executions.len() - j,
        {
            let mut i: usize = 0;
            while i < j
                invariant
                    i <= j < executions.len(),
                    rows == views(executions@),
                    forall|k: int|
                        0 <= k < i ==> keys_differ(#[trigger] rows[k], rows[j as int]),
                decreases j - i,
            {
                let a = &executions[i].execution;
                let b = &executions[j].execution;
                if a.id >= b.id || a.job_id == b.job_id || same_text(
                    a.dispatch_id.as_str(),
                    b.dispatch_id.as_str(),
                ) {
                    proof {
                        assert(!keys_differ(rows[i as int], rows[j as int]));
                    }
                    return None;
                }
                i += 1;
            }
            proof {
                let more = rows.take(j + 1);
                assert forall|a: int, b: int|
                    #![trigger more[a], more[b]]
                    0 <= a < b < more.len() implies keys_differ(more[a], more[b]) by {
                    if b < j {
                        let fewer = rows.take(j as int);
                        assert(fewer[a] == more[a] && fewer[b] == more[b]);
                    } else {
                        assert(keys_differ(rows[a], rows[j as int]));
                    }
                }
            }
            j += 1;
        }
        proof {
            assert(rows.take(executions@.len() as int) =~= rows);
        }
        Some(ResultsTable { queues, executions })
    }

    /// Configures `queue` at `now`. Attempts that are already under way keep
    /// the policy that they were dispatched under.
    pub fn upsert_queue(&mut self, queue: JobQueue, now: i64) -> (r: Result<JobQueue, StoreError>)
        requires
            old(self).wf(),
        ensures
            final(self).wf(),
            final(self)@.executions == old(self)@.executions,
            queue.timeout_secs > MAX_TIMEOUT_SECS ==> {
                &&& r is Err
                &&& r->Err_0@ == StoreErrorView::Internal(out_of_range_text())
                &&& final(self)@ == old(self)@
            },
            queue.timeout_secs <= MAX_TIMEOUT_SECS ==> {
                &&& r is Ok
                &&& r->Ok_0@ == configured(old(self)@.queues, queue@, now as int)
                &&& final(self)@.queues == old(self)@.queues.insert(
                    queue@.name,
                    configured(old(self)@.queues, queue@, now as int),
                )
            },
    {
        self.queues.upsert(queue, now)
    }
}

/// Whether two rows differ in every key, the first with the smaller id.
pub open spec fn keys_differ(
    a: ExecutionWithQueueConfigView,
    b: ExecutionWithQueueConfigView,
) -> bool {
    &&& a.execution.id < b.execution.id
    &&& a.execution.job_id != b.execution.job_id
    &&& a.execution.dispatch_id != b.execution.dispatch_id
}

/// An attempt that has failed for want of a result.
pub open spec fn failed_with(
    row: ExecutionWithQueueConfigView,
    message: Seq<char>,
    now: int,
) -> ExecutionWithQueueConfigView {
    ExecutionWithQueueConfigView {
        execution: ExecutionView {
            status: ExecutionStatus::Failed,
            lease_expires_at: None,
            result_error: Some(message),
            updated_at: now,
            ..row.execution
        },
        ..row
    }
}

/// The rows once the running attempt at `job_id` under `token` is abandoned.
pub open spec fn abandoned_rows(
    rows: Seq<ExecutionWithQueueConfigView>,
    job_id: int,
    token: Seq<char>,
    now: int,
) -> Seq<ExecutionWithQueueConfigView> {
    Seq::new(
        rows.len(),
        |i: int|
            if runs_under(rows[i], job_id, token) {
                failed_with(rows[i], "abandoned"@, now)
            } else {
                rows[i]
            },
    )
}

/// Whether the attempt is running on a lease that has run out.
pub open spec fn lapsed(row: ExecutionWithQueueConfigView, now: i64) -> bool {
    &&& row.execution.status == ExecutionStatus::Running
    &&& match row.execution.lease_expires_at {
        Some(lease) => lease < now,
        None => false,
    }
}

/// The rows once every lapsed attempt has failed.
pub open spec fn recovered_rows(
    rows: Seq<ExecutionWithQueueConfigView>,
    now: i64,
) -> Seq<ExecutionWithQueueConfigView> {
    Seq::new(
        rows.len(),
        |i: int|
            if lapsed(rows[i], now) {
                failed_with(rows[i], "lease expired"@, now as int)
            } else {
                rows[i]
            },
    )
}

/// The lapsed attempts, in order, each with whether its job may be tried
/// again.
pub open spec fn recovered_stale(
    rows: Seq<ExecutionWithQueueConfigView>,
    now: i64,
) -> Seq<RecoveredStaleView>
    decreases rows.len(),
{
    if rows.len() == 0 {
        Seq::empty()
    } else {
        let before = recovered_stale(rows.drop_last(), now);
        let row = rows.last();
        if lapsed(row, now) {
            before.push(
                RecoveredStaleView {
                    job_id: row.execution.job_id,
                    dispatch_id: row.execution.dispatch_id,
                    should_repend: retryable(row),
                },
            )
        } else {
            before
        }
    }
}

/// The attempts that last changed at `cutoff` or later.
pub open spec fn retained_executions(
    rows: Seq<ExecutionWithQueueConfigView>,
    cutoff: int,
) -> Seq<ExecutionWithQueueConfigView> {
    rows.filter(|row: ExecutionWithQueueConfigView| row.execution.updated_at >= cutoff)
}

/// Rows that keep their keys keep them distinct.
proof fn lemma_same_keys(
    rows: Seq<ExecutionWithQueueConfigView>,
    after: Seq<ExecutionWithQueueConfigView>,
)
    requires
        keys_distinct(rows),
        rows.len() == after.len(),
        forall|i: int|
            0 <= i < rows.len() ==> {
                &&& (#[trigger] after[i]).execution.id == rows[i].execution.id
                &&& after[i].execution.job_id == rows[i].execution.job_id
                &&& after[i].execution.dispatch_id == rows[i].execution.dispatch_id
            },
    ensures
        keys_distinct(after),
{
    assert forall|i: int, j: int|
        #![trigger after[i], after[j]]
        0 <= i < j < after.len() implies keys_differ(after[i], after[j]) by {
        assert(keys_differ(rows[i], rows[j]));
    }
}

proof fn lemma_filter_keeps_keys(
    rows: Seq<ExecutionWithQueueConfigView>,
    keep: spec_fn(ExecutionWithQueueConfigView) -> bool,
)
    requires
        keys_distinct(rows),
    ensures
        keys_distinct(rows.filter(keep)),
        forall|i: int|
            0 <= i < rows.filter(keep).len() ==> rows.contains(#[trigger] rows.filter(keep)[i]),
    decreases rows.len(),
{
    reveal(Seq::filter);
    if rows.len() > 0 {
        let rest = rows.drop_last();
        let kept = rest.filter(keep);
        assert forall|i: int, j: int|
            #![trigger rest[i], rest[j]]
            0 <= i < j < rest.len() implies keys_differ(rest[i], rest[j]) by {
            assert(keys_differ(rows[i], rows[j]));
        }
        lemma_filter_keeps_keys(rest, keep);
        let all = rows.filter(keep);
        assert forall|i: int| 0 <= i < all.len() implies rows.contains(#[trigger] all[i]) by {
            if i < kept.len() {
                assert(all[i] == kept[i]);
                assert(rest.contains(kept[i]));
                let k = rest.index_of(kept[i]);
                assert(rows[k] == all[i]);
            } else {
                assert(rows[rows.len() - 1] == all[i]);
            }
        }
        assert forall|i: int, j: int|
            #![trigger all[i], all[j]]
            0 <= i < j < all.len() implies keys_differ(all[i], all[j]) by {
            assert(all[i] == kept[i]);
            if j < kept.len() {
                assert(keys_differ(kept[i], kept[j]));
            } else {
                assert(rest.contains(kept[i]));
                let k = rest.index_of(kept[i]);
                assert(keys_differ(rows[k], rows[rows.len() - 1]));
            }
        }
    }
}

/// One more report joins the reports of its kind.
pub proof fn lemma_of_kind_step(batch: Seq<CompletionView>, i: int)
    requires
        0 <= i < batch.len(),
    ensures
        of_kind(batch.take(i + 1), true) == (if batch[i].outcome is Succeeded {
            of_kind(batch.take(i), true).push(batch[i])
        } else {
            of_kind(batch.take(i), true)
        }),
        of_kind(batch.take(i + 1), false) == (if batch[i].outcome is Succeeded {
            of_kind(batch.take(i), false)
        } else {
            of_kind(batch.take(i), false).push(batch[i])
        }),
{
    reveal(Seq::filter);
    assert(batch.take(i + 1).drop_last() =~= batch.take(i));
}

proof fn lemma_of_kind_grows(batch: Seq<CompletionView>, n: int, success: bool)
    requires
        0 <= n <= batch.len(),
    ensures
        of_kind(batch.take(n), success).len() <= of_kind(batch, success).len(),
    decreases batch.len(),
{
    reveal(Seq::filter);
    if n == batch.len() {
        assert(batch.take(n) =~= batch);
    } else {
        lemma_of_kind_grows(batch.drop_last(), n, success);
        assert(batch.drop_last().take(n) =~= batch.take(n));
    }
}

/// How far a batch of dispatches has come.
#[verifier::ext_equal]
pub struct DispatchRun {
    pub rows: Seq<ExecutionWithQueueConfigView>,
    /// What each dispatch so far has started, if anything.
    pub started: Seq<Option<DispatchedExecutionView>>,
    /// Whether the statement under way names a queue that is not configured.
    pub queue_missing: bool,
    /// Whether the statement under way counts further than counts go.
    pub count_exhausted: bool,
    /// What has stopped the batch, if anything has.
    pub failure: Option<StoreErrorView>,
}

/// The largest id in use, or zero.
pub open spec fn last_execution_id(rows: Seq<ExecutionWithQueueConfigView>) -> int {
    if rows.len() == 0 {
        0
    } else {
        rows.last().execution.id
    }
}

/// Whether the row at `at` has token `token`.
pub open spec fn token_at(
    rows: Seq<ExecutionWithQueueConfigView>,
    token: Seq<char>,
    at: int,
) -> bool {
    0 <= at < rows.len() && rows[at].execution.dispatch_id == token
}

/// A queue that has no configuration.
pub open spec fn unconfigured(name: Seq<char>) -> JobQueueView {
    JobQueueView { name, max_retries: 0, timeout_secs: 0, created_at: 0, updated_at: 0 }
}

/// The configuration in force for `name`, or `otherwise`.
pub open spec fn policy_of(
    queues: Map<Seq<char>, JobQueueView>,
    name: Seq<char>,
    otherwise: JobQueueView,
) -> JobQueueView {
    if queues.dom().contains(name) {
        queues[name]
    } else {
        otherwise
    }
}

/// The first attempt at a job.
pub open spec fn first_attempt(
    queues: Map<Seq<char>, JobQueueView>,
    insert: DispatchInsertView,
    id: int,
    now: int,
) -> ExecutionWithQueueConfigView {
    ExecutionWithQueueConfigView {
        execution: ExecutionView {
            id,
            job_id: insert.job_id,
            queue_name: insert.queue_name,
            status: ExecutionStatus::Running,
            execution_count: 1,
            lease_expires_at: Some(insert.lease_expires_at),
            dispatch_id: insert.dispatch_id,
            result_payload: None,
            result_error: None,
            created_at: now,
            updated_at: now,
        },
        queue: policy_of(queues, insert.queue_name, unconfigured(insert.queue_name)),
    }
}

/// The next attempt at a job whose last one has ended without success: the
/// count goes up, the results go, and the policy now in force applies.
pub open spec fn next_attempt(
    queues: Map<Seq<char>, JobQueueView>,
    row: ExecutionWithQueueConfigView,
    insert: DispatchInsertView,
    now: int,
) -> ExecutionWithQueueConfigView {
    ExecutionWithQueueConfigView {
        execution: ExecutionView {
            status: ExecutionStatus::Running,
            execution_count: if row.execution.execution_count < u32::MAX {
                row.execution.execution_count + 1
            } else {
                row.execution.execution_count
            },
            lease_expires_at: Some(insert.lease_expires_at),
            dispatch_id: insert.dispatch_id,
            result_payload: None,
            result_error: None,
            updated_at: now,
            ..row.execution
        },
        queue: policy_of(queues, row.execution.queue_name, row.queue),
    }
}

/// Whether an attempt makes way for another.
pub open spec fn restartable(row: ExecutionWithQueueConfigView) -> bool {
    row.execution.status == ExecutionStatus::Failed || row.execution.status
        == ExecutionStatus::Pending
}

/// What is reported of an attempt that has just been started.
pub open spec fn started_attempt(
    row: ExecutionWithQueueConfigView,
    lease_expires_at: i64,
) -> DispatchedExecutionView {
    DispatchedExecutionView {
        job_id: row.execution.job_id,
        execution_count: row.execution.execution_count,
        dispatch_id: row.execution.dispatch_id,
        lease_expires_at,
        updated_at: row.execution.updated_at,
    }
}

/// The run once the statement under way is complete: a missing queue or an
/// exhausted count is noticed only then.
pub open spec fn close_statement(run: DispatchRun) -> DispatchRun {
    if run.failure is Some {
        run
    } else if run.queue_missing {
        DispatchRun {
            failure: Some(StoreErrorView::Internal("FOREIGN KEY constraint failed"@)),
            ..run
        }
    } else if run.count_exhausted {
        DispatchRun { failure: Some(StoreErrorView::Internal(out_of_range_text())), ..run }
    } else {
        run
    }
}

/// The run with a token taken that another attempt has.
pub open spec fn token_taken(run: DispatchRun) -> DispatchRun {
    DispatchRun {
        failure: Some(
            StoreErrorView::Internal("UNIQUE constraint failed: executions.dispatch_id"@),
        ),
        ..run
    }
}

/// The run after one more dispatch.
pub open spec fn dispatch_one(
    queues: Map<Seq<char>, JobQueueView>,
    run: DispatchRun,
    insert: DispatchInsertView,
    now: int,
) -> DispatchRun {
    if run.failure is Some {
        run
    } else if exists|at: int| attempts_at(run.rows, insert.job_id, at) {
        let at = choose|at: int| attempts_at(run.rows, insert.job_id, at);
        let row = run.rows[at];
        if !restartable(row) {
            DispatchRun { started: run.started.push(None), ..run }
        } else if exists|k: int| #[trigger] token_at(run.rows, insert.dispatch_id, k) && k != at {
            token_taken(run)
        } else {
            let next = next_attempt(queues, row, insert, now);
            DispatchRun {
                rows: run.rows.update(at, next),
                started: run.started.push(Some(started_attempt(next, insert.lease_expires_at))),
                count_exhausted: run.count_exhausted || row.execution.execution_count >= u32::MAX,
                ..run
            }
        }
    } else if exists|k: int| token_at(run.rows, insert.dispatch_id, k) {
        token_taken(run)
    } else if last_execution_id(run.rows) >= i64::MAX {
        DispatchRun {
            failure: Some(StoreErrorView::Internal("execution ids are exhausted"@)),
            ..run
        }
    } else {
        let first = first_attempt(queues, insert, last_execution_id(run.rows) + 1, now);
        DispatchRun {
            rows: run.rows.push(first),
            started: run.started.push(Some(started_attempt(first, insert.lease_expires_at))),
            queue_missing: run.queue_missing || !queues.dom().contains(insert.queue_name),
            ..run
        }
    }
}

/// The run over `inserts`, statement by statement.
pub open spec fn dispatch_run(
    table: ResultsView,
    inserts: Seq<DispatchInsertView>,
    now: int,
) -> DispatchRun
    decreases inserts.len(),
{
    if inserts.len() == 0 {
        DispatchRun {
            rows: table.executions,
            started: Seq::empty(),
            queue_missing: false,
            count_exhausted: false,
            failure: None,
        }
    } else {
        let before = dispatch_run(table, inserts.drop_last(), now);
        let ready = if (inserts.len() - 1) % (ROWS_PER_STATEMENT as int) == 0 {
            close_statement(before)
        } else {
            before
        };
        dispatch_one(table.queues, ready, inserts.last(), now)
    }
}

/// The run once all of `inserts` have been written.
pub open spec fn whole_dispatch(
    table: ResultsView,
    inserts: Seq<DispatchInsertView>,
    now: int,
) -> DispatchRun {
    close_statement(dispatch_run(table, inserts, now))
}

/// Whether the dispatch at `i` is the first that started nothing.
pub open spec fn first_idle(started: Seq<Option<DispatchedExecutionView>>, i: int) -> bool {
    &&& 0 <= i < started.len()
    &&& started[i] is None
    &&& forall|k: int| 0 <= k < i ==> (#[trigger] started[k]) is Some
}

/// What is said of a job whose dispatch started nothing.
pub open spec fn idle_dispatch_text(job_id: int) -> Seq<char> {
    "dispatch did not produce an execution for job "@ + signed_decimal(job_id)
}

/// Whether `reply` is what a batch of dispatches that was written answers: the
/// attempts, in order, or the first job for which none was started.
pub open spec fn dispatch_reply(
    run: DispatchRun,
    inserts: Seq<DispatchInsertView>,
    reply: Result<Vec<DispatchedExecution>, StoreError>,
) -> bool {
    match reply {
        Ok(started) => {
            &&& started@.len() == run.started.len()
            &&& forall|i: int|
                0 <= i < started@.len() ==> run.started[i] == Some((#[trigger] started@[i])@)
        },
        Err(error) => exists|i: int| #[trigger]
            first_idle(run.started, i) && error@ == StoreErrorView::Internal(
                idle_dispatch_text(inserts[i].job_id),
            ),
    }
}

/// What an executable run stands for.
pub open spec fn run_view(
    rows: Seq<ExecutionWithQueueConfig>,
    started: Seq<Option<DispatchedExecution>>,
    queue_missing: bool,
    count_exhausted: bool,
) -> DispatchRun {
    DispatchRun {
        rows: views(rows),
        started: started_views(started),
        queue_missing,
        count_exhausted,
        failure: None,
    }
}

pub open spec fn started_views(started: Seq<Option<DispatchedExecution>>) -> Seq<
    Option<DispatchedExecutionView>,
> {
    Seq::new(
        started.len(),
        |i: int|
            match started[i] {
                Some(attempt) => Some(attempt@),
                None => None,
            },
    )
}

/// Where the attempt at `job_id` stands, if there is one.
fn find_attempt(rows: &Vec<ExecutionWithQueueConfig>, job_id: i64) -> (r: Option<usize>)
    ensures
        match r {
            Some(at) => attempts_at(views(rows@), job_id as int, at as int),
            None => forall|at: int| !#[trigger] attempts_at(views(rows@), job_id as int, at),
        },
{
    let mut i: usize = 0;
    while i < rows.len()
        invariant
            i <= rows.len(),
            forall|k: int| 0 <= k < i ==> (#[trigger] rows@[k]).execution.job_id != job_id,
        decreases rows.len() - i,
    {
        if rows[i].execution.job_id == job_id {
            return Some(i);
        }
        i += 1;
    }
    None
}

/// Where a row other than the one at `except` has token `token`, if one does.
fn find_token(rows: &Vec<ExecutionWithQueueConfig>, token: &str, except: usize) -> (r: Option<usize>)
    ensures
        match r {
            Some(at) => at != except && token_at(views(rows@), token@, at as int),
            None => forall|at: int| #[trigger]
                token_at(views(rows@), token@, at) ==> at == except,
        },
{
    let mut i: usize = 0;
    while i < rows.len()
        invariant
            i <= rows.len(),
            forall|k: int|
                0 <= k < i && k != except ==> (#[trigger] rows@[k]).execution.dispatch_id@ != token@,
        decreases rows.len() - i,
    {
        if i != except && same_text(rows[i].execution.dispatch_id.as_str(), token) {
            return Some(i);
        }
        i += 1;
    }
    proof {
        assert forall|at: int| #[trigger] token_at(views(rows@), token@, at) implies at
            == except by {
            assert(rows@[at].execution.dispatch_id@ == token@);
        }
    }
    None
}

/// A row with keys of its own may take the place of another.
pub proof fn lemma_replaced_keys(
    rows: Seq<ExecutionWithQueueConfigView>,
    at: int,
    row: ExecutionWithQueueConfigView,
)
    requires
        keys_distinct(rows),
        0 <= at < rows.len(),
        row.execution.id == rows[at].execution.id,
        row.execution.job_id == rows[at].execution.job_id,
        forall|k: int| #[trigger] token_at(rows, row.execution.dispatch_id, k) ==> k == at,
    ensures
        keys_distinct(rows.update(at, row)),
{
    let after = rows.update(at, row);
    assert forall|i: int, j: int|
        #![trigger after[i], after[j]]
        0 <= i < j < after.len() implies keys_differ(after[i], after[j]) by {
        assert(keys_differ(rows[i], rows[j]));
        if i == at {
            assert(!token_at(rows, row.execution.dispatch_id, j));
        } else if j == at {
            assert(!token_at(rows, row.execution.dispatch_id, i));
        }
    }
}

/// A row with new keys may be added.
pub proof fn lemma_added_keys(
    rows: Seq<ExecutionWithQueueConfigView>,
    row: ExecutionWithQueueConfigView,
)
    requires
        keys_distinct(rows),
        row.execution.id > last_execution_id(rows),
        forall|k: int| !#[trigger] token_at(rows, row.execution.dispatch_id, k),
        forall|k: int| !#[trigger] attempts_at(rows, row.execution.job_id, k),
    ensures
        keys_distinct(rows.push(row)),
{
    let after = rows.push(row);
    assert forall|i: int, j: int|
        #![trigger after[i], after[j]]
        0 <= i < j < after.len() implies keys_differ(after[i], after[j]) by {
        if j < rows.len() {
            assert(keys_differ(rows[i], rows[j]));
        } else {
            assert(!token_at(rows, row.execution.dispatch_id, i));
            assert(!attempts_at(rows, row.execution.job_id, i));
            if i < rows.len() - 1 {
                assert(keys_differ(rows[i], rows[rows.len() - 1]));
            }
        }
    }
}

/// What a complete statement fails with, if it does.
fn statement_failure(queue_missing: bool, count_exhausted: bool) -> (r: Option<StoreError>)
    ensures
        match r {
            Some(error) => error@ == (if queue_missing {
                StoreErrorView::Internal("FOREIGN KEY constraint failed"@)
            } else {
                StoreErrorView::Internal(out_of_range_text())
            }) && (queue_missing || count_exhausted),
            None => !queue_missing && !count_exhausted,
        },
{
    if queue_missing {
        Some(StoreError::Internal("FOREIGN KEY constraint failed".to_owned()))
    } else if count_exhausted {
        Some(
            StoreError::Internal("out of range integral type conversion attempted".to_owned()),
        )
    } else {
        None
    }
}

/// A copy of `rows`.
fn copy_rows(rows: &Vec<ExecutionWithQueueConfig>) -> (r: Vec<ExecutionWithQueueConfig>)
    ensures
        views(r@) == views(rows@),
{
    let mut r: Vec<ExecutionWithQueueConfig> = Vec::new();
    let mut i: usize = 0;
    while i < rows.len()
        invariant
            i <= rows.len(),
            views(r@) == views(rows@).take(i as int),
        decreases rows.len() - i,
    {
        let row = rows[i].clone();
        proof {
            lemma_views_push(r@, row);
            assert(views(rows@).take(i + 1) =~= views(rows@).take(i as int).push(row@));
        }
        r.push(row);
        i += 1;
    }
    proof {
        assert(views(rows@).take(rows@.len() as int) =~= views(rows@));
    }
    r
}

impl ResultsTable {
    /// Whether an attempt has token `token`.
    pub fn has_token(&self, token: &str) -> (r: bool)
        ensures
            r == exists|at: int| token_at(self@.executions, token@, at),
    {
        let mut i: usize = 0;
        while i < self.executions.len()
            invariant
                i <= self.executions.len(),
                forall|k: int|
                    0 <= k < i ==> (#[trigger] self.executions@[k]).execution.dispatch_id@ != token@,
            decreases self.executions.len() - i,
        {
            if same_text(self.executions[i].execution.dispatch_id.as_str(), token) {
                proof {
                    assert(token_at(self@.executions, token@, i as int));
                }
                return true;
            }
            i += 1;
        }
        proof {
            assert forall|at: int| !#[trigger] token_at(self@.executions, token@, at) by {
                if 0 <= at < self.executions@.len() {
                    assert(self.executions@[at].execution.dispatch_id@ != token@);
                }
            }
        }
        false
    }

    /// The configuration in force for `name`, or `otherwise`.
    fn policy(&self, name: &str, otherwise: JobQueue) -> (r: JobQueue)
        requires
            self.wf(),
        ensures
            r@ == policy_of(self@.queues, name@, otherwise@),
    {
        match self.queues.get(name) {
            Some(queue) => queue,
            None => otherwise,
        }
    }

    /// One more dispatch of a batch that nothing has stopped.
    fn dispatch_step(
        &self,
        rows: &mut Vec<ExecutionWithQueueConfig>,
        started: &mut Vec<Option<DispatchedExecution>>,
        queue_missing: bool,
        count_exhausted: bool,
        insert: &DispatchInsert,
        now: i64,
    ) -> (r: Result<(bool, bool), StoreError>)
        requires
            self.wf(),
            keys_distinct(views(old(rows)@)),
        ensures
            ({
                let before = run_view(old(rows)@, old(started)@, queue_missing, count_exhausted);
                let after = dispatch_one(self@.queues, before, insert@, now as int);
                match r {
                    Ok((missing, exhausted)) => {
                        &&& after == run_view(final(rows)@, final(started)@, missing, exhausted)
                        &&& keys_distinct(views(final(rows)@))
                    },
                    Err(error) => after.failure == Some(error@),
                }
            }),
    {
        let ghost was = views(rows@);
        let ghost told = started@;
        let ghost before = run_view(rows@, started@, queue_missing, count_exhausted);
        let ghost after = dispatch_one(self@.queues, before, insert@, now as int);
        match find_attempt(rows, insert.job_id) {
            Some(at) => {
                proof {
                    let chosen = choose|k: int| attempts_at(was, insert@.job_id, k);
                    assert(attempts_at(was, insert@.job_id, chosen));
                    if chosen < at {
                        assert(was[chosen].execution.job_id != was[at as int].execution.job_id);
                    } else if at < chosen {
                        assert(was[at as int].execution.job_id != was[chosen].execution.job_id);
                    }
                }
                let status = rows[at].execution.status;
                if status != ExecutionStatus::Failed && status != ExecutionStatus::Pending {
                    started.push(None);
                    proof {
                        assert(started_views(started@) =~= started_views(told).push(None));
                    }
                    return Ok((queue_missing, count_exhausted));
                }
                match find_token(rows, insert.dispatch_id.as_str(), at) {
                    Some(_) => Err(
                        StoreError::Internal(
                            "UNIQUE constraint failed: executions.dispatch_id".to_owned(),
                        ),
                    ),
                    None => {
                        let mut row = rows[at].clone();
                        let exhausted = row.execution.execution_count == u32::MAX;
                        row.execution.status = ExecutionStatus::Running;
                        row.execution.execution_count =
                        row.execution.execution_count.saturating_add(1);
                        row.execution.lease_expires_at = Some(insert.lease_expires_at);
                        row.execution.dispatch_id = insert.dispatch_id.clone();
                        row.execution.result_payload = None;
                        row.execution.result_error = None;
                        row.execution.updated_at = now;
                        row.queue = self.policy(row.execution.queue_name.as_str(), row.queue.clone());
                        let attempt = DispatchedExecution {
                            job_id: row.execution.job_id,
                            execution_count: row.execution.execution_count,
                            dispatch_id: row.execution.dispatch_id.clone(),
                            lease_expires_at: insert.lease_expires_at,
                            updated_at: now,
                        };
                        started.push(Some(attempt));
                        rows.set(at, row);
                        proof {
                            assert(started_views(started@) =~= started_views(told).push(
                                Some(attempt@),
                            ));
                            assert(views(rows@) =~= was.update(at as int, row@));
                            lemma_replaced_keys(was, at as int, row@);
                        }
                        Ok((queue_missing, count_exhausted || exhausted))
                    },
                }
            },
            None => {
                match find_token(rows, insert.dispatch_id.as_str(), usize::MAX) {
                    Some(_) => {
                        return Err(
                            StoreError::Internal(
                                "UNIQUE constraint failed: executions.dispatch_id".to_owned(),
                            ),
                        );
                    },
                    None => {},
                }
                let last: i64 = if rows.len() == 0 {
                    0
                } else {
                    rows[rows.len() - 1].execution.id
                };
                if last == i64::MAX {
                    return Err(StoreError::Internal("execution ids are exhausted".to_owned()));
                }
                let known = self.queues.contains(insert.queue_name.as_str());
                let queue = self.policy(
                    insert.queue_name.as_str(),
                    JobQueue {
                        name: insert.queue_name.clone(),
                        max_retries: 0,
                        timeout_secs: 0,
                        created_at: 0,
                        updated_at: 0,
                    },
                );
                let row = ExecutionWithQueueConfig {
                    execution: Execution {
                        id: last + 1,
                        job_id: insert.job_id,
                        queue_name: insert.queue_name.clone(),
                        status: ExecutionStatus::Running,
                        execution_count: 1,
                        lease_expires_at: Some(insert.lease_expires_at),
                        dispatch_id: insert.dispatch_id.clone(),
                        result_payload: None,
                        result_error: None,
                        created_at: now,
                        updated_at: now,
                    },
                    queue,
                };
                let attempt = DispatchedExecution {
                    job_id: insert.job_id,
                    execution_count: 1,
                    dispatch_id: insert.dispatch_id.clone(),
                    lease_expires_at: insert.lease_expires_at,
                    updated_at: now,
                };
                proof {
                    lemma_views_push(rows@, row);
                    lemma_added_keys(was, row@);
                }
                started.push(Some(attempt));
                rows.push(row);
                proof {
                    assert(started_views(started@) =~= started_views(told).push(Some(attempt@)));
                }
                Ok((queue_missing || !known, count_exhausted))
            },
        }
    }

    /// Starts an attempt for each of `inserts` at `now`: the first at its job,
    /// or the next where the last has ended without success. Either all are
    /// written or none. A batch that was written answers with the attempts, or
    /// names the first job for which none was started.
    pub fn dispatch_batch(&mut self, inserts: &Vec<DispatchInsert>, now: i64) -> (r: Result<
        Vec<DispatchedExecution>,
        StoreError,
    >)
        requires
            old(self).wf(),
        ensures
            final(self).wf(),
            final(self)@.queues == old(self)@.queues,
            ({
                let run = whole_dispatch(old(self)@, views(inserts@), now as int);
                match run.failure {
                    Some(failure) => {
                        &&& r is Err
                        &&& r->Err_0@ == failure
                        &&& final(self)@ == old(self)@
                    },
                    None => {
                        &&& final(self)@.executions == run.rows
                        &&& dispatch_reply(run, views(inserts@), r)
                    },
                }
            }),
    {
        let ghost table = self@;
        let ghost wanted = views(inserts@);
        let mut rows = copy_rows(&self.executions);
        let mut started: Vec<Option<DispatchedExecution>> = Vec::new();
        let mut queue_missing = false;
        let mut count_exhausted = false;
        let mut i: usize = 0;
        proof {
            assert(wanted.take(0) =~= Seq::<DispatchInsertView>::empty());
            assert(started_views(started@) =~= Seq::<Option<DispatchedExecutionView>>::empty());
        }
        while i < inserts.len()
            invariant
                i <= inserts.len(),
                *self == *old(self),
                self.wf(),
                table == self@,
                wanted == views(inserts@),
                dispatch_run(table, wanted.take(i as int), now as int) == run_view(
                    rows@,
                    started@,
                    queue_missing,
                    count_exhausted,
                ),
                keys_distinct(views(rows@)),
            decreases inserts.len() - i,
        {
            let ghost run = dispatch_run(table, wanted.take(i as int), now as int);
            proof {
                assert(wanted.take(i + 1).drop_last() =~= wanted.take(i as int));
                assert(wanted.take(i + 1).last() == inserts@[i as int]@);
            }
            if i % ROWS_PER_STATEMENT == 0 {
                match statement_failure(queue_missing, count_exhausted) {
                    Some(error) => {
                        proof {
                            lemma_failure_lasts(table, wanted, i + 1, now as int);
                        }
                        return Err(error);
                    },
                    None => {},
                }
            }
            match self.dispatch_step(
                &mut rows,
                &mut started,
                queue_missing,
                count_exhausted,
                &inserts[i],
                now,
            ) {
                Ok((missing, exhausted)) => {
                    queue_missing = missing;
                    count_exhausted = exhausted;
                },
                Err(error) => {
                    proof {
                        lemma_failure_lasts(table, wanted, i + 1, now as int);
                    }
                    return Err(error);
                },
            }
            i += 1;
        }
        proof {
            assert(wanted.take(inserts@.len() as int) =~= wanted);
        }
        match statement_failure(queue_missing, count_exhausted) {
            Some(error) => {
                return Err(error);
            },
            None => {},
        }
        let ghost run = whole_dispatch(table, wanted, now as int);
        proof {
            lemma_started_len(table, wanted, now as int);
        }
        self.executions = rows;
        let mut out: Vec<DispatchedExecution> = Vec::new();
        let mut k: usize = 0;
        while k < inserts.len()
            invariant
                k <= inserts.len(),
                wanted == views(inserts@),
                run.started == started_views(started@),
                started@.len() == inserts@.len(),
                out@.len() == k,
                forall|j: int| 0 <= j < k ==> run.started[j] == Some((#[trigger] out@[j])@),
                run == whole_dispatch(table, wanted, now as int),
                run.failure is None,
                self.wf(),
                self.queues == old(self).queues,
                self@.executions == run.rows,
                table == old(self)@,
            decreases inserts.len() - k,
        {
            match &started[k] {
                Some(attempt) => {
                    out.push(
                        DispatchedExecution {
                            job_id: attempt.job_id,
                            execution_count: attempt.execution_count,
                            dispatch_id: attempt.dispatch_id.clone(),
                            lease_expires_at: attempt.lease_expires_at,
                            updated_at: attempt.updated_at,
                        },
                    );
                },
                None => {
                    let digits = signed_decimal_text(inserts[k].job_id);
                    let message = concat(
                        "dispatch did not produce an execution for job ",
                        digits.as_str(),
                    );
                    proof {
                        assert forall|j: int| 0 <= j < k implies (#[trigger] run.started[j]) is Some by {
                            assert(run.started[j] == Some(out@[j]@));
                        }
                        assert(first_idle(run.started, k as int));
                        assert(wanted[k as int].job_id == inserts@[k as int].job_id);
                    }
                    return Err(StoreError::Internal(message));
                },
            }
            k += 1;
        }
        Ok(out)
    }
}

/// What has stopped a batch is not undone by dispatches that come later.
proof fn lemma_failure_lasts(
    table: ResultsView,
    inserts: Seq<DispatchInsertView>,
    n: int,
    now: int,
)
    requires
        0 < n <= inserts.len(),
        dispatch_run(table, inserts.take(n), now).failure is Some,
    ensures
        dispatch_run(table, inserts, now).failure == dispatch_run(
            table,
            inserts.take(n),
            now,
        ).failure,
    decreases inserts.len(),
{
    if n == inserts.len() {
        assert(inserts.take(n) =~= inserts);
    } else {
        assert(inserts.drop_last().take(n) =~= inserts.take(n));
        lemma_failure_lasts(table, inserts.drop_last(), n, now);
    }
}

/// A batch that was written says of every dispatch what it started.
pub proof fn lemma_started_len(table: ResultsView, inserts: Seq<DispatchInsertView>, now: int)
    ensures
        whole_dispatch(table, inserts, now).failure is None ==> whole_dispatch(
            table,
            inserts,
            now,
        ).started.len() == inserts.len(),
    decreases inserts.len(),
{
    if inserts.len() > 0 {
        lemma_started_len(table, inserts.drop_last(), now);
    }
}

/// Reports, dispatches and lapsed leases are seen whole.
pub proof fn requests_are_seen_whole(
    report: Completion,
    insert: DispatchInsert,
    started: DispatchedExecution,
    stale: RecoveredStale,
)
    ensures
        report@.job_id == report.job_id,
        report@.dispatch_id == report.dispatch_id@,
        match report.outcome {
            JobOutcome::Succeeded(payload) => report@.outcome == JobOutcomeView::Succeeded(payload@),
            JobOutcome::Failed(message) => report@.outcome == JobOutcomeView::Failed(message@),
        },
        insert@.job_id == insert.job_id,
        insert@.queue_name == insert.queue_name@,
        insert@.dispatch_id == insert.dispatch_id@,
        insert@.lease_expires_at == insert.lease_expires_at,
        started@.job_id == started.job_id,
        started@.execution_count == started.execution_count,
        started@.dispatch_id == started.dispatch_id@,
        started@.lease_expires_at == started.lease_expires_at,
        started@.updated_at == started.updated_at,
        stale@.job_id == stale.job_id,
        stale@.dispatch_id == stale.dispatch_id@,
        stale@.should_repend == stale.should_repend,
{
}

/// A batch of dispatches that was written is answered with the attempts that it
/// started, one for each, in order; or with the first job for which none was.
pub proof fn dispatches_are_answered_one_by_one(
    run: DispatchRun,
    inserts: Seq<DispatchInsertView>,
    reply: Result<Vec<DispatchedExecution>, StoreError>,
)
    requires
        dispatch_reply(run, inserts, reply),
    ensures
        match reply {
            Ok(started) => {
                &&& started@.len() == run.started.len()
                &&& forall|i: int|
                    0 <= i < started@.len() ==> run.started[i] == Some(
                        (#[trigger] started@[i])@,
                    )
            },
            Err(error) => exists|i: int| #[trigger]
                first_idle(run.started, i) && run.started[i] is None && error@
                    == StoreErrorView::Internal(
                    "dispatch did not produce an execution for job "@ + signed_decimal(
                        inserts[i].job_id,
                    ),
                ),
        },
{
    match reply {
        Ok(started) => {
            assert forall|i: int| 0 <= i < started@.len() implies run.started[i] is Some
                && run.started[i]->Some_0 == (#[trigger] started@[i])@ by {
                assert(run.started[i] == Some(started@[i]@));
            }
        },
        Err(error) => {
            let i = choose|i: int| #[trigger]
                first_idle(run.started, i) && error@ == StoreErrorView::Internal(
                    idle_dispatch_text(inserts[i].job_id),
                );
            assert(first_idle(run.started, i));
        },
    }
}

} // verus!
