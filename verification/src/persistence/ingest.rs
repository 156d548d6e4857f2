//! Accepted jobs: enqueueing, claiming in order, and making claimed jobs
//! available again.

use crate::engine::types::{
    is_text, AcceptedJob, AcceptedJobView, JobQueue, JobQueueView, StoreError, StoreErrorView,
};
use crate::engine::MAX_CLAIM_BATCH_SIZE;
use crate::ids::{hyphenated, id_text, marked_random, random_id};
use crate::persistence::queues::{
    configured, lemma_views_push, out_of_range_text, views, QueueTable, MAX_TIMEOUT_SECS,
};
use crate::span::clamped;
use crate::text::same_text;
use vstd::prelude::*;

verus! {

/// A claim: the job as the worker needs it, the token that fences its result,
/// and how long its lease lasts.
#[derive(Debug, PartialEq, Eq)]
pub struct IngestClaimed {
    pub id: i64,
    pub name: String,
    pub payload: Vec<u8>,
    pub timeout_secs: u64,
    pub dispatch_id: String,
    pub created_at: i64,
}

/// What a claim holds.
#[verifier::ext_equal]
pub struct IngestClaimedView {
    pub id: int,
    pub name: Seq<char>,
    pub payload: Seq<u8>,
    pub timeout_secs: int,
    pub dispatch_id: Seq<char>,
    pub created_at: int,
}

impl View for IngestClaimed {
    type V = IngestClaimedView;

    open spec fn view(&self) -> IngestClaimedView {
        IngestClaimedView {
            id: self.id as int,
            name: self.name@,
            payload: self.payload@,
            timeout_secs: self.timeout_secs as int,
            dispatch_id: self.dispatch_id@,
            created_at: self.created_at as int,
        }
    }
}

/// The accepted jobs of one database, in the order of their ids, and the
/// queues that they are for.
pub struct IngestTable {
    pub queues: QueueTable,
    pub jobs: Vec<AcceptedJob>,
}

/// What the table holds.
#[verifier::ext_equal]
pub struct IngestView {
    pub queues: Map<Seq<char>, JobQueueView>,
    pub jobs: Seq<AcceptedJobView>,
}

impl View for IngestTable {
    type V = IngestView;

    open spec fn view(&self) -> IngestView {
        IngestView { queues: self.queues@, jobs: views(self.jobs@) }
    }
}

/// Ids ascend, so that none occurs twice.
pub open spec fn ids_ascend(jobs: Seq<AcceptedJobView>) -> bool {
    forall|i: int, j: int| 0 <= i < j < jobs.len() ==> (#[trigger] jobs[i]).id < (#[trigger] jobs[j]).id
}

/// Whether a job waits in `queue` for a worker.
pub open spec fn available(job: AcceptedJobView, queue: Seq<char>) -> bool {
    job.queue_name == queue && job.dispatch_id is None
}

/// The order in which jobs are handed out: by time of acceptance, then by id.
pub open spec fn precedes(a: AcceptedJobView, b: AcceptedJobView) -> bool {
    a.created_at < b.created_at || (a.created_at == b.created_at && a.id < b.id)
}

/// Whether `picked` is the head of the line in `queue`: the available jobs
/// that precede all others, in order, and as many as there are up to `limit`.
pub open spec fn first_available(
    jobs: Seq<AcceptedJobView>,
    queue: Seq<char>,
    limit: int,
    picked: Seq<AcceptedJobView>,
) -> bool {
    &&& picked.len() <= limit
    &&& forall|i: int, j: int|
        0 <= i < j < picked.len() ==> #[trigger] precedes(picked[i], picked[j])
    &&& forall|i: int|
        0 <= i < picked.len() ==> jobs.contains(#[trigger] picked[i]) && available(
            picked[i],
            queue,
        )
    &&& forall|k: int|
        0 <= k < jobs.len() && available(#[trigger] jobs[k], queue) && !picked.contains(jobs[k])
            ==> picked.len() == limit && forall|i: int|
            0 <= i < picked.len() ==> #[trigger] precedes(picked[i], jobs[k])
}

/// The head of the line in `queue`.
pub open spec fn claimable(
    jobs: Seq<AcceptedJobView>,
    queue: Seq<char>,
    limit: int,
) -> Seq<AcceptedJobView> {
    choose|picked: Seq<AcceptedJobView>| first_available(jobs, queue, limit, picked)
}

proof fn lemma_heads_agree(
    jobs: Seq<AcceptedJobView>,
    queue: Seq<char>,
    limit: int,
    p: Seq<AcceptedJobView>,
    q: Seq<AcceptedJobView>,
    n: int,
)
    requires
        first_available(jobs, queue, limit, p),
        first_available(jobs, queue, limit, q),
        0 <= n <= p.len(),
        n <= q.len(),
    ensures
        p.take(n) == q.take(n),
    decreases n,
{
    if n > 0 {
        lemma_heads_agree(jobs, queue, limit, p, q, n - 1);
        let i = n - 1;
        assert(p.take(i) == q.take(i));
        assert forall|k: int| 0 <= k < i implies p[k] == q[k] by {
            assert(p.take(i)[k] == q.take(i)[k]);
        }
        let a = jobs.index_of(p[i]);
        assert(jobs.contains(p[i]));
        assert(jobs[a] == p[i]);
        let b = jobs.index_of(q[i]);
        assert(jobs.contains(q[i]));
        assert(jobs[b] == q[i]);
        if p[i] != q[i] {
            if !q.contains(p[i]) {
                assert(precedes(q[i], jobs[a]));
                if p.contains(q[i]) {
                    let j = p.index_of(q[i]);
                    if j < i {
                        assert(precedes(q[j], q[i]));
                    } else if j > i {
                        assert(precedes(p[i], p[j]));
                    }
                } else {
                    assert(precedes(p[i], jobs[b]));
                }
            } else if !p.contains(q[i]) {
                assert(precedes(p[i], jobs[b]));
                let j = q.index_of(p[i]);
                if j < i {
                    assert(precedes(p[j], p[i]));
                } else if j > i {
                    assert(precedes(q[i], q[j]));
                }
            } else {
                let j = q.index_of(p[i]);
                let k = p.index_of(q[i]);
                if j < i {
                    assert(precedes(p[j], p[i]));
                } else if k < i {
                    assert(precedes(q[k], q[i]));
                } else {
                    assert(precedes(q[i], q[j]));
                    assert(precedes(p[i], p[k]));
                }
            }
        }
        assert(p.take(n) =~= q.take(n));
    }
}

/// The head of the line is one definite sequence: what satisfies its
/// description is what is claimed, in that order.
pub proof fn head_of_line_is_unique(
    jobs: Seq<AcceptedJobView>,
    queue: Seq<char>,
    limit: int,
    picked: Seq<AcceptedJobView>,
)
    requires
        first_available(jobs, queue, limit, picked),
    ensures
        claimable(jobs, queue, limit) == picked,
{
    let q = claimable(jobs, queue, limit);
    assert(first_available(jobs, queue, limit, q));
    if picked.len() <= q.len() {
        lemma_heads_agree(jobs, queue, limit, picked, q, picked.len() as int);
        if picked.len() < q.len() {
            let n = picked.len() as int;
            let at = jobs.index_of(q[n]);
            assert(jobs.contains(q[n]));
            assert(jobs[at] == q[n]);
            if picked.contains(q[n]) {
                let j = picked.index_of(q[n]);
                assert(picked.take(n)[j] == q.take(n)[j]);
                assert(precedes(q[j], q[n]));
            }
        }
    } else {
        lemma_heads_agree(jobs, queue, limit, picked, q, q.len() as int);
        let n = q.len() as int;
        let at = jobs.index_of(picked[n]);
        assert(jobs.contains(picked[n]));
        assert(jobs[at] == picked[n]);
        if q.contains(picked[n]) {
            let j = q.index_of(picked[n]);
            assert(picked.take(n)[j] == q.take(n)[j]);
            assert(precedes(picked[j], picked[n]));
        }
    }
    assert(q.take(q.len() as int) =~= q);
    assert(picked.take(picked.len() as int) =~= picked);
}

/// One more row that is not available leaves the head of the line as it is.
proof fn lemma_line_skips(
    jobs: Seq<AcceptedJobView>,
    job: AcceptedJobView,
    queue: Seq<char>,
    limit: int,
    picked: Seq<AcceptedJobView>,
)
    requires
        first_available(jobs, queue, limit, picked),
        !available(job, queue),
    ensures
        first_available(jobs.push(job), queue, limit, picked),
{
    let more = jobs.push(job);
    assert forall|i: int| 0 <= i < picked.len() implies more.contains(#[trigger] picked[i])
        && available(picked[i], queue) by {
        assert(jobs.contains(picked[i]));
        let k = jobs.index_of(picked[i]);
        assert(more[k] == picked[i]);
    }
    assert forall|k: int|
        0 <= k < more.len() && available(#[trigger] more[k], queue) && !picked.contains(
            more[k],
        ) implies picked.len() == limit && forall|i: int|
        0 <= i < picked.len() ==> #[trigger] precedes(picked[i], more[k]) by {
        assert(k < jobs.len());
        assert(jobs[k] == more[k]);
    }
}

/// One more available row takes its place in the line, and whoever then
/// stands beyond the limit falls out.
proof fn lemma_line_admits(
    jobs: Seq<AcceptedJobView>,
    job: AcceptedJobView,
    queue: Seq<char>,
    limit: int,
    picked: Seq<AcceptedJobView>,
    at: int,
)
    requires
        first_available(jobs, queue, limit, picked),
        available(job, queue),
        limit >= 1,
        0 <= at <= picked.len(),
        forall|k: int| 0 <= k < at ==> precedes(#[trigger] picked[k], job),
        forall|k: int| at <= k < picked.len() ==> precedes(job, #[trigger] picked[k]),
    ensures
        picked.len() < limit ==> first_available(
            jobs.push(job),
            queue,
            limit,
            picked.insert(at, job),
        ),
        picked.len() == limit ==> first_available(
            jobs.push(job),
            queue,
            limit,
            picked.insert(at, job).drop_last(),
        ),
{
    let more = jobs.push(job);
    let line = picked.insert(at, job);
    assert forall|i: int, j: int| 0 <= i < j < line.len() implies #[trigger] precedes(
        line[i],
        line[j],
    ) by {
        let old_i = if i < at { i } else { i - 1 };
        let old_j = if j < at { j } else { j - 1 };
        if i != at && j != at {
            assert(line[i] == picked[old_i] && line[j] == picked[old_j]);
            assert(precedes(picked[old_i], picked[old_j]));
        } else if i == at {
            assert(line[j] == picked[old_j]);
        } else {
            assert(line[i] == picked[old_i]);
        }
    }
    assert forall|i: int| 0 <= i < line.len() implies more.contains(#[trigger] line[i])
        && available(line[i], queue) by {
        if i == at {
            assert(more[jobs.len() as int] == line[i]);
        } else {
            let old_i = if i < at { i } else { i - 1 };
            assert(line[i] == picked[old_i]);
            assert(jobs.contains(picked[old_i]));
            let k = jobs.index_of(picked[old_i]);
            assert(more[k] == line[i]);
        }
    }
    assert forall|k: int| 0 <= k < picked.len() implies line.contains(#[trigger] picked[k]) by {
        let new_k = if k < at { k } else { k + 1 };
        assert(line[new_k] == picked[k]);
    }
    assert(line.contains(job)) by {
        assert(line[at] == job);
    }
    if picked.len() < limit {
        assert forall|k: int|
            0 <= k < more.len() && available(#[trigger] more[k], queue) && !line.contains(
                more[k],
            ) implies line.len() == limit && forall|i: int|
            0 <= i < line.len() ==> #[trigger] precedes(line[i], more[k]) by {
            if k < jobs.len() {
                assert(jobs[k] == more[k]);
                if picked.contains(jobs[k]) {
                    let j = picked.index_of(jobs[k]);
                    assert(line.contains(picked[j]));
                }
            }
        }
    } else {
        let cut = line.drop_last();
        let out = line.last();
        assert forall|i: int, j: int| 0 <= i < j < cut.len() implies #[trigger] precedes(
            cut[i],
            cut[j],
        ) by {
            assert(precedes(line[i], line[j]));
        }
        assert forall|i: int| 0 <= i < cut.len() implies more.contains(#[trigger] cut[i])
            && available(cut[i], queue) by {
            assert(cut[i] == line[i]);
        }
        assert forall|k: int|
            0 <= k < more.len() && available(#[trigger] more[k], queue) && !cut.contains(
                more[k],
            ) implies cut.len() == limit && forall|i: int|
            0 <= i < cut.len() ==> #[trigger] precedes(cut[i], more[k]) by {
            if line.contains(more[k]) {
                let j = line.index_of(more[k]);
                assert(line[j] == more[k]);
                if j < cut.len() {
                    assert(cut[j] == more[k]);
                }
                assert forall|i: int| 0 <= i < cut.len() implies #[trigger] precedes(
                    cut[i],
                    more[k],
                ) by {
                    assert(precedes(line[i], line[j]));
                }
            } else {
                assert(k < jobs.len());
                assert(jobs[k] == more[k]);
                if picked.contains(jobs[k]) {
                    let j = picked.index_of(jobs[k]);
                    assert(line.contains(picked[j]));
                }
                assert(!picked.contains(jobs[k]));
                assert forall|i: int| 0 <= i < cut.len() implies #[trigger] precedes(
                    cut[i],
                    more[k],
                ) by {
                    assert(precedes(picked[picked.len() - 1], jobs[k]));
                    if i == at {
                        assert(cut[i] == job);
                        assert(precedes(job, picked[picked.len() - 1]));
                    } else {
                        let old_i = if i < at { i } else { i - 1 };
                        assert(cut[i] == picked[old_i]);
                        assert(precedes(picked[old_i], jobs[k]));
                    }
                }
            }
        }
    }
}

/// A job that has been handed out under `token`.
pub open spec fn tokened(job: AcceptedJobView, token: Seq<char>, now: int) -> AcceptedJobView {
    AcceptedJobView { dispatch_id: Some(token), updated_at: now, ..job }
}

/// A job that is available again. It keeps the time at which it was accepted,
/// and so its place in the line.
pub open spec fn freed(job: AcceptedJobView, now: int) -> AcceptedJobView {
    AcceptedJobView { dispatch_id: None, updated_at: now, ..job }
}

/// The rows once each of `picked` has been handed out under its token.
pub open spec fn claimed_rows(
    jobs: Seq<AcceptedJobView>,
    picked: Seq<AcceptedJobView>,
    tokens: Seq<Seq<char>>,
    now: int,
) -> Seq<AcceptedJobView> {
    Seq::new(
        jobs.len(),
        |i: int|
            if picked.contains(jobs[i]) {
                tokened(jobs[i], tokens[picked.index_of(jobs[i])], now)
            } else {
                jobs[i]
            },
    )
}

/// What is handed out for `job` under `token`.
pub open spec fn claim_of(job: AcceptedJobView, token: Seq<char>, timeout_secs: int) -> IngestClaimedView {
    IngestClaimedView {
        id: job.id,
        name: job.queue_name,
        payload: job.payload,
        timeout_secs,
        dispatch_id: token,
        created_at: job.created_at,
    }
}

/// The largest id in use, or zero.
pub open spec fn last_id(jobs: Seq<AcceptedJobView>) -> int {
    if jobs.len() == 0 {
        0
    } else {
        jobs.last().id
    }
}

/// The rows that `batch` adds after id `last`: the jobs whose queue is known,
/// in order, each with the next id and available.
pub open spec fn accepted_rows(
    queues: Map<Seq<char>, JobQueueView>,
    batch: Seq<AcceptedJobView>,
    last: int,
) -> Seq<AcceptedJobView>
    decreases batch.len(),
{
    if batch.len() == 0 {
        Seq::empty()
    } else {
        let before = accepted_rows(queues, batch.drop_last(), last);
        let job = batch.last();
        if queues.dom().contains(job.queue_name) {
            before.push(
                AcceptedJobView { id: last + before.len() + 1, dispatch_id: None, ..job },
            )
        } else {
            before
        }
    }
}

/// What the submitter of the job at `i` in `batch` is told.
pub open spec fn enqueue_reply(
    table: IngestView,
    batch: Seq<AcceptedJobView>,
    i: int,
) -> Result<AcceptedJobView, StoreErrorView> {
    let last = last_id(table.jobs);
    if !table.queues.dom().contains(batch[i].queue_name) {
        Err(StoreErrorView::QueueNotFound(batch[i].queue_name))
    } else if !ids_suffice(table, batch) {
        Err(StoreErrorView::Internal("job ids are exhausted"@))
    } else {
        Ok(
            AcceptedJobView {
                id: last + accepted_rows(table.queues, batch.take(i), last).len() + 1,
                ..batch[i]
            },
        )
    }
}

/// Whether there are ids for every job of `batch` whose queue is known.
pub open spec fn ids_suffice(table: IngestView, batch: Seq<AcceptedJobView>) -> bool {
    last_id(table.jobs) + accepted_rows(table.queues, batch, last_id(table.jobs)).len() <= i64::MAX
}

/// The rows once the claim on `id` under `token`, if there is one, is undone.
pub open spec fn repended(
    jobs: Seq<AcceptedJobView>,
    id: int,
    token: Seq<char>,
    now: int,
) -> Seq<AcceptedJobView> {
    Seq::new(
        jobs.len(),
        |i: int|
            if jobs[i].id == id && jobs[i].dispatch_id == Some(token) {
                freed(jobs[i], now)
            } else {
                jobs[i]
            },
    )
}

/// The rows once every claim of `pairs` has been undone.
pub open spec fn all_repended(
    jobs: Seq<AcceptedJobView>,
    pairs: Seq<(int, Seq<char>)>,
    now: int,
) -> Seq<AcceptedJobView>
    decreases pairs.len(),
{
    if pairs.len() == 0 {
        jobs
    } else {
        let (id, token) = pairs.last();
        repended(all_repended(jobs, pairs.drop_last(), now), id, token, now)
    }
}

/// Jobs and tokens, as plain values.
pub open spec fn pair_views(pairs: Seq<(i64, String)>) -> Seq<(int, Seq<char>)> {
    Seq::new(pairs.len(), |i: int| (pairs[i].0 as int, pairs[i].1@))
}

/// The jobs that were accepted at `cutoff` or later.
pub open spec fn retained_jobs(jobs: Seq<AcceptedJobView>, cutoff: int) -> Seq<AcceptedJobView> {
    jobs.filter(|job: AcceptedJobView| job.created_at >= cutoff)
}

/// Whether a row of `jobs` has id `id`.
pub open spec fn row_has_id(jobs: Seq<AcceptedJobView>, id: int, at: int) -> bool {
    0 <= at < jobs.len() && jobs[at].id == id
}

/// The row with id `id`, if there is one.
pub open spec fn job_of(jobs: Seq<AcceptedJobView>, id: int) -> Option<AcceptedJobView> {
    if exists|at: int| row_has_id(jobs, id, at) {
        Some(jobs[choose|at: int| row_has_id(jobs, id, at)])
    } else {
        None
    }
}

/// Where ids ascend, a row is the one its id names.
pub proof fn lemma_job_of(jobs: Seq<AcceptedJobView>, at: int)
    requires
        ids_ascend(jobs),
        0 <= at < jobs.len(),
    ensures
        job_of(jobs, jobs[at].id) == Some(jobs[at]),
{
    let id = jobs[at].id;
    assert(row_has_id(jobs, id, at));
    let chosen = choose|k: int| row_has_id(jobs, id, k);
    assert(row_has_id(jobs, id, chosen));
    if chosen < at {
        assert(jobs[chosen].id < jobs[at].id);
    } else if at < chosen {
        assert(jobs[at].id < jobs[chosen].id);
    }
}

/// Accepted rows have the ids that follow the last one, in order.
pub proof fn lemma_accepted_rows_ascend(
    queues: Map<Seq<char>, JobQueueView>,
    batch: Seq<AcceptedJobView>,
    last: int,
)
    ensures
        accepted_rows(queues, batch, last).len() <= batch.len(),
        forall|i: int|
            0 <= i < accepted_rows(queues, batch, last).len() ==> (#[trigger] accepted_rows(
                queues,
                batch,
                last,
            )[i]).id == last + i + 1,
    decreases batch.len(),
{
    if batch.len() > 0 {
        lemma_accepted_rows_ascend(queues, batch.drop_last(), last);
    }
}

/// Whether a text is a token for a dispatch: the text of a random identifier.
pub open spec fn is_token(text: Seq<char>) -> bool {
    exists|id: u128| marked_random(id) && text == #[trigger] hyphenated(id)
}

/// A token for a dispatch: the text of a random identifier.
fn new_dispatch_id() -> (r: String)
    ensures
        is_token(r@),
{
    let id = random_id();
    id_text(id)
}

/// Whether a job with these two keys is handed out before one with those.
fn goes_before(a: &AcceptedJob, b: &AcceptedJob) -> (r: bool)
    ensures
        r == precedes(a@, b@),
{
    a.created_at < b.created_at || (a.created_at == b.created_at && a.id < b.id)
}

/// The rows at `positions`.
pub open spec fn rows_at(
    jobs: Seq<AcceptedJobView>,
    positions: Seq<usize>,
) -> Seq<AcceptedJobView> {
    Seq::new(positions.len(), |i: int| jobs[positions[i] as int])
}

impl IngestTable {
    /// Queues are well-formed and ids ascend.
    pub open spec fn wf(self) -> bool {
        &&& self.queues.wf()
        &&& ids_ascend(self@.jobs)
    }

    /// A table without queues and jobs.
    pub fn new() -> (r: Self)
        ensures
            r.wf(),
            r@.queues == Map::<Seq<char>, JobQueueView>::empty(),
            r@.jobs == Seq::<AcceptedJobView>::empty(),
    {
        let r = IngestTable { queues: QueueTable::new(), jobs: Vec::new() };
        proof {
            assert(r@.jobs =~= Seq::<AcceptedJobView>::empty());
        }
        r
    }

    /// A table of rows as they were read, or nothing where they are not in
    /// the order of their ids or the queues are not well-formed.
    pub fn from_rows(queues: Vec<JobQueue>, jobs: Vec<AcceptedJob>) -> (r: Option<Self>)
        ensures
            r is Some <==> (QueueTable { rows: queues }).wf() && ids_ascend(views(jobs@)),
            r matches Some(table) ==> table.wf() && table.queues.rows == queues && table.jobs
                == jobs,
    {
        let queues = match QueueTable::from_rows(queues) {
            Some(queues) => queues,
            None => {
                return None;
            },
        };
        let mut i: usize = 1;
        while i < jobs.len()
            invariant
                1 <= i,
                i <= jobs.len() || jobs.len() == 0,
                forall|k: int, j: int|
                    0 <= k < j < i && j < jobs.len() ==> (#[trigger] jobs@[k]).id < (
                    #[trigger] jobs@[j]).id,
            decreases jobs.len() - i,
        {
            if jobs[i - 1].id >= jobs[i].id {
                proof {
                    let seen = views(jobs@);
                    assert(seen[i - 1].id >= seen[i as int].id);
                }
                return None;
            }
            i += 1;
        }
        proof {
            let seen = views(jobs@);
            assert forall|k: int, j: int| 0 <= k < j < seen.len() implies (#[trigger] seen[k]).id
                < (#[trigger] seen[j]).id by {
                assert(jobs@[k].id < jobs@[j].id);
            }
        }
        Some(IngestTable { queues, jobs })
    }

    /// Configures `queue` at `now`.
    pub fn upsert_queue(&mut self, queue: JobQueue, now: i64) -> (r: Result<JobQueue, StoreError>)
        requires
            old(self).wf(),
        ensures
            final(self).wf(),
            final(self)@.jobs == old(self)@.jobs,
            queue.timeout_secs > MAX_TIMEOUT_SECS ==> {
                &&& r is Err
                &&& r->Err_0@ == StoreErrorView::Internal(out_of_range_text())
                &&& final(self)@ == old(self)@
            },
            queue.timeout_secs <= MAX_TIMEOUT_SECS ==> {
                &&& r is Ok
                &&& r->Ok_0@ == configured(old(self)@.queues, queue@, now as int)
                &&& r->Ok_0.timeout_secs <= MAX_TIMEOUT_SECS
                &&& final(self)@.queues == old(self)@.queues.insert(
                    queue@.name,
                    configured(old(self)@.queues, queue@, now as int),
                )
            },
    {
        self.queues.upsert(queue, now)
    }

    /// Stores the jobs of `batch` whose queue is known, each with the next
    /// id. A job for an unknown queue is refused and holds up no other.
    pub fn enqueue_batch(&mut self, batch: Vec<AcceptedJob>) -> (r: Vec<
        Result<AcceptedJob, StoreError>,
    >)
        requires
            old(self).wf(),
        ensures
            final(self).wf(),
            final(self)@.queues == old(self)@.queues,
            final(self)@.jobs == (if ids_suffice(old(self)@, views(batch@)) {
                old(self)@.jobs + accepted_rows(
                    old(self)@.queues,
                    views(batch@),
                    last_id(old(self)@.jobs),
                )
            } else {
                old(self)@.jobs
            }),
            r@.len() == batch@.len(),
            forall|i: int|
                0 <= i < r@.len() ==> reply_matches(
                    #[trigger] r@[i],
                    enqueue_reply(old(self)@, views(batch@), i),
                ),
    {
        let ghost rows = views(batch@);
        let ghost before = self@;
        let last: i64 = if self.jobs.len() == 0 {
            0
        } else {
            self.jobs[self.jobs.len() - 1].id
        };
        let ghost start = last as int;
        let mut known: u64 = 0;
        let mut k: usize = 0;
        while k < batch.len()
            invariant
                k <= batch.len(),
                self.wf(),
                self@ == before,
                rows == views(batch@),
                known <= k,
                known == accepted_rows(before.queues, rows.take(k as int), start).len(),
            decreases batch.len() - k,
        {
            proof {
                assert(rows.take(k + 1).drop_last() =~= rows.take(k as int));
            }
            if self.queues.contains(batch[k].queue_name.as_str()) {
                known += 1;
            }
            k += 1;
        }
        proof {
            assert(rows.take(batch@.len() as int) =~= rows);
        }
        let suffices = known as i128 + last as i128 <= i64::MAX as i128;
        let mut replies: Vec<Result<AcceptedJob, StoreError>> = Vec::new();
        let mut next: i64 = last;
        let mut i: usize = 0;
        while i < batch.len()
            invariant
                i <= batch.len(),
                self.wf(),
                before.jobs.len() > 0 ==> before.jobs.last().id == start,
                before.jobs.len() == 0 ==> start == 0,
                ids_ascend(before.jobs),
                self@.queues == before.queues,
                rows == views(batch@),
                start == last_id(before.jobs),
                suffices == ids_suffice(before, rows),
                suffices ==> start + accepted_rows(before.queues, rows, start).len() <= i64::MAX,
                self@.jobs == (if suffices {
                    before.jobs + accepted_rows(before.queues, rows.take(i as int), start)
                } else {
                    before.jobs
                }),
                next == start + (if suffices {
                    accepted_rows(before.queues, rows.take(i as int), start).len() as int
                } else {
                    0
                }),
                replies@.len() == i,
                forall|j: int|
                    0 <= j < i ==> reply_matches(
                        #[trigger] replies@[j],
                        enqueue_reply(before, rows, j),
                    ),
            decreases batch.len() - i,
        {
            let ghost taken = accepted_rows(before.queues, rows.take(i as int), start);
            proof {
                assert(rows.take(i + 1).drop_last() =~= rows.take(i as int));
                assert(rows.take(i + 1).last() == batch@[i as int]@);
                lemma_accepted_rows_ascend(before.queues, rows.take(i as int), start);
                lemma_accepted_rows_grow(before.queues, rows, i + 1, start);
            }
            let job = batch[i].clone();
            if !self.queues.contains(job.queue_name.as_str()) {
                replies.push(Err(StoreError::QueueNotFound(job.queue_name)));
            } else if !suffices {
                replies.push(Err(StoreError::Internal("job ids are exhausted".to_owned())));
            } else {
                next += 1;
                let mut reply = job;
                reply.id = next;
                let mut stored = reply.clone();
                stored.dispatch_id = None;
                let ghost jobs = self.jobs@;
                proof {
                    lemma_views_push(jobs, stored);
                    assert(accepted_rows(before.queues, rows.take(i + 1), start) == taken.push(
                        stored@,
                    ));
                    assert(before.jobs + taken.push(stored@) =~= (before.jobs + taken).push(
                        stored@,
                    ));
                    let all = (before.jobs + taken).push(stored@);
                    assert forall|a: int, b: int| 0 <= a < b < all.len() implies (
                    #[trigger] all[a]).id < (#[trigger] all[b]).id by {
                        if b < before.jobs.len() {
                            assert(before.jobs[a].id < before.jobs[b].id);
                        } else {
                            if a < before.jobs.len() && a < before.jobs.len() - 1 {
                                assert(before.jobs[a].id < before.jobs[before.jobs.len() - 1].id);
                            }
                        }
                    }
                }
                self.jobs.push(stored);
                replies.push(Ok(reply));
            }
            i += 1;
        }
        proof {
            assert(rows.take(batch@.len() as int) =~= rows);
        }
        replies
    }

    /// The positions of the head of the line in `queue_name`.
    pub fn pick(&self, queue_name: &str, limit: usize) -> (r: Vec<usize>)
        requires
            self.wf(),
            limit >= 1,
        ensures
            forall|i: int| 0 <= i < r@.len() ==> #[trigger] r@[i] < self.jobs@.len(),
            first_available(self@.jobs, queue_name@, limit as int, rows_at(self@.jobs, r@)),
    {
        let ghost rows = self@.jobs;
        let mut line: Vec<usize> = Vec::new();
        let mut i: usize = 0;
        proof {
            assert(first_available(
                rows.take(0),
                queue_name@,
                limit as int,
                rows_at(rows, line@),
            ));
        }
        while i < self.jobs.len()
            invariant
                self.wf(),
                rows == self@.jobs,
                i <= self.jobs.len(),
                limit >= 1,
                forall|k: int| 0 <= k < line@.len() ==> #[trigger] line@[k] < i,
                first_available(
                    rows.take(i as int),
                    queue_name@,
                    limit as int,
                    rows_at(rows, line@),
                ),
            decreases self.jobs.len() - i,
        {
            let ghost seen = rows.take(i as int);
            let ghost job = rows[i as int];
            let ghost picked = rows_at(rows, line@);
            proof {
                assert(rows.take(i + 1) =~= seen.push(job));
            }
            if same_text(self.jobs[i].queue_name.as_str(), queue_name)
                && self.jobs[i].dispatch_id.is_none() {
                let mut at: usize = line.len();
                while at > 0 && goes_before(&self.jobs[i], &self.jobs[line[at - 1]])
                    invariant
                        self.wf(),
                        rows == self@.jobs,
                        i < self.jobs.len(),
                        at <= line.len(),
                        job == rows[i as int],
                        picked == rows_at(rows, line@),
                        forall|k: int| 0 <= k < line@.len() ==> #[trigger] line@[k] < i,
                        forall|k: int|
                            at <= k < line@.len() ==> precedes(job, #[trigger] picked[k]),
                    decreases at,
                {
                    at -= 1;
                    proof {
                        assert(picked[at as int] == rows[line@[at as int] as int]);
                    }
                }
                proof {
                    assert forall|k: int| 0 <= k < at implies precedes(
                        #[trigger] picked[k],
                        job,
                    ) by {
                        let last = picked[at - 1];
                        assert(last == rows[line@[at - 1] as int]);
                        assert(!precedes(job, last));
                        assert(rows[line@[at - 1] as int].id < rows[i as int].id);
                        assert(precedes(last, job));
                        if k < at - 1 {
                            assert(precedes(picked[k], picked[at - 1]));
                        }
                    }
                    lemma_line_admits(seen, job, queue_name@, limit as int, picked, at as int);
                    assert(rows_at(rows, line@.insert(at as int, i)) =~= picked.insert(
                        at as int,
                        job,
                    ));
                }
                line.insert(at, i);
                if line.len() > limit {
                    let ghost full = line@;
                    line.pop();
                    proof {
                        assert(rows_at(rows, line@) =~= rows_at(rows, full).drop_last());
                    }
                }
            } else {
                proof {
                    lemma_line_skips(seen, job, queue_name@, limit as int, picked);
                }
            }
            i += 1;
        }
        proof {
            assert(rows.take(self.jobs@.len() as int) =~= rows);
        }
        line
    }

    /// Hands out the rows at `positions`, each under the token at the same
    /// place in `tokens`.
    pub fn assign(
        &mut self,
        positions: &Vec<usize>,
        tokens: Vec<String>,
        timeout_secs: u64,
        now: i64,
    ) -> (r: Vec<IngestClaimed>)
        requires
            old(self).wf(),
            tokens@.len() == positions@.len(),
            forall|i: int| 0 <= i < positions@.len() ==> #[trigger] positions@[i] < old(self).jobs@.len(),
            forall|i: int, j: int|
                0 <= i < j < positions@.len() ==> #[trigger] positions@[i] != #[trigger] positions@[j],
        ensures
            final(self).wf(),
            final(self)@.queues == old(self)@.queues,
            final(self)@.jobs == claimed_rows(
                old(self)@.jobs,
                rows_at(old(self)@.jobs, positions@),
                views(tokens@),
                now as int,
            ),
            r@.len() == positions@.len(),
            forall|i: int|
                0 <= i < r@.len() ==> (#[trigger] r@[i])@ == claim_of(
                    old(self)@.jobs[positions@[i] as int],
                    tokens@[i]@,
                    timeout_secs as int,
                ),
    {
        let ghost rows = self@.jobs;
        let ghost picked = rows_at(rows, positions@);
        let mut claimed: Vec<IngestClaimed> = Vec::new();
        let mut k: usize = 0;
        while k < positions.len()
            invariant
                k <= positions.len(),
                tokens@.len() == positions@.len(),
                self.queues == old(self).queues,
                self.jobs@.len() == rows.len(),
                rows == old(self)@.jobs,
                forall|i: int| 0 <= i < positions@.len() ==> #[trigger] positions@[i] < rows.len(),
                forall|i: int, j: int|
                    0 <= i < j < positions@.len() ==> #[trigger] positions@[i]
                        != #[trigger] positions@[j],
                forall|p: int|
                    0 <= p < k ==> self.jobs@[#[trigger] positions@[p] as int]@ == tokened(
                        rows[positions@[p] as int],
                        tokens@[p]@,
                        now as int,
                    ),
                forall|i: int|
                    0 <= i < rows.len() && (forall|p: int|
                        0 <= p < k ==> #[trigger] positions@[p] != i) ==> (
                    #[trigger] self.jobs@[i])@ == rows[i],
                claimed@.len() == k,
                forall|i: int|
                    0 <= i < k ==> (#[trigger] claimed@[i])@ == claim_of(
                        rows[positions@[i] as int],
                        tokens@[i]@,
                        timeout_secs as int,
                    ),
            decreases positions.len() - k,
        {
            let at: usize = positions[k];
            proof {
                assert(self.jobs@[at as int]@ == rows[at as int]);
            }
            let mut job = self.jobs[at].clone();
            job.dispatch_id = Some(tokens[k].clone());
            job.updated_at = now;
            claimed.push(
                IngestClaimed {
                    id: job.id,
                    name: job.queue_name.clone(),
                    payload: crate::engine::types::copy_bytes(&job.payload),
                    timeout_secs,
                    dispatch_id: tokens[k].clone(),
                    created_at: job.created_at,
                },
            );
            self.jobs.set(at, job);
            k += 1;
        }
        proof {
            let after = claimed_rows(rows, picked, views(tokens@), now as int);
            assert forall|i: int| 0 <= i < rows.len() implies #[trigger] self@.jobs[i]
                == after[i] by {
                assert(self@.jobs[i] == self.jobs@[i]@);
                if picked.contains(rows[i]) {
                    let p = picked.index_of(rows[i]);
                    assert(picked[p] == rows[i]);
                    let at = positions@[p] as int;
                    if at < i {
                        assert(rows[at].id < rows[i].id);
                    } else if i < at {
                        assert(rows[i].id < rows[at].id);
                    }
                    assert(self.jobs@[positions@[p] as int]@ == tokened(
                        rows[positions@[p] as int],
                        tokens@[p]@,
                        now as int,
                    ));
                } else {
                    assert forall|p: int| 0 <= p < positions@.len() implies #[trigger] positions@[p]
                        != i by {
                        assert(picked[p] == rows[positions@[p] as int]);
                    }
                }
            }
            assert(self@.jobs =~= after);
            lemma_claimed_rows_keep_ids(rows, picked, views(tokens@), now as int);
        }
        claimed
    }

    /// Claims the head of the line in `queue_name`: up to `limit` jobs, at
    /// least one and no more than the largest claim, each under a new token.
    pub fn claim_batch(&mut self, queue_name: &str, limit: usize, now: i64) -> (r: Result<
        Vec<IngestClaimed>,
        StoreError,
    >)
        requires
            old(self).wf(),
        ensures
            final(self).wf(),
            final(self)@.queues == old(self)@.queues,
            !old(self)@.queues.dom().contains(queue_name@) ==> {
                &&& r is Err
                &&& r->Err_0@ == StoreErrorView::QueueNotFound(queue_name@)
                &&& final(self)@ == old(self)@
            },
            old(self)@.queues.dom().contains(queue_name@) ==> {
                &&& r is Ok
                &&& is_claim(old(self)@, queue_name@, claim_limit(limit as int), r->Ok_0@)
                &&& final(self)@.jobs == claimed_rows(
                    old(self)@.jobs,
                    claimable(old(self)@.jobs, queue_name@, claim_limit(limit as int)),
                    claim_tokens(r->Ok_0@),
                    now as int,
                )
            },
    {
        let timeout_secs: u64 = match self.queues.get(queue_name) {
            Some(queue) => queue.timeout_secs,
            None => {
                return Err(StoreError::QueueNotFound(queue_name.to_owned()));
            },
        };
        let limit = crate::engine::adaptive::clamp_size(limit, 1, MAX_CLAIM_BATCH_SIZE);
        let positions = self.pick(queue_name, limit);
        let ghost rows = self@.jobs;
        let ghost picked = rows_at(rows, positions@);
        let mut tokens: Vec<String> = Vec::new();
        let mut k: usize = 0;
        while k < positions.len()
            invariant
                k <= positions.len(),
                tokens@.len() == k,
                forall|i: int| 0 <= i < k ==> is_token((#[trigger] tokens@[i])@),
            decreases positions.len() - k,
        {
            tokens.push(new_dispatch_id());
            k += 1;
        }
        proof {
            assert forall|i: int, j: int| 0 <= i < j < positions@.len() implies
                #[trigger] positions@[i] != #[trigger] positions@[j] by {
                assert(precedes(picked[i], picked[j]));
            }
        }
        let ghost minted = tokens@;
        let claimed = self.assign(&positions, tokens, timeout_secs, now);
        proof {
            head_of_line_is_unique(rows, queue_name@, limit as int, picked);
            assert(claim_tokens(claimed@) =~= views(minted));
            assert forall|i: int| 0 <= i < claimed@.len() implies (#[trigger] claimed@[i])@
                == claim_of(picked[i], claimed@[i].dispatch_id@, timeout_secs as int) by {
                assert(picked[i] == rows[positions@[i] as int]);
            }
        }
        Ok(claimed)
    }

    /// Makes the job available again if it is still claimed under
    /// `dispatch_id`.
    pub fn repend(&mut self, job_id: i64, dispatch_id: &str, now: i64)
        requires
            old(self).wf(),
        ensures
            final(self).wf(),
            final(self)@.queues == old(self)@.queues,
            final(self)@.jobs == repended(
                old(self)@.jobs,
                job_id as int,
                dispatch_id@,
                now as int,
            ),
    {
        let ghost rows = self@.jobs;
        let mut i: usize = 0;
        while i < self.jobs.len()
            invariant
                i <= self.jobs@.len(),
                self.queues == old(self).queues,
                self.jobs@.len() == rows.len(),
                forall|k: int|
                    0 <= k < i ==> (#[trigger] self.jobs@[k])@ == repended(
                        rows,
                        job_id as int,
                        dispatch_id@,
                        now as int,
                    )[k],
                forall|k: int| i <= k < rows.len() ==> (#[trigger] self.jobs@[k])@ == rows[k],
            decreases self.jobs.len() - i,
        {
            if self.jobs[i].id == job_id && is_text(&self.jobs[i].dispatch_id, dispatch_id) {
                let mut job = self.jobs[i].clone();
                job.dispatch_id = None;
                job.updated_at = now;
                self.jobs.set(i, job);
            }
            i += 1;
        }
        proof {
            assert(self@.jobs =~= repended(rows, job_id as int, dispatch_id@, now as int));
            lemma_repended_keeps_ids(rows, job_id as int, dispatch_id@, now as int);
        }
    }

    /// Makes each job of `pairs` available again that is still claimed under
    /// the token it comes with.
    pub fn repend_batch(&mut self, pairs: &Vec<(i64, String)>, now: i64)
        requires
            old(self).wf(),
        ensures
            final(self).wf(),
            final(self)@.queues == old(self)@.queues,
            final(self)@.jobs == all_repended(old(self)@.jobs, pair_views(pairs@), now as int),
    {
        let ghost wanted = pair_views(pairs@);
        let ghost rows = self@.jobs;
        let mut i: usize = 0;
        proof {
            assert(wanted.take(0) =~= Seq::<(int, Seq<char>)>::empty());
        }
        while i < pairs.len()
            invariant
                i <= pairs.len(),
                wanted == pair_views(pairs@),
                self.wf(),
                self@.queues == old(self)@.queues,
                self@.jobs == all_repended(rows, wanted.take(i as int), now as int),
            decreases pairs.len() - i,
        {
            self.repend(pairs[i].0, pairs[i].1.as_str(), now);
            proof {
                assert(wanted.take(i + 1).drop_last() =~= wanted.take(i as int));
            }
            i += 1;
        }
        proof {
            assert(wanted.take(pairs@.len() as int) =~= wanted);
        }
    }

    /// Deletes the jobs that were accepted before `cutoff`, and says how many
    /// there were.
    pub fn cleanup_expired_records(&mut self, cutoff: i64) -> (r: usize)
        requires
            old(self).wf(),
        ensures
            final(self).wf(),
            final(self)@.queues == old(self)@.queues,
            final(self)@.jobs == retained_jobs(old(self)@.jobs, cutoff as int),
            r == old(self)@.jobs.len() - final(self)@.jobs.len(),
    {
        let ghost rows = self@.jobs;
        let ghost keep = |job: AcceptedJobView| job.created_at >= cutoff;
        let total: usize = self.jobs.len();
        let mut i: usize = 0;
        let ghost mut seen: int = 0;
        proof {
            reveal(Seq::filter);
            assert(rows.take(0).filter(keep) =~= Seq::<AcceptedJobView>::empty());
            assert(rows.skip(0) =~= rows);
            assert(self@.jobs =~= rows.take(0).filter(keep) + rows.skip(0));
        }
        while i < self.jobs.len()
            invariant
                self.queues == old(self).queues,
                0 <= seen <= rows.len(),
                keep == (|job: AcceptedJobView| job.created_at >= cutoff),
                i == rows.take(seen).filter(keep).len(),
                self@.jobs == rows.take(seen).filter(keep) + rows.skip(seen),
                self.jobs@.len() == i + rows.len() - seen,
            decreases rows.len() - seen,
        {
            proof {
                reveal(Seq::filter);
                assert(self@.jobs[i as int] == rows.skip(seen)[0]);
                assert(self.jobs@[i as int]@ == rows[seen]);
                assert(rows.take(seen + 1).drop_last() =~= rows.take(seen));
                assert(rows.take(seen + 1).last() == rows[seen]);
                assert(rows.skip(seen) =~= seq![rows[seen]] + rows.skip(seen + 1));
            }
            let ghost jobs = self.jobs@;
            if self.jobs[i].created_at < cutoff {
                self.jobs.remove(i);
                proof {
                    assert(self@.jobs =~= rows.take(seen).filter(keep) + rows.skip(seen + 1)) by {
                        assert(self.jobs@ == jobs.remove(i as int));
                        assert forall|k: int| 0 <= k < self.jobs@.len() implies #[trigger] self@.jobs[k]
                            == (rows.take(seen).filter(keep) + rows.skip(seen + 1))[k] by {
                            let was = if k < i { k } else { k + 1 };
                            assert(self.jobs@[k] == jobs[was]);
                            assert(views(jobs)[was] == (rows.take(seen).filter(keep)
                                + rows.skip(seen))[was]);
                        }
                    }
                }
            } else {
                i += 1;
                proof {
                    assert(rows.take(seen).filter(keep) + rows.skip(seen) =~= rows.take(
                        seen,
                    ).filter(keep).push(rows[seen]) + rows.skip(seen + 1));
                }
            }
            proof {
                seen = seen + 1;
            }
        }
        proof {
            assert(seen == rows.len());
            assert(rows.take(seen) =~= rows);
            assert(rows.skip(seen) =~= Seq::<AcceptedJobView>::empty());
            assert(self@.jobs =~= rows.filter(keep));
            lemma_filter_keeps_order(rows, keep);
            rows.lemma_filter_len(keep);
        }
        total - self.jobs.len()
    }

    /// The job with id `job_id`.
    pub fn accepted_job(&self, job_id: i64) -> (r: Result<AcceptedJob, StoreError>)
        requires
            self.wf(),
        ensures
            match (r, job_of(self@.jobs, job_id as int)) {
                (Ok(job), Some(row)) => job@ == row,
                (Err(error), None) => error@ == StoreErrorView::NotFound(job_id as int),
                _ => false,
            },
    {
        let mut i: usize = 0;
        while i < self.jobs.len()
            invariant
                self.wf(),
                i <= self.jobs.len(),
                forall|k: int| 0 <= k < i ==> (#[trigger] self.jobs@[k]).id != job_id,
            decreases self.jobs.len() - i,
        {
            if self.jobs[i].id == job_id {
                proof {
                    lemma_job_of(self@.jobs, i as int);
                }
                return Ok(self.jobs[i].clone());
            }
            i += 1;
        }
        proof {
            if exists|at: int| row_has_id(self@.jobs, job_id as int, at) {
                let at = choose|at: int| row_has_id(self@.jobs, job_id as int, at);
                assert(self.jobs@[at].id == job_id);
            }
        }
        Err(StoreError::NotFound(job_id))
    }
}

/// How many jobs a claim of `limit` asks for.
pub open spec fn claim_limit(limit: int) -> int {
    clamped(limit, 1, MAX_CLAIM_BATCH_SIZE as int)
}

/// The tokens of a claim.
pub open spec fn claim_tokens(claimed: Seq<IngestClaimed>) -> Seq<Seq<char>> {
    Seq::new(claimed.len(), |i: int| claimed[i].dispatch_id@)
}

/// Whether `claimed` is what a claim on `queue` hands out: the head of the
/// line, in order, each job under a token and the lease that the queue has.
pub open spec fn is_claim(
    table: IngestView,
    queue: Seq<char>,
    limit: int,
    claimed: Seq<IngestClaimed>,
) -> bool {
    let picked = claimable(table.jobs, queue, limit);
    &&& first_available(table.jobs, queue, limit, picked)
    &&& claimed.len() == picked.len()
    &&& forall|i: int|
        0 <= i < claimed.len() ==> (#[trigger] claimed[i])@ == claim_of(
            picked[i],
            claimed[i].dispatch_id@,
            table.queues[queue].timeout_secs,
        ) && is_token(claimed[i].dispatch_id@)
}

/// Whether a row is at the same place with the same id, queue, payload and
/// time of acceptance.
pub open spec fn same_identities(a: Seq<AcceptedJobView>, b: Seq<AcceptedJobView>) -> bool {
    &&& a.len() == b.len()
    &&& forall|i: int|
        0 <= i < a.len() ==> {
            &&& (#[trigger] a[i]).id == b[i].id
            &&& a[i].queue_name == b[i].queue_name
            &&& a[i].payload == b[i].payload
            &&& a[i].created_at == b[i].created_at
        }
}

proof fn lemma_same_identities_ascend(a: Seq<AcceptedJobView>, b: Seq<AcceptedJobView>)
    requires
        same_identities(a, b),
        ids_ascend(a),
    ensures
        ids_ascend(b),
{
    assert forall|i: int, j: int| 0 <= i < j < b.len() implies (#[trigger] b[i]).id < (
    #[trigger] b[j]).id by {
        assert(a[i].id < a[j].id);
    }
}

proof fn lemma_claimed_rows_keep_ids(
    jobs: Seq<AcceptedJobView>,
    picked: Seq<AcceptedJobView>,
    tokens: Seq<Seq<char>>,
    now: int,
)
    requires
        ids_ascend(jobs),
    ensures
        same_identities(jobs, claimed_rows(jobs, picked, tokens, now)),
        ids_ascend(claimed_rows(jobs, picked, tokens, now)),
{
    lemma_same_identities_ascend(jobs, claimed_rows(jobs, picked, tokens, now));
}

proof fn lemma_repended_keeps_ids(
    jobs: Seq<AcceptedJobView>,
    id: int,
    token: Seq<char>,
    now: int,
)
    requires
        ids_ascend(jobs),
    ensures
        same_identities(jobs, repended(jobs, id, token, now)),
        ids_ascend(repended(jobs, id, token, now)),
{
    lemma_same_identities_ascend(jobs, repended(jobs, id, token, now));
}

proof fn lemma_filter_keeps_order(
    jobs: Seq<AcceptedJobView>,
    keep: spec_fn(AcceptedJobView) -> bool,
)
    requires
        ids_ascend(jobs),
    ensures
        ids_ascend(jobs.filter(keep)),
        forall|i: int|
            0 <= i < jobs.filter(keep).len() ==> jobs.contains(#[trigger] jobs.filter(keep)[i]),
    decreases jobs.len(),
{
    reveal(Seq::filter);
    if jobs.len() > 0 {
        let rest = jobs.drop_last();
        let kept = rest.filter(keep);
        lemma_filter_keeps_order(rest, keep);
        let all = jobs.filter(keep);
        assert forall|i: int| 0 <= i < all.len() implies jobs.contains(#[trigger] all[i]) by {
            if i < kept.len() {
                assert(all[i] == kept[i]);
                assert(rest.contains(kept[i]));
                let k = rest.index_of(kept[i]);
                assert(jobs[k] == all[i]);
            } else {
                assert(jobs[jobs.len() - 1] == all[i]);
            }
        }
        assert forall|i: int, j: int| 0 <= i < j < all.len() implies (#[trigger] all[i]).id < (
        #[trigger] all[j]).id by {
            assert(all[i] == kept[i]);
            if j < kept.len() {
                assert(kept[i].id < kept[j].id);
            } else {
                assert(rest.contains(kept[i]));
                let k = rest.index_of(kept[i]);
                assert(jobs[k].id < jobs[jobs.len() - 1].id);
            }
        }
    }
}

/// Whether a reply says `expected`.
pub open spec fn reply_matches(
    reply: Result<AcceptedJob, StoreError>,
    expected: Result<AcceptedJobView, StoreErrorView>,
) -> bool {
    match (reply, expected) {
        (Ok(job), Ok(wanted)) => job@ == wanted,
        (Err(error), Err(wanted)) => error@ == wanted,
        _ => false,
    }
}

/// A longer batch adds no fewer rows.
proof fn lemma_accepted_rows_grow(
    queues: Map<Seq<char>, JobQueueView>,
    batch: Seq<AcceptedJobView>,
    n: int,
    last: int,
)
    requires
        0 <= n <= batch.len(),
    ensures
        accepted_rows(queues, batch.take(n), last).len() <= accepted_rows(queues, batch, last).len(),
    decreases batch.len(),
{
    if n == batch.len() {
        assert(batch.take(n) =~= batch);
    } else {
        lemma_accepted_rows_grow(queues, batch.drop_last(), n, last);
        assert(batch.drop_last().take(n) =~= batch.take(n));
    }
}

/// A claim is seen whole.
pub proof fn claims_are_seen_whole(claim: IngestClaimed)
    ensures
        claim@.id == claim.id,
        claim@.name == claim.name@,
        claim@.payload == claim.payload@,
        claim@.timeout_secs == claim.timeout_secs,
        claim@.dispatch_id == claim.dispatch_id@,
        claim@.created_at == claim.created_at,
{
}

/// The answer to a submission is the one that is due.
pub proof fn submissions_are_answered(
    answer: Result<AcceptedJob, StoreError>,
    due: Result<AcceptedJobView, StoreErrorView>,
)
    requires
        reply_matches(answer, due),
    ensures
        answer is Ok == due is Ok,
        answer is Ok ==> answer->Ok_0@ == due->Ok_0,
        answer is Err ==> answer->Err_0@ == due->Err_0,
{
}

/// A token is the text of a random identifier: thirty-six characters, with
/// hyphens in four places, and a four for the version.
pub proof fn tokens_are_random_identifiers(text: Seq<char>)
    requires
        is_token(text),
    ensures
        text.len() == 36,
        text[8] == '-' && text[13] == '-' && text[18] == '-' && text[23] == '-',
        text[14] == '4',
{
    let id = choose|id: u128| marked_random(id) && text == #[trigger] hyphenated(id);
    assert(vstd::arithmetic::power::pow(16, 19) == 0x1000_0000_0000_0000_0000) by {
        reveal_with_fuel(vstd::arithmetic::power::pow, 20);
    }
    assert(text[14] == crate::ids::id_digit(id, 12));
    assert((31 - 12) as nat == 19nat);
}

/// A claim marks each job that it hands out with the token that it hands out
/// with it, and leaves every other job as it is.
pub proof fn claims_are_marked_with_their_tokens(
    table: IngestView,
    queue: Seq<char>,
    limit: int,
    claimed: Seq<IngestClaimed>,
    now: int,
    k: int,
    i: int,
)
    requires
        ids_ascend(table.jobs),
        is_claim(table, queue, limit, claimed),
        0 <= k < table.jobs.len(),
    ensures
        ({
            let row = table.jobs[k];
            let left = claimed_rows(
                table.jobs,
                claimable(table.jobs, queue, limit),
                claim_tokens(claimed),
                now,
            )[k];
            &&& 0 <= i < claimed.len() && claimed[i].id == row.id ==> {
                &&& left.id == row.id
                &&& left.queue_name == row.queue_name
                &&& left.payload == row.payload
                &&& left.dispatch_id == Some(claimed[i].dispatch_id@)
                &&& left.created_at == row.created_at
                &&& left.updated_at == now
            }
            &&& (forall|j: int| 0 <= j < claimed.len() ==> (#[trigger] claimed[j]).id != row.id)
                ==> left == row
        }),
{
    let jobs = table.jobs;
    let picked = claimable(jobs, queue, limit);
    if 0 <= i < claimed.len() && claimed[i].id == jobs[k].id {
        assert(claimed[i]@.id == picked[i].id);
        assert(jobs.contains(picked[i]));
        let at = choose|at: int| 0 <= at < jobs.len() && jobs[at] == picked[i];
        if at < k {
            assert(jobs[at].id < jobs[k].id);
        } else if k < at {
            assert(jobs[k].id < jobs[at].id);
        }
        assert(picked.contains(jobs[k]));
        let j = picked.index_of(jobs[k]);
        assert(picked[j] == jobs[k]);
        if i < j {
            assert(precedes(picked[i], picked[j]));
        } else if j < i {
            assert(precedes(picked[j], picked[i]));
        }
    }
    if forall|j: int| 0 <= j < claimed.len() ==> (#[trigger] claimed[j]).id != jobs[k].id {
        if picked.contains(jobs[k]) {
            let j = picked.index_of(jobs[k]);
            assert(claimed[j]@.id == picked[j].id);
            assert(claimed[j].id != jobs[k].id);
        }
    }
}

/// Jobs and their tokens are seen pair by pair, in their order.
pub proof fn pairs_are_seen_whole(pairs: Seq<(i64, String)>)
    ensures
        pair_views(pairs).len() == pairs.len(),
        forall|i: int|
            0 <= i < pairs.len() ==> #[trigger] pair_views(pairs)[i] == (
                pairs[i].0 as int,
                pairs[i].1@,
            ),
{
}

} // verus!
