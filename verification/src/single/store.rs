//! The queues and the jobs of a single database, and what can be done to them.

use crate::persistence::queues::{
    comes_before, lemma_text_order_is_total, lemma_text_order_is_transitive, lemma_views_push,
    text_before, views,
};
use crate::single::{
    is_outcome, Job, JobModel, JobQueue, JobStatus, QueueModel, StoreError, StoreErrorModel,
};
use crate::text::same_text;
use vstd::prelude::*;

verus! {

/// Queues in the strict order of their names, so that no name occurs twice.
pub open spec fn ordered(rows: Seq<QueueModel>) -> bool {
    forall|i: int, j: int|
        0 <= i < j < rows.len() ==> #[trigger] text_before(rows[i].name, rows[j].name)
}

/// Where the queue of a name stands; -1 where there is none.
pub open spec fn queue_at(rows: Seq<QueueModel>, name: Seq<char>) -> int
    decreases rows.len(),
{
    if rows.len() == 0 {
        -1
    } else if rows.last().name == name {
        rows.len() - 1
    } else {
        queue_at(rows.drop_last(), name)
    }
}

/// Whether there is a queue of a name.
pub open spec fn knows(rows: Seq<QueueModel>, name: Seq<char>) -> bool {
    queue_at(rows, name) >= 0
}

/// Where the job of an identifier stands; -1 where there is none.
pub open spec fn job_at(jobs: Seq<JobModel>, id: u128) -> int
    decreases jobs.len(),
{
    if jobs.len() == 0 {
        -1
    } else if jobs.last().id == id {
        jobs.len() - 1
    } else {
        job_at(jobs.drop_last(), id)
    }
}

/// What asking for the job of an identifier comes to.
pub open spec fn found_job(jobs: Seq<JobModel>, id: u128) -> Result<JobModel, StoreErrorModel> {
    if job_at(jobs, id) >= 0 {
        Ok(jobs[job_at(jobs, id)])
    } else {
        Err(StoreErrorModel::NotFound(id))
    }
}

/// Whether two of the jobs have the same identifier.
pub open spec fn repeats(jobs: Seq<JobModel>) -> bool {
    exists|i: int, j: int|
        0 <= i < j < jobs.len() && (#[trigger] jobs[i]).id == (#[trigger] jobs[j]).id
}

/// Whether a job waits in a queue.
pub open spec fn waits_in(job: JobModel, queue: Seq<char>) -> bool {
    job.name == queue && job.status == JobStatus::Pending
}

/// Where the oldest job stands that waits in a queue, and of several that are
/// equally old the first; -1 where none waits.
pub open spec fn first_pending(jobs: Seq<JobModel>, queue: Seq<char>) -> int
    decreases jobs.len(),
{
    if jobs.len() == 0 {
        -1
    } else {
        let earlier = first_pending(jobs.drop_last(), queue);
        if waits_in(jobs.last(), queue) && (earlier < 0 || jobs.last().created_at
            < jobs[earlier].created_at) {
            jobs.len() - 1
        } else {
            earlier
        }
    }
}

/// A job that has been handed out at `now` for `lease` seconds.
pub open spec fn claimed(job: JobModel, lease: i64, now: i64) -> JobModel {
    JobModel {
        status: JobStatus::Running,
        lease_expires_at: Some((now + lease) as i64),
        updated_at: now as int,
        ..job
    }
}

/// Whether the lease of a job has run out at `now`.
pub open spec fn is_stale(job: JobModel, now: i64) -> bool {
    job.status == JobStatus::Running && job.lease_expires_at is Some
        && job.lease_expires_at->Some_0 < now
}

/// A job that waits again after its lease has run out.
pub open spec fn recovered(job: JobModel, now: i64) -> JobModel {
    JobModel {
        status: JobStatus::Pending,
        lease_expires_at: None,
        attempt: job.attempt + 1,
        updated_at: now as int,
        ..job
    }
}

/// The jobs after those whose leases have run out wait again.
pub open spec fn after_recovery(jobs: Seq<JobModel>, now: i64) -> Seq<JobModel> {
    jobs.map_values(
        |job: JobModel|
            if is_stale(job, now) {
                recovered(job, now)
            } else {
                job
            },
    )
}

/// The jobs whose leases have run out, as they wait again.
pub open spec fn recoveries(jobs: Seq<JobModel>, now: i64) -> Seq<JobModel>
    decreases jobs.len(),
{
    if jobs.len() == 0 {
        Seq::empty()
    } else if is_stale(jobs.last(), now) {
        recoveries(jobs.drop_last(), now).push(recovered(jobs.last(), now))
    } else {
        recoveries(jobs.drop_last(), now)
    }
}

/// The jobs of a batch whose queues are known.
pub open spec fn admitted(rows: Seq<QueueModel>, batch: Seq<JobModel>) -> Seq<JobModel>
    decreases batch.len(),
{
    if batch.len() == 0 {
        Seq::empty()
    } else if knows(rows, batch.last().name) {
        admitted(rows, batch.drop_last()).push(batch.last())
    } else {
        admitted(rows, batch.drop_last())
    }
}

/// What the database says when an identifier is used twice.
pub open spec fn clash_text() -> Seq<char> {
    "UNIQUE constraint failed: jobs.id"@
}

/// What a job of a batch is answered.
pub open spec fn enqueue_answer(rows: Seq<QueueModel>, clash: bool, job: JobModel) -> Result<
    JobModel,
    StoreErrorModel,
> {
    if !knows(rows, job.name) {
        Err(StoreErrorModel::QueueNotFound(job.name))
    } else if clash {
        Err(StoreErrorModel::Internal(clash_text()))
    } else {
        Ok(job)
    }
}

/// What configuring a queue at `now` leaves on record: the time at which it was
/// first configured stays.
pub open spec fn registered(rows: Seq<QueueModel>, queue: QueueModel, now: int) -> QueueModel {
    QueueModel {
        created_at: if knows(rows, queue.name) {
            rows[queue_at(rows, queue.name)].created_at
        } else {
            queue.created_at
        },
        updated_at: now,
        ..queue
    }
}

/// Whether a name stands for the same in both.
pub open spec fn same_queue(before: Seq<QueueModel>, after: Seq<QueueModel>, name: Seq<char>) -> bool {
    &&& knows(after, name) == knows(before, name)
    &&& knows(before, name) ==> after[queue_at(after, name)] == before[queue_at(before, name)]
}

/// Queues, in the order of their names, and jobs, in the order in which they
/// were accepted.
pub struct JobTable {
    pub queues: Vec<JobQueue>,
    pub jobs: Vec<Job>,
}

/// What a table holds.
#[verifier::ext_equal]
pub struct TableModel {
    pub queues: Seq<QueueModel>,
    pub jobs: Seq<JobModel>,
}

impl View for JobTable {
    type V = TableModel;

    open spec fn view(&self) -> TableModel {
        TableModel { queues: views(self.queues@), jobs: views(self.jobs@) }
    }
}

pub proof fn lemma_queue_at(rows: Seq<QueueModel>, name: Seq<char>)
    ensures
        -1 <= queue_at(rows, name) < rows.len(),
        knows(rows, name) ==> rows[queue_at(rows, name)].name == name,
        !knows(rows, name) ==> forall|i: int| 0 <= i < rows.len() ==> rows[i].name != name,
    decreases rows.len(),
{
    if rows.len() > 0 && rows.last().name != name {
        lemma_queue_at(rows.drop_last(), name);
        if !knows(rows, name) {
            assert forall|i: int| 0 <= i < rows.len() implies rows[i].name != name by {
                if i < rows.len() - 1 {
                    assert(rows.drop_last()[i].name != name);
                }
            }
        }
    }
}

/// In ordered rows a name stands in one place.
pub proof fn lemma_only_queue_at(rows: Seq<QueueModel>, at: int)
    requires
        ordered(rows),
        0 <= at < rows.len(),
    ensures
        queue_at(rows, rows[at].name) == at,
{
    let name = rows[at].name;
    lemma_queue_at(rows, name);
    let found = queue_at(rows, name);
    lemma_text_order_is_total(name, name);
    if found < at {
        assert(text_before(rows[found].name, rows[at].name));
    } else if found > at {
        assert(text_before(rows[at].name, rows[found].name));
    }
}

pub proof fn lemma_job_at(jobs: Seq<JobModel>, id: u128)
    ensures
        -1 <= job_at(jobs, id) < jobs.len(),
        job_at(jobs, id) >= 0 ==> jobs[job_at(jobs, id)].id == id,
        job_at(jobs, id) < 0 ==> forall|i: int| 0 <= i < jobs.len() ==> jobs[i].id != id,
    decreases jobs.len(),
{
    if jobs.len() > 0 && jobs.last().id != id {
        lemma_job_at(jobs.drop_last(), id);
        if job_at(jobs, id) < 0 {
            assert forall|i: int| 0 <= i < jobs.len() implies jobs[i].id != id by {
                if i < jobs.len() - 1 {
                    assert(jobs.drop_last()[i].id != id);
                }
            }
        }
    }
}

/// Where no identifier is used twice, a job stands in one place.
pub proof fn lemma_only_job_at(jobs: Seq<JobModel>, at: int)
    requires
        !repeats(jobs),
        0 <= at < jobs.len(),
    ensures
        job_at(jobs, jobs[at].id) == at,
{
    lemma_job_at(jobs, jobs[at].id);
    let found = job_at(jobs, jobs[at].id);
    assert(jobs[found].id == jobs[at].id);
}

/// Among the jobs that wait in a queue the first is not younger than any other.
pub proof fn lemma_first_pending(jobs: Seq<JobModel>, queue: Seq<char>)
    ensures
        -1 <= first_pending(jobs, queue) < jobs.len(),
        ({
            let first = first_pending(jobs, queue);
            if first >= 0 {
                &&& waits_in(jobs[first], queue)
                &&& forall|k: int|
                    0 <= k < jobs.len() && waits_in(#[trigger] jobs[k], queue)
                        ==> jobs[first].created_at < jobs[k].created_at || (jobs[first].created_at
                        == jobs[k].created_at && first <= k)
            } else {
                forall|k: int| 0 <= k < jobs.len() ==> !waits_in(#[trigger] jobs[k], queue)
            }
        }),
    decreases jobs.len(),
{
    if jobs.len() > 0 {
        let before = jobs.drop_last();
        lemma_first_pending(before, queue);
        let first = first_pending(jobs, queue);
        let earlier = first_pending(before, queue);
        if first >= 0 {
            assert forall|k: int|
                0 <= k < jobs.len() && waits_in(#[trigger] jobs[k], queue) implies
                jobs[first].created_at < jobs[k].created_at || (jobs[first].created_at
                == jobs[k].created_at && first <= k) by {
                if k < jobs.len() - 1 {
                    assert(before[k] == jobs[k]);
                    assert(earlier >= 0);
                }
            }
        } else {
            assert forall|k: int| 0 <= k < jobs.len() implies !waits_in(
                #[trigger] jobs[k],
                queue,
            ) by {
                if k < jobs.len() - 1 {
                    assert(before[k] == jobs[k]);
                }
            }
        }
    }
}

pub proof fn lemma_admitted(rows: Seq<QueueModel>, batch: Seq<JobModel>)
    ensures
        admitted(rows, batch).len() <= batch.len(),
        forall|i: int|
            0 <= i < admitted(rows, batch).len() ==> knows(
                rows,
                (#[trigger] admitted(rows, batch)[i]).name,
            ),
        forall|i: int|
            0 <= i < batch.len() && knows(rows, (#[trigger] batch[i]).name) ==> admitted(
                rows,
                batch,
            ).contains(batch[i]),
    decreases batch.len(),
{
    if batch.len() > 0 {
        let before = batch.drop_last();
        lemma_admitted(rows, before);
        let all = admitted(rows, batch);
        let some = admitted(rows, before);
        assert forall|i: int| 0 <= i < batch.len() && knows(rows, (#[trigger] batch[i]).name) implies
            all.contains(batch[i]) by {
            if i < batch.len() - 1 {
                assert(before[i] == batch[i]);
                assert(some.contains(batch[i]));
                let k = choose|k: int| 0 <= k < some.len() && some[k] == batch[i];
                assert(all[k] == batch[i]);
            } else {
                assert(all[all.len() - 1] == batch[i]);
            }
        }
    }
}

impl JobTable {
    /// Queues in order, identifiers that occur once, and jobs whose queues are
    /// known.
    pub open spec fn wf(&self) -> bool {
        &&& ordered(self@.queues)
        &&& !repeats(self@.jobs)
        &&& forall|i: int|
            0 <= i < self@.jobs.len() ==> knows(self@.queues, (#[trigger] self@.jobs[i]).name)
    }

    /// A table that holds nothing.
    pub fn new() -> (r: Self)
        ensures
            r.wf(),
            r@.queues.len() == 0,
            r@.jobs.len() == 0,
    {
        JobTable { queues: Vec::new(), jobs: Vec::new() }
    }

    /// Where the queue of a name stands.
    fn find_queue(&self, name: &str) -> (r: Option<usize>)
        ensures
            match r {
                Some(at) => at == queue_at(self@.queues, name@) && at < self.queues.len(),
                None => !knows(self@.queues, name@),
            },
    {
        let mut n: usize = self.queues.len();
        proof {
            assert(self@.queues.take(n as int) =~= self@.queues);
        }
        while n > 0
            invariant
                n <= self.queues.len(),
                queue_at(self@.queues.take(n as int), name@) == queue_at(self@.queues, name@),
            decreases n,
        {
            proof {
                assert(self@.queues.take(n as int).drop_last() =~= self@.queues.take(n - 1));
                assert(self@.queues.take(n as int).last() == self.queues@[n - 1]@);
            }
            if same_text(self.queues[n - 1].name.as_str(), name) {
                return Some(n - 1);
            }
            n -= 1;
        }
        None
    }

    /// Where the job of an identifier stands.
    fn find_job(&self, id: u128) -> (r: Option<usize>)
        ensures
            match r {
                Some(at) => at == job_at(self@.jobs, id) && at < self.jobs.len(),
                None => job_at(self@.jobs, id) < 0,
            },
    {
        let mut n: usize = self.jobs.len();
        proof {
            assert(self@.jobs.take(n as int) =~= self@.jobs);
        }
        while n > 0
            invariant
                n <= self.jobs.len(),
                job_at(self@.jobs.take(n as int), id) == job_at(self@.jobs, id),
            decreases n,
        {
            proof {
                assert(self@.jobs.take(n as int).drop_last() =~= self@.jobs.take(n - 1));
                assert(self@.jobs.take(n as int).last() == self.jobs@[n - 1]@);
            }
            if self.jobs[n - 1].id == id {
                return Some(n - 1);
            }
            n -= 1;
        }
        None
    }

    /// A table of rows that were read, unless they are out of order, use an
    /// identifier twice or name a queue that is not there.
    pub fn from_rows(queues: Vec<JobQueue>, jobs: Vec<Job>) -> (r: Option<Self>)
        ensures
            match r {
                Some(table) => table.wf() && table.queues == queues && table.jobs == jobs,
                None => !(JobTable { queues, jobs }).wf(),
            },
    {
        let table = JobTable { queues, jobs };
        let mut i: usize = 0;
        while i < table.queues.len()
            invariant
                i <= table.queues.len(),
                table == (JobTable { queues, jobs }),
                forall|a: int, b: int|
                    0 <= a < b < i ==> #[trigger] text_before(
                        table@.queues[a].name,
                        table@.queues[b].name,
                    ),
            decreases table.queues.len() - i,
        {
            let mut k: usize = 0;
            while k < i
                invariant
                    k <= i < table.queues.len(),
                    table == (JobTable { queues, jobs }),
                    forall|a: int|
                        0 <= a < k ==> #[trigger] text_before(
                            table@.queues[a].name,
                            table@.queues[i as int].name,
                        ),
                decreases i - k,
            {
                if !comes_before(table.queues[k].name.as_str(), table.queues[i].name.as_str()) {
                    proof {
                        assert(!text_before(
                            table@.queues[k as int].name,
                            table@.queues[i as int].name,
                        ));
                    }
                    return None;
                }
                k += 1;
            }
            i += 1;
        }
        let mut i: usize = 0;
        while i < table.jobs.len()
            invariant
                i <= table.jobs.len(),
                table == (JobTable { queues, jobs }),
                forall|a: int, b: int|
                    0 <= a < b < i ==> (#[trigger] table@.jobs[a]).id != (
                    #[trigger] table@.jobs[b]).id,
                forall|a: int|
                    0 <= a < i ==> knows(table@.queues, (#[trigger] table@.jobs[a]).name),
            decreases table.jobs.len() - i,
        {
            let mut k: usize = 0;
            while k < i
                invariant
                    k <= i < table.jobs.len(),
                    table == (JobTable { queues, jobs }),
                    forall|a: int|
                        0 <= a < k ==> (#[trigger] table@.jobs[a]).id != table@.jobs[i as int].id,
                decreases i - k,
            {
                if table.jobs[k].id == table.jobs[i].id {
                    proof {
                        assert(table@.jobs[k as int].id == table@.jobs[i as int].id);
                        assert(repeats(table@.jobs));
                    }
                    return None;
                }
                k += 1;
            }
            if table.find_queue(table.jobs[i].name.as_str()).is_none() {
                proof {
                    assert(!knows(table@.queues, table@.jobs[i as int].name));
                }
                return None;
            }
            i += 1;
        }
        Some(table)
    }

    /// Whether a queue is known.
    pub fn require_queue(&self, name: &str) -> (r: Result<(), StoreError>)
        ensures
            match r {
                Ok(()) => knows(self@.queues, name@),
                Err(error) => !knows(self@.queues, name@) && error@
                    == StoreErrorModel::QueueNotFound(name@),
            },
    {
        match self.find_queue(name) {
            Some(_) => {
                proof {
                    lemma_queue_at(self@.queues, name@);
                }
                Ok(())
            },
            None => Err(StoreError::QueueNotFound(name.to_owned())),
        }
    }

    pub fn get_queue(&self, name: &str) -> (r: Option<JobQueue>)
        ensures
            match r {
                Some(queue) => knows(self@.queues, name@) && queue@ == self@.queues[queue_at(
                    self@.queues,
                    name@,
                )],
                None => !knows(self@.queues, name@),
            },
    {
        match self.find_queue(name) {
            Some(at) => Some(self.queues[at].clone()),
            None => None,
        }
    }

    /// The queues, in the order of their names.
    pub fn list_queues(&self) -> (r: Vec<JobQueue>)
        ensures
            views(r@) == self@.queues,
    {
        let mut r: Vec<JobQueue> = Vec::new();
        let mut i: usize = 0;
        proof {
            assert(views(r@) =~= self@.queues.take(0));
        }
        while i < self.queues.len()
            invariant
                i <= self.queues.len(),
                views(r@) == self@.queues.take(i as int),
            decreases self.queues.len() - i,
        {
            let queue = self.queues[i].clone();
            proof {
                lemma_views_push(r@, queue);
                assert(self@.queues.take(i + 1) =~= self@.queues.take(i as int).push(queue@));
            }
            r.push(queue);
            i += 1;
        }
        proof {
            assert(self@.queues.take(self@.queues.len() as int) =~= self@.queues);
        }
        r
    }

    /// Configures a queue at `now`.
    pub fn upsert_queue(&mut self, queue: JobQueue, now: i64) -> (r: JobQueue)
        requires
            old(self).wf(),
        ensures
            final(self).wf(),
            r@ == registered(old(self)@.queues, queue@, now as int),
            final(self)@.jobs == old(self)@.jobs,
            knows(final(self)@.queues, queue@.name),
            final(self)@.queues[queue_at(final(self)@.queues, queue@.name)] == r@,
            forall|name: Seq<char>|
                name != queue@.name ==> #[trigger] same_queue(
                    old(self)@.queues,
                    final(self)@.queues,
                    name,
                ),
    {
        let ghost before = self@.queues;
        let ghost jobs = self@.jobs;
        let name = queue.name.clone();
        let mut at: usize = 0;
        while at < self.queues.len() && comes_before(
            self.queues[at].name.as_str(),
            name.as_str(),
        )
            invariant
                at <= self.queues.len(),
                self@.queues == before,
                forall|k: int| 0 <= k < at ==> #[trigger] text_before(before[k].name, name@),
            decreases self.queues.len() - at,
        {
            at += 1;
        }
        proof {
            lemma_text_order_is_total(name@, name@);
            lemma_queue_at(before, name@);
        }
        let mut row = queue;
        row.updated_at = now;
        let present = at < self.queues.len() && same_text(
            self.queues[at].name.as_str(),
            name.as_str(),
        );
        if present {
            row.created_at = self.queues[at].created_at;
            proof {
                lemma_only_queue_at(before, at as int);
            }
            let kept = row.clone();
            self.queues.set(at, row);
            proof {
                let after = self@.queues;
                assert(after =~= before.update(at as int, kept@));
                assert(ordered(after));
                lemma_only_queue_at(after, at as int);
                assert forall|other: Seq<char>| other != name@ implies #[trigger] same_queue(
                    before,
                    after,
                    other,
                ) by {
                    lemma_queue_at(before, other);
                    lemma_queue_at(after, other);
                    if knows(before, other) {
                        lemma_only_queue_at(after, queue_at(before, other));
                    }
                }
                assert(self@.jobs == jobs);
                assert forall|i: int| 0 <= i < self@.jobs.len() implies knows(
                    after,
                    (#[trigger] self@.jobs[i]).name,
                ) by {
                    assert(knows(before, jobs[i].name));
                    if jobs[i].name != name@ {
                        assert(same_queue(before, after, jobs[i].name));
                    }
                }
            }
            kept
        } else {
            proof {
                if knows(before, name@) {
                    let k = queue_at(before, name@);
                    if k < at {
                        assert(text_before(before[k].name, name@));
                    } else if k > at {
                        assert(text_before(before[at as int].name, before[k].name));
                        lemma_text_order_is_total(before[at as int].name, name@);
                    }
                    assert(false);
                }
            }
            let kept = row.clone();
            self.queues.insert(at, row);
            proof {
                let after = self@.queues;
                assert(after =~= before.insert(at as int, kept@));
                assert forall|i: int, j: int| 0 <= i < j < after.len() implies #[trigger] text_before(
                    after[i].name,
                    after[j].name,
                ) by {
                    if j < at {
                        assert(text_before(before[i].name, before[j].name));
                    } else if j == at {
                        assert(text_before(before[i].name, name@));
                    } else {
                        lemma_text_order_is_total(before[at as int].name, name@);
                        assert(text_before(name@, before[at as int].name));
                        if j - 1 > at {
                            assert(text_before(before[at as int].name, before[j - 1].name));
                            lemma_text_order_is_transitive(
                                name@,
                                before[at as int].name,
                                before[j - 1].name,
                            );
                        }
                        if i < at {
                            assert(text_before(before[i].name, name@));
                            lemma_text_order_is_transitive(
                                before[i].name,
                                name@,
                                before[j - 1].name,
                            );
                        } else if i > at {
                            assert(text_before(before[i - 1].name, before[j - 1].name));
                        }
                    }
                }
                lemma_only_queue_at(after, at as int);
                assert forall|other: Seq<char>| other != name@ implies #[trigger] same_queue(
                    before,
                    after,
                    other,
                ) by {
                    lemma_queue_at(before, other);
                    lemma_queue_at(after, other);
                    if knows(before, other) {
                        let k = queue_at(before, other);
                        lemma_only_queue_at(
                            after,
                            if k < at {
                                k
                            } else {
                                k + 1
                            },
                        );
                    } else if knows(after, other) {
                        let k = queue_at(after, other);
                        assert(after[k].name == other);
                        assert(k != at);
                        assert(before[if k < at {
                            k
                        } else {
                            k - 1
                        }].name == other);
                    }
                }
                assert(self@.jobs == jobs);
                assert forall|i: int| 0 <= i < self@.jobs.len() implies knows(
                    after,
                    (#[trigger] self@.jobs[i]).name,
                ) by {
                    assert(knows(before, jobs[i].name));
                    assert(same_queue(before, after, jobs[i].name));
                }
            }
            kept
        }
    }

    /// The job of an identifier.
    pub fn get_job(&self, id: u128) -> (r: Result<Job, StoreError>)
        ensures
            is_outcome(r, found_job(self@.jobs, id)),
    {
        match self.find_job(id) {
            Some(at) => Ok(self.jobs[at].clone()),
            None => Err(StoreError::NotFound(id)),
        }
    }

    /// What has become of the job of an identifier.
    pub fn status(&self, id: u128) -> (r: Result<JobStatus, StoreError>)
        ensures
            match (r, found_job(self@.jobs, id)) {
                (Ok(status), Ok(job)) => status == job.status,
                (Err(error), Err(expected)) => error@ == expected,
                _ => false,
            },
    {
        match self.get_job(id) {
            Ok(job) => Ok(job.status),
            Err(error) => Err(error),
        }
    }

    /// The jobs of a batch whose queues are known.
    fn select(&self, batch: &Vec<Job>) -> (r: Vec<Job>)
        ensures
            views(r@) == admitted(self@.queues, views(batch@)),
    {
        let mut r: Vec<Job> = Vec::new();
        let mut i: usize = 0;
        let ghost all = views(batch@);
        proof {
            assert(views(r@) =~= admitted(self@.queues, all.take(0)));
        }
        while i < batch.len()
            invariant
                i <= batch.len(),
                all == views(batch@),
                views(r@) == admitted(self@.queues, all.take(i as int)),
            decreases batch.len() - i,
        {
            proof {
                assert(all.take(i + 1).drop_last() =~= all.take(i as int));
                assert(all.take(i + 1).last() == batch@[i as int]@);
                lemma_queue_at(self@.queues, batch@[i as int].name@);
            }
            if self.find_queue(batch[i].name.as_str()).is_some() {
                let job = batch[i].clone();
                proof {
                    lemma_views_push(r@, job);
                }
                r.push(job);
            }
            i += 1;
        }
        proof {
            assert(all.take(all.len() as int) =~= all);
        }
        r
    }

    /// Whether adding jobs would use an identifier twice.
    fn clashes_with(&self, added: &Vec<Job>) -> (r: bool)
        requires
            self.wf(),
        ensures
            r == repeats(self@.jobs + views(added@)),
    {
        let ghost both = self@.jobs + views(added@);
        let mut i: usize = 0;
        while i < added.len()
            invariant
                i <= added.len(),
                both == self@.jobs + views(added@),
                !repeats(self@.jobs),
                forall|a: int, b: int|
                    0 <= a < b < self@.jobs.len() + i ==> (#[trigger] both[a]).id != (
                    #[trigger] both[b]).id,
            decreases added.len() - i,
        {
            let ghost here = self@.jobs.len() + i;
            proof {
                assert(both[here] == added@[i as int]@);
                lemma_job_at(self@.jobs, added@[i as int].id);
            }
            if let Some(at) = self.find_job(added[i].id) {
                proof {
                    assert(both[at as int] == self@.jobs[at as int]);
                    assert(both[at as int].id == both[here].id);
                    assert(repeats(both));
                }
                return true;
            }
            let mut k: usize = 0;
            while k < i
                invariant
                    k <= i < added.len(),
                    both == self@.jobs + views(added@),
                    here == self@.jobs.len() + i,
                    both[here] == added@[i as int]@,
                    forall|a: int|
                        0 <= a < self@.jobs.len() + k ==> (#[trigger] both[a]).id
                            != both[here].id,
                decreases i - k,
            {
                proof {
                    assert(both[self@.jobs.len() + k] == added@[k as int]@);
                }
                if added[k].id == added[i].id {
                    proof {
                        assert(both[self@.jobs.len() + k].id == both[here].id);
                        assert(repeats(both));
                    }
                    return true;
                }
                k += 1;
            }
            i += 1;
        }
        false
    }

    /// Takes a batch of jobs in. A job of an unknown queue is refused by itself.
    /// The others are taken in together or not at all: they are refused where an
    /// identifier would be used twice.
    pub fn enqueue_batch(&mut self, batch: Vec<Job>) -> (r: Vec<Result<Job, StoreError>>)
        requires
            old(self).wf(),
        ensures
            final(self).wf(),
            final(self)@.queues == old(self)@.queues,
            ({
                let added = admitted(old(self)@.queues, views(batch@));
                let clash = repeats(old(self)@.jobs + added);
                &&& final(self)@.jobs == if clash {
                    old(self)@.jobs
                } else {
                    old(self)@.jobs + added
                }
                &&& r@.len() == batch@.len()
                &&& forall|i: int|
                    0 <= i < batch@.len() ==> is_outcome(
                        #[trigger] r@[i],
                        enqueue_answer(old(self)@.queues, clash, batch@[i]@),
                    )
            }),
    {
        let ghost before = self@;
        let mut added = self.select(&batch);
        let ghost more = views(added@);
        let clash = self.clashes_with(&added);
        if !clash {
            self.jobs.append(&mut added);
            proof {
                assert(self@.jobs =~= before.jobs + more);
                lemma_admitted(before.queues, views(batch@));
                assert forall|i: int| 0 <= i < self@.jobs.len() implies knows(
                    self@.queues,
                    (#[trigger] self@.jobs[i]).name,
                ) by {
                    if i < before.jobs.len() {
                        assert(knows(before.queues, before.jobs[i].name));
                    } else {
                        assert(self@.jobs[i] == more[i - before.jobs.len()]);
                    }
                }
            }
        }
        let mut r: Vec<Result<Job, StoreError>> = Vec::new();
        let mut i: usize = 0;
        while i < batch.len()
            invariant
                i <= batch.len(),
                self@.queues == before.queues,
                r@.len() == i,
                forall|k: int|
                    0 <= k < i ==> is_outcome(
                        #[trigger] r@[k],
                        enqueue_answer(before.queues, clash, batch@[k]@),
                    ),
            decreases batch.len() - i,
        {
            let answer = match self.require_queue(batch[i].name.as_str()) {
                Err(error) => Err(error),
                Ok(()) => if clash {
                    Err(StoreError::Internal("UNIQUE constraint failed: jobs.id".to_owned()))
                } else {
                    Ok(batch[i].clone())
                },
            };
            r.push(answer);
            i += 1;
        }
        r
    }

    /// Where the oldest job stands that waits in a queue.
    fn find_pending(&self, queue: &str) -> (r: Option<usize>)
        ensures
            match r {
                Some(at) => at == first_pending(self@.jobs, queue@) && at < self.jobs.len(),
                None => first_pending(self@.jobs, queue@) < 0,
            },
    {
        let mut found: Option<usize> = None;
        let mut i: usize = 0;
        proof {
            assert(self@.jobs.take(0) =~= Seq::<JobModel>::empty());
        }
        while i < self.jobs.len()
            invariant
                i <= self.jobs.len(),
                match found {
                    Some(at) => at < i && at == first_pending(self@.jobs.take(i as int), queue@),
                    None => first_pending(self@.jobs.take(i as int), queue@) == -1,
                },
            decreases self.jobs.len() - i,
        {
            let ghost now = self@.jobs.take(i + 1);
            proof {
                assert(now.drop_last() =~= self@.jobs.take(i as int));
                assert(now.last() == self.jobs@[i as int]@);
            }
            if same_text(self.jobs[i].name.as_str(), queue) && self.jobs[i].status
                == JobStatus::Pending {
                let older = match found {
                    None => true,
                    Some(at) => self.jobs[i].created_at < self.jobs[at].created_at,
                };
                if older {
                    found = Some(i);
                }
            }
            i += 1;
        }
        proof {
            assert(self@.jobs.take(self@.jobs.len() as int) =~= self@.jobs);
        }
        found
    }

    /// Hands out the oldest job that waits in a queue, for `lease_duration_secs`
    /// from `now` on.
    pub fn claim_next(&mut self, queue_name: &str, lease_duration_secs: i64, now: i64) -> (r: Result<
        Option<Job>,
        StoreError,
    >)
        requires
            old(self).wf(),
            first_pending(old(self)@.jobs, queue_name@) >= 0 ==> i64::MIN <= now
                + lease_duration_secs <= i64::MAX,
        ensures
            final(self).wf(),
            final(self)@.queues == old(self)@.queues,
            ({
                let jobs = old(self)@.jobs;
                let first = first_pending(jobs, queue_name@);
                match r {
                    Err(error) => {
                        &&& !knows(old(self)@.queues, queue_name@)
                        &&& error@ == StoreErrorModel::QueueNotFound(queue_name@)
                        &&& final(self)@.jobs == jobs
                    },
                    Ok(None) => {
                        &&& knows(old(self)@.queues, queue_name@)
                        &&& first < 0
                        &&& final(self)@.jobs == jobs
                    },
                    Ok(Some(job)) => {
                        &&& knows(old(self)@.queues, queue_name@)
                        &&& 0 <= first < jobs.len()
                        &&& job@ == claimed(jobs[first], lease_duration_secs, now)
                        &&& final(self)@.jobs == jobs.update(first, job@)
                    },
                }
            }),
    {
        match self.require_queue(queue_name) {
            Ok(()) => {},
            Err(error) => return Err(error),
        }
        let at = match self.find_pending(queue_name) {
            Some(at) => at,
            None => return Ok(None),
        };
        let ghost before = self@;
        let mut job = self.jobs[at].clone();
        job.status = JobStatus::Running;
        job.lease_expires_at = Some(now + lease_duration_secs);
        job.updated_at = now;
        let kept = job.clone();
        self.jobs.set(at, job);
        proof {
            assert(self@.jobs =~= before.jobs.update(at as int, kept@));
            assert forall|i: int| 0 <= i < self@.jobs.len() implies knows(
                self@.queues,
                (#[trigger] self@.jobs[i]).name,
            ) by {
                assert(knows(before.queues, before.jobs[i].name));
            }
            assert(!repeats(self@.jobs)) by {
                if repeats(self@.jobs) {
                    let (i, j) = choose|i: int, j: int|
                        0 <= i < j < self@.jobs.len() && (#[trigger] self@.jobs[i]).id == (
                        #[trigger] self@.jobs[j]).id;
                    assert(before.jobs[i].id == before.jobs[j].id);
                }
            }
        }
        Ok(Some(kept))
    }

    /// Lets the jobs wait again whose leases have run out at `now`.
    pub fn recover_stale_leases(&mut self, now: i64) -> (r: Vec<Job>)
        requires
            old(self).wf(),
            forall|i: int|
                0 <= i < old(self)@.jobs.len() && is_stale(#[trigger] old(self)@.jobs[i], now)
                    ==> old(self)@.jobs[i].attempt < u32::MAX,
        ensures
            final(self).wf(),
            final(self)@.queues == old(self)@.queues,
            final(self)@.jobs == after_recovery(old(self)@.jobs, now),
            views(r@) == recoveries(old(self)@.jobs, now),
    {
        let ghost before = self@;
        let ghost after = after_recovery(before.jobs, now);
        let mut r: Vec<Job> = Vec::new();
        let mut i: usize = 0;
        proof {
            assert(before.jobs.take(0) =~= Seq::<JobModel>::empty());
            assert(views(r@) =~= Seq::<JobModel>::empty());
        }
        while i < self.jobs.len()
            invariant
                i <= self.jobs.len(),
                self.jobs.len() == before.jobs.len(),
                self@.queues == before.queues,
                after == after_recovery(before.jobs, now),
                forall|k: int| 0 <= k < i ==> #[trigger] self@.jobs[k] == after[k],
                forall|k: int|
                    i <= k < self@.jobs.len() ==> #[trigger] self@.jobs[k] == before.jobs[k],
                views(r@) == recoveries(before.jobs.take(i as int), now),
                forall|k: int|
                    0 <= k < before.jobs.len() && is_stale(#[trigger] before.jobs[k], now)
                        ==> before.jobs[k].attempt < u32::MAX,
            decreases self.jobs.len() - i,
        {
            let ghost held = self@.jobs;
            proof {
                assert(before.jobs.take(i + 1).drop_last() =~= before.jobs.take(i as int));
                assert(before.jobs.take(i + 1).last() == before.jobs[i as int]);
                assert(self@.jobs[i as int] == self.jobs@[i as int]@);
            }
            let stale = self.jobs[i].status == JobStatus::Running && match self.jobs[i].lease_expires_at {
                Some(lease) => lease < now,
                None => false,
            };
            if stale {
                let mut job = self.jobs[i].clone();
                job.status = JobStatus::Pending;
                job.lease_expires_at = None;
                job.attempt = job.attempt + 1;
                job.updated_at = now;
                let kept = job.clone();
                self.jobs.set(i, job);
                proof {
                    assert(self@.jobs =~= held.update(i as int, kept@));
                    lemma_views_push(r@, kept);
                }
                r.push(kept);
            }
            i += 1;
        }
        proof {
            assert(self@.jobs =~= after);
            assert(before.jobs.take(before.jobs.len() as int) =~= before.jobs);
            assert forall|k: int| 0 <= k < self@.jobs.len() implies knows(
                self@.queues,
                (#[trigger] self@.jobs[k]).name,
            ) by {
                assert(knows(before.queues, before.jobs[k].name));
            }
            assert(!repeats(self@.jobs)) by {
                if repeats(self@.jobs) {
                    let (a, b) = choose|a: int, b: int|
                        0 <= a < b < self@.jobs.len() && (#[trigger] self@.jobs[a]).id == (
                        #[trigger] self@.jobs[b]).id;
                    assert(before.jobs[a].id == before.jobs[b].id);
                }
            }
        }
        r
    }
}

/// The job that is handed out is the oldest that waits in its queue, and of
/// several equally old the one that was accepted first.
pub proof fn oldest_pending_job_is_claimed(jobs: Seq<JobModel>, queue: Seq<char>)
    requires
        first_pending(jobs, queue) >= 0,
    ensures
        ({
            let first = first_pending(jobs, queue);
            &&& first < jobs.len()
            &&& waits_in(jobs[first], queue)
            &&& forall|k: int|
                0 <= k < jobs.len() && waits_in(#[trigger] jobs[k], queue)
                    ==> jobs[first].created_at < jobs[k].created_at || (jobs[first].created_at
                    == jobs[k].created_at && first <= k)
        }),
{
    lemma_first_pending(jobs, queue);
}

/// While a job waits in a queue, asking for one is not in vain.
pub proof fn waiting_jobs_are_found(jobs: Seq<JobModel>, queue: Seq<char>, at: int)
    requires
        0 <= at < jobs.len(),
        waits_in(jobs[at], queue),
    ensures
        first_pending(jobs, queue) >= 0,
{
    lemma_first_pending(jobs, queue);
}

/// A job that is taken in can be read back unchanged, whatever else was in its
/// batch, unless an identifier was used twice.
pub proof fn accepted_jobs_read_back(
    before: JobTable,
    batch: Seq<JobModel>,
    after: JobTable,
    at: int,
)
    requires
        before.wf(),
        after.wf(),
        !repeats(before@.jobs + admitted(before@.queues, batch)),
        after@.jobs == before@.jobs + admitted(before@.queues, batch),
        0 <= at < batch.len(),
        knows(before@.queues, batch[at].name),
    ensures
        found_job(after@.jobs, batch[at].id) == Ok::<JobModel, StoreErrorModel>(batch[at]),
{
    lemma_admitted(before@.queues, batch);
    let added = admitted(before@.queues, batch);
    assert(added.contains(batch[at]));
    let k = choose|k: int| 0 <= k < added.len() && added[k] == batch[at];
    let place = before@.jobs.len() + k;
    assert(after@.jobs[place] == batch[at]);
    lemma_only_job_at(after@.jobs, place);
}

/// A job that was handed out waits again, with one more attempt and no lease,
/// once its lease has run out, and not before.
pub proof fn leases_are_recovered_when_they_run_out(
    job: JobModel,
    lease: i64,
    claimed_at: i64,
    now: i64,
)
    requires
        i64::MIN <= claimed_at + lease <= i64::MAX,
    ensures
        is_stale(claimed(job, lease, claimed_at), now) <==> claimed_at + lease < now,
        ({
            let again = recovered(claimed(job, lease, claimed_at), now);
            &&& again.status == JobStatus::Pending
            &&& again.attempt == job.attempt + 1
            &&& again.lease_expires_at is None
            &&& again.id == job.id
            &&& again.name == job.name
            &&& again.payload == job.payload
            &&& again.created_at == job.created_at
        }),
{
}

/// After a recovery no lease is left that has run out, and a second one at the
/// same time changes nothing.
pub proof fn recovery_is_complete(jobs: Seq<JobModel>, now: i64)
    ensures
        forall|i: int|
            0 <= i < jobs.len() ==> !is_stale(#[trigger] after_recovery(jobs, now)[i], now),
        after_recovery(after_recovery(jobs, now), now) == after_recovery(jobs, now),
{
    let once = after_recovery(jobs, now);
    assert forall|i: int| 0 <= i < jobs.len() implies !is_stale(#[trigger] once[i], now) by {}
    assert(after_recovery(once, now) =~= once);
}

/// A queue is known exactly if a row has its name, and that row is what its
/// name stands for.
pub proof fn queues_go_by_their_names(rows: Seq<QueueModel>, name: Seq<char>)
    ensures
        knows(rows, name) <==> exists|k: int| 0 <= k < rows.len() && (#[trigger] rows[k]).name == name,
        knows(rows, name) ==> 0 <= queue_at(rows, name) < rows.len() && rows[queue_at(
            rows,
            name,
        )].name == name,
    decreases rows.len(),
{
    if rows.len() > 0 {
        let fewer = rows.drop_last();
        queues_go_by_their_names(fewer, name);
        if rows.last().name == name {
            assert(rows[rows.len() - 1].name == name);
        } else {
            if knows(fewer, name) {
                assert(rows[queue_at(fewer, name)].name == name);
            }
            if exists|k: int| 0 <= k < rows.len() && (#[trigger] rows[k]).name == name {
                let k = choose|k: int| 0 <= k < rows.len() && (#[trigger] rows[k]).name == name;
                assert(fewer[k].name == name);
            }
        }
    }
}

/// A job is found under its identifier, and an identifier that no job has is
/// an error.
pub proof fn jobs_go_by_their_identifiers(jobs: Seq<JobModel>, id: u128)
    ensures
        match found_job(jobs, id) {
            Ok(job) => jobs.contains(job) && job.id == id,
            Err(error) => {
                &&& error == StoreErrorModel::NotFound(id)
                &&& forall|k: int| 0 <= k < jobs.len() ==> (#[trigger] jobs[k]).id != id
            },
        },
    decreases jobs.len(),
{
    if jobs.len() > 0 {
        let fewer = jobs.drop_last();
        jobs_go_by_their_identifiers(fewer, id);
        if jobs.last().id == id {
            assert(jobs[jobs.len() - 1].id == id);
        } else if job_at(fewer, id) >= 0 {
            let job = found_job(fewer, id)->Ok_0;
            lemma_job_at(fewer, id);
            assert(jobs[job_at(fewer, id)] == job);
        } else {
            assert forall|k: int| 0 <= k < jobs.len() implies (#[trigger] jobs[k]).id != id by {
                if k < fewer.len() {
                    assert(fewer[k].id != id);
                }
            }
        }
    }
}

/// A job that is handed out is the one that has waited longest in the queue
/// asked for. It keeps its identifier, its queue, its payload, its attempts and
/// its age, and runs on a lease of the length asked for. Nothing is handed out
/// only where nothing waits in the queue.
pub proof fn claims_hand_out_what_was_accepted(
    jobs: Seq<JobModel>,
    queue: Seq<char>,
    lease: i64,
    now: i64,
)
    requires
        i64::MIN <= now + lease <= i64::MAX,
    ensures
        ({
            let first = first_pending(jobs, queue);
            let job = claimed(jobs[first], lease, now);
            &&& first < 0 <==> forall|k: int|
                0 <= k < jobs.len() ==> (#[trigger] jobs[k]).name != queue || jobs[k].status
                    != JobStatus::Pending
            &&& first >= 0 ==> {
                &&& first < jobs.len()
                &&& jobs[first].name == queue
                &&& jobs[first].status == JobStatus::Pending
                &&& forall|k: int|
                    0 <= k < jobs.len() && (#[trigger] jobs[k]).name == queue && jobs[k].status
                        == JobStatus::Pending ==> jobs[first].created_at < jobs[k].created_at || (
                    jobs[first].created_at == jobs[k].created_at && first <= k)
                &&& job.id == jobs[first].id
                &&& job.name == jobs[first].name
                &&& job.payload == jobs[first].payload
                &&& job.attempt == jobs[first].attempt
                &&& job.created_at == jobs[first].created_at
                &&& job.status == JobStatus::Running
                &&& job.lease_expires_at is Some
                &&& job.lease_expires_at->Some_0 == now + lease
                &&& job.updated_at == now
            }
        }),
{
    let first = first_pending(jobs, queue);
    lemma_first_pending(jobs, queue);
    if first >= 0 {
        oldest_pending_job_is_claimed(jobs, queue);
        assert(jobs[first].name == queue);
        assert forall|k: int|
            0 <= k < jobs.len() && (#[trigger] jobs[k]).name == queue && jobs[k].status
                == JobStatus::Pending implies jobs[first].created_at < jobs[k].created_at || (
        jobs[first].created_at == jobs[k].created_at && first <= k) by {
            assert(waits_in(jobs[k], queue));
        }
    } else {
        assert forall|k: int| 0 <= k < jobs.len() implies (#[trigger] jobs[k]).name != queue
            || jobs[k].status != JobStatus::Pending by {
            if waits_in(jobs[k], queue) {
                waiting_jobs_are_found(jobs, queue, k);
            }
        }
    }
}

/// Recovery touches exactly the jobs that run on a lease which ended before
/// `now`: they wait again, without a lease and with one more attempt, and keep
/// everything else. Those are the jobs it gives back, in order.
pub proof fn live_leases_are_left_alone(jobs: Seq<JobModel>, now: i64)
    ensures
        after_recovery(jobs, now).len() == jobs.len(),
        forall|i: int|
            0 <= i < jobs.len() ==> {
                let before = jobs[i];
                let job = #[trigger] after_recovery(jobs, now)[i];
                let over = before.status == JobStatus::Running && before.lease_expires_at is Some
                    && before.lease_expires_at->Some_0 < now;
                &&& !over ==> job == before
                &&& over ==> {
                    &&& job.id == before.id
                    &&& job.name == before.name
                    &&& job.status == JobStatus::Pending
                    &&& job.payload == before.payload
                    &&& job.attempt == before.attempt + 1
                    &&& job.lease_expires_at is None
                    &&& job.created_at == before.created_at
                    &&& job.updated_at == now
                }
            },
{
}

/// Recovery gives back each job that it lets wait again, and no other.
pub proof fn recovered_jobs_are_given_back(jobs: Seq<JobModel>, now: i64, job: JobModel)
    ensures
        recoveries(Seq::empty(), now).len() == 0,
        ({
            let before = recoveries(jobs, now);
            let after = recoveries(jobs.push(job), now);
            let over = job.status == JobStatus::Running && job.lease_expires_at is Some
                && job.lease_expires_at->Some_0 < now;
            &&& !over ==> after == before
            &&& over ==> {
                &&& after.len() == before.len() + 1
                &&& after.drop_last() == before
                &&& after.last().id == job.id
                &&& after.last().name == job.name
                &&& after.last().status == JobStatus::Pending
                &&& after.last().payload == job.payload
                &&& after.last().attempt == job.attempt + 1
                &&& after.last().lease_expires_at is None
                &&& after.last().created_at == job.created_at
                &&& after.last().updated_at == now
            }
        }),
{
    assert(jobs.push(job).drop_last() =~= jobs);
    assert(jobs.push(job).last() == job);
    if is_stale(job, now) {
        assert(recoveries(jobs.push(job), now).drop_last() =~= recoveries(jobs, now));
    }
}

/// The jobs of a batch are taken in as they come, in order, but for those whose
/// queue is not known. Each is answered with itself; with its queue where that
/// is not known; and with an error where an identifier is used twice.
pub proof fn batches_are_taken_in_as_they_come(
    rows: Seq<QueueModel>,
    batch: Seq<JobModel>,
    job: JobModel,
    clash: bool,
)
    ensures
        admitted(rows, Seq::empty()).len() == 0,
        ({
            let known = exists|k: int| 0 <= k < rows.len() && (#[trigger] rows[k]).name == job.name;
            &&& known ==> admitted(rows, batch.push(job)) == admitted(rows, batch).push(job)
            &&& !known ==> admitted(rows, batch.push(job)) == admitted(rows, batch)
            &&& known && !clash ==> enqueue_answer(rows, clash, job) == Ok::<
                JobModel,
                StoreErrorModel,
            >(job)
            &&& known && clash ==> enqueue_answer(rows, clash, job) == Err::<
                JobModel,
                StoreErrorModel,
            >(StoreErrorModel::Internal("UNIQUE constraint failed: jobs.id"@))
            &&& !known ==> enqueue_answer(rows, clash, job) == Err::<JobModel, StoreErrorModel>(
                StoreErrorModel::QueueNotFound(job.name),
            )
        }),
{
    assert(batch.push(job).drop_last() =~= batch);
    assert(batch.push(job).last() == job);
    queues_go_by_their_names(rows, job.name);
}

/// A configured queue has the policy it was given and the time of this
/// configuration; the time of the first one stays.
pub proof fn configuring_replaces_the_policy(
    rows: Seq<QueueModel>,
    queue: QueueModel,
    now: int,
    k: int,
)
    requires
        ordered(rows),
    ensures
        registered(rows, queue, now).name == queue.name,
        registered(rows, queue, now).concurrency == queue.concurrency,
        registered(rows, queue, now).max_retries == queue.max_retries,
        registered(rows, queue, now).updated_at == now,
        0 <= k < rows.len() && rows[k].name == queue.name ==> registered(
            rows,
            queue,
            now,
        ).created_at == rows[k].created_at,
        (forall|i: int| 0 <= i < rows.len() ==> (#[trigger] rows[i]).name != queue.name)
            ==> registered(rows, queue, now).created_at == queue.created_at,
{
    queues_go_by_their_names(rows, queue.name);
    if 0 <= k < rows.len() && rows[k].name == queue.name {
        let at = queue_at(rows, queue.name);
        lemma_text_order_is_total(queue.name, queue.name);
        if k < at {
            assert(text_before(rows[k].name, rows[at].name));
        } else if at < k {
            assert(text_before(rows[at].name, rows[k].name));
        }
    }
}

/// Where a name stands for the same in two tables, it is known in both or in
/// neither, and the row that one has for it the other has too.
pub proof fn names_stand_for_the_same(
    before: Seq<QueueModel>,
    after: Seq<QueueModel>,
    name: Seq<char>,
)
    requires
        same_queue(before, after, name),
    ensures
        (exists|k: int| 0 <= k < before.len() && (#[trigger] before[k]).name == name) <==> (
        exists|k: int| 0 <= k < after.len() && (#[trigger] after[k]).name == name),
        knows(before, name) ==> before[queue_at(before, name)] == after[queue_at(after, name)]
            && before[queue_at(before, name)].name == name,
{
    queues_go_by_their_names(before, name);
    queues_go_by_their_names(after, name);
}

} // verus!
