//! The writer of a single database: which requests there are, how it gathers
//! jobs before it writes them, and what it does with the other requests.

use crate::persistence::queues::{lemma_views_push, views};
use crate::single::options::{adapt_live_wait, adapted, FlushReason, SqliteWriteOptions};
use crate::single::store::{
    after_recovery, admitted, claimed, enqueue_answer, first_pending, found_job, is_stale, knows, queue_at,
    recoveries, registered, repeats, same_queue, JobTable, TableModel,
};
use crate::single::{
    is_outcome, Job, JobModel, JobQueue, JobStatus, StoreError, StoreErrorModel,
};
use crate::span::Span;
use vstd::prelude::*;

verus! {

/// What the store can be asked.
pub enum DbRequest {
    UpsertQueue { queue: JobQueue },
    GetQueue { name: String },
    ListQueues,
    Enqueue { job: Job },
    GetJob { job_id: u128 },
    Status { job_id: u128 },
    ClaimNext { queue_name: String, lease_duration_secs: i64 },
    RecoverStaleLeases { now: i64 },
}

/// What the store answers.
pub enum DbReply {
    Queue(JobQueue),
    FoundQueue(Option<JobQueue>),
    Queues(Vec<JobQueue>),
    Job(Result<Job, StoreError>),
    Status(Result<JobStatus, StoreError>),
    Claimed(Result<Option<Job>, StoreError>),
    Recovered(Vec<Job>),
}

/// A request with the number by which its answer finds its way back.
pub struct Ticketed {
    pub ticket: u64,
    pub request: DbRequest,
}

/// A job that waits to be written.
pub struct PendingEnqueue {
    pub ticket: u64,
    pub job: Job,
}

/// What a job that waits to be written holds.
#[verifier::ext_equal]
pub struct PendingModel {
    pub ticket: u64,
    pub job: JobModel,
}

impl View for PendingEnqueue {
    type V = PendingModel;

    open spec fn view(&self) -> PendingModel {
        PendingModel { ticket: self.ticket, job: self.job@ }
    }
}

/// What the writer has to do before it takes its next step.
#[derive(Debug, Clone, Copy, PartialEq, Eq)]
pub enum WriterWait {
    /// Wait for a request.
    Receive,
    /// Wait for a request, but not for longer than this.
    ReceiveFor(Span),
    /// Take a request only if there is one already.
    TryReceive,
    /// Nothing more.
    Stop,
}

/// What came of waiting.
pub enum WriterInput {
    Request(Ticketed),
    /// There was no request yet.
    Empty,
    /// The time ran out.
    TimedOut,
    /// There will be no more requests.
    Closed,
}

/// What the writer does next: it writes the jobs, and then it sees to the
/// request.
pub struct WriterStep {
    pub flush: Vec<PendingEnqueue>,
    pub request: Option<Ticketed>,
}

/// The writer's state between two steps.
pub struct Writer {
    pub options: SqliteWriteOptions,
    /// The jobs that wait to be written, in the order in which they came.
    pub pending: Vec<PendingEnqueue>,
    /// When the first of them came.
    pub opened: Option<Span>,
    /// How long the first of them waits at most.
    pub live_wait: Span,
    /// Whether requests that are there already are being taken.
    pub filling: bool,
    pub stopped: bool,
}

/// The job that an input brings, if it brings one.
pub open spec fn brought(input: WriterInput) -> Seq<PendingModel> {
    match input {
        WriterInput::Request(ticketed) => match ticketed.request {
            DbRequest::Enqueue { job } => seq![PendingModel { ticket: ticketed.ticket, job: job@ }],
            _ => Seq::empty(),
        },
        _ => Seq::empty(),
    }
}

/// Why an input makes a writer with `waiting` jobs write, if it does.
pub open spec fn flush_cause(waiting: nat, batch_size: usize, input: WriterInput) -> Option<
    FlushReason,
> {
    match input {
        WriterInput::Request(ticketed) => if ticketed.request is Enqueue {
            if waiting + 1 >= batch_size {
                Some(FlushReason::FullBatch)
            } else {
                None
            }
        } else if waiting > 0 {
            Some(FlushReason::Interrupted)
        } else {
            None
        },
        WriterInput::Empty => None,
        WriterInput::TimedOut => Some(FlushReason::Timeout),
        WriterInput::Closed => if waiting > 0 {
            Some(FlushReason::Timeout)
        } else {
            None
        },
    }
}

/// Why an input makes the writer write, if it does.
pub open spec fn flush_reason(writer: Writer, input: WriterInput) -> Option<FlushReason> {
    flush_cause(writer.pending@.len(), writer.options.batch_size, input)
}

/// The tickets of jobs, in order.
pub open spec fn tickets(jobs: Seq<PendingModel>) -> Seq<u64> {
    jobs.map_values(|job: PendingModel| job.ticket)
}

/// The ticket of the request that an input brings, if it brings one that is not
/// a job.
pub open spec fn other_ticket(input: WriterInput) -> Seq<u64> {
    match input {
        WriterInput::Request(ticketed) => if ticketed.request is Enqueue {
            Seq::empty()
        } else {
            seq![ticketed.ticket]
        },
        _ => Seq::empty(),
    }
}

/// The ticket of the request that an input brings, if it brings one.
pub open spec fn asked(input: WriterInput) -> Seq<u64> {
    tickets(brought(input)) + other_ticket(input)
}

/// The tickets that a step sees to, in order.
pub open spec fn seen_to(step: WriterStep) -> Seq<u64> {
    tickets(views(step.flush@)) + (match step.request {
        Some(ticketed) => seq![ticketed.ticket],
        None => Seq::empty(),
    })
}

/// Which tickets have been seen to, in order, and which wait.
#[verifier::ext_equal]
pub struct Account {
    pub seen: Seq<u64>,
    pub waiting: Seq<u64>,
}

/// What one step sees to and leaves, where `waiting` waited.
pub open spec fn stepped(waiting: Seq<u64>, batch_size: usize, input: WriterInput) -> Account {
    let jobs = waiting + tickets(brought(input));
    if flush_cause(waiting.len(), batch_size, input) is Some {
        Account { seen: jobs + other_ticket(input), waiting: Seq::empty() }
    } else {
        Account { seen: other_ticket(input), waiting: jobs }
    }
}

/// What a writer has seen to, and what waits, after `inputs`.
pub open spec fn account(batch_size: usize, inputs: Seq<WriterInput>) -> Account
    decreases inputs.len(),
{
    if inputs.len() == 0 {
        Account { seen: Seq::empty(), waiting: Seq::empty() }
    } else {
        let before = account(batch_size, inputs.drop_last());
        let step = stepped(before.waiting, batch_size, inputs.last());
        Account { seen: before.seen + step.seen, waiting: step.waiting }
    }
}

/// The tickets of all requests that `inputs` bring, in the order in which they
/// come.
pub open spec fn all_asked(inputs: Seq<WriterInput>) -> Seq<u64>
    decreases inputs.len(),
{
    if inputs.len() == 0 {
        Seq::empty()
    } else {
        all_asked(inputs.drop_last()) + asked(inputs.last())
    }
}

/// Over a whole run requests are seen to in the order in which they came, each
/// once: what has been seen to and what still waits is what has come. So a
/// request that is not a job is seen to after the jobs that came before it, and
/// once there will be no more requests none is left.
pub proof fn requests_are_seen_to_once_and_in_order(batch_size: usize, inputs: Seq<WriterInput>)
    ensures
        account(batch_size, inputs).seen + account(batch_size, inputs).waiting == all_asked(inputs),
        inputs.len() > 0 && inputs.last() is Closed ==> account(batch_size, inputs).seen
            == all_asked(inputs),
        inputs.len() > 0 && other_ticket(inputs.last()).len() > 0 ==> account(
            batch_size,
            inputs,
        ).seen == all_asked(inputs),
    decreases inputs.len(),
{
    if inputs.len() > 0 {
        requests_are_seen_to_once_and_in_order(batch_size, inputs.drop_last());
        let before = account(batch_size, inputs.drop_last());
        let after = account(batch_size, inputs);
        let input = inputs.last();
        assert(after.seen + after.waiting =~= before.seen + before.waiting + asked(input));
        if input is Closed || other_ticket(input).len() > 0 {
            assert(after.waiting =~= Seq::<u64>::empty());
            assert(after.seen + after.waiting =~= after.seen);
        }
    } else {
        assert(account(batch_size, inputs).seen + account(batch_size, inputs).waiting
            =~= all_asked(inputs));
    }
}

impl Writer {
    /// Jobs that wait have a time at which the first of them came, and are too
    /// few for a batch. A writer that has stopped holds none back.
    pub open spec fn wf(&self) -> bool {
        &&& self.options.wf()
        &&& self.pending@.len() > 0 <==> self.opened is Some
        &&& self.pending@.len() > 0 ==> self.pending@.len() < self.options.batch_size
        &&& self.filling ==> self.pending@.len() > 0
        &&& self.stopped ==> self.pending@.len() == 0
    }

    /// A writer that has not been asked anything yet.
    pub fn new(options: SqliteWriteOptions) -> (r: Self)
        requires
            options.wf(),
        ensures
            r.wf(),
            r.options == options,
            r.pending@.len() == 0,
            r.live_wait == options.first_wait(),
            !r.filling,
            !r.stopped,
    {
        let live_wait = options.initial_live_wait();
        Writer {
            options,
            pending: Vec::new(),
            opened: None,
            live_wait,
            filling: false,
            stopped: false,
        }
    }

    /// What to do before the next step, at `now`.
    pub fn next_wait(&self, now: Span) -> (r: WriterWait)
        requires
            self.wf(),
            self.opened matches Some(opened) ==> opened.nanos <= now.nanos,
        ensures
            match r {
                WriterWait::Stop => self.stopped,
                WriterWait::TryReceive => !self.stopped && self.filling,
                WriterWait::Receive => !self.stopped && !self.filling && self.pending@.len() == 0,
                WriterWait::ReceiveFor(left) => {
                    &&& !self.stopped && !self.filling && self.pending@.len() > 0
                    &&& left.nanos == if now.nanos - self.opened->Some_0.nanos
                        < self.live_wait.nanos {
                        self.live_wait.nanos - (now.nanos - self.opened->Some_0.nanos)
                    } else {
                        0
                    }
                },
            },
    {
        if self.stopped {
            return WriterWait::Stop;
        }
        if self.filling {
            return WriterWait::TryReceive;
        }
        match self.opened {
            None => WriterWait::Receive,
            Some(opened) => {
                let elapsed: u128 = now.nanos - opened.nanos;
                if elapsed < self.live_wait.nanos {
                    WriterWait::ReceiveFor(Span { nanos: self.live_wait.nanos - elapsed })
                } else {
                    WriterWait::ReceiveFor(Span { nanos: 0 })
                }
            },
        }
    }

    /// Hands the waiting jobs out to be written, and adapts the wait.
    fn flush_pending(&mut self, reason: FlushReason) -> (r: Vec<PendingEnqueue>)
        requires
            old(self).options.wf(),
        ensures
            views(r@) == views(old(self).pending@),
            r@.len() == old(self).pending@.len(),
            final(self).pending@.len() == 0,
            final(self).opened is None,
            final(self).options == old(self).options,
            final(self).filling == old(self).filling,
            final(self).stopped == old(self).stopped,
            final(self).live_wait == after_flush(
                old(self).options,
                old(self).live_wait,
                old(self).pending@.len() as int,
                reason,
            ),
    {
        let filled = self.pending.len();
        let mut r: Vec<PendingEnqueue> = Vec::new();
        r.append(&mut self.pending);
        self.opened = None;
        if filled > 0 && self.options.adaptive_batch_wait {
            self.live_wait = adapt_live_wait(
                self.live_wait,
                self.options.batch_wait_min,
                self.options.batch_wait_max,
                self.options.batch_size,
                filled,
                reason,
            );
        }
        r
    }

    /// Takes one step: a job joins those that wait, and they are handed out once
    /// they are enough for a batch, once the time has run out, and before any
    /// request that is not a job is seen to. So requests are seen to in the order
    /// in which they came.
    pub fn step(&mut self, input: WriterInput, now: Span) -> (r: WriterStep)
        requires
            old(self).wf(),
            !old(self).stopped,
            input is TimedOut ==> old(self).pending@.len() > 0,
        ensures
            final(self).wf(),
            final(self).options == old(self).options,
            views(r.flush@) + views(final(self).pending@) == views(old(self).pending@) + brought(
                input,
            ),
            seen_to(r) == stepped(
                tickets(views(old(self).pending@)),
                old(self).options.batch_size,
                input,
            ).seen,
            tickets(views(final(self).pending@)) == stepped(
                tickets(views(old(self).pending@)),
                old(self).options.batch_size,
                input,
            ).waiting,
            match flush_reason(*old(self), input) {
                Some(reason) => {
                    &&& final(self).pending@.len() == 0
                    &&& final(self).live_wait == after_flush(
                        old(self).options,
                        old(self).live_wait,
                        r.flush@.len() as int,
                        reason,
                    )
                },
                None => r.flush@.len() == 0 && final(self).live_wait == old(self).live_wait,
            },
            match input {
                WriterInput::Request(ticketed) => if ticketed.request is Enqueue {
                    r.request is None
                } else {
                    r.request == Some(ticketed) && final(self).pending@.len() == 0
                },
                _ => r.request is None,
            },
            final(self).filling == (brought(input).len() > 0 && flush_reason(*old(self), input)
                is None),
            final(self).stopped == (input is Closed),
            final(self).opened == (if final(self).pending@.len() == 0 {
                None
            } else if old(self).pending@.len() == 0 {
                Some(now)
            } else {
                old(self).opened
            }),
    {
        let ghost before = views(self.pending@);
        match input {
            WriterInput::Request(ticketed) => match ticketed.request {
                DbRequest::Enqueue { job } => {
                    if self.pending.len() == 0 {
                        self.opened = Some(now);
                    }
                    let added = PendingEnqueue { ticket: ticketed.ticket, job };
                    proof {
                        lemma_views_push(self.pending@, added);
                        assert(before.push(added@) =~= before + brought(input));
                    }
                    self.pending.push(added);
                    if self.pending.len() >= self.options.batch_size {
                        self.filling = false;
                        let flush = self.flush_pending(FlushReason::FullBatch);
                        proof {
                            assert(views(flush@) + views(self.pending@) =~= before + brought(
                                input,
                            ));
                        }
                        WriterStep { flush, request: None }
                    } else {
                        self.filling = true;
                        let step = WriterStep { flush: Vec::new(), request: None };
                        proof {
                            assert(views(step.flush@) + views(self.pending@) =~= before + brought(
                                input,
                            ));
                        }
                        step
                    }
                },
                request => {
                    self.filling = false;
                    let flush = self.flush_pending(FlushReason::Interrupted);
                    proof {
                        assert(views(flush@) + views(self.pending@) =~= before + brought(input));
                    }
                    WriterStep {
                        flush,
                        request: Some(Ticketed { ticket: ticketed.ticket, request }),
                    }
                },
            },
            WriterInput::Empty => {
                self.filling = false;
                let step = WriterStep { flush: Vec::new(), request: None };
                proof {
                    assert(views(step.flush@) + views(self.pending@) =~= before + brought(input));
                }
                step
            },
            WriterInput::TimedOut => {
                self.filling = false;
                let flush = self.flush_pending(FlushReason::Timeout);
                proof {
                    assert(views(flush@) + views(self.pending@) =~= before + brought(input));
                }
                WriterStep { flush, request: None }
            },
            WriterInput::Closed => {
                self.filling = false;
                let flush = self.flush_pending(FlushReason::Timeout);
                self.stopped = true;
                proof {
                    assert(views(flush@) + views(self.pending@) =~= before + brought(input));
                }
                WriterStep { flush, request: None }
            },
        }
    }
}

/// The wait after `filled` jobs were written for a reason.
pub open spec fn after_flush(
    options: SqliteWriteOptions,
    live: Span,
    filled: int,
    reason: FlushReason,
) -> Span {
    if filled > 0 && options.adaptive_batch_wait {
        Span {
            nanos: adapted(
                live,
                options.batch_wait_min,
                options.batch_wait_max,
                options.batch_size,
                filled as usize,
                reason,
            ) as u128,
        }
    } else {
        live
    }
}

/// Whether a request can be seen to at `now` without a number running over: a
/// lease that ends at a time that can be told, and counts of attempts that can
/// go one up.
pub open spec fn can_handle(before: TableModel, request: DbRequest, now: i64) -> bool {
    match request {
        DbRequest::ClaimNext { queue_name, lease_duration_secs } => first_pending(
            before.jobs,
            queue_name@,
        ) >= 0 ==> i64::MIN <= now + lease_duration_secs <= i64::MAX,
        DbRequest::RecoverStaleLeases { now } => forall|i: int|
            0 <= i < before.jobs.len() && is_stale(#[trigger] before.jobs[i], now)
                ==> before.jobs[i].attempt < u32::MAX,
        _ => true,
    }
}

/// What seeing to a request at `now` comes to.
pub open spec fn handled(
    before: TableModel,
    request: DbRequest,
    now: i64,
    after: TableModel,
    reply: DbReply,
) -> bool {
    match (request, reply) {
        (DbRequest::UpsertQueue { queue }, DbReply::Queue(row)) => {
            &&& after.jobs == before.jobs
            &&& row@ == registered(before.queues, queue@, now as int)
            &&& knows(after.queues, queue@.name)
            &&& after.queues[queue_at(after.queues, queue@.name)] == row@
            &&& forall|name: Seq<char>|
                name != queue@.name ==> #[trigger] same_queue(before.queues, after.queues, name)
        },
        (DbRequest::GetQueue { name }, DbReply::FoundQueue(found)) => {
            &&& after == before
            &&& match found {
                Some(queue) => knows(before.queues, name@) && queue@ == before.queues[queue_at(
                    before.queues,
                    name@,
                )],
                None => !knows(before.queues, name@),
            }
        },
        (DbRequest::ListQueues, DbReply::Queues(queues)) => {
            &&& after == before
            &&& views(queues@) == before.queues
        },
        (DbRequest::Enqueue { job }, DbReply::Job(result)) => {
            let added = admitted(before.queues, seq![job@]);
            let clash = repeats(before.jobs + added);
            &&& after.queues == before.queues
            &&& after.jobs == if clash {
                before.jobs
            } else {
                before.jobs + added
            }
            &&& is_outcome(result, enqueue_answer(before.queues, clash, job@))
        },
        (DbRequest::GetJob { job_id }, DbReply::Job(result)) => {
            &&& after == before
            &&& is_outcome(result, found_job(before.jobs, job_id))
        },
        (DbRequest::Status { job_id }, DbReply::Status(result)) => {
            &&& after == before
            &&& match (result, found_job(before.jobs, job_id)) {
                (Ok(status), Ok(job)) => status == job.status,
                (Err(error), Err(expected)) => error@ == expected,
                _ => false,
            }
        },
        (
            DbRequest::ClaimNext { queue_name, lease_duration_secs },
            DbReply::Claimed(result),
        ) => {
            let first = first_pending(before.jobs, queue_name@);
            &&& after.queues == before.queues
            &&& match result {
                Err(error) => {
                    &&& !knows(before.queues, queue_name@)
                    &&& error@ == StoreErrorModel::QueueNotFound(queue_name@)
                    &&& after.jobs == before.jobs
                },
                Ok(None) => {
                    &&& knows(before.queues, queue_name@)
                    &&& first < 0
                    &&& after.jobs == before.jobs
                },
                Ok(Some(job)) => {
                    &&& knows(before.queues, queue_name@)
                    &&& 0 <= first < before.jobs.len()
                    &&& job@ == claimed(before.jobs[first], lease_duration_secs, now)
                    &&& after.jobs == before.jobs.update(first, job@)
                },
            }
        },
        (DbRequest::RecoverStaleLeases { now }, DbReply::Recovered(jobs)) => {
            &&& after.queues == before.queues
            &&& after.jobs == after_recovery(before.jobs, now)
            &&& views(jobs@) == recoveries(before.jobs, now)
        },
        _ => false,
    }
}

impl JobTable {
    /// Sees to one request at `now`.
    pub fn handle(&mut self, request: DbRequest, now: i64) -> (r: DbReply)
        requires
            old(self).wf(),
            can_handle(old(self)@, request, now),
        ensures
            final(self).wf(),
            handled(old(self)@, request, now, final(self)@, r),
    {
        match request {
            DbRequest::UpsertQueue { queue } => DbReply::Queue(self.upsert_queue(queue, now)),
            DbRequest::GetQueue { name } => DbReply::FoundQueue(self.get_queue(name.as_str())),
            DbRequest::ListQueues => DbReply::Queues(self.list_queues()),
            DbRequest::Enqueue { job } => {
                let mut batch: Vec<Job> = Vec::new();
                batch.push(job);
                proof {
                    assert(views(batch@) =~= seq![job@]);
                }
                let mut results = self.enqueue_batch(batch);
                let ghost all = results@;
                match results.pop() {
                    Some(result) => {
                        proof {
                            assert(all[0] == result);
                        }
                        DbReply::Job(result)
                    },
                    None => DbReply::Recovered(Vec::new()),
                }
            },
            DbRequest::GetJob { job_id } => DbReply::Job(self.get_job(job_id)),
            DbRequest::Status { job_id } => DbReply::Status(self.status(job_id)),
            DbRequest::ClaimNext { queue_name, lease_duration_secs } => DbReply::Claimed(
                self.claim_next(queue_name.as_str(), lease_duration_secs, now),
            ),
            DbRequest::RecoverStaleLeases { now } => DbReply::Recovered(
                self.recover_stale_leases(now),
            ),
        }
    }
}

/// Jobs are written when they are enough for a batch, when their time has run
/// out, when there will be no more requests, and before any other request is seen
/// to; and otherwise they wait.
pub proof fn jobs_are_written_in_time(waiting: nat, batch_size: usize, input: WriterInput)
    ensures
        match input {
            WriterInput::Request(ticketed) => match ticketed.request {
                DbRequest::Enqueue { job } => {
                    &&& flush_cause(waiting, batch_size, input) == (if waiting + 1 >= batch_size {
                        Some(FlushReason::FullBatch)
                    } else {
                        None
                    })
                    &&& brought(input).len() == 1
                    &&& brought(input)[0].ticket == ticketed.ticket
                    &&& brought(input)[0].job == job@
                },
                _ => {
                    &&& flush_cause(waiting, batch_size, input) == (if waiting > 0 {
                        Some(FlushReason::Interrupted)
                    } else {
                        None
                    })
                    &&& brought(input).len() == 0
                },
            },
            WriterInput::Empty => {
                &&& flush_cause(waiting, batch_size, input) is None
                &&& brought(input).len() == 0
            },
            WriterInput::TimedOut => {
                &&& flush_cause(waiting, batch_size, input) == Some(FlushReason::Timeout)
                &&& brought(input).len() == 0
            },
            WriterInput::Closed => {
                &&& waiting > 0 ==> flush_cause(waiting, batch_size, input) == Some(
                    FlushReason::Timeout,
                )
                &&& brought(input).len() == 0
            },
        },
{
}

/// The wait changes only where it adapts and something was written, and then
/// stays between its ends.
pub proof fn fixed_waits_stay(
    options: SqliteWriteOptions,
    live: Span,
    filled: int,
    reason: FlushReason,
)
    requires
        options.wf(),
        options.batch_wait_max.nanos / 1_000_000 <= u64::MAX,
        options.batch_wait_min.nanos <= options.batch_wait_max.nanos,
    ensures
        !options.adaptive_batch_wait || filled == 0 ==> after_flush(options, live, filled, reason)
            == live,
        options.adaptive_batch_wait && filled > 0 ==> options.batch_wait_min.nanos / 1_000_000
            <= after_flush(options, live, filled, reason).nanos / 1_000_000
            <= options.batch_wait_max.nanos / 1_000_000,
{
    assert(options.batch_wait_min.nanos / 1_000_000 <= options.batch_wait_max.nanos / 1_000_000);
}

/// A request reads or changes what it is for and nothing else: reading leaves
/// the table as it is, jobs leave the queues alone, and configuring a queue
/// leaves the jobs alone.
pub proof fn requests_touch_what_they_are_for(
    before: TableModel,
    request: DbRequest,
    now: i64,
    after: TableModel,
    reply: DbReply,
)
    requires
        handled(before, request, now, after, reply),
    ensures
        request is GetQueue || request is ListQueues || request is GetJob || request is Status
            ==> after == before,
        !(request is UpsertQueue) ==> after.queues == before.queues,
        request is UpsertQueue ==> after.jobs == before.jobs,
        request is Enqueue ==> before.jobs.len() <= after.jobs.len() && after.jobs.take(
            before.jobs.len() as int,
        ) == before.jobs,
        request is ClaimNext || request is RecoverStaleLeases ==> after.jobs.len()
            == before.jobs.len(),
{
    if request is Enqueue {
        assert(after.jobs.take(before.jobs.len() as int) =~= before.jobs);
    }
}

/// Every request is asked under its own ticket, and nothing else that comes is.
pub proof fn requests_are_asked_under_their_ticket(input: WriterInput)
    ensures
        match input {
            WriterInput::Request(ticketed) => asked(input) == seq![ticketed.ticket],
            _ => asked(input).len() == 0,
        },
{
    match input {
        WriterInput::Request(ticketed) => {
            assert(asked(input) =~= seq![ticketed.ticket]);
        },
        _ => {},
    }
}

/// A step sees to the jobs that it writes, in order, and then to its request.
pub proof fn steps_see_to_jobs_and_request(step: WriterStep, i: int)
    ensures
        seen_to(step).len() == step.flush@.len() + (if step.request is Some {
            1int
        } else {
            0
        }),
        0 <= i < step.flush@.len() ==> seen_to(step)[i] == step.flush@[i].ticket,
        step.request is Some ==> seen_to(step).last() == step.request->Some_0.ticket,
{
}

} // verus!
