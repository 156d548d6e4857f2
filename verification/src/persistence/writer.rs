//! The writers: which request of many is served next, when a batch is
//! complete, and what is still owed when no more requests come.

use crate::engine::types::{AcceptedJob, JobQueue, StoreError, StoreErrorView};
use crate::persistence::adaptive::{FlushReason, ResultsLane, ResultsLaneController};
use crate::persistence::ingest::{
    claim_limit, claim_tokens, claimable, claimed_rows, enqueue_reply, is_claim, repended,
    reply_matches, retained_jobs, IngestClaimed, IngestTable, IngestView,
};
use crate::persistence::queues::{configured, out_of_range_text, views, MAX_TIMEOUT_SECS};
use crate::persistence::results::{
    abandoned_rows, dispatch_reply, disposition, recovered_rows, recovered_stale,
    retained_executions, settle_chunk, whole_dispatch, Completion, CompletionDisposition,
    DispatchInsert, DispatchedExecution, RecoveredStale, ResultsTable, ResultsView,
};
use crate::span::Span;
use std::collections::VecDeque;
use vstd::multiset::Multiset;
use vstd::prelude::*;
use vstd::std_specs::vecdeque::*;

verus! {

/// What the results writer is asked to do. A ticket says who is waiting for
/// the answer.
#[derive(Debug)]
pub enum ResultsRequest {
    UpsertQueue { queue: JobQueue, ticket: u64 },
    Dispatch { rows: Vec<DispatchInsert>, ticket: u64 },
    Complete { completion: Completion, ticket: u64 },
    Abandon { job_id: i64, dispatch_id: String, ticket: u64 },
    RecoverStale { now: i64, ticket: u64 },
    CleanupExpiredRecords { cutoff: i64, ticket: u64 },
}

impl ResultsRequest {
    pub open spec fn ticket_of(self) -> u64 {
        match self {
            ResultsRequest::UpsertQueue { queue, ticket } => ticket,
            ResultsRequest::Dispatch { rows, ticket } => ticket,
            ResultsRequest::Complete { completion, ticket } => ticket,
            ResultsRequest::Abandon { job_id, dispatch_id, ticket } => ticket,
            ResultsRequest::RecoverStale { now, ticket } => ticket,
            ResultsRequest::CleanupExpiredRecords { cutoff, ticket } => ticket,
        }
    }

    /// Whether the request cuts short a batch of completions that is being
    /// collected: housekeeping that others wait for does, dispatching and
    /// cleaning up do not.
    pub open spec fn preempts(self) -> bool {
        self is UpsertQueue || self is Abandon || self is RecoverStale
    }
}

/// A report that waits to be recorded.
#[derive(Debug)]
pub struct PendingCompletion {
    pub completion: Completion,
    pub ticket: u64,
    pub queued_at: Span,
}

/// A batch of dispatches that waits to be recorded.
#[derive(Debug)]
pub struct PendingDispatch {
    pub rows: Vec<DispatchInsert>,
    pub ticket: u64,
    pub queued_at: Span,
}

/// The requests that wait at the results writer.
pub struct ResultsQueues {
    pub meta: VecDeque<ResultsRequest>,
    pub dispatch: VecDeque<PendingDispatch>,
    pub complete: VecDeque<PendingCompletion>,
}

/// How many dispatches wait in all.
pub open spec fn rows_waiting(dispatch: Seq<PendingDispatch>) -> int
    decreases dispatch.len(),
{
    if dispatch.len() == 0 {
        0
    } else {
        rows_waiting(dispatch.drop_last()) + dispatch.last().rows@.len()
    }
}

/// One more ticket at the end of a line is one more ticket.
proof fn lemma_ticket_joins(line: Seq<u64>, ticket: u64)
    ensures
        line.push(ticket).to_multiset() == line.to_multiset().insert(ticket),
{
    broadcast use vstd::seq_lib::group_to_multiset_ensures;

    assert(line.push(ticket).to_multiset() =~= line.to_multiset().insert(ticket));
}

/// The first ticket of a line leaves the others.
proof fn lemma_ticket_leaves(line: Seq<u64>)
    requires
        line.len() > 0,
    ensures
        line.to_multiset() == line.skip(1).to_multiset().insert(line[0]),
{
    broadcast use vstd::seq_lib::group_to_multiset_ensures;

    assert(line.remove(0) =~= line.skip(1));
    assert(line.to_multiset().count(line[0]) > 0) by {
        assert(line.contains(line[0]));
    }
    assert(line.to_multiset() =~= line.skip(1).to_multiset().insert(line[0]));
}

/// The tickets of a line are those of its two parts.
proof fn lemma_tickets_divide(line: Seq<u64>, n: int)
    requires
        0 <= n <= line.len(),
    ensures
        line.to_multiset() == line.take(n).to_multiset().add(line.skip(n).to_multiset()),
{
    assert(line =~= line.take(n) + line.skip(n));
    vstd::seq_lib::lemma_multiset_commutative(line.take(n), line.skip(n));
}

/// The tickets of requests.
pub open spec fn request_tickets(requests: Seq<ResultsRequest>) -> Seq<u64> {
    requests.map_values(|r: ResultsRequest| r.ticket_of())
}

/// The tickets of dispatches.
pub open spec fn dispatch_tickets(requests: Seq<PendingDispatch>) -> Seq<u64> {
    requests.map_values(|r: PendingDispatch| r.ticket)
}

/// The tickets of reports.
pub open spec fn completion_tickets(requests: Seq<PendingCompletion>) -> Seq<u64> {
    requests.map_values(|r: PendingCompletion| r.ticket)
}

impl ResultsQueues {
    /// The tickets of everyone who waits here.
    pub open spec fn tickets(self) -> Multiset<u64> {
        request_tickets(self.meta@).to_multiset().add(
            dispatch_tickets(self.dispatch@).to_multiset(),
        ).add(completion_tickets(self.complete@).to_multiset())
    }

    pub fn new() -> (r: Self)
        ensures
            r.meta@.len() == 0,
            r.dispatch@.len() == 0,
            r.complete@.len() == 0,
    {
        ResultsQueues { meta: VecDeque::new(), dispatch: VecDeque::new(), complete: VecDeque::new() }
    }

    pub fn is_empty(&self) -> (r: bool)
        ensures
            r == (self.meta@.len() == 0 && self.dispatch@.len() == 0 && self.complete@.len() == 0),
    {
        self.meta.len() == 0 && self.dispatch.len() == 0 && self.complete.len() == 0
    }

    /// Puts a request that came in at `now` at the end of its line.
    pub fn push(&mut self, request: ResultsRequest, now: Span)
        ensures
            final(self).tickets() == old(self).tickets().insert(request.ticket_of()),
            match request {
                ResultsRequest::Complete { completion, ticket } => {
                    &&& final(self).complete@ == old(self).complete@.push(
                        PendingCompletion { completion, ticket, queued_at: now },
                    )
                    &&& final(self).meta == old(self).meta
                    &&& final(self).dispatch == old(self).dispatch
                },
                ResultsRequest::Dispatch { rows, ticket } => {
                    &&& final(self).dispatch@ == old(self).dispatch@.push(
                        PendingDispatch { rows, ticket, queued_at: now },
                    )
                    &&& final(self).meta == old(self).meta
                    &&& final(self).complete == old(self).complete
                },
                other => {
                    &&& final(self).meta@ == old(self).meta@.push(request)
                    &&& final(self).dispatch == old(self).dispatch
                    &&& final(self).complete == old(self).complete
                },
            },
    {
        match request {
            ResultsRequest::Complete { completion, ticket } => {
                let item = PendingCompletion { completion, ticket, queued_at: now };
                proof {
                    lemma_ticket_joins(completion_tickets(self.complete@), ticket);
                    assert(completion_tickets(self.complete@.push(item)) =~= completion_tickets(
                        self.complete@,
                    ).push(ticket));
                }
                self.complete.push_back(item);
            },
            ResultsRequest::Dispatch { rows, ticket } => {
                let item = PendingDispatch { rows, ticket, queued_at: now };
                proof {
                    lemma_ticket_joins(dispatch_tickets(self.dispatch@), ticket);
                    assert(dispatch_tickets(self.dispatch@.push(item)) =~= dispatch_tickets(
                        self.dispatch@,
                    ).push(ticket));
                }
                self.dispatch.push_back(item);
            },
            other => {
                proof {
                    lemma_ticket_joins(request_tickets(self.meta@), other.ticket_of());
                    assert(request_tickets(self.meta@.push(other)) =~= request_tickets(
                        self.meta@,
                    ).push(other.ticket_of()));
                }
                self.meta.push_back(other);
            },
        }
        proof {
            assert(self.tickets() =~= old(self).tickets().insert(request.ticket_of()));
        }
    }

    /// How many dispatches wait in all.
    pub fn dispatch_rows(&self) -> (r: usize)
        ensures
            r == (if rows_waiting(self.dispatch@) <= usize::MAX {
                rows_waiting(self.dispatch@)
            } else {
                usize::MAX as int
            }),
    {
        let mut total: usize = 0;
        let mut i: usize = 0;
        proof {
            assert(self.dispatch@.take(0) =~= Seq::<PendingDispatch>::empty());
        }
        while i < self.dispatch.len()
            invariant
                i <= self.dispatch@.len(),
                total == (if rows_waiting(self.dispatch@.take(i as int)) <= usize::MAX {
                    rows_waiting(self.dispatch@.take(i as int))
                } else {
                    usize::MAX as int
                }),
            decreases self.dispatch.len() - i,
        {
            proof {
                assert(self.dispatch@.take(i + 1).drop_last() =~= self.dispatch@.take(i as int));
            }
            total = total.saturating_add(self.dispatch[i].rows.len());
            i += 1;
        }
        proof {
            assert(self.dispatch@.take(self.dispatch@.len() as int) =~= self.dispatch@);
        }
        total
    }

    /// When the dispatch that has waited longest came in.
    pub fn dispatch_oldest(&self) -> (r: Option<Span>)
        ensures
            r == (if self.dispatch@.len() > 0 {
                Some(self.dispatch@[0].queued_at)
            } else {
                None
            }),
    {
        if self.dispatch.len() > 0 {
            Some(self.dispatch[0].queued_at)
        } else {
            None
        }
    }

    /// When the report that has waited longest came in.
    pub fn completion_oldest(&self) -> (r: Option<Span>)
        ensures
            r == (if self.complete@.len() > 0 {
                Some(self.complete@[0].queued_at)
            } else {
                None
            }),
    {
        if self.complete.len() > 0 {
            Some(self.complete[0].queued_at)
        } else {
            None
        }
    }
}

/// What the results writer does next.
#[derive(Debug)]
pub enum ResultsTurn {
    /// Nothing waits that could be served.
    Idle,
    /// Serve this request by itself.
    Meta(ResultsRequest),
    /// Record these dispatches.
    Dispatch(PendingDispatch),
    /// Collect and record a batch of reports.
    Completion,
}

/// Whether a turn serves somebody who waits, and whoever it serves has waited
/// longest in their line.
pub open spec fn is_next(queues: ResultsQueues, turn: ResultsTurn) -> bool {
    match turn {
        ResultsTurn::Meta(request) => queues.meta@.len() > 0 && request == queues.meta@[0],
        ResultsTurn::Dispatch(pending) => {
            &&& queues.meta@.len() == 0
            &&& queues.dispatch@.len() > 0
            &&& pending == queues.dispatch@[0]
        },
        ResultsTurn::Completion => queues.meta@.len() == 0 && queues.complete@.len() > 0,
        ResultsTurn::Idle => {
            &&& queues.meta@.len() == 0
            &&& queues.complete@.len() == 0
            &&& rows_waiting(queues.dispatch@) == 0
        },
    }
}

/// The results writer: who waits, and which lane goes next.
pub struct ResultsWriter {
    pub queues: ResultsQueues,
    pub lanes: ResultsLaneController,
}

impl ResultsWriter {
    pub fn new() -> (r: Self)
        ensures
            r.lanes.wf(),
            r.lanes.preferred is None,
            r.queues.meta@.len() == 0,
            r.queues.dispatch@.len() == 0,
            r.queues.complete@.len() == 0,
    {
        ResultsWriter { queues: ResultsQueues::new(), lanes: ResultsLaneController::new() }
    }

    /// Decides on the next turn. Housekeeping goes before both lanes, in the
    /// order in which it came. Between the lanes the controller chooses, and
    /// the dispatch that has waited longest goes first.
    pub fn next_turn(&mut self, direction: i8) -> (r: ResultsTurn)
        requires
            old(self).lanes.wf(),
        ensures
            final(self).lanes.wf(),
            old(self).queues.meta@.len() > 0 ==> {
                &&& r == ResultsTurn::Meta(old(self).queues.meta@[0])
                &&& final(self).queues.meta@ == old(self).queues.meta@.skip(1)
                &&& final(self).queues.dispatch == old(self).queues.dispatch
                &&& final(self).queues.complete == old(self).queues.complete
                &&& final(self).lanes == old(self).lanes
                &&& old(self).queues.tickets() == final(self).queues.tickets().insert(
                    r->Meta_0.ticket_of(),
                )
            },
            old(self).queues.meta@.len() == 0 ==> {
                let waiting = rows_waiting(old(self).queues.dispatch@) > 0;
                let reporting = old(self).queues.complete@.len() > 0;
                &&& final(self).queues.meta == old(self).queues.meta
                &&& final(self).queues.complete == old(self).queues.complete
                &&& final(self).lanes == (if waiting && reporting {
                    old(self).lanes.after_choice(direction)
                } else if waiting || reporting {
                    ResultsLaneController { preferred_turns: 0, ..old(self).lanes }
                } else {
                    old(self).lanes
                })
                &&& if waiting && (!reporting || old(self).lanes.choice(direction).0
                    == ResultsLane::Dispatch) {
                    &&& r == ResultsTurn::Dispatch(old(self).queues.dispatch@[0])
                    &&& final(self).queues.dispatch@ == old(self).queues.dispatch@.skip(1)
                    &&& old(self).queues.tickets() == final(self).queues.tickets().insert(
                        r->Dispatch_0.ticket,
                    )
                } else {
                    &&& r == (if reporting {
                        ResultsTurn::Completion
                    } else {
                        ResultsTurn::Idle
                    })
                    &&& final(self).queues.dispatch == old(self).queues.dispatch
                }
            },
            is_next(old(self).queues, r),
    {
        if self.queues.meta.len() > 0 {
            proof {
                let line = request_tickets(self.queues.meta@);
                lemma_ticket_leaves(line);
                assert(line.skip(1) =~= request_tickets(self.queues.meta@.skip(1)));
            }
            let ghost before = self.queues;
            match self.queues.meta.pop_front() {
                Some(request) => {
                    proof {
                        assert(self.queues.meta@ =~= before.meta@.skip(1));
                        assert(before.tickets() =~= self.queues.tickets().insert(
                            request.ticket_of(),
                        ));
                    }
                    return ResultsTurn::Meta(request);
                },
                None => {},
            }
        }
        let dispatch_rows = self.queues.dispatch_rows();
        let completion_rows = self.queues.complete.len();
        proof {
            lemma_rows_waiting(self.queues.dispatch@);
        }
        match self.lanes.select(dispatch_rows, completion_rows, direction) {
            None => ResultsTurn::Idle,
            Some((lane, _)) => match lane {
                ResultsLane::Completion => ResultsTurn::Completion,
                ResultsLane::Dispatch => {
                    proof {
                        let line = dispatch_tickets(self.queues.dispatch@);
                        lemma_ticket_leaves(line);
                        assert(line.skip(1) =~= dispatch_tickets(self.queues.dispatch@.skip(1)));
                    }
                    let ghost before = self.queues;
                    match self.queues.dispatch.pop_front() {
                        Some(pending) => {
                            proof {
                                assert(self.queues.dispatch@ =~= before.dispatch@.skip(1));
                                assert(before.tickets() =~= self.queues.tickets().insert(
                                    pending.ticket,
                                ));
                            }
                            ResultsTurn::Dispatch(pending)
                        },
                        None => ResultsTurn::Idle,
                    }
                },
            },
        }
    }
}

proof fn lemma_rows_waiting(dispatch: Seq<PendingDispatch>)
    ensures
        rows_waiting(dispatch) >= 0,
        dispatch.len() == 0 ==> rows_waiting(dispatch) == 0,
    decreases dispatch.len(),
{
    if dispatch.len() > 0 {
        lemma_rows_waiting(dispatch.drop_last());
    }
}

/// A batch of reports that is being collected.
pub struct CompletionTurn {
    pub pending: Vec<PendingCompletion>,
    pub target: usize,
    pub deadline: Span,
}

/// What is left of `deadline` at `now`.
pub open spec fn time_left(deadline: Span, now: Span) -> int {
    if deadline.nanos > now.nanos {
        deadline.nanos - now.nanos
    } else {
        0
    }
}

/// The end of a wait that begins at `now`: the end of time where it would go
/// beyond.
pub open spec fn wait_end(now: Span, wait: Span) -> int {
    if now.nanos + wait.nanos <= u128::MAX {
        now.nanos + wait.nanos
    } else {
        u128::MAX as int
    }
}

/// The sum of two lengths of time, as far as it goes.
fn later(now: Span, wait: Span) -> (r: Span)
    ensures
        r.nanos == wait_end(now, wait),
{
    Span { nanos: now.nanos.saturating_add(wait.nanos) }
}

/// Why a batch of `filled` out of `target` is written.
pub open spec fn reason_of(filled: int, target: int) -> FlushReason {
    if filled >= target {
        FlushReason::FullBatch
    } else {
        FlushReason::Timeout
    }
}

impl CompletionTurn {
    /// The tickets of the batch.
    pub open spec fn tickets(self) -> Multiset<u64> {
        completion_tickets(self.pending@).to_multiset()
    }

    /// Starts a batch of up to `target` reports with those that already wait,
    /// in order. It may wait for more until `wait` has passed.
    pub fn open(queues: &mut ResultsQueues, target: usize, wait: Span, now: Span) -> (r: Self)
        ensures
            r.target == target,
            r.deadline.nanos == wait_end(now, wait),
            ({
                let n = if old(queues).complete@.len() <= target {
                    old(queues).complete@.len() as int
                } else {
                    target as int
                };
                &&& r.pending@ == old(queues).complete@.take(n)
                &&& final(queues).complete@ == old(queues).complete@.skip(n)
            }),
            final(queues).meta == old(queues).meta,
            final(queues).dispatch == old(queues).dispatch,
            r.tickets().add(final(queues).tickets()) == old(queues).tickets(),
    {
        let ghost waiting = queues.complete@;
        let mut pending: Vec<PendingCompletion> = Vec::new();
        proof {
            assert(waiting.take(0) =~= Seq::<PendingCompletion>::empty());
            assert(waiting.skip(0) =~= waiting);
        }
        while pending.len() < target && queues.complete.len() > 0
            invariant
                pending@.len() <= target,
                pending@.len() <= waiting.len(),
                pending@ == waiting.take(pending@.len() as int),
                queues.complete@ == waiting.skip(pending@.len() as int),
                queues.meta == old(queues).meta,
                queues.dispatch == old(queues).dispatch,
            decreases target - pending@.len(),
        {
            let ghost n = pending@.len() as int;
            match queues.complete.pop_front() {
                Some(item) => {
                    pending.push(item);
                    proof {
                        assert(item == waiting[n]);
                        assert(pending@ =~= waiting.take(n + 1));
                        assert(queues.complete@ =~= waiting.skip(n + 1));
                    }
                },
                None => {},
            }
        }
        let turn = CompletionTurn { pending, target, deadline: later(now, wait) };
        proof {
            let n = turn.pending@.len() as int;
            let line = completion_tickets(waiting);
            lemma_tickets_divide(line, n);
            assert(line.take(n) =~= completion_tickets(turn.pending@));
            assert(line.skip(n) =~= completion_tickets(queues.complete@));
            assert(turn.tickets().add(queues.tickets()) =~= old(queues).tickets());
        }
        turn
    }

    /// How long to wait for another request at `now`: not at all once the
    /// batch is full or its time is up.
    pub fn remaining(&self, now: Span) -> (r: Option<Span>)
        ensures
            match r {
                Some(left) => self.pending@.len() < self.target && left.nanos == time_left(
                    self.deadline,
                    now,
                ) && left.nanos > 0,
                None => self.pending@.len() >= self.target || time_left(self.deadline, now) == 0,
            },
    {
        if self.pending.len() < self.target && self.deadline.nanos > now.nanos {
            Some(Span { nanos: self.deadline.nanos - now.nanos })
        } else {
            None
        }
    }

    /// Takes in a request that came while the batch was being collected, and
    /// says whether to go on collecting. A report joins the batch; anything
    /// else waits its turn, and housekeeping ends the wait.
    pub fn accept(&mut self, queues: &mut ResultsQueues, request: ResultsRequest, now: Span) -> (r:
        bool)
        ensures
            final(self).target == old(self).target,
            final(self).deadline == old(self).deadline,
            r == !request.preempts(),
            match request {
                ResultsRequest::Complete { completion, ticket } => {
                    &&& final(self).pending@ == old(self).pending@.push(
                        PendingCompletion { completion, ticket, queued_at: now },
                    )
                    &&& *final(queues) == *old(queues)
                },
                ResultsRequest::Dispatch { rows, ticket } => {
                    &&& final(self).pending == old(self).pending
                    &&& final(queues).dispatch@ == old(queues).dispatch@.push(
                        PendingDispatch { rows, ticket, queued_at: now },
                    )
                    &&& final(queues).meta == old(queues).meta
                    &&& final(queues).complete == old(queues).complete
                },
                other => {
                    &&& final(self).pending == old(self).pending
                    &&& final(queues).meta@ == old(queues).meta@.push(request)
                    &&& final(queues).dispatch == old(queues).dispatch
                    &&& final(queues).complete == old(queues).complete
                },
            },
            final(self).tickets().add(final(queues).tickets()) == old(self).tickets().add(
                old(queues).tickets(),
            ).insert(request.ticket_of()),
    {
        match request {
            ResultsRequest::Complete { completion, ticket } => {
                let item = PendingCompletion { completion, ticket, queued_at: now };
                proof {
                    lemma_ticket_joins(completion_tickets(self.pending@), ticket);
                    assert(completion_tickets(self.pending@.push(item)) =~= completion_tickets(
                        self.pending@,
                    ).push(ticket));
                }
                self.pending.push(item);
                proof {
                    assert(self.tickets().add(queues.tickets()) =~= old(self).tickets().add(
                        old(queues).tickets(),
                    ).insert(ticket));
                }
                true
            },
            other => {
                let preempt = matches!(
                    other,
                    ResultsRequest::UpsertQueue { .. }
                        | ResultsRequest::Abandon { .. }
                        | ResultsRequest::RecoverStale { .. }
                );
                queues.push(other, now);
                proof {
                    assert(self.tickets().add(queues.tickets()) =~= old(self).tickets().add(
                        old(queues).tickets(),
                    ).insert(request.ticket_of()));
                }
                !preempt
            },
        }
    }

    /// Why the batch is written as it stands.
    pub fn reason(&self) -> (r: FlushReason)
        ensures
            r == reason_of(self.pending@.len() as int, self.target as int),
    {
        if self.pending.len() >= self.target {
            FlushReason::FullBatch
        } else {
            FlushReason::Timeout
        }
    }
}

/// The lines in the order in which they are served when no more requests
/// come: reports as one batch, then housekeeping, then dispatches.
pub struct ResultsRemainder {
    pub complete: Vec<PendingCompletion>,
    pub meta: Vec<ResultsRequest>,
    pub dispatch: Vec<PendingDispatch>,
}

/// Everything in a line, in order.
fn drain_line<T>(line: &mut VecDeque<T>) -> (r: Vec<T>)
    ensures
        r@ == old(line)@,
        final(line)@.len() == 0,
{
    let ghost all = line@;
    let mut out: Vec<T> = Vec::new();
    proof {
        assert(all.take(0) =~= Seq::<T>::empty());
        assert(all.skip(0) =~= all);
    }
    while line.len() > 0
        invariant
            out@.len() <= all.len(),
            out@ == all.take(out@.len() as int),
            line@ == all.skip(out@.len() as int),
        decreases line@.len(),
    {
        let ghost n = out@.len() as int;
        match line.pop_front() {
            Some(item) => {
                out.push(item);
                proof {
                    assert(item == all[n]);
                    assert(out@ =~= all.take(n + 1));
                    assert(line@ =~= all.skip(n + 1));
                }
            },
            None => {},
        }
    }
    proof {
        assert(out@ =~= all);
    }
    out
}

impl ResultsQueues {
    /// Empties every line: whoever still waits is served before the writer
    /// stops.
    pub fn drain(&mut self) -> (r: ResultsRemainder)
        ensures
            r.complete@ == old(self).complete@,
            r.meta@ == old(self).meta@,
            r.dispatch@ == old(self).dispatch@,
            final(self).complete@.len() == 0,
            final(self).meta@.len() == 0,
            final(self).dispatch@.len() == 0,
    {
        let complete = drain_line(&mut self.complete);
        let meta = drain_line(&mut self.meta);
        let dispatch = drain_line(&mut self.dispatch);
        ResultsRemainder { complete, meta, dispatch }
    }
}

/// What the results writer answers.
#[derive(Debug)]
pub enum ResultsReply {
    Queue(Result<JobQueue, StoreError>),
    Dispatched(Result<Vec<DispatchedExecution>, StoreError>),
    Completed(CompletionDisposition),
    Abandoned,
    Recovered(Vec<RecoveredStale>),
    Deleted(usize),
}

/// Whether `reply` is what configuring `queue` answers.
pub open spec fn queue_reply(
    known: Map<Seq<char>, crate::engine::types::JobQueueView>,
    queue: JobQueue,
    now: int,
    reply: Result<JobQueue, StoreError>,
) -> bool {
    match reply {
        Ok(stored) => queue.timeout_secs <= MAX_TIMEOUT_SECS && stored@ == configured(
            known,
            queue@,
            now,
        ),
        Err(error) => queue.timeout_secs > MAX_TIMEOUT_SECS && error@
            == StoreErrorView::Internal(out_of_range_text()),
    }
}

/// The queues once `queue` has been configured, or refused.
pub open spec fn queues_after(
    known: Map<Seq<char>, crate::engine::types::JobQueueView>,
    queue: JobQueue,
    now: int,
) -> Map<Seq<char>, crate::engine::types::JobQueueView> {
    if queue.timeout_secs <= MAX_TIMEOUT_SECS {
        known.insert(queue@.name, configured(known, queue@, now))
    } else {
        known
    }
}

/// What a request does to the attempts, and what it is answered.
pub open spec fn results_effect(
    before: ResultsView,
    request: ResultsRequest,
    now: i64,
    after: ResultsView,
    reply: ResultsReply,
) -> bool {
    match (request, reply) {
        (ResultsRequest::UpsertQueue { queue, .. }, ResultsReply::Queue(answer)) => {
            &&& queue_reply(before.queues, queue, now as int, answer)
            &&& after.queues == queues_after(before.queues, queue, now as int)
            &&& after.executions == before.executions
        },
        (ResultsRequest::Dispatch { rows, .. }, ResultsReply::Dispatched(answer)) => {
            let run = whole_dispatch(before, views(rows@), now as int);
            &&& after.queues == before.queues
            &&& match run.failure {
                Some(failure) => {
                    &&& answer is Err
                    &&& answer->Err_0@ == failure
                    &&& after.executions == before.executions
                },
                None => {
                    &&& after.executions == run.rows
                    &&& dispatch_reply(run, views(rows@), answer)
                },
            }
        },
        (ResultsRequest::Complete { completion, .. }, ResultsReply::Completed(answer)) => {
            &&& answer == disposition(before.executions, completion@)
            &&& after.queues == before.queues
            &&& after.executions == settle_chunk(
                before.executions,
                seq![completion@],
                now as int,
            )
        },
        (ResultsRequest::Abandon { job_id, dispatch_id, .. }, ResultsReply::Abandoned) => {
            &&& after.queues == before.queues
            &&& after.executions == abandoned_rows(
                before.executions,
                job_id as int,
                dispatch_id@,
                now as int,
            )
        },
        (ResultsRequest::RecoverStale { now: at, .. }, ResultsReply::Recovered(answer)) => {
            &&& views(answer@) == recovered_stale(before.executions, at)
            &&& after.queues == before.queues
            &&& after.executions == recovered_rows(before.executions, at)
        },
        (ResultsRequest::CleanupExpiredRecords { cutoff, .. }, ResultsReply::Deleted(answer)) => {
            &&& after.queues == before.queues
            &&& after.executions == retained_executions(before.executions, cutoff as int)
            &&& answer == before.executions.len() - after.executions.len()
        },
        _ => false,
    }
}

impl ResultsTable {
    /// Serves one request at `now`.
    pub fn handle(&mut self, request: ResultsRequest, now: i64) -> (r: ResultsReply)
        requires
            old(self).wf(),
        ensures
            final(self).wf(),
            results_effect(old(self)@, request, now, final(self)@, r),
    {
        match request {
            ResultsRequest::UpsertQueue { queue, .. } => ResultsReply::Queue(
                self.upsert_queue(queue, now),
            ),
            ResultsRequest::Dispatch { rows, .. } => ResultsReply::Dispatched(
                self.dispatch_batch(&rows, now),
            ),
            ResultsRequest::Complete { completion, .. } => {
                let ghost item = completion@;
                let mut batch: Vec<Completion> = Vec::new();
                batch.push(completion);
                proof {
                    assert(views(batch@) =~= seq![item]);
                    crate::persistence::store::lemma_single_report(self@, item, now as int);
                }
                let replies = self.complete_batch(&batch, now);
                ResultsReply::Completed(replies[0])
            },
            ResultsRequest::Abandon { job_id, dispatch_id, .. } => {
                self.abandon(job_id, dispatch_id.as_str(), now);
                ResultsReply::Abandoned
            },
            ResultsRequest::RecoverStale { now: at, .. } => ResultsReply::Recovered(
                self.recover_stale(at),
            ),
            ResultsRequest::CleanupExpiredRecords { cutoff, .. } => ResultsReply::Deleted(
                self.cleanup_expired_records(cutoff),
            ),
        }
    }
}

/// What the ingest writer is asked to do.
#[derive(Debug)]
pub enum IngestRequest {
    UpsertQueue { queue: JobQueue, ticket: u64 },
    Enqueue { job: AcceptedJob, ticket: u64 },
    ClaimBatch { queue_name: String, limit: usize, ticket: u64 },
    Repend { job_id: i64, dispatch_id: String, ticket: u64 },
    CleanupExpiredRecords { cutoff: i64, ticket: u64 },
}

impl IngestRequest {
    pub open spec fn ticket_of(self) -> u64 {
        match self {
            IngestRequest::UpsertQueue { queue, ticket } => ticket,
            IngestRequest::Enqueue { job, ticket } => ticket,
            IngestRequest::ClaimBatch { queue_name, limit, ticket } => ticket,
            IngestRequest::Repend { job_id, dispatch_id, ticket } => ticket,
            IngestRequest::CleanupExpiredRecords { cutoff, ticket } => ticket,
        }
    }

    /// Whether the request cuts short a batch of jobs that is being collected.
    pub open spec fn preempts(self) -> bool {
        self is ClaimBatch || self is UpsertQueue || self is Repend
    }
}

/// What the ingest writer answers.
#[derive(Debug)]
pub enum IngestReply {
    Queue(Result<JobQueue, StoreError>),
    Enqueued(Result<AcceptedJob, StoreError>),
    Claimed(Result<Vec<IngestClaimed>, StoreError>),
    Repended,
    Deleted(usize),
}

/// What a request does to the accepted jobs, and what it is answered.
pub open spec fn ingest_effect(
    before: IngestView,
    request: IngestRequest,
    now: i64,
    after: IngestView,
    reply: IngestReply,
) -> bool {
    match (request, reply) {
        (IngestRequest::UpsertQueue { queue, .. }, IngestReply::Queue(answer)) => {
            &&& queue_reply(before.queues, queue, now as int, answer)
            &&& after.queues == queues_after(before.queues, queue, now as int)
            &&& after.jobs == before.jobs
        },
        (IngestRequest::Enqueue { job, .. }, IngestReply::Enqueued(answer)) => {
            &&& reply_matches(answer, enqueue_reply(before, seq![job@], 0))
            &&& after.queues == before.queues
            &&& after.jobs == (match answer {
                Ok(stored) => before.jobs.push(
                    crate::engine::types::AcceptedJobView { dispatch_id: None, ..stored@ },
                ),
                Err(_) => before.jobs,
            })
        },
        (IngestRequest::ClaimBatch { queue_name, limit, .. }, IngestReply::Claimed(answer)) => {
            &&& after.queues == before.queues
            &&& match answer {
                Ok(claimed) => {
                    &&& before.queues.dom().contains(queue_name@)
                    &&& is_claim(before, queue_name@, claim_limit(limit as int), claimed@)
                    &&& after.jobs == claimed_rows(
                        before.jobs,
                        claimable(before.jobs, queue_name@, claim_limit(limit as int)),
                        claim_tokens(claimed@),
                        now as int,
                    )
                },
                Err(error) => {
                    &&& !before.queues.dom().contains(queue_name@)
                    &&& error@ == StoreErrorView::QueueNotFound(queue_name@)
                    &&& after.jobs == before.jobs
                },
            }
        },
        (IngestRequest::Repend { job_id, dispatch_id, .. }, IngestReply::Repended) => {
            &&& after.queues == before.queues
            &&& after.jobs == repended(before.jobs, job_id as int, dispatch_id@, now as int)
        },
        (IngestRequest::CleanupExpiredRecords { cutoff, .. }, IngestReply::Deleted(answer)) => {
            &&& after.queues == before.queues
            &&& after.jobs == retained_jobs(before.jobs, cutoff as int)
            &&& answer == before.jobs.len() - after.jobs.len()
        },
        _ => false,
    }
}

impl IngestTable {
    /// Accepts one job.
    pub fn enqueue(&mut self, job: AcceptedJob) -> (r: Result<AcceptedJob, StoreError>)
        requires
            old(self).wf(),
        ensures
            final(self).wf(),
            final(self)@.queues == old(self)@.queues,
            reply_matches(r, enqueue_reply(old(self)@, seq![job@], 0)),
            final(self)@.jobs == (match r {
                Ok(stored) => old(self)@.jobs.push(
                    crate::engine::types::AcceptedJobView { dispatch_id: None, ..stored@ },
                ),
                Err(_) => old(self)@.jobs,
            }),
    {
        let ghost given = job@;
        let ghost before = self@;
        let mut batch: Vec<AcceptedJob> = Vec::new();
        batch.push(job);
        proof {
            let one = seq![given];
            assert(views(batch@) =~= one);
            assert(one.drop_last() =~= Seq::<crate::engine::types::AcceptedJobView>::empty());
            assert(one.take(0) =~= Seq::<crate::engine::types::AcceptedJobView>::empty());
            reveal_with_fuel(crate::persistence::ingest::accepted_rows, 2);
        }
        let mut replies = self.enqueue_batch(batch);
        proof {
            assert(reply_matches(replies@[0], enqueue_reply(before, seq![given], 0)));
            let last = crate::persistence::ingest::last_id(before.jobs);
            let added = crate::persistence::ingest::accepted_rows(
                before.queues,
                seq![given],
                last,
            );
            if before.queues.dom().contains(given.queue_name) {
                let row = crate::engine::types::AcceptedJobView {
                    id: last + 1,
                    dispatch_id: None,
                    ..given
                };
                assert(added =~= seq![row]);
                assert(before.jobs + seq![row] =~= before.jobs.push(row));
            } else {
                assert(before.jobs + added =~= before.jobs);
            }
        }
        match replies.pop() {
            Some(reply) => reply,
            None => Err(StoreError::Internal("ingest writer dropped reply".to_owned())),
        }
    }

    /// Serves one request at `now`.
    pub fn handle(&mut self, request: IngestRequest, now: i64) -> (r: IngestReply)
        requires
            old(self).wf(),
        ensures
            final(self).wf(),
            ingest_effect(old(self)@, request, now, final(self)@, r),
    {
        match request {
            IngestRequest::UpsertQueue { queue, .. } => IngestReply::Queue(
                self.upsert_queue(queue, now),
            ),
            IngestRequest::Enqueue { job, .. } => IngestReply::Enqueued(self.enqueue(job)),
            IngestRequest::ClaimBatch { queue_name, limit, .. } => IngestReply::Claimed(
                self.claim_batch(queue_name.as_str(), limit, now),
            ),
            IngestRequest::Repend { job_id, dispatch_id, .. } => {
                self.repend(job_id, dispatch_id.as_str(), now);
                IngestReply::Repended
            },
            IngestRequest::CleanupExpiredRecords { cutoff, .. } => IngestReply::Deleted(
                self.cleanup_expired_records(cutoff),
            ),
        }
    }
}

/// A job that waits to be stored.
#[derive(Debug)]
pub struct PendingEnqueue {
    pub job: AcceptedJob,
    pub ticket: u64,
}

/// The requests that wait at the ingest writer.
pub struct IngestQueues {
    pub meta: VecDeque<IngestRequest>,
    pub claim: VecDeque<IngestRequest>,
    pub ingest: VecDeque<PendingEnqueue>,
}

/// The tickets of requests.
pub open spec fn ingest_tickets(requests: Seq<IngestRequest>) -> Seq<u64> {
    requests.map_values(|r: IngestRequest| r.ticket_of())
}

/// The tickets of jobs.
pub open spec fn enqueue_tickets(requests: Seq<PendingEnqueue>) -> Seq<u64> {
    requests.map_values(|r: PendingEnqueue| r.ticket)
}

/// What the ingest writer does next.
#[derive(Debug)]
pub enum IngestTurn {
    /// Nothing waits.
    Idle,
    /// Serve this request by itself.
    Single(IngestRequest),
    /// Collect and store a batch of jobs.
    Ingest,
}

/// Whether a turn serves somebody who waits, and whoever it serves has waited
/// longest in their line: housekeeping first, then claims, then new jobs.
pub open spec fn is_next_for_ingest(queues: IngestQueues, turn: IngestTurn) -> bool {
    match turn {
        IngestTurn::Single(request) => if queues.meta@.len() > 0 {
            request == queues.meta@[0]
        } else {
            queues.claim@.len() > 0 && request == queues.claim@[0]
        },
        IngestTurn::Ingest => {
            &&& queues.meta@.len() == 0
            &&& queues.claim@.len() == 0
            &&& queues.ingest@.len() > 0
        },
        IngestTurn::Idle => {
            &&& queues.meta@.len() == 0
            &&& queues.claim@.len() == 0
            &&& queues.ingest@.len() == 0
        },
    }
}

impl IngestQueues {
    /// The tickets of everyone who waits here.
    pub open spec fn tickets(self) -> Multiset<u64> {
        ingest_tickets(self.meta@).to_multiset().add(
            ingest_tickets(self.claim@).to_multiset(),
        ).add(enqueue_tickets(self.ingest@).to_multiset())
    }

    pub fn new() -> (r: Self)
        ensures
            r.meta@.len() == 0,
            r.claim@.len() == 0,
            r.ingest@.len() == 0,
    {
        IngestQueues { meta: VecDeque::new(), claim: VecDeque::new(), ingest: VecDeque::new() }
    }

    pub fn is_empty(&self) -> (r: bool)
        ensures
            r == (self.meta@.len() == 0 && self.claim@.len() == 0 && self.ingest@.len() == 0),
    {
        self.meta.len() == 0 && self.claim.len() == 0 && self.ingest.len() == 0
    }

    /// Puts a request at the end of its line.
    pub fn push(&mut self, request: IngestRequest)
        ensures
            final(self).tickets() == old(self).tickets().insert(request.ticket_of()),
            match request {
                IngestRequest::Enqueue { job, ticket } => {
                    &&& final(self).ingest@ == old(self).ingest@.push(
                        PendingEnqueue { job, ticket },
                    )
                    &&& final(self).meta == old(self).meta
                    &&& final(self).claim == old(self).claim
                },
                IngestRequest::ClaimBatch { .. } => {
                    &&& final(self).claim@ == old(self).claim@.push(request)
                    &&& final(self).meta == old(self).meta
                    &&& final(self).ingest == old(self).ingest
                },
                _ => {
                    &&& final(self).meta@ == old(self).meta@.push(request)
                    &&& final(self).claim == old(self).claim
                    &&& final(self).ingest == old(self).ingest
                },
            },
    {
        let is_claim = matches!(request, IngestRequest::ClaimBatch { .. });
        match request {
            IngestRequest::Enqueue { job, ticket } => {
                let item = PendingEnqueue { job, ticket };
                proof {
                    lemma_ticket_joins(enqueue_tickets(self.ingest@), ticket);
                    assert(enqueue_tickets(self.ingest@.push(item)) =~= enqueue_tickets(
                        self.ingest@,
                    ).push(ticket));
                }
                self.ingest.push_back(item);
            },
            other => if is_claim {
                proof {
                    lemma_ticket_joins(ingest_tickets(self.claim@), other.ticket_of());
                    assert(ingest_tickets(self.claim@.push(other)) =~= ingest_tickets(
                        self.claim@,
                    ).push(other.ticket_of()));
                }
                self.claim.push_back(other);
            } else {
                proof {
                    lemma_ticket_joins(ingest_tickets(self.meta@), other.ticket_of());
                    assert(ingest_tickets(self.meta@.push(other)) =~= ingest_tickets(
                        self.meta@,
                    ).push(other.ticket_of()));
                }
                self.meta.push_back(other);
            },
        }
        proof {
            assert(self.tickets() =~= old(self).tickets().insert(request.ticket_of()));
        }
    }

    /// Decides on the next turn: housekeeping first, then claims, then jobs
    /// that want to be stored, each in the order in which they came.
    pub fn next_turn(&mut self) -> (r: IngestTurn)
        ensures
            final(self).ingest == old(self).ingest,
            old(self).meta@.len() > 0 ==> {
                &&& r == IngestTurn::Single(old(self).meta@[0])
                &&& final(self).meta@ == old(self).meta@.skip(1)
                &&& final(self).claim == old(self).claim
                &&& old(self).tickets() == final(self).tickets().insert(r->Single_0.ticket_of())
            },
            old(self).meta@.len() == 0 && old(self).claim@.len() > 0 ==> {
                &&& r == IngestTurn::Single(old(self).claim@[0])
                &&& final(self).claim@ == old(self).claim@.skip(1)
                &&& final(self).meta == old(self).meta
                &&& old(self).tickets() == final(self).tickets().insert(r->Single_0.ticket_of())
            },
            old(self).meta@.len() == 0 && old(self).claim@.len() == 0 ==> {
                &&& r == (if old(self).ingest@.len() > 0 {
                    IngestTurn::Ingest
                } else {
                    IngestTurn::Idle
                })
                &&& *final(self) == *old(self)
            },
            is_next_for_ingest(*old(self), r),
    {
        if self.meta.len() > 0 {
            proof {
                let line = ingest_tickets(self.meta@);
                lemma_ticket_leaves(line);
                assert(line.skip(1) =~= ingest_tickets(self.meta@.skip(1)));
            }
            match self.meta.pop_front() {
                Some(request) => {
                    proof {
                        assert(self.meta@ =~= old(self).meta@.skip(1));
                        assert(old(self).tickets() =~= self.tickets().insert(request.ticket_of()));
                    }
                    return IngestTurn::Single(request);
                },
                None => {},
            }
        }
        if self.claim.len() > 0 {
            proof {
                let line = ingest_tickets(self.claim@);
                lemma_ticket_leaves(line);
                assert(line.skip(1) =~= ingest_tickets(self.claim@.skip(1)));
            }
            match self.claim.pop_front() {
                Some(request) => {
                    proof {
                        assert(self.claim@ =~= old(self).claim@.skip(1));
                        assert(old(self).tickets() =~= self.tickets().insert(request.ticket_of()));
                    }
                    return IngestTurn::Single(request);
                },
                None => {},
            }
        }
        if self.ingest.len() > 0 {
            IngestTurn::Ingest
        } else {
            IngestTurn::Idle
        }
    }

    /// Empties every line: whoever still waits is served before the writer
    /// stops, jobs first, then housekeeping, then claims.
    pub fn drain(&mut self) -> (r: IngestRemainder)
        ensures
            r.ingest@ == old(self).ingest@,
            r.meta@ == old(self).meta@,
            r.claim@ == old(self).claim@,
            final(self).ingest@.len() == 0,
            final(self).meta@.len() == 0,
            final(self).claim@.len() == 0,
    {
        let ingest = drain_line(&mut self.ingest);
        let meta = drain_line(&mut self.meta);
        let claim = drain_line(&mut self.claim);
        IngestRemainder { ingest, meta, claim }
    }
}

/// The lines in the order in which they are served when no more requests
/// come.
pub struct IngestRemainder {
    pub ingest: Vec<PendingEnqueue>,
    pub meta: Vec<IngestRequest>,
    pub claim: Vec<IngestRequest>,
}

/// A batch of jobs that is being collected.
pub struct EnqueueTurn {
    pub pending: Vec<PendingEnqueue>,
    pub target: usize,
    pub deadline: Span,
}

impl EnqueueTurn {
    /// The tickets of the batch.
    pub open spec fn tickets(self) -> Multiset<u64> {
        enqueue_tickets(self.pending@).to_multiset()
    }

    /// Starts a batch of up to `target` jobs with those that already wait, in
    /// order. It may wait for more until `wait` has passed.
    pub fn open(queues: &mut IngestQueues, target: usize, wait: Span, now: Span) -> (r: Self)
        ensures
            r.target == target,
            r.deadline.nanos == wait_end(now, wait),
            ({
                let n = if old(queues).ingest@.len() <= target {
                    old(queues).ingest@.len() as int
                } else {
                    target as int
                };
                &&& r.pending@ == old(queues).ingest@.take(n)
                &&& final(queues).ingest@ == old(queues).ingest@.skip(n)
            }),
            final(queues).meta == old(queues).meta,
            final(queues).claim == old(queues).claim,
            r.tickets().add(final(queues).tickets()) == old(queues).tickets(),
    {
        let ghost waiting = queues.ingest@;
        let mut pending: Vec<PendingEnqueue> = Vec::new();
        proof {
            assert(waiting.take(0) =~= Seq::<PendingEnqueue>::empty());
            assert(waiting.skip(0) =~= waiting);
        }
        while pending.len() < target && queues.ingest.len() > 0
            invariant
                pending@.len() <= target,
                pending@.len() <= waiting.len(),
                pending@ == waiting.take(pending@.len() as int),
                queues.ingest@ == waiting.skip(pending@.len() as int),
                queues.meta == old(queues).meta,
                queues.claim == old(queues).claim,
            decreases target - pending@.len(),
        {
            let ghost n = pending@.len() as int;
            match queues.ingest.pop_front() {
                Some(item) => {
                    pending.push(item);
                    proof {
                        assert(item == waiting[n]);
                        assert(pending@ =~= waiting.take(n + 1));
                        assert(queues.ingest@ =~= waiting.skip(n + 1));
                    }
                },
                None => {},
            }
        }
        let turn = EnqueueTurn { pending, target, deadline: later(now, wait) };
        proof {
            let n = turn.pending@.len() as int;
            let line = enqueue_tickets(waiting);
            lemma_tickets_divide(line, n);
            assert(line.take(n) =~= enqueue_tickets(turn.pending@));
            assert(line.skip(n) =~= enqueue_tickets(queues.ingest@));
            assert(turn.tickets().add(queues.tickets()) =~= old(queues).tickets());
        }
        turn
    }

    /// How long to wait for another request at `now`: not at all once the
    /// batch is full or its time is up.
    pub fn remaining(&self, now: Span) -> (r: Option<Span>)
        ensures
            match r {
                Some(left) => self.pending@.len() < self.target && left.nanos == time_left(
                    self.deadline,
                    now,
                ) && left.nanos > 0,
                None => self.pending@.len() >= self.target || time_left(self.deadline, now) == 0,
            },
    {
        if self.pending.len() < self.target && self.deadline.nanos > now.nanos {
            Some(Span { nanos: self.deadline.nanos - now.nanos })
        } else {
            None
        }
    }

    /// Takes in a request that came while the batch was being collected, and
    /// says whether to go on collecting. A job joins the batch; anything else
    /// waits its turn, and a claim, a queue or a repend ends the wait.
    pub fn accept(&mut self, queues: &mut IngestQueues, request: IngestRequest) -> (r: bool)
        ensures
            final(self).target == old(self).target,
            final(self).deadline == old(self).deadline,
            r == !request.preempts(),
            match request {
                IngestRequest::Enqueue { job, ticket } => {
                    &&& final(self).pending@ == old(self).pending@.push(
                        PendingEnqueue { job, ticket },
                    )
                    &&& *final(queues) == *old(queues)
                },
                IngestRequest::ClaimBatch { .. } => {
                    &&& final(self).pending == old(self).pending
                    &&& final(queues).claim@ == old(queues).claim@.push(request)
                    &&& final(queues).meta == old(queues).meta
                    &&& final(queues).ingest == old(queues).ingest
                },
                _ => {
                    &&& final(self).pending == old(self).pending
                    &&& final(queues).meta@ == old(queues).meta@.push(request)
                    &&& final(queues).claim == old(queues).claim
                    &&& final(queues).ingest == old(queues).ingest
                },
            },
            final(self).tickets().add(final(queues).tickets()) == old(self).tickets().add(
                old(queues).tickets(),
            ).insert(request.ticket_of()),
    {
        match request {
            IngestRequest::Enqueue { job, ticket } => {
                let item = PendingEnqueue { job, ticket };
                proof {
                    lemma_ticket_joins(enqueue_tickets(self.pending@), ticket);
                    assert(enqueue_tickets(self.pending@.push(item)) =~= enqueue_tickets(
                        self.pending@,
                    ).push(ticket));
                }
                self.pending.push(item);
                proof {
                    assert(self.tickets().add(queues.tickets()) =~= old(self).tickets().add(
                        old(queues).tickets(),
                    ).insert(ticket));
                }
                true
            },
            other => {
                let preempt = matches!(
                    other,
                    IngestRequest::ClaimBatch { .. }
                        | IngestRequest::UpsertQueue { .. }
                        | IngestRequest::Repend { .. }
                );
                queues.push(other);
                proof {
                    assert(self.tickets().add(queues.tickets()) =~= old(self).tickets().add(
                        old(queues).tickets(),
                    ).insert(request.ticket_of()));
                }
                !preempt
            },
        }
    }

    /// Why the batch is written as it stands.
    pub fn reason(&self) -> (r: FlushReason)
        ensures
            r == reason_of(self.pending@.len() as int, self.target as int),
    {
        if self.pending.len() >= self.target {
            FlushReason::FullBatch
        } else {
            FlushReason::Timeout
        }
    }
}

/// A claim at the table hands out the accepted rows at the head of the line,
/// one for one: each with the id, the queue, the payload and the time of
/// acceptance of its row, and with the timeout that the queue has.
pub proof fn claimed_rows_are_handed_out_whole(
    before: IngestView,
    queue_name: String,
    limit: usize,
    ticket: u64,
    now: i64,
    after: IngestView,
    claimed: Vec<IngestClaimed>,
)
    requires
        ingest_effect(
            before,
            IngestRequest::ClaimBatch { queue_name, limit, ticket },
            now,
            after,
            IngestReply::Claimed(Ok(claimed)),
        ),
    ensures
        ({
            let picked = claimable(before.jobs, queue_name@, claim_limit(limit as int));
            &&& claimed@.len() == picked.len()
            &&& forall|i: int|
                0 <= i < claimed@.len() ==> {
                    let claim = #[trigger] claimed@[i];
                    &&& before.jobs.contains(picked[i])
                    &&& picked[i].queue_name == queue_name@
                    &&& picked[i].dispatch_id is None
                    &&& claim.id == picked[i].id
                    &&& claim.name@ == picked[i].queue_name
                    &&& claim.payload@ == picked[i].payload
                    &&& claim.created_at == picked[i].created_at
                    &&& claim.timeout_secs == before.queues[queue_name@].timeout_secs
                }
        }),
{
    let picked = claimable(before.jobs, queue_name@, claim_limit(limit as int));
    assert forall|i: int| 0 <= i < claimed@.len() implies {
        let claim = #[trigger] claimed@[i];
        &&& before.jobs.contains(picked[i])
        &&& picked[i].queue_name == queue_name@
        &&& picked[i].dispatch_id is None
        &&& claim.id == picked[i].id
        &&& claim.name@ == picked[i].queue_name
        &&& claim.payload@ == picked[i].payload
        &&& claim.created_at == picked[i].created_at
        &&& claim.timeout_secs == before.queues[queue_name@].timeout_secs
    } by {
        let seen = claimed@[i]@;
        assert(seen.id == picked[i].id);
        assert(before.jobs.contains(picked[i]));
    }
}

/// Which requests cut short a batch that is being collected: those that somebody
/// waits for. Jobs, reports, dispatches and cleaning up do not.
pub proof fn urgent_requests_cut_batches_short(results: ResultsRequest, ingest: IngestRequest)
    ensures
        results.preempts() <==> match results {
            ResultsRequest::UpsertQueue { .. } => true,
            ResultsRequest::Dispatch { .. } => false,
            ResultsRequest::Complete { .. } => false,
            ResultsRequest::Abandon { .. } => true,
            ResultsRequest::RecoverStale { .. } => true,
            ResultsRequest::CleanupExpiredRecords { .. } => false,
        },
        ingest.preempts() <==> match ingest {
            IngestRequest::UpsertQueue { .. } => true,
            IngestRequest::Enqueue { .. } => false,
            IngestRequest::ClaimBatch { .. } => true,
            IngestRequest::Repend { .. } => true,
            IngestRequest::CleanupExpiredRecords { .. } => false,
        },
{
}

/// A batch is full once it has reached its target. Its time ends when the wait
/// has passed since it was opened, and what is left of it shrinks as time goes
/// by.
pub proof fn batches_end_full_or_late(filled: int, target: int, opened: Span, wait: Span, now: Span)
    requires
        opened.nanos + wait.nanos <= u128::MAX,
        opened.nanos <= now.nanos,
    ensures
        filled >= target ==> reason_of(filled, target) == FlushReason::FullBatch,
        filled < target ==> reason_of(filled, target) == FlushReason::Timeout,
        wait_end(opened, wait) == opened.nanos + wait.nanos,
        ({
            let deadline = Span { nanos: wait_end(opened, wait) as u128 };
            let passed = now.nanos - opened.nanos;
            &&& passed < wait.nanos ==> time_left(deadline, now) == wait.nanos - passed
            &&& passed >= wait.nanos ==> time_left(deadline, now) == 0
        }),
{
}

/// Cleaning up deletes exactly the rows that are older than the cutoff, and
/// answers how many: attempts by when they last changed, jobs by when they were
/// accepted.
pub proof fn cleaning_up_answers_for_old_rows(
    attempts: ResultsView,
    cleaned: ResultsView,
    jobs: IngestView,
    kept: IngestView,
    cutoff: i64,
    ticket: u64,
    now: i64,
    deleted_attempts: usize,
    deleted_jobs: usize,
)
    requires
        results_effect(
            attempts,
            ResultsRequest::CleanupExpiredRecords { cutoff, ticket },
            now,
            cleaned,
            ResultsReply::Deleted(deleted_attempts),
        ),
        ingest_effect(
            jobs,
            IngestRequest::CleanupExpiredRecords { cutoff, ticket },
            now,
            kept,
            IngestReply::Deleted(deleted_jobs),
        ),
    ensures
        cleaned.executions == attempts.executions.filter(
            |row: crate::engine::types::ExecutionWithQueueConfigView|
                row.execution.updated_at >= cutoff,
        ),
        deleted_attempts == attempts.executions.len() - cleaned.executions.len(),
        cleaned.queues == attempts.queues,
        kept.jobs == jobs.jobs.filter(
            |job: crate::engine::types::AcceptedJobView| job.created_at >= cutoff,
        ),
        deleted_jobs == jobs.jobs.len() - kept.jobs.len(),
        kept.queues == jobs.queues,
{
    assert(retained_executions(attempts.executions, cutoff as int) =~= attempts.executions.filter(
        |row: crate::engine::types::ExecutionWithQueueConfigView|
            row.execution.updated_at >= cutoff,
    ));
    assert(retained_jobs(jobs.jobs, cutoff as int) =~= jobs.jobs.filter(
        |job: crate::engine::types::AcceptedJobView| job.created_at >= cutoff,
    ));
}

/// Housekeeping is never held up by the lanes, and the writer rests only when
/// there is nothing to record.
pub proof fn writers_rest_only_when_idle(queues: ResultsQueues, turn: ResultsTurn)
    requires
        is_next(queues, turn),
    ensures
        queues.meta@.len() > 0 ==> turn == ResultsTurn::Meta(queues.meta@[0]),
        queues.meta@.len() == 0 ==> !(turn is Meta),
        turn is Dispatch ==> queues.dispatch@.len() > 0 && turn->Dispatch_0 == queues.dispatch@[0],
        turn is Completion ==> queues.complete@.len() > 0,
        turn is Idle ==> queues.meta@.len() == 0 && queues.complete@.len() == 0 && forall|i: int|
            0 <= i < queues.dispatch@.len() ==> (#[trigger] queues.dispatch@[i]).rows@.len() == 0,
{
    if turn is Idle {
        lemma_no_rows_wait(queues.dispatch@);
    }
}

proof fn lemma_no_rows_wait(dispatch: Seq<PendingDispatch>)
    requires
        rows_waiting(dispatch) == 0,
    ensures
        forall|i: int|
            0 <= i < dispatch.len() ==> (#[trigger] dispatch[i]).rows@.len() == 0,
    decreases dispatch.len(),
{
    if dispatch.len() > 0 {
        let fewer = dispatch.drop_last();
        lemma_rows_waiting(fewer);
        lemma_no_rows_wait(fewer);
        assert forall|i: int| 0 <= i < dispatch.len() implies (
        #[trigger] dispatch[i]).rows@.len() == 0 by {
            if i < fewer.len() {
                assert(dispatch[i] == fewer[i]);
            }
        }
    }
}

/// At the ingest writer housekeeping goes first, then claims, then new jobs,
/// and within a line whoever has waited longest.
pub proof fn claims_go_before_new_jobs(queues: IngestQueues, turn: IngestTurn)
    requires
        is_next_for_ingest(queues, turn),
    ensures
        queues.meta@.len() > 0 ==> turn == IngestTurn::Single(queues.meta@[0]),
        queues.meta@.len() == 0 && queues.claim@.len() > 0 ==> turn == IngestTurn::Single(
            queues.claim@[0],
        ),
        queues.meta@.len() == 0 && queues.claim@.len() == 0 && queues.ingest@.len() > 0 ==> turn
            == IngestTurn::Ingest,
        queues.meta@.len() == 0 && queues.claim@.len() == 0 && queues.ingest@.len() == 0 ==> turn
            == IngestTurn::Idle,
{
}

/// Every request has its own ticket, and whoever waits in a line is waited for
/// by it.
pub proof fn requests_have_their_own_tickets(results: ResultsRequest, ingest: IngestRequest)
    ensures
        match results {
            ResultsRequest::UpsertQueue { ticket, .. } => results.ticket_of() == ticket,
            ResultsRequest::Dispatch { ticket, .. } => results.ticket_of() == ticket,
            ResultsRequest::Complete { ticket, .. } => results.ticket_of() == ticket,
            ResultsRequest::Abandon { ticket, .. } => results.ticket_of() == ticket,
            ResultsRequest::RecoverStale { ticket, .. } => results.ticket_of() == ticket,
            ResultsRequest::CleanupExpiredRecords { ticket, .. } => results.ticket_of() == ticket,
        },
        match ingest {
            IngestRequest::UpsertQueue { ticket, .. } => ingest.ticket_of() == ticket,
            IngestRequest::Enqueue { ticket, .. } => ingest.ticket_of() == ticket,
            IngestRequest::ClaimBatch { ticket, .. } => ingest.ticket_of() == ticket,
            IngestRequest::Repend { ticket, .. } => ingest.ticket_of() == ticket,
            IngestRequest::CleanupExpiredRecords { ticket, .. } => ingest.ticket_of() == ticket,
        },
{
}

/// A report, a repend or an abandonment at a writer does what the table does,
/// and nothing to the queues.
pub proof fn writers_leave_queues_alone(
    before: ResultsView,
    request: ResultsRequest,
    now: i64,
    after: ResultsView,
    reply: ResultsReply,
    jobs: IngestView,
    asked: IngestRequest,
    left: IngestView,
    answer: IngestReply,
)
    requires
        results_effect(before, request, now, after, reply),
        ingest_effect(jobs, asked, now, left, answer),
    ensures
        !(request is UpsertQueue) ==> after.queues == before.queues,
        request is UpsertQueue ==> after.executions == before.executions,
        !(asked is UpsertQueue) ==> left.queues == jobs.queues,
        asked is UpsertQueue ==> left.jobs == jobs.jobs,
{
}

} // verus!
