//! The workers that are connected, and the slots that are promised to jobs.

use crate::engine::types::Job;
use crate::engine::{
    DispatchError, DispatchErrorView, DispatchPermit, JobOutcome, QueueReservation,
    ReservedDispatch, WorkerEvent, WorkerResult,
};
use crate::protocol::{JobResult, WorkerMessage};
use crate::span::Span;
use crate::text::{has_text, same_text, texts};
use vstd::prelude::*;

verus! {

/// What is known of one connected worker.
#[derive(Debug, Clone, PartialEq, Eq)]
pub struct WorkerState {
    pub queue_name: String,
    pub running_jobs: u32,
    pub free_slots: u32,
    pub last_activity: Span,
    /// Slots that are promised to jobs on their way.
    pub reserved_slots: u32,
    pub draining: bool,
}

/// A connected worker.
#[derive(Debug, Clone, PartialEq, Eq)]
pub struct RegisteredWorker {
    pub instance_id: u128,
    pub state: WorkerState,
}

/// A slot of one worker.
#[derive(Debug, Clone, Copy, PartialEq, Eq)]
pub struct RegistryPermit {
    pub worker_id: u128,
}

impl DispatchPermit for RegistryPermit {

}

impl WorkerState {
    /// No more slots are promised than there are, unless the worker takes no
    /// more jobs anyway.
    pub open spec fn within_capacity(self) -> bool {
        self.draining || self.reserved_slots <= self.free_slots
    }

    /// Whether a slot can be promised to a job of `queue`.
    pub open spec fn has_room(self, queue: Seq<char>) -> bool {
        !self.draining && self.queue_name@ == queue && self.free_slots > self.reserved_slots
    }

    /// The worker with one more slot promised.
    pub open spec fn with_reservation(self) -> WorkerState {
        WorkerState { reserved_slots: (self.reserved_slots + 1) as u32, ..self }
    }

    /// The worker with one slot less promised.
    pub open spec fn with_release(self) -> WorkerState {
        WorkerState {
            reserved_slots: if self.reserved_slots > 0 {
                (self.reserved_slots - 1) as u32
            } else {
                0
            },
            ..self
        }
    }

    /// The worker as its own account of its capacity describes it.
    pub open spec fn with_capacity(self, running_jobs: u32, free_slots: u32) -> WorkerState {
        WorkerState { running_jobs, free_slots, reserved_slots: 0, ..self }
    }

    /// The worker once it takes no more jobs.
    pub open spec fn drained(self) -> WorkerState {
        WorkerState { draining: true, free_slots: 0, ..self }
    }
}

/// Replaces what was estimated of a worker by its complete account of its
/// capacity.
pub fn record_worker_capacity(state: &mut WorkerState, running_jobs: u32, free_slots: u32)
    ensures
        *final(state) == old(state).with_capacity(running_jobs, free_slots),
        final(state).within_capacity(),
{
    state.running_jobs = running_jobs;
    state.free_slots = free_slots;
    state.reserved_slots = 0;
}

/// Lets a worker drain, and gives the acknowledgement to be sent to it.
pub fn begin_drain(state: &mut WorkerState) -> (r: WorkerMessage)
    ensures
        *final(state) == old(state).drained(),
        r == WorkerMessage::Draining,
{
    state.draining = true;
    state.free_slots = 0;
    WorkerMessage::Draining
}

/// The workers that are connected, in the order in which they registered.
pub struct WorkerRegistry {
    pub workers: Vec<RegisteredWorker>,
}

/// No instance is registered twice.
pub open spec fn instances_distinct(workers: Seq<RegisteredWorker>) -> bool {
    forall|i: int, j: int|
        0 <= i < j < workers.len() ==> (#[trigger] workers[i]).instance_id != (
        #[trigger] workers[j]).instance_id
}

/// Every worker is within its capacity.
pub open spec fn all_within_capacity(workers: Seq<RegisteredWorker>) -> bool {
    forall|i: int| 0 <= i < workers.len() ==> (#[trigger] workers[i]).state.within_capacity()
}

/// Whether the worker at `at` is `instance_id`.
pub open spec fn registered_at(workers: Seq<RegisteredWorker>, instance_id: u128, at: int) -> bool {
    0 <= at < workers.len() && workers[at].instance_id == instance_id
}

/// Whether the worker at `at` is the first with room for a job of `queue`.
pub open spec fn first_with_room(workers: Seq<RegisteredWorker>, queue: Seq<char>, at: int) -> bool {
    &&& 0 <= at < workers.len()
    &&& workers[at].state.has_room(queue)
    &&& forall|k: int| 0 <= k < at ==> !(#[trigger] workers[k]).state.has_room(queue)
}

/// The workers, and the permits handed out, after up to `count` slots of
/// `queue` have been promised one by one.
pub open spec fn reserve_slots(
    workers: Seq<RegisteredWorker>,
    queue: Seq<char>,
    count: nat,
) -> (Seq<RegisteredWorker>, Seq<u128>)
    decreases count,
{
    if count == 0 {
        (workers, Seq::empty())
    } else {
        let (now, ids) = reserve_slots(workers, queue, (count - 1) as nat);
        if exists|at: int| first_with_room(now, queue, at) {
            let at = choose|at: int| first_with_room(now, queue, at);
            (
                now.update(
                    at,
                    RegisteredWorker { state: now[at].state.with_reservation(), ..now[at] },
                ),
                ids.push(now[at].instance_id),
            )
        } else {
            (now, ids)
        }
    }
}

/// The slots that workers have to spare for `queue`.
pub open spec fn spare_slots(workers: Seq<RegisteredWorker>, queue: Seq<char>) -> int
    decreases workers.len(),
{
    if workers.len() == 0 {
        0
    } else {
        let rest = spare_slots(workers.drop_last(), queue);
        let state = workers.last().state;
        if state.has_room(queue) {
            rest + state.free_slots - state.reserved_slots
        } else {
            rest
        }
    }
}

proof fn lemma_spare_slots(workers: Seq<RegisteredWorker>, queue: Seq<char>)
    ensures
        spare_slots(workers, queue) >= 0,
        spare_slots(workers, queue) == 0 <==> forall|k: int|
            0 <= k < workers.len() ==> !(#[trigger] workers[k]).state.has_room(queue),
    decreases workers.len(),
{
    if workers.len() > 0 {
        let fewer = workers.drop_last();
        lemma_spare_slots(fewer, queue);
        if spare_slots(workers, queue) == 0 {
            assert forall|k: int| 0 <= k < workers.len() implies !(
            #[trigger] workers[k]).state.has_room(queue) by {
                if k < fewer.len() {
                    assert(!fewer[k].state.has_room(queue));
                }
            }
        } else if forall|k: int|
            0 <= k < workers.len() ==> !(#[trigger] workers[k]).state.has_room(queue) {
            assert forall|k: int| 0 <= k < fewer.len() implies !(
            #[trigger] fewer[k]).state.has_room(queue) by {
                assert(!workers[k].state.has_room(queue));
            }
            assert(!workers[workers.len() - 1].state.has_room(queue));
        }
    }
}

proof fn lemma_spare_after_reservation(
    workers: Seq<RegisteredWorker>,
    queue: Seq<char>,
    at: int,
)
    requires
        0 <= at < workers.len(),
        workers[at].state.has_room(queue),
    ensures
        spare_slots(
            workers.update(
                at,
                RegisteredWorker { state: workers[at].state.with_reservation(), ..workers[at] },
            ),
            queue,
        ) == spare_slots(workers, queue) - 1,
    decreases workers.len(),
{
    let worker = RegisteredWorker { state: workers[at].state.with_reservation(), ..workers[at] };
    let after = workers.update(at, worker);
    if at == workers.len() - 1 {
        assert(after.drop_last() =~= workers.drop_last());
    } else {
        lemma_spare_after_reservation(workers.drop_last(), queue, at);
        assert(after.drop_last() =~= workers.drop_last().update(at, worker));
    }
}

/// Reserving hands out as many slots as were asked for, or as many as there
/// are; promises no slot that is not there, and none of a worker that drains;
/// and touches nothing but promises.
pub proof fn reservations_respect_capacity(
    workers: Seq<RegisteredWorker>,
    queue: Seq<char>,
    count: nat,
)
    requires
        all_within_capacity(workers),
    ensures
        ({
            let (after, ids) = reserve_slots(workers, queue, count);
            &&& ids.len() == (if count <= spare_slots(workers, queue) {
                count as int
            } else {
                spare_slots(workers, queue)
            })
            &&& spare_slots(after, queue) == spare_slots(workers, queue) - ids.len()
            &&& all_within_capacity(after)
            &&& after.len() == workers.len()
            &&& forall|i: int|
                0 <= i < workers.len() ==> {
                    &&& (#[trigger] after[i]).instance_id == workers[i].instance_id
                    &&& after[i].state == (WorkerState {
                        reserved_slots: after[i].state.reserved_slots,
                        ..workers[i].state
                    })
                    &&& after[i].state.reserved_slots >= workers[i].state.reserved_slots
                    &&& workers[i].state.draining || workers[i].state.queue_name@ != queue
                        ==> after[i] == workers[i]
                }
        }),
    decreases count,
{
    lemma_spare_slots(workers, queue);
    if count > 0 {
        reservations_respect_capacity(workers, queue, (count - 1) as nat);
        let (now, ids) = reserve_slots(workers, queue, (count - 1) as nat);
        lemma_spare_slots(now, queue);
        if exists|at: int| first_with_room(now, queue, at) {
            let at = choose|at: int| first_with_room(now, queue, at);
            assert(first_with_room(now, queue, at));
            assert(now[at].state.has_room(queue));
            lemma_spare_after_reservation(now, queue, at);
        } else {
            assert forall|k: int| 0 <= k < now.len() implies !(#[trigger] now[k]).state.has_room(
                queue,
            ) by {
                if now[k].state.has_room(queue) {
                    lemma_first_with_room(now, queue, k);
                }
            }
        }
    }
}

proof fn lemma_first_with_room(workers: Seq<RegisteredWorker>, queue: Seq<char>, at: int)
    requires
        0 <= at < workers.len(),
        workers[at].state.has_room(queue),
    ensures
        exists|k: int| first_with_room(workers, queue, k),
    decreases at,
{
    if forall|k: int| 0 <= k < at ==> !(#[trigger] workers[k]).state.has_room(queue) {
        assert(first_with_room(workers, queue, at));
    } else {
        let k = choose|k: int| 0 <= k < at && (#[trigger] workers[k]).state.has_room(queue);
        lemma_first_with_room(workers, queue, k);
    }
}

proof fn lemma_no_room_stays(workers: Seq<RegisteredWorker>, queue: Seq<char>, n: nat, count: nat)
    requires
        n <= count,
        forall|at: int| !first_with_room(reserve_slots(workers, queue, n).0, queue, at),
    ensures
        reserve_slots(workers, queue, count) == reserve_slots(workers, queue, n),
    decreases count - n,
{
    if n < count {
        lemma_no_room_stays(workers, queue, n, (count - 1) as nat);
    }
}

/// The workers, and the permits handed out, after every request has been
/// served in turn.
pub open spec fn reserve_all(
    workers: Seq<RegisteredWorker>,
    requests: Seq<QueueReservation>,
) -> (Seq<RegisteredWorker>, Seq<(Seq<char>, u128)>)
    decreases requests.len(),
{
    if requests.len() == 0 {
        (workers, Seq::empty())
    } else {
        let (now, permits) = reserve_all(workers, requests.drop_last());
        let request = requests.last();
        let (after, ids) = reserve_slots(now, request.queue_name@, request.count as nat);
        (after, permits + ids.map_values(|id: u128| (request.queue_name@, id)))
    }
}

/// The queue and the worker of each permit.
pub open spec fn permit_views(permits: Seq<ReservedDispatch<RegistryPermit>>) -> Seq<
    (Seq<char>, u128),
> {
    permits.map_values(
        |p: ReservedDispatch<RegistryPermit>| (p.queue_name@, p.permit.worker_id),
    )
}

impl WorkerRegistry {
    /// Instances are distinct and within their capacity.
    pub open spec fn wf(self) -> bool {
        &&& instances_distinct(self.workers@)
        &&& all_within_capacity(self.workers@)
    }

    /// A registry without workers.
    pub fn new() -> (r: Self)
        ensures
            r.wf(),
            r.workers@.len() == 0,
    {
        WorkerRegistry { workers: Vec::new() }
    }

    /// Where `instance_id` is, if it is registered.
    pub fn position(&self, instance_id: u128) -> (r: Option<usize>)
        ensures
            match r {
                Some(at) => registered_at(self.workers@, instance_id, at as int),
                None => forall|at: int| !#[trigger] registered_at(self.workers@, instance_id, at),
            },
    {
        let mut i: usize = 0;
        while i < self.workers.len()
            invariant
                i <= self.workers@.len(),
                forall|k: int|
                    0 <= k < i ==> (#[trigger] self.workers@[k]).instance_id != instance_id,
            decreases self.workers.len() - i,
        {
            if self.workers[i].instance_id == instance_id {
                return Some(i);
            }
            i += 1;
        }
        None
    }

    /// Gives the worker at `at` another state.
    fn put(&mut self, at: usize, state: WorkerState)
        requires
            old(self).wf(),
            at < old(self).workers@.len(),
            state.within_capacity(),
        ensures
            final(self).wf(),
            final(self).workers@ == old(self).workers@.update(
                at as int,
                RegisteredWorker { state, ..old(self).workers@[at as int] },
            ),
    {
        let instance_id = self.workers[at].instance_id;
        let ghost before = self.workers@;
        self.workers.set(at, RegisteredWorker { instance_id, state });
        proof {
            let after = self.workers@;
            assert(after =~= before.update(
                at as int,
                RegisteredWorker { state, ..before[at as int] },
            ));
            assert forall|i: int, j: int| 0 <= i < j < after.len() implies (
            #[trigger] after[i]).instance_id != (#[trigger] after[j]).instance_id by {
                assert(before[i].instance_id != before[j].instance_id);
            }
            assert forall|i: int| 0 <= i < after.len() implies (
            #[trigger] after[i]).state.within_capacity() by {
                if i != at {
                    assert(before[i].state.within_capacity());
                }
            }
        }
    }

    /// Promises slots to the queues of `requests`, in turn: for each as many
    /// as it asks for and its workers have to spare.
    pub fn reserve(&mut self, requests: &Vec<QueueReservation>) -> (r: Vec<
        ReservedDispatch<RegistryPermit>,
    >)
        requires
            old(self).wf(),
        ensures
            final(self).wf(),
            (final(self).workers@, permit_views(r@)) == reserve_all(old(self).workers@, requests@),
    {
        let ghost start = self.workers@;
        let mut reserved: Vec<ReservedDispatch<RegistryPermit>> = Vec::new();
        let mut i: usize = 0;
        proof {
            assert(requests@.take(0) =~= Seq::<QueueReservation>::empty());
            assert(permit_views(reserved@) =~= Seq::<(Seq<char>, u128)>::empty());
        }
        while i < requests.len()
            invariant
                i <= requests@.len(),
                self.wf(),
                (self.workers@, permit_views(reserved@)) == reserve_all(
                    start,
                    requests@.take(i as int),
                ),
            decreases requests.len() - i,
        {
            let ghost request = requests@[i as int];
            let ghost queue = request.queue_name@;
            proof {
                assert(requests@.take(i + 1).drop_last() =~= requests@.take(i as int));
                assert(requests@.take(i + 1).last() == request);
            }
            let count: usize = requests[i].count;
            let ghost before = self.workers@;
            let ghost handed = permit_views(reserved@);
            let mut n: usize = 0;
            let mut full = false;
            proof {
                assert(reserve_slots(before, queue, 0).1.map_values(|id: u128| (queue, id))
                    =~= Seq::<(Seq<char>, u128)>::empty());
                assert(handed + Seq::<(Seq<char>, u128)>::empty() =~= handed);
            }
            while n < count && !full
                invariant
                    i < requests@.len(),
                    request == requests@[i as int],
                    queue == request.queue_name@,
                    count == request.count,
                    n <= count,
                    self.wf(),
                    self.workers@ == reserve_slots(before, queue, n as nat).0,
                    permit_views(reserved@) == handed + reserve_slots(
                        before,
                        queue,
                        n as nat,
                    ).1.map_values(|id: u128| (queue, id)),
                    full ==> forall|at: int| !first_with_room(self.workers@, queue, at),
                decreases count - n, if full { 0int } else { 1int },
            {
                let mut at: usize = 0;
                while at < self.workers.len() && !self.room_at(at, requests[i].queue_name.as_str())
                    invariant
                        i < requests@.len(),
                        queue == requests@[i as int].queue_name@,
                        at <= self.workers@.len(),
                        forall|k: int|
                            0 <= k < at ==> !(#[trigger] self.workers@[k]).state.has_room(queue),
                    decreases self.workers.len() - at,
                {
                    at += 1;
                }
                let ghost now = self.workers@;
                if at == self.workers.len() {
                    full = true;
                    proof {
                        assert forall|k: int| !first_with_room(self.workers@, queue, k) by {
                            if 0 <= k < now.len() {
                                assert(!now[k].state.has_room(queue));
                            }
                        }
                    }
                } else {
                    proof {
                        assert(first_with_room(now, queue, at as int));
                        let chosen = choose|k: int| first_with_room(now, queue, k);
                        assert(first_with_room(now, queue, chosen));
                        if chosen < at {
                            assert(!now[chosen].state.has_room(queue));
                        } else if at < chosen {
                            assert(!now[at as int].state.has_room(queue));
                        }
                    }
                    let worker_id = self.workers[at].instance_id;
                    let mut state = self.copy_state(at);
                    state.reserved_slots = state.reserved_slots + 1;
                    self.put(at, state);
                    let permit = ReservedDispatch::new(
                        requests[i].queue_name.clone(),
                        RegistryPermit { worker_id },
                    );
                    proof {
                        let ids = reserve_slots(before, queue, n as nat).1;
                        assert(permit_views(reserved@.push(permit)) =~= permit_views(
                            reserved@,
                        ).push((queue, worker_id)));
                        assert(ids.push(worker_id).map_values(|id: u128| (queue, id))
                            =~= ids.map_values(|id: u128| (queue, id)).push((queue, worker_id)));
                        assert(handed + ids.map_values(|id: u128| (queue, id)).push(
                            (queue, worker_id),
                        ) =~= (handed + ids.map_values(|id: u128| (queue, id))).push(
                            (queue, worker_id),
                        ));
                    }
                    reserved.push(permit);
                    n += 1;
                }
            }
            proof {
                if full {
                    lemma_no_room_stays(before, queue, n as nat, count as nat);
                }
            }
            i += 1;
        }
        proof {
            assert(requests@.take(requests@.len() as int) =~= requests@);
        }
        reserved
    }

    /// Whether the worker at `at` has room for a job of `queue`.
    fn room_at(&self, at: usize, queue: &str) -> (r: bool)
        requires
            at < self.workers@.len(),
        ensures
            r == self.workers@[at as int].state.has_room(queue@),
    {
        let state = &self.workers[at].state;
        !state.draining && same_text(state.queue_name.as_str(), queue) && state.free_slots
            > state.reserved_slots
    }

    /// The state of the worker at `at`.
    fn copy_state(&self, at: usize) -> (r: WorkerState)
        requires
            at < self.workers@.len(),
        ensures
            r == self.workers@[at as int].state,
    {
        let state = &self.workers[at].state;
        WorkerState {
            queue_name: state.queue_name.clone(),
            running_jobs: state.running_jobs,
            free_slots: state.free_slots,
            last_activity: state.last_activity,
            reserved_slots: state.reserved_slots,
            draining: state.draining,
        }
    }
}

/// The workers with one slot less promised by `instance_id`, if it is there.
pub open spec fn released(workers: Seq<RegisteredWorker>, instance_id: u128) -> Seq<
    RegisteredWorker,
> {
    Seq::new(
        workers.len(),
        |i: int|
            if workers[i].instance_id == instance_id {
                RegisteredWorker { state: workers[i].state.with_release(), ..workers[i] }
            } else {
                workers[i]
            },
    )
}

/// Whether `instance_id` is a worker that drains.
pub open spec fn drains(workers: Seq<RegisteredWorker>, instance_id: u128) -> bool {
    exists|at: int| #[trigger]
        registered_at(workers, instance_id, at) && workers[at].state.draining
}

/// Why a job cannot go out to `instance_id`, if it cannot.
pub open spec fn dispatch_obstacle(
    workers: Seq<RegisteredWorker>,
    instance_id: u128,
    job: Job,
) -> Option<DispatchErrorView> {
    if job.dispatch_id is None {
        Some(DispatchErrorView::Internal("claimed job has no dispatch id"@))
    } else if forall|at: int| !registered_at(workers, instance_id, at) {
        Some(DispatchErrorView::Internal("reserved worker disappeared"@))
    } else if drains(workers, instance_id) {
        Some(DispatchErrorView::Internal("worker is draining"@))
    } else {
        None
    }
}

/// The workers after an attempt to send a job to `instance_id`: a slot of a
/// worker that drains is given back at once.
pub open spec fn after_dispatch(
    workers: Seq<RegisteredWorker>,
    instance_id: u128,
    job: Job,
) -> Seq<RegisteredWorker> {
    if job.dispatch_id is Some && drains(workers, instance_id) {
        released(workers, instance_id)
    } else {
        workers
    }
}

/// Whether a message takes `job` to a worker: under its token, with its payload,
/// and with the count of its attempts.
pub open spec fn delivers(message: WorkerMessage, job: Job) -> bool {
    match message {
        WorkerMessage::JobDispatch { job_id, dispatch_id, execution_count, payload } => {
            &&& job_id == job.id
            &&& job.dispatch_id == Some(dispatch_id)
            &&& execution_count == job.execution_count
            &&& payload == job.payload
        },
        _ => false,
    }
}

impl WorkerRegistry {
    /// Gives back a slot that was promised by `instance_id`.
    pub fn release_permit(&mut self, instance_id: u128)
        requires
            old(self).wf(),
        ensures
            final(self).wf(),
            final(self).workers@ == released(old(self).workers@, instance_id),
    {
        let ghost before = self.workers@;
        match self.position(instance_id) {
            Some(at) => {
                let mut state = self.copy_state(at);
                state.reserved_slots = state.reserved_slots.saturating_sub(1);
                self.put(at, state);
                proof {
                    assert forall|i: int| 0 <= i < before.len() && i != at implies (
                    #[trigger] before[i]).instance_id != instance_id by {
                        if i < at {
                            assert(before[i].instance_id != before[at as int].instance_id);
                        } else {
                            assert(before[at as int].instance_id != before[i].instance_id);
                        }
                    }
                    assert(self.workers@ =~= released(before, instance_id));
                }
            },
            None => {
                proof {
                    assert forall|i: int| 0 <= i < before.len() implies (
                    #[trigger] before[i]).instance_id != instance_id by {
                        assert(!registered_at(before, instance_id, i));
                    }
                    assert(self.workers@ =~= released(before, instance_id));
                }
            },
        }
    }

    /// Makes out the message that takes a claimed job to the worker whose slot
    /// `permit` stands for, or says why the job cannot go out.
    pub fn dispatch(&mut self, permit: ReservedDispatch<RegistryPermit>, job: Job) -> (r: Result<
        WorkerMessage,
        DispatchError,
    >)
        requires
            old(self).wf(),
        ensures
            final(self).wf(),
            final(self).workers@ == after_dispatch(
                old(self).workers@,
                permit.permit.worker_id,
                job,
            ),
            match (r, dispatch_obstacle(old(self).workers@, permit.permit.worker_id, job)) {
                (Ok(message), None) => message == (WorkerMessage::JobDispatch {
                    job_id: job.id,
                    dispatch_id: job.dispatch_id->Some_0,
                    execution_count: job.execution_count,
                    payload: job.payload,
                }),
                (Err(error), Some(obstacle)) => error@ == obstacle,
                _ => false,
            },
            r matches Ok(message) ==> delivers(message, job),
    {
        let worker_id = permit.into_permit().worker_id;
        let ghost before = self.workers@;
        let dispatch_id = match job.dispatch_id {
            Some(dispatch_id) => dispatch_id,
            None => {
                return Err(DispatchError::Internal("claimed job has no dispatch id".to_owned()));
            },
        };
        match self.position(worker_id) {
            None => Err(DispatchError::Internal("reserved worker disappeared".to_owned())),
            Some(at) => {
                proof {
                    assert forall|k: int| #[trigger] registered_at(before, worker_id, k) implies k
                        == at by {
                        if k < at {
                            assert(before[k].instance_id != before[at as int].instance_id);
                        } else if at < k {
                            assert(before[at as int].instance_id != before[k].instance_id);
                        }
                    }
                }
                if self.workers[at].state.draining {
                    self.release_permit(worker_id);
                    return Err(DispatchError::Internal("worker is draining".to_owned()));
                }
                Ok(
                    WorkerMessage::JobDispatch {
                        job_id: job.id,
                        dispatch_id,
                        execution_count: job.execution_count,
                        payload: job.payload,
                    },
                )
            },
        }
    }

    /// Gives back the slot of a job whose message could not be written, and
    /// says so.
    pub fn dispatch_failed(&mut self, instance_id: u128) -> (r: DispatchError)
        requires
            old(self).wf(),
        ensures
            final(self).wf(),
            final(self).workers@ == released(old(self).workers@, instance_id),
            r@ == DispatchErrorView::Internal("worker dispatch write failed"@),
    {
        self.release_permit(instance_id);
        DispatchError::Internal("worker dispatch write failed".to_owned())
    }

    /// Gives back a slot that was not used.
    pub fn release(&mut self, permit: ReservedDispatch<RegistryPermit>)
        requires
            old(self).wf(),
        ensures
            final(self).wf(),
            final(self).workers@ == released(old(self).workers@, permit.permit.worker_id),
    {
        let permit = permit.into_permit();
        self.release_permit(permit.worker_id)
    }
}

/// What a connection asks for with its first message.
#[derive(Debug, PartialEq, Eq)]
pub struct Registration {
    pub instance_id: u128,
    pub queue_name: String,
    pub running_jobs: u32,
    pub free_slots: u32,
}

/// Why a worker is not, or no longer, served.
#[derive(Debug, PartialEq, Eq)]
pub enum SessionError {
    /// The first message was another than a registration.
    NotRegistered,
    /// The registration names no queue that workers may serve. The peer is
    /// told so first.
    UnknownQueue { reply: WorkerMessage },
    DuplicateInstance,
    /// The worker is not registered.
    Disappeared,
    /// A registered worker may not say this.
    InvalidFrame,
}

/// The message of a session error.
pub open spec fn session_error_text(error: SessionError) -> Seq<char> {
    match error {
        SessionError::NotRegistered => "first worker frame must register"@,
        SessionError::UnknownQueue { .. } => "unknown queue"@,
        SessionError::DuplicateInstance => "duplicate worker instance"@,
        SessionError::Disappeared => "worker disappeared"@,
        SessionError::InvalidFrame => "invalid post-registration worker frame"@,
    }
}

impl SessionError {
    /// The message that this error displays.
    pub fn to_text(&self) -> (r: &'static str)
        ensures
            r@ == session_error_text(*self),
    {
        match self {
            SessionError::NotRegistered => "first worker frame must register",
            SessionError::UnknownQueue { .. } => "unknown queue",
            SessionError::DuplicateInstance => "duplicate worker instance",
            SessionError::Disappeared => "worker disappeared",
            SessionError::InvalidFrame => "invalid post-registration worker frame",
        }
    }
}

/// Whether `message` tells a worker that its queue is not known.
pub open spec fn tells_unknown_queue(message: WorkerMessage) -> bool {
    match message {
        WorkerMessage::Error { code, message } => code@ == "unknown_queue"@ && message@
            == "registration contains an unknown queue"@,
        _ => false,
    }
}

/// Judges the first message of a connection: it has to be a registration for
/// one of the queues in `allowed`.
pub fn judge_registration(message: WorkerMessage, allowed: &Vec<String>) -> (r: Result<
    Registration,
    SessionError,
>)
    ensures
        match (message, r) {
            (
                WorkerMessage::Register { instance_id, queue_name, running_jobs, free_slots },
                Ok(registration),
            ) => {
                &&& queue_name@.len() > 0
                &&& texts(allowed@).contains(queue_name@)
                &&& registration == (Registration {
                    instance_id,
                    queue_name,
                    running_jobs,
                    free_slots,
                })
            },
            (WorkerMessage::Register { queue_name, .. }, Err(error)) => {
                &&& queue_name@.len() == 0 || !texts(allowed@).contains(queue_name@)
                &&& error is UnknownQueue
                &&& tells_unknown_queue(error->reply)
            },
            (_, Err(error)) => error == SessionError::NotRegistered,
            (_, Ok(_)) => false,
        },
{
    match message {
        WorkerMessage::Register { instance_id, queue_name, running_jobs, free_slots } => {
            if queue_name.as_str().is_empty() || !has_text(allowed, queue_name.as_str()) {
                return Err(
                    SessionError::UnknownQueue {
                        reply: WorkerMessage::Error {
                            code: "unknown_queue".to_owned(),
                            message: "registration contains an unknown queue".to_owned(),
                        },
                    },
                );
            }
            Ok(Registration { instance_id, queue_name, running_jobs, free_slots })
        },
        _ => Err(SessionError::NotRegistered),
    }
}

/// A worker as it registers at `now`.
pub open spec fn newcomer(registration: Registration, now: Span) -> RegisteredWorker {
    RegisteredWorker {
        instance_id: registration.instance_id,
        state: WorkerState {
            queue_name: registration.queue_name,
            running_jobs: registration.running_jobs,
            free_slots: registration.free_slots,
            last_activity: now,
            reserved_slots: 0,
            draining: false,
        },
    }
}

/// What comes of a message.
pub struct Reaction {
    /// What the engine is told.
    pub event: Option<WorkerEvent>,
    /// What the worker is told.
    pub reply: Option<WorkerMessage>,
}

/// The outcome that a result stands for.
pub open spec fn outcome_of(result: JobResult) -> JobOutcome {
    match result {
        JobResult::Succeeded { payload } => JobOutcome::Succeeded(payload),
        JobResult::Failed { message } => JobOutcome::Failed(message),
    }
}

/// The state of a worker after it has said `message` at `now`.
pub open spec fn state_after(state: WorkerState, message: WorkerMessage, now: Span) -> WorkerState {
    let active = WorkerState { last_activity: now, ..state };
    match message {
        WorkerMessage::JobResult { running_jobs, free_slots, .. } => active.with_capacity(
            running_jobs,
            free_slots,
        ),
        WorkerMessage::Drain => active.drained(),
        _ => active,
    }
}

/// Whether a registered worker may say `message`.
pub open spec fn may_say(message: WorkerMessage) -> bool {
    message is JobResult || message is Drain || message is Heartbeat
}

/// What comes of a message that `instance_id` sends at `now`. A result replaces
/// what was estimated of its capacity and is passed on; a drain is acknowledged;
/// a heartbeat only shows that it is there; anything else is refused.
pub open spec fn heard(
    before: Seq<RegisteredWorker>,
    instance_id: u128,
    message: WorkerMessage,
    now: Span,
    after: Seq<RegisteredWorker>,
    result: Result<Reaction, SessionError>,
) -> bool {
    if exists|at: int| registered_at(before, instance_id, at) {
        let at = choose|at: int| registered_at(before, instance_id, at);
        let worker = before[at];
        &&& after == before.update(
            at,
            RegisteredWorker { state: state_after(worker.state, message, now), ..worker },
        )
        &&& match result {
            Ok(reaction) => {
                &&& may_say(message)
                &&& reaction.reply == (if message is Drain {
                    Some(WorkerMessage::Draining)
                } else {
                    None
                })
                &&& match message {
                    WorkerMessage::JobResult { job_id, dispatch_id, result, .. } => reaction.event
                        == Some(
                        WorkerEvent::Result {
                            queue_name: worker.state.queue_name,
                            result: WorkerResult {
                                job_id,
                                dispatch_id,
                                outcome: outcome_of(result),
                            },
                        },
                    ),
                    _ => reaction.event is None,
                }
            },
            Err(error) => !may_say(message) && error == SessionError::InvalidFrame,
        }
    } else {
        &&& result is Err
        &&& result->Err_0 == SessionError::Disappeared
        &&& after == before
    }
}

impl WorkerRegistry {
    /// Registers a worker at `now`, and gives the acknowledgement and the
    /// event that follow. An instance can be registered only once.
    pub fn register(&mut self, registration: Registration, now: Span) -> (r: Result<
        (WorkerMessage, WorkerEvent),
        SessionError,
    >)
        requires
            old(self).wf(),
        ensures
            final(self).wf(),
            match r {
                Ok((reply, event)) => {
                    &&& forall|at: int|
                        !#[trigger] registered_at(
                            old(self).workers@,
                            registration.instance_id,
                            at,
                        )
                    &&& final(self).workers@ == old(self).workers@.push(
                        newcomer(registration, now),
                    )
                    &&& final(self).workers@.last().instance_id == registration.instance_id
                    &&& final(self).workers@.last().state == (WorkerState {
                        queue_name: registration.queue_name,
                        running_jobs: registration.running_jobs,
                        free_slots: registration.free_slots,
                        last_activity: now,
                        reserved_slots: 0,
                        draining: false,
                    })
                    &&& reply == (WorkerMessage::Registered {
                        queue_name: registration.queue_name,
                    })
                    &&& event == (WorkerEvent::Registered { queue_name: registration.queue_name })
                },
                Err(error) => {
                    &&& exists|at: int|
                        registered_at(old(self).workers@, registration.instance_id, at)
                    &&& error == SessionError::DuplicateInstance
                    &&& final(self).workers@ == old(self).workers@
                },
            },
    {
        let ghost before = self.workers@;
        if self.position(registration.instance_id).is_some() {
            return Err(SessionError::DuplicateInstance);
        }
        let reply = WorkerMessage::Registered { queue_name: registration.queue_name.clone() };
        let event = WorkerEvent::Registered { queue_name: registration.queue_name.clone() };
        let worker = RegisteredWorker {
            instance_id: registration.instance_id,
            state: WorkerState {
                queue_name: registration.queue_name,
                running_jobs: registration.running_jobs,
                free_slots: registration.free_slots,
                last_activity: now,
                reserved_slots: 0,
                draining: false,
            },
        };
        self.workers.push(worker);
        proof {
            let after = self.workers@;
            assert forall|i: int, j: int| 0 <= i < j < after.len() implies (
            #[trigger] after[i]).instance_id != (#[trigger] after[j]).instance_id by {
                if j < before.len() {
                    assert(before[i].instance_id != before[j].instance_id);
                } else {
                    assert(!registered_at(before, worker.instance_id, i));
                }
            }
            assert forall|i: int| 0 <= i < after.len() implies (
            #[trigger] after[i]).state.within_capacity() by {
                if i < before.len() {
                    assert(before[i].state.within_capacity());
                }
            }
        }
        Ok((reply, event))
    }

    /// Takes in what a registered worker says at `now`.
    pub fn on_message(&mut self, instance_id: u128, message: WorkerMessage, now: Span) -> (r: Result<
        Reaction,
        SessionError,
    >)
        requires
            old(self).wf(),
        ensures
            final(self).wf(),
            heard(old(self).workers@, instance_id, message, now, final(self).workers@, r),
    {
        let ghost before = self.workers@;
        let at = match self.position(instance_id) {
            Some(at) => at,
            None => {
                return Err(SessionError::Disappeared);
            },
        };
        proof {
            assert forall|k: int| #[trigger] registered_at(before, instance_id, k) implies k
                == at by {
                if k < at {
                    assert(before[k].instance_id != before[at as int].instance_id);
                } else if at < k {
                    assert(before[at as int].instance_id != before[k].instance_id);
                }
            }
            assert(before[at as int].state.within_capacity());
        }
        let mut state = self.copy_state(at);
        state.last_activity = now;
        match message {
            WorkerMessage::JobResult { job_id, dispatch_id, result, running_jobs, free_slots } => {
                record_worker_capacity(&mut state, running_jobs, free_slots);
                let outcome = match result {
                    JobResult::Succeeded { payload } => JobOutcome::Succeeded(payload),
                    JobResult::Failed { message } => JobOutcome::Failed(message),
                };
                let queue_name = state.queue_name.clone();
                self.put(at, state);
                Ok(
                    Reaction {
                        event: Some(
                            WorkerEvent::Result {
                                queue_name,
                                result: WorkerResult { job_id, dispatch_id, outcome },
                            },
                        ),
                        reply: None,
                    },
                )
            },
            WorkerMessage::Drain => {
                let reply = begin_drain(&mut state);
                self.put(at, state);
                Ok(Reaction { event: None, reply: Some(reply) })
            },
            WorkerMessage::Heartbeat => {
                self.put(at, state);
                Ok(Reaction { event: None, reply: None })
            },
            _ => {
                self.put(at, state);
                Err(SessionError::InvalidFrame)
            },
        }
    }

    /// Forgets a worker whose connection has ended.
    pub fn disconnect(&mut self, instance_id: u128)
        requires
            old(self).wf(),
        ensures
            final(self).wf(),
            final(self).workers@ == remaining_workers(old(self).workers@, instance_id),
            forall|at: int| !#[trigger] registered_at(final(self).workers@, instance_id, at),
    {
        let ghost before = self.workers@;
        match self.position(instance_id) {
            Some(at) => {
                self.workers.remove(at);
                proof {
                    let after = self.workers@;
                    lemma_remaining_workers(before, instance_id, at as int);
                    assert forall|i: int, j: int| 0 <= i < j < after.len() implies (
                    #[trigger] after[i]).instance_id != (#[trigger] after[j]).instance_id by {
                        let a = if i < at { i } else { i + 1 };
                        let b = if j < at { j } else { j + 1 };
                        assert(after[i] == before[a] && after[j] == before[b]);
                        assert(before[a].instance_id != before[b].instance_id);
                    }
                    assert forall|i: int| 0 <= i < after.len() implies (
                    #[trigger] after[i]).state.within_capacity() by {
                        let a = if i < at { i } else { i + 1 };
                        assert(after[i] == before[a]);
                        assert(before[a].state.within_capacity());
                    }
                    assert forall|k: int| !#[trigger] registered_at(after, instance_id, k) by {
                        if 0 <= k < after.len() {
                            let a = if k < at { k } else { k + 1 };
                            assert(after[k] == before[a]);
                            if a < at {
                                assert(before[a].instance_id != before[at as int].instance_id);
                            } else {
                                assert(before[at as int].instance_id != before[a].instance_id);
                            }
                        }
                    }
                }
            },
            None => {
                proof {
                    lemma_nobody_leaves(before, instance_id);
                }
            },
        }
    }
}

/// The workers other than `instance_id`, in order.
pub open spec fn remaining_workers(workers: Seq<RegisteredWorker>, instance_id: u128) -> Seq<
    RegisteredWorker,
>
    decreases workers.len(),
{
    if workers.len() == 0 {
        Seq::empty()
    } else if workers.last().instance_id == instance_id {
        remaining_workers(workers.drop_last(), instance_id)
    } else {
        remaining_workers(workers.drop_last(), instance_id).push(workers.last())
    }
}

proof fn lemma_nobody_leaves(workers: Seq<RegisteredWorker>, instance_id: u128)
    requires
        forall|at: int| !#[trigger] registered_at(workers, instance_id, at),
    ensures
        remaining_workers(workers, instance_id) == workers,
    decreases workers.len(),
{
    if workers.len() > 0 {
        let fewer = workers.drop_last();
        assert forall|at: int| !#[trigger] registered_at(fewer, instance_id, at) by {
            assert(!registered_at(workers, instance_id, at));
        }
        lemma_nobody_leaves(fewer, instance_id);
        assert(!registered_at(workers, instance_id, workers.len() - 1));
        assert(fewer.push(workers.last()) =~= workers);
    }
}

proof fn lemma_remaining_workers(workers: Seq<RegisteredWorker>, instance_id: u128, at: int)
    requires
        instances_distinct(workers),
        registered_at(workers, instance_id, at),
    ensures
        remaining_workers(workers, instance_id) == workers.remove(at),
    decreases workers.len(),
{
    let fewer = workers.drop_last();
    assert forall|i: int, j: int| 0 <= i < j < fewer.len() implies (
    #[trigger] fewer[i]).instance_id != (#[trigger] fewer[j]).instance_id by {
        assert(workers[i].instance_id != workers[j].instance_id);
    }
    if at == workers.len() - 1 {
        assert forall|k: int| !#[trigger] registered_at(fewer, instance_id, k) by {
            if 0 <= k < fewer.len() {
                assert(workers[k].instance_id != workers[at].instance_id);
            }
        }
        lemma_nobody_leaves(fewer, instance_id);
        assert(workers.remove(at) =~= fewer);
    } else {
        assert(workers[at].instance_id != workers[workers.len() - 1].instance_id);
        lemma_remaining_workers(fewer, instance_id, at);
        assert(fewer.remove(at).push(workers.last()) =~= workers.remove(at));
    }
}

/// A worker that drains stays that way whatever it says, and no slot of it is
/// ever promised again.
pub proof fn draining_lasts(state: WorkerState, message: WorkerMessage, now: Span, queue: Seq<char>)
    requires
        state.draining,
    ensures
        state_after(state, message, now).draining,
        !state_after(state, message, now).has_room(queue),
        state.with_release().draining,
{
}

/// What a queue has to spare is the sum of what its workers have free beyond
/// their promises, but for those that drain.
pub proof fn spare_slots_add_up(
    workers: Seq<RegisteredWorker>,
    worker: RegisteredWorker,
    queue: Seq<char>,
)
    ensures
        spare_slots(Seq::empty(), queue) == 0,
        spare_slots(workers.push(worker), queue) == spare_slots(workers, queue) + (
        if !worker.state.draining && worker.state.queue_name@ == queue && worker.state.free_slots
            > worker.state.reserved_slots {
            worker.state.free_slots - worker.state.reserved_slots
        } else {
            0
        }),
{
    assert(workers.push(worker).drop_last() =~= workers);
    assert(workers.push(worker).last() == worker);
}

/// A worker that registers is recorded with the slots and the jobs it names,
/// nothing of it is promised yet, and its queue gains exactly its free slots.
/// Nobody else is affected.
pub proof fn newcomers_bring_their_slots(
    before: Seq<RegisteredWorker>,
    registration: Registration,
    now: Span,
    queue: Seq<char>,
)
    ensures
        ({
            let after = before.push(newcomer(registration, now));
            let worker = after.last();
            &&& worker.instance_id == registration.instance_id
            &&& worker.state.queue_name == registration.queue_name
            &&& worker.state.running_jobs == registration.running_jobs
            &&& worker.state.free_slots == registration.free_slots
            &&& worker.state.reserved_slots == 0
            &&& !worker.state.draining
            &&& worker.state.last_activity == now
            &&& forall|i: int| 0 <= i < before.len() ==> #[trigger] after[i] == before[i]
            &&& spare_slots(after, registration.queue_name@) == spare_slots(
                before,
                registration.queue_name@,
            ) + registration.free_slots
            &&& queue != registration.queue_name@ ==> spare_slots(after, queue) == spare_slots(
                before,
                queue,
            )
        }),
{
    spare_slots_add_up(before, newcomer(registration, now), registration.queue_name@);
    spare_slots_add_up(before, newcomer(registration, now), queue);
}

/// What a worker says changes its own entry only. A result sets what it has
/// running and free to what it names, forgets what was promised, and is passed
/// on for the queue of the worker; a drain leaves it without free slots for
/// good and is acknowledged; a heartbeat is only noted; anything else ends the
/// session.
pub proof fn workers_speak_for_themselves(
    before: Seq<RegisteredWorker>,
    at: int,
    message: WorkerMessage,
    now: Span,
    after: Seq<RegisteredWorker>,
    result: Result<Reaction, SessionError>,
)
    requires
        instances_distinct(before),
        0 <= at < before.len(),
        heard(before, before[at].instance_id, message, now, after, result),
    ensures
        after.len() == before.len(),
        forall|i: int| 0 <= i < before.len() && i != at ==> #[trigger] after[i] == before[i],
        after[at].instance_id == before[at].instance_id,
        after[at].state.queue_name == before[at].state.queue_name,
        after[at].state.last_activity == now,
        match message {
            WorkerMessage::JobResult { running_jobs, free_slots, .. } => {
                &&& after[at].state.running_jobs == running_jobs
                &&& after[at].state.free_slots == free_slots
                &&& after[at].state.reserved_slots == 0
                &&& after[at].state.draining == before[at].state.draining
            },
            WorkerMessage::Drain => {
                &&& after[at].state.draining
                &&& after[at].state.free_slots == 0
                &&& after[at].state.running_jobs == before[at].state.running_jobs
                &&& after[at].state.reserved_slots == before[at].state.reserved_slots
            },
            _ => {
                &&& after[at].state.running_jobs == before[at].state.running_jobs
                &&& after[at].state.free_slots == before[at].state.free_slots
                &&& after[at].state.reserved_slots == before[at].state.reserved_slots
                &&& after[at].state.draining == before[at].state.draining
            },
        },
        match (message, result) {
            (
                WorkerMessage::JobResult { job_id, dispatch_id, result: said, .. },
                Ok(reaction),
            ) => {
                &&& reaction.reply is None
                &&& reaction.event matches Some(WorkerEvent::Result { queue_name, result: told })
                &&& queue_name == before[at].state.queue_name
                &&& told.job_id == job_id
                &&& told.dispatch_id == dispatch_id
                &&& match (said, told.outcome) {
                    (JobResult::Succeeded { payload }, JobOutcome::Succeeded(passed)) => passed
                        == payload,
                    (JobResult::Failed { message: reason }, JobOutcome::Failed(passed)) => passed
                        == reason,
                    _ => false,
                }
            },
            (WorkerMessage::Drain, Ok(reaction)) => {
                &&& reaction.reply == Some(WorkerMessage::Draining)
                &&& reaction.event is None
            },
            (WorkerMessage::Heartbeat, Ok(reaction)) => {
                &&& reaction.reply is None
                &&& reaction.event is None
            },
            (WorkerMessage::JobResult { .. }, Err(_)) => false,
            (WorkerMessage::Drain, Err(_)) => false,
            (WorkerMessage::Heartbeat, Err(_)) => false,
            (_, Ok(_)) => false,
            (_, Err(error)) => error == SessionError::InvalidFrame,
        },
{
    assert(registered_at(before, before[at].instance_id, at));
    let chosen = choose|k: int| registered_at(before, before[at].instance_id, k);
    assert(registered_at(before, before[at].instance_id, chosen));
    if chosen < at {
        assert(before[chosen].instance_id != before[at].instance_id);
    } else if at < chosen {
        assert(before[at].instance_id != before[chosen].instance_id);
    }
}

/// Who is not registered is told so, and changes nothing.
pub proof fn strangers_are_not_heard(
    before: Seq<RegisteredWorker>,
    instance_id: u128,
    message: WorkerMessage,
    now: Span,
    after: Seq<RegisteredWorker>,
    result: Result<Reaction, SessionError>,
)
    requires
        forall|i: int| 0 <= i < before.len() ==> (#[trigger] before[i]).instance_id != instance_id,
        heard(before, instance_id, message, now, after, result),
    ensures
        after == before,
        result is Err,
        result->Err_0 == SessionError::Disappeared,
{
    assert forall|at: int| !registered_at(before, instance_id, at) by {
        if 0 <= at < before.len() {
            assert(before[at].instance_id != instance_id);
        }
    }
}

/// Giving a slot back takes one promise off the worker named, if it has any,
/// and touches nothing else.
pub proof fn releases_give_one_slot_back(workers: Seq<RegisteredWorker>, instance_id: u128)
    ensures
        released(workers, instance_id).len() == workers.len(),
        forall|i: int|
            0 <= i < workers.len() ==> {
                let after = #[trigger] released(workers, instance_id)[i];
                let before = workers[i];
                &&& after.instance_id == before.instance_id
                &&& after.state.queue_name == before.state.queue_name
                &&& after.state.running_jobs == before.state.running_jobs
                &&& after.state.free_slots == before.state.free_slots
                &&& after.state.last_activity == before.state.last_activity
                &&& after.state.draining == before.state.draining
                &&& after.state.reserved_slots == before.state.reserved_slots - (
                if before.instance_id == instance_id && before.state.reserved_slots > 0 {
                    1int
                } else {
                    0
                })
            },
{
}

/// A claimed job goes out exactly if it has a token and the worker that
/// promised a slot is still there and does not drain. A slot is given back
/// only where the worker drains.
pub proof fn jobs_go_out_to_ready_workers(
    workers: Seq<RegisteredWorker>,
    instance_id: u128,
    job: Job,
)
    requires
        instances_distinct(workers),
    ensures
        dispatch_obstacle(workers, instance_id, job) is None <==> job.dispatch_id is Some
            && exists|i: int|
            0 <= i < workers.len() && (#[trigger] workers[i]).instance_id == instance_id
                && !workers[i].state.draining,
        job.dispatch_id is None ==> dispatch_obstacle(workers, instance_id, job) == Some(
            DispatchErrorView::Internal("claimed job has no dispatch id"@),
        ),
        job.dispatch_id is Some && (forall|i: int|
            0 <= i < workers.len() ==> (#[trigger] workers[i]).instance_id != instance_id)
            ==> dispatch_obstacle(workers, instance_id, job) == Some(
            DispatchErrorView::Internal("reserved worker disappeared"@),
        ),
        job.dispatch_id is Some && (exists|i: int|
            0 <= i < workers.len() && (#[trigger] workers[i]).instance_id == instance_id
                && workers[i].state.draining) ==> dispatch_obstacle(workers, instance_id, job)
            == Some(DispatchErrorView::Internal("worker is draining"@)),
        dispatch_obstacle(workers, instance_id, job) is None ==> after_dispatch(
            workers,
            instance_id,
            job,
        ) == workers,
        forall|i: int|
            0 <= i < workers.len() ==> (#[trigger] after_dispatch(
                workers,
                instance_id,
                job,
            )[i]).state.reserved_slots == workers[i].state.reserved_slots - (
            if job.dispatch_id is Some && workers[i].instance_id == instance_id
                && workers[i].state.draining && workers[i].state.reserved_slots > 0 {
                1int
            } else {
                0
            }),
{
    assert forall|i: int| 0 <= i < workers.len() implies (workers[i].instance_id == instance_id
        <==> #[trigger] registered_at(workers, instance_id, i)) by {}
    assert forall|i: int, j: int| #[trigger]
        registered_at(workers, instance_id, i) && #[trigger] registered_at(
        workers,
        instance_id,
        j,
    ) implies i == j by {
        if i < j {
            assert(workers[i].instance_id != workers[j].instance_id);
        } else if j < i {
            assert(workers[j].instance_id != workers[i].instance_id);
        }
    }
    if exists|i: int|
        0 <= i < workers.len() && (#[trigger] workers[i]).instance_id == instance_id
            && workers[i].state.draining {
        let i = choose|i: int|
            0 <= i < workers.len() && (#[trigger] workers[i]).instance_id == instance_id
                && workers[i].state.draining;
        assert(registered_at(workers, instance_id, i));
    }
    if exists|i: int|
        0 <= i < workers.len() && (#[trigger] workers[i]).instance_id == instance_id
            && !workers[i].state.draining {
        let i = choose|i: int|
            0 <= i < workers.len() && (#[trigger] workers[i]).instance_id == instance_id
                && !workers[i].state.draining;
        assert(registered_at(workers, instance_id, i));
        assert(!drains(workers, instance_id));
    }
    if exists|at: int| registered_at(workers, instance_id, at) {
        let at = choose|at: int| registered_at(workers, instance_id, at);
        assert(registered_at(workers, instance_id, at));
        assert(workers[at].instance_id == instance_id);
    }
}

/// How often `instance_id` is among `ids`.
pub open spec fn times_named(ids: Seq<u128>, instance_id: u128) -> int
    decreases ids.len(),
{
    if ids.len() == 0 {
        0
    } else {
        times_named(ids.drop_last(), instance_id) + (if ids.last() == instance_id {
            1int
        } else {
            0
        })
    }
}

/// Each permit stands for one slot promised by the worker it names. Slots are
/// promised by workers of the queue that have them free, by those that
/// registered earlier first, and a request goes short only where no worker of
/// the queue has a free slot left.
pub proof fn permits_stand_for_free_slots(
    workers: Seq<RegisteredWorker>,
    queue: Seq<char>,
    count: nat,
)
    requires
        instances_distinct(workers),
        all_within_capacity(workers),
    ensures
        ({
            let (after, ids) = reserve_slots(workers, queue, count);
            &&& after.len() == workers.len()
            &&& ids.len() <= count
            &&& forall|i: int|
                0 <= i < workers.len() ==> {
                    &&& (#[trigger] after[i]).instance_id == workers[i].instance_id
                    &&& after[i].state.free_slots == workers[i].state.free_slots
                    &&& after[i].state.draining == workers[i].state.draining
                    &&& after[i].state.queue_name == workers[i].state.queue_name
                    &&& after[i].state.reserved_slots == workers[i].state.reserved_slots
                        + times_named(ids, workers[i].instance_id)
                    &&& after[i].state.reserved_slots > workers[i].state.reserved_slots ==> {
                        &&& workers[i].state.queue_name@ == queue
                        &&& !workers[i].state.draining
                        &&& after[i].state.reserved_slots <= workers[i].state.free_slots
                    }
                    &&& ids.len() < count && workers[i].state.queue_name@ == queue
                        && !workers[i].state.draining ==> after[i].state.reserved_slots
                        == workers[i].state.free_slots
                }
            &&& forall|i: int, j: int|
                0 <= i < j < workers.len() && (#[trigger] after[j]).state.reserved_slots
                    > workers[j].state.reserved_slots && workers[i].state.queue_name@ == queue
                    && !workers[i].state.draining ==> (#[trigger] after[i]).state.reserved_slots
                    == workers[i].state.free_slots
        }),
    decreases count,
{
    reservations_respect_capacity(workers, queue, count);
    if count > 0 {
        let fewer = (count - 1) as nat;
        permits_stand_for_free_slots(workers, queue, fewer);
        reservations_respect_capacity(workers, queue, fewer);
        let (now, ids) = reserve_slots(workers, queue, fewer);
        let (after, all) = reserve_slots(workers, queue, count);
        if exists|at: int| first_with_room(now, queue, at) {
            let at = choose|at: int| first_with_room(now, queue, at);
            assert(first_with_room(now, queue, at));
            assert(all == ids.push(now[at].instance_id));
            assert(all.drop_last() =~= ids);
            assert(all.last() == now[at].instance_id);
            assert forall|i: int| 0 <= i < workers.len() implies times_named(
                all,
                (#[trigger] workers[i]).instance_id,
            ) == times_named(ids, workers[i].instance_id) + (if i == at {
                1int
            } else {
                0
            }) by {
                assert(now[at].instance_id == workers[at].instance_id);
                if i < at {
                    assert(workers[i].instance_id != workers[at].instance_id);
                } else if at < i {
                    assert(workers[at].instance_id != workers[i].instance_id);
                }
            }
            assert forall|i: int|
                0 <= i < at && workers[i].state.queue_name@ == queue
                    && !workers[i].state.draining implies (
            #[trigger] after[i]).state.reserved_slots == workers[i].state.free_slots by {
                assert(!now[i].state.has_room(queue));
                assert(now[i].state.within_capacity());
            }
        } else {
            assert forall|i: int|
                0 <= i < workers.len() && workers[i].state.queue_name@ == queue
                    && !workers[i].state.draining implies (
            #[trigger] after[i]).state.reserved_slots == workers[i].state.free_slots by {
                if now[i].state.has_room(queue) {
                    lemma_first_with_room(now, queue, i);
                }
                assert(now[i].state.within_capacity());
            }
        }
    }
}

/// Requests are served one after the other: the workers that the first ones
/// leave are those that the next one finds, and every permit is handed out for
/// the queue that asked for it.
pub proof fn requests_are_served_in_turn(
    workers: Seq<RegisteredWorker>,
    requests: Seq<QueueReservation>,
    next: QueueReservation,
)
    ensures
        reserve_all(workers, Seq::empty()) == (workers, Seq::<(Seq<char>, u128)>::empty()),
        ({
            let (now, permits) = reserve_all(workers, requests);
            let (after, all) = reserve_all(workers, requests.push(next));
            let (left, ids) = reserve_slots(now, next.queue_name@, next.count as nat);
            &&& after == left
            &&& all.len() == permits.len() + ids.len()
            &&& forall|i: int| 0 <= i < permits.len() ==> #[trigger] all[i] == permits[i]
            &&& forall|i: int|
                0 <= i < ids.len() ==> #[trigger] all[permits.len() + i] == (
                    next.queue_name@,
                    ids[i],
                )
        }),
{
    assert(requests.push(next).drop_last() =~= requests);
    assert(requests.push(next).last() == next);
}

/// A worker whose connection has ended is gone, and everybody else is still
/// there, in the order of registration.
pub proof fn only_the_departed_leave(workers: Seq<RegisteredWorker>, instance_id: u128)
    ensures
        remaining_workers(workers, instance_id) == workers.filter(
            |worker: RegisteredWorker| worker.instance_id != instance_id,
        ),
        forall|worker: RegisteredWorker|
            #![trigger remaining_workers(workers, instance_id).contains(worker)]
            remaining_workers(workers, instance_id).contains(worker) <==> workers.contains(worker)
                && worker.instance_id != instance_id,
    decreases workers.len(),
{
    let others = |worker: RegisteredWorker| worker.instance_id != instance_id;
    reveal(Seq::filter);
    if workers.len() > 0 {
        only_the_departed_leave(workers.drop_last(), instance_id);
    }
    let left = remaining_workers(workers, instance_id);
    assert(left == workers.filter(others));
    assert forall|worker: RegisteredWorker| #[trigger] left.contains(worker) <==> workers.contains(
        worker,
    ) && worker.instance_id != instance_id by {
        if workers.contains(worker) && worker.instance_id != instance_id {
            let i = choose|i: int| 0 <= i < workers.len() && workers[i] == worker;
            workers.lemma_filter_contains(others, i);
        }
        if left.contains(worker) {
            workers.lemma_filter_contains_rev(others, worker);
            let i = choose|i: int| 0 <= i < left.len() && left[i] == worker;
            workers.lemma_filter_pred(others, i);
        }
    }
}

} // verus!
