//! One pass over the queues that were woken: jobs are claimed for the slots
//! that were reserved, and go out under them.

use crate::engine::scheduler::{
    is_capped, pair_deliveries, pairs_up, permits_besides, permits_divide, permits_for,
    take_permits, Deliveries,
};
use crate::engine::types::{Job, JobQueue};
use crate::engine::{DispatchPermit, ReservedDispatch};
use crate::text::texts;
use vstd::prelude::*;

verus! {

/// A pass under way, after slots have been reserved for its queues.
pub struct DrainPass<P: DispatchPermit> {
    /// The queues, in the order in which they are dealt with.
    pub queues: Vec<String>,
    /// How many slots were asked for per queue.
    pub count: usize,
    /// How many queues have had their turn.
    pub turns: usize,
    /// The permits of the queues that have not had their turn.
    pub permits: Vec<ReservedDispatch<P>>,
    /// The permits of the queue whose turn it is.
    pub current: Vec<ReservedDispatch<P>>,
    /// The queues that may have more to do, with capacity to do it.
    pub capped: Vec<String>,
}

/// What a pass does next.
#[derive(Debug, PartialEq, Eq)]
pub enum DrainStep {
    /// Look up `queue`, whose turn it is.
    LookUp { queue: String },
    /// No queue of the pass has permits left: end the pass.
    Finish,
}

/// What a pass does for the queue whose turn it is.
pub enum QueueStep<P: DispatchPermit> {
    /// Claim up to `limit` jobs of `queue`.
    Claim { queue: String, lease_duration_secs: i64, limit: usize },
    /// The queue could not be found: give its permits back.
    Release { permits: Vec<ReservedDispatch<P>> },
}

/// Where the next turn stands: the first queue from `from` on that has permits.
/// Where there is none, the number of queues.
pub open spec fn next_turn_at<P: DispatchPermit>(
    queues: Seq<Seq<char>>,
    permits: Seq<ReservedDispatch<P>>,
    from: int,
) -> int
    decreases queues.len() - from,
{
    if from >= queues.len() {
        queues.len() as int
    } else if permits_for(permits, queues[from]).len() > 0 {
        from
    } else {
        next_turn_at(queues, permits, from + 1)
    }
}

/// The next turn does not go back. The queues before it have no permits, and
/// its own has some.
pub proof fn lemma_next_turn_at<P: DispatchPermit>(
    queues: Seq<Seq<char>>,
    permits: Seq<ReservedDispatch<P>>,
    from: int,
)
    requires
        from <= queues.len(),
    ensures
        from <= next_turn_at(queues, permits, from) <= queues.len(),
        forall|k: int|
            from <= k < next_turn_at(queues, permits, from) ==> permits_for(
                permits,
                #[trigger] queues[k],
            ).len() == 0,
        ({
            let at = next_turn_at(queues, permits, from);
            at < queues.len() ==> permits_for(permits, queues[at]).len() > 0
        }),
    decreases queues.len() - from,
{
    if from < queues.len() && permits_for(permits, queues[from]).len() == 0 {
        lemma_next_turn_at(queues, permits, from + 1);
    }
}

/// Where no permit is for a queue, all are for others.
proof fn lemma_no_permits<P: DispatchPermit>(permits: Seq<ReservedDispatch<P>>, queue: Seq<char>)
    requires
        permits_for(permits, queue).len() == 0,
    ensures
        permits_besides(permits, queue) == permits,
        forall|i: int| 0 <= i < permits.len() ==> (#[trigger] permits[i]).queue_name@ != queue,
    decreases permits.len(),
{
    if permits.len() > 0 {
        lemma_no_permits(permits.drop_last(), queue);
        assert(permits.drop_last().push(permits.last()) =~= permits);
        assert forall|i: int| 0 <= i < permits.len() implies (#[trigger] permits[i]).queue_name@
            != queue by {
            if i < permits.len() - 1 {
                assert(permits.drop_last()[i].queue_name@ != queue);
            }
        }
    }
}

/// Whether a step claims for `queue` as many jobs as there are permits, leased
/// as the queue says; or gives the permits back where the queue was not found.
pub open spec fn serves<P: DispatchPermit>(
    step: QueueStep<P>,
    queue: Seq<char>,
    found: Option<JobQueue>,
    own: Seq<ReservedDispatch<P>>,
) -> bool {
    match (step, found) {
        (QueueStep::Claim { queue: name, lease_duration_secs, limit }, Some(row)) => {
            &&& name@ == queue
            &&& limit == own.len()
            &&& row.timeout_secs <= i64::MAX ==> lease_duration_secs == row.timeout_secs
        },
        (QueueStep::Release { permits }, None) => permits@ == own,
        _ => false,
    }
}

impl<P: DispatchPermit> DrainPass<P> {
    /// No more queues have had their turn than there are.
    pub open spec fn wf(self) -> bool {
        self.turns <= self.queues@.len()
    }

    /// A pass over `queues`, each of which was asked `count` slots for and has
    /// those of `permits` that name it.
    pub fn new(queues: Vec<String>, count: usize, permits: Vec<ReservedDispatch<P>>) -> (r: Self)
        ensures
            r.wf(),
            r.queues == queues,
            r.count == count,
            r.turns == 0,
            r.permits == permits,
            r.current@.len() == 0,
            r.capped@.len() == 0,
    {
        DrainPass {
            queues,
            count,
            turns: 0,
            permits,
            current: Vec::new(),
            capped: Vec::new(),
        }
    }

    /// Gives the next queue that has permits its turn. Queues without permits
    /// are passed over.
    pub fn next(&mut self) -> (r: DrainStep)
        requires
            old(self).wf(),
            old(self).current@.len() == 0,
        ensures
            final(self).wf(),
            final(self).queues == old(self).queues,
            final(self).count == old(self).count,
            final(self).capped == old(self).capped,
            r is LookUp ==> final(self).turns > old(self).turns,
            ({
                let at = next_turn_at(
                    texts(old(self).queues@),
                    old(self).permits@,
                    old(self).turns as int,
                );
                if at < old(self).queues@.len() {
                    let name = old(self).queues@[at]@;
                    &&& r matches DrainStep::LookUp { queue }
                    &&& queue@ == name
                    &&& final(self).current@.len() > 0
                    &&& final(self).turns == at + 1
                    &&& final(self).current@ == permits_for(old(self).permits@, name)
                    &&& final(self).permits@ == permits_besides(old(self).permits@, name)
                } else {
                    &&& r is Finish
                    &&& final(self).turns == old(self).queues@.len()
                    &&& final(self).current@.len() == 0
                    &&& final(self).permits@ == old(self).permits@
                }
            }),
    {
        let ghost names = texts(self.queues@);
        let ghost held = self.permits@;
        let ghost from = self.turns as int;
        proof {
            lemma_next_turn_at(names, held, from);
        }
        while self.turns < self.queues.len()
            invariant
                self.wf(),
                self.queues == old(self).queues,
                self.count == old(self).count,
                self.capped == old(self).capped,
                self.current@.len() == 0,
                self.permits@ == held,
                names == texts(self.queues@),
                next_turn_at(names, held, from) == next_turn_at(names, held, self.turns as int),
                held == old(self).permits@,
                from == old(self).turns,
                from <= next_turn_at(names, held, from),
            decreases self.queues.len() - self.turns,
        {
            let at = self.turns;
            let queue = self.queues[at].clone();
            proof {
                assert(names[at as int] == queue@);
            }
            let own = take_permits(&mut self.permits, queue.as_str());
            self.turns = at + 1;
            if own.len() > 0 {
                self.current = own;
                return DrainStep::LookUp { queue };
            }
            proof {
                lemma_no_permits(held, queue@);
            }
        }
        DrainStep::Finish
    }

    /// Takes in the queue whose turn it is, or that it could not be found, and
    /// says what is done for it.
    pub fn on_queue(&mut self, found: Option<JobQueue>) -> (r: QueueStep<P>)
        requires
            old(self).wf(),
            old(self).turns > 0,
        ensures
            final(self).wf(),
            final(self).queues == old(self).queues,
            final(self).count == old(self).count,
            final(self).turns == old(self).turns,
            final(self).permits == old(self).permits,
            final(self).capped == old(self).capped,
            match found {
                Some(row) => {
                    &&& r matches QueueStep::Claim { queue, lease_duration_secs, limit }
                    &&& queue@ == old(self).queues@[old(self).turns - 1]@
                    &&& lease_duration_secs == row.timeout_secs as i64
                    &&& limit == old(self).current@.len()
                    &&& final(self).current == old(self).current
                },
                None => {
                    &&& r matches QueueStep::Release { permits }
                    &&& permits@ == old(self).current@
                    &&& final(self).current@.len() == 0
                },
            },
            serves(
                r,
                old(self).queues@[old(self).turns - 1]@,
                found,
                old(self).current@,
            ),
    {
        match found {
            Some(row) => {
                #[verifier::truncate]
                let lease_duration_secs: i64 = row.timeout_secs as i64;
                QueueStep::Claim {
                    queue: self.queues[self.turns - 1].clone(),
                    lease_duration_secs,
                    limit: self.current.len(),
                }
            },
            None => {
                let mut permits: Vec<ReservedDispatch<P>> = Vec::new();
                core::mem::swap(&mut permits, &mut self.current);
                QueueStep::Release { permits }
            },
        }
    }

    /// Takes in the jobs that were claimed for the queue whose turn it is, or
    /// that none could be claimed, and says which job goes out under which
    /// permit and which permits are given back.
    pub fn on_claimed(&mut self, claimed: Option<Vec<Job>>) -> (r: Deliveries<P>)
        requires
            old(self).wf(),
            old(self).turns > 0,
            claimed matches Some(jobs) ==> jobs@.len() <= old(self).current@.len(),
        ensures
            final(self).wf(),
            final(self).queues == old(self).queues,
            final(self).count == old(self).count,
            final(self).turns == old(self).turns,
            final(self).permits == old(self).permits,
            final(self).current@.len() == 0,
            ({
                let jobs = match claimed {
                    Some(jobs) => jobs@,
                    None => Seq::empty(),
                };
                let reserved = old(self).current@.len();
                &&& r.dispatches@.len() == jobs.len()
                &&& forall|i: int|
                    0 <= i < jobs.len() ==> #[trigger] r.dispatches@[i] == (
                        old(self).current@[i],
                        jobs[i],
                    )
                &&& r.unused@ == old(self).current@.skip(jobs.len() as int)
                &&& texts(final(self).capped@) == (if claimed is Some && jobs.len() == reserved
                    && reserved == old(self).count {
                    texts(old(self).capped@).push(old(self).queues@[old(self).turns - 1]@)
                } else {
                    texts(old(self).capped@)
                })
                &&& pairs_up(old(self).current@, jobs, r.dispatches@, r.unused@)
            }),
    {
        let mut own: Vec<ReservedDispatch<P>> = Vec::new();
        core::mem::swap(&mut own, &mut self.current);
        let jobs = match claimed {
            Some(jobs) => {
                if is_capped(jobs.len(), own.len(), self.count) {
                    let queue = self.queues[self.turns - 1].clone();
                    proof {
                        assert(texts(self.capped@.push(queue)) =~= texts(self.capped@).push(queue@));
                    }
                    self.capped.push(queue);
                }
                jobs
            },
            None => Vec::new(),
        };
        pair_deliveries(own, jobs)
    }
}

/// The permits of deliveries, in order.
pub open spec fn used_permits<P: DispatchPermit>(
    dispatches: Seq<(ReservedDispatch<P>, Job)>,
) -> Seq<ReservedDispatch<P>> {
    dispatches.map_values(|pair: (ReservedDispatch<P>, Job)| pair.0)
}

/// Every permit is used for one job or given back: what goes out and what is
/// not used are together the permits that there were.
pub proof fn permits_are_used_or_returned<P: DispatchPermit>(
    permits: Seq<ReservedDispatch<P>>,
    jobs: Seq<Job>,
    dispatches: Seq<(ReservedDispatch<P>, Job)>,
    unused: Seq<ReservedDispatch<P>>,
)
    requires
        jobs.len() <= permits.len(),
        dispatches.len() == jobs.len(),
        forall|i: int| 0 <= i < jobs.len() ==> #[trigger] dispatches[i] == (permits[i], jobs[i]),
        unused == permits.skip(jobs.len() as int),
    ensures
        used_permits(dispatches) + unused == permits,
{
    assert(used_permits(dispatches) + unused =~= permits);
}

/// What becomes of the permits of a whole pass.
#[verifier::ext_equal]
pub struct PassEnd<P: DispatchPermit> {
    /// Those under which jobs went out.
    pub used: Seq<ReservedDispatch<P>>,
    /// Those that were given back.
    pub returned: Seq<ReservedDispatch<P>>,
    /// Those that no queue of the pass had a use for.
    pub left: Seq<ReservedDispatch<P>>,
}

/// What becomes of `permits` from the queue at `from` on, where `claims[i]` jobs
/// are claimed in the turn after `i` others. A queue that is not found, or for
/// which claiming fails, has no jobs.
pub open spec fn whole_pass<P: DispatchPermit>(
    queues: Seq<Seq<char>>,
    permits: Seq<ReservedDispatch<P>>,
    from: int,
    claims: Seq<nat>,
) -> PassEnd<P>
    decreases queues.len() - from,
{
    let at = next_turn_at(queues, permits, from);
    if from >= queues.len() || at >= queues.len() || at < from {
        PassEnd { used: Seq::empty(), returned: Seq::empty(), left: permits }
    } else {
        let own = permits_for(permits, queues[at]);
        let jobs = if claims.len() == 0 || claims[0] > own.len() {
            0
        } else {
            claims[0] as int
        };
        let rest = whole_pass(queues, permits_besides(permits, queues[at]), at + 1, claims.skip(1));
        PassEnd {
            used: own.take(jobs) + rest.used,
            returned: own.skip(jobs) + rest.returned,
            left: rest.left,
        }
    }
}

/// In a whole pass no permit is lost and none is counted twice: each is used for
/// one job or given back, or it is for none of the queues that had a turn to
/// come. So where every permit is for a queue of the pass, each is used or given
/// back.
pub proof fn passes_account_for_every_permit<P: DispatchPermit>(
    queues: Seq<Seq<char>>,
    permits: Seq<ReservedDispatch<P>>,
    from: int,
    claims: Seq<nat>,
)
    requires
        0 <= from <= queues.len(),
    ensures
        ({
            let end = whole_pass(queues, permits, from, claims);
            &&& permits.to_multiset() == end.used.to_multiset().add(
                end.returned.to_multiset(),
            ).add(end.left.to_multiset())
            &&& forall|i: int, k: int|
                0 <= i < end.left.len() && from <= k < queues.len() ==> (
                #[trigger] end.left[i]).queue_name@ != #[trigger] queues[k]
        }),
    decreases queues.len() - from,
{
    broadcast use vstd::seq_lib::group_to_multiset_ensures;

    let at = next_turn_at(queues, permits, from);
    let end = whole_pass(queues, permits, from, claims);
    lemma_next_turn_at(queues, permits, from);
    if at >= queues.len() {
        assert(permits.to_multiset() =~= end.used.to_multiset().add(
            end.returned.to_multiset(),
        ).add(end.left.to_multiset()));
        assert forall|i: int, k: int|
            0 <= i < end.left.len() && from <= k < queues.len() implies (
        #[trigger] end.left[i]).queue_name@ != #[trigger] queues[k] by {
            lemma_no_permits(permits, queues[k]);
        }
    } else {
        let own = permits_for(permits, queues[at]);
        let others = permits_besides(permits, queues[at]);
        let jobs = if claims.len() == 0 || claims[0] > own.len() {
            0
        } else {
            claims[0] as int
        };
        let rest = whole_pass(queues, others, at + 1, claims.skip(1));
        permits_divide(permits, queues[at]);
        passes_account_for_every_permit(queues, others, at + 1, claims.skip(1));
        assert(own.take(jobs) + own.skip(jobs) =~= own);
        vstd::seq_lib::lemma_multiset_commutative(own.take(jobs), own.skip(jobs));
        vstd::seq_lib::lemma_multiset_commutative(own.take(jobs), rest.used);
        vstd::seq_lib::lemma_multiset_commutative(own.skip(jobs), rest.returned);
        assert(permits.to_multiset() =~= end.used.to_multiset().add(
            end.returned.to_multiset(),
        ).add(end.left.to_multiset()));
        assert forall|i: int, k: int|
            0 <= i < end.left.len() && from <= k < queues.len() implies (
        #[trigger] end.left[i]).queue_name@ != #[trigger] queues[k] by {
            let permit = end.left[i];
            assert(end.left.contains(permit));
            assert(rest.left.to_multiset().count(permit) > 0);
            assert(others.to_multiset().count(permit) > 0);
            assert(others.contains(permit));
            assert(permits.to_multiset().count(permit) > 0);
            assert(permits.contains(permit));
            if k < at {
                lemma_no_permits(permits, queues[k]);
                let j = choose|j: int| 0 <= j < permits.len() && permits[j] == permit;
                assert(permits[j].queue_name@ != queues[k]);
            } else if k == at {
                let j = choose|j: int| 0 <= j < others.len() && others[j] == permit;
                assert(others[j].queue_name@ != queues[at]);
            } else {
                assert(rest.left[i].queue_name@ != queues[k]);
            }
        }
    }
}

/// A queue that was found has as many jobs claimed as it has permits, so that
/// every job can go out, and each is leased for as long as the queue says. A
/// queue that was not found keeps no permit.
pub proof fn turns_claim_what_permits_allow<P: DispatchPermit>(
    step: QueueStep<P>,
    queue: Seq<char>,
    found: Option<JobQueue>,
    own: Seq<ReservedDispatch<P>>,
)
    requires
        serves(step, queue, found, own),
    ensures
        found is Some ==> {
            &&& step is Claim
            &&& step->queue@ == queue
            &&& step->limit == own.len()
            &&& found->Some_0.timeout_secs <= i64::MAX ==> step->lease_duration_secs
                == found->Some_0.timeout_secs
        },
        found is None ==> step is Release && step->permits@ == own,
{
}

/// Where some permit is for a queue, one of the permits names it.
proof fn lemma_some_permit<P: DispatchPermit>(permits: Seq<ReservedDispatch<P>>, queue: Seq<char>)
    requires
        permits_for(permits, queue).len() > 0,
    ensures
        exists|i: int| 0 <= i < permits.len() && (#[trigger] permits[i]).queue_name@ == queue,
    decreases permits.len(),
{
    if permits.last().queue_name@ == queue {
        assert(permits[permits.len() - 1].queue_name@ == queue);
    } else {
        let fewer = permits.drop_last();
        lemma_some_permit(fewer, queue);
        let i = choose|i: int| 0 <= i < fewer.len() && (#[trigger] fewer[i]).queue_name@ == queue;
        assert(permits[i].queue_name@ == queue);
    }
}

/// The next turn goes to the first queue, from the present place on, that some
/// permit names.
pub proof fn turns_go_to_queues_with_permits<P: DispatchPermit>(
    queues: Seq<Seq<char>>,
    permits: Seq<ReservedDispatch<P>>,
    from: int,
)
    requires
        0 <= from <= queues.len(),
    ensures
        ({
            let at = next_turn_at(queues, permits, from);
            &&& from <= at <= queues.len()
            &&& forall|k: int, i: int|
                from <= k < at && 0 <= i < permits.len() ==> (#[trigger] permits[i]).queue_name@
                    != #[trigger] queues[k]
            &&& at < queues.len() ==> exists|i: int|
                0 <= i < permits.len() && (#[trigger] permits[i]).queue_name@ == queues[at]
        }),
{
    let at = next_turn_at(queues, permits, from);
    lemma_next_turn_at(queues, permits, from);
    assert forall|k: int, i: int| from <= k < at && 0 <= i < permits.len() implies (
    #[trigger] permits[i]).queue_name@ != #[trigger] queues[k] by {
        lemma_no_permits(permits, queues[k]);
    }
    if at < queues.len() {
        lemma_some_permit(permits, queues[at]);
    }
}

} // verus!
