//! Which queues are looked at next. A wakeup that comes while a queue is being
//! looked at is remembered, so that none is lost and none is multiplied.

use crate::engine::types::{text_view, ExecutionStatus, Job};
use crate::engine::{
    DispatchOptions, DispatchPermit, QueueReservation, ReservedDispatch, WorkerEvent, WorkerResult,
    MAX_CLAIM_BATCH_SIZE,
};
use crate::text::{has_text, same_text, texts};
use vstd::prelude::*;

verus! {

/// A queue that has been woken, and whether it was woken again since the
/// current pass took it up.
#[derive(Debug, Clone, PartialEq, Eq)]
pub struct Awake {
    pub queue: String,
    pub rewake: bool,
}

/// Whether the entry at `at` is for `queue`.
pub open spec fn entry_at(entries: Seq<Awake>, queue: Seq<char>, at: int) -> bool {
    0 <= at < entries.len() && entries[at].queue@ == queue
}

/// What the entries say of each queue.
pub open spec fn awake_map(entries: Seq<Awake>) -> Map<Seq<char>, bool> {
    Map::new(
        |queue: Seq<char>| exists|at: int| entry_at(entries, queue, at),
        |queue: Seq<char>| entries[choose|at: int| entry_at(entries, queue, at)].rewake,
    )
}

/// No queue has two entries.
pub open spec fn entries_distinct(entries: Seq<Awake>) -> bool {
    forall|i: int, j: int|
        0 <= i < j < entries.len() ==> (#[trigger] entries[i]).queue@ != (
        #[trigger] entries[j]).queue@
}

proof fn lemma_entry(entries: Seq<Awake>, at: int)
    requires
        entries_distinct(entries),
        0 <= at < entries.len(),
    ensures
        awake_map(entries).dom().contains(entries[at].queue@),
        awake_map(entries)[entries[at].queue@] == entries[at].rewake,
{
    let queue = entries[at].queue@;
    assert(entry_at(entries, queue, at));
    let chosen = choose|k: int| entry_at(entries, queue, k);
    assert(entry_at(entries, queue, chosen));
    if chosen < at {
        assert(entries[chosen].queue@ != entries[at].queue@);
    } else if at < chosen {
        assert(entries[at].queue@ != entries[chosen].queue@);
    }
}

proof fn lemma_entry_set(entries: Seq<Awake>, at: int, entry: Awake)
    requires
        entries_distinct(entries),
        0 <= at < entries.len(),
        entry.queue@ == entries[at].queue@,
    ensures
        entries_distinct(entries.update(at, entry)),
        awake_map(entries.update(at, entry)) == awake_map(entries).insert(
            entry.queue@,
            entry.rewake,
        ),
{
    let after = entries.update(at, entry);
    assert forall|i: int, j: int| 0 <= i < j < after.len() implies (#[trigger] after[i]).queue@ != (
    #[trigger] after[j]).queue@ by {
        assert(entries[i].queue@ != entries[j].queue@);
    }
    let wanted = awake_map(entries).insert(entry.queue@, entry.rewake);
    assert forall|queue: Seq<char>| awake_map(after).dom().contains(queue)
        <==> wanted.dom().contains(queue) by {
        if exists|k: int| entry_at(after, queue, k) {
            let k = choose|k: int| entry_at(after, queue, k);
            assert(entry_at(entries, queue, k));
        }
        if exists|k: int| entry_at(entries, queue, k) {
            let k = choose|k: int| entry_at(entries, queue, k);
            assert(entry_at(after, queue, k));
        }
        assert(entry_at(after, entry.queue@, at));
    }
    assert forall|queue: Seq<char>| wanted.dom().contains(queue) implies #[trigger] awake_map(
        after,
    )[queue] == wanted[queue] by {
        assert(awake_map(after).dom().contains(queue));
        let k = choose|k: int| entry_at(after, queue, k);
        assert(entry_at(after, queue, k));
        lemma_entry(after, k);
        if k != at {
            lemma_entry(entries, k);
            if k < at {
                assert(entries[k].queue@ != entries[at].queue@);
            } else {
                assert(entries[at].queue@ != entries[k].queue@);
            }
        }
    }
    assert(awake_map(after) =~= wanted);
}

proof fn lemma_entry_added(entries: Seq<Awake>, entry: Awake)
    requires
        entries_distinct(entries),
        !awake_map(entries).dom().contains(entry.queue@),
    ensures
        entries_distinct(entries.push(entry)),
        awake_map(entries.push(entry)) == awake_map(entries).insert(entry.queue@, entry.rewake),
{
    let after = entries.push(entry);
    assert forall|i: int, j: int| 0 <= i < j < after.len() implies (#[trigger] after[i]).queue@ != (
    #[trigger] after[j]).queue@ by {
        if j < entries.len() {
            assert(entries[i].queue@ != entries[j].queue@);
        } else if after[i].queue@ == entry.queue@ {
            assert(entry_at(entries, entry.queue@, i));
        }
    }
    let wanted = awake_map(entries).insert(entry.queue@, entry.rewake);
    assert forall|queue: Seq<char>| awake_map(after).dom().contains(queue)
        <==> wanted.dom().contains(queue) by {
        if exists|k: int| entry_at(after, queue, k) {
            let k = choose|k: int| entry_at(after, queue, k);
            if k < entries.len() {
                assert(entry_at(entries, queue, k));
            }
        }
        if exists|k: int| entry_at(entries, queue, k) {
            let k = choose|k: int| entry_at(entries, queue, k);
            assert(entry_at(after, queue, k));
        }
        assert(entry_at(after, entry.queue@, entries.len() as int));
    }
    assert forall|queue: Seq<char>| wanted.dom().contains(queue) implies #[trigger] awake_map(
        after,
    )[queue] == wanted[queue] by {
        assert(awake_map(after).dom().contains(queue));
        let k = choose|k: int| entry_at(after, queue, k);
        assert(entry_at(after, queue, k));
        lemma_entry(after, k);
        if k < entries.len() {
            lemma_entry(entries, k);
            assert(entry_at(entries, queue, k));
        }
    }
    assert(awake_map(after) =~= wanted);
}

proof fn lemma_entry_removed(entries: Seq<Awake>, at: int)
    requires
        entries_distinct(entries),
        0 <= at < entries.len(),
    ensures
        entries_distinct(entries.remove(at)),
        awake_map(entries.remove(at)) == awake_map(entries).remove(entries[at].queue@),
{
    let after = entries.remove(at);
    assert forall|i: int, j: int| 0 <= i < j < after.len() implies (#[trigger] after[i]).queue@ != (
    #[trigger] after[j]).queue@ by {
        let a = if i < at { i } else { i + 1 };
        let b = if j < at { j } else { j + 1 };
        assert(after[i] == entries[a] && after[j] == entries[b]);
        assert(entries[a].queue@ != entries[b].queue@);
    }
    let gone = entries[at].queue@;
    let wanted = awake_map(entries).remove(gone);
    assert forall|queue: Seq<char>| awake_map(after).dom().contains(queue)
        <==> wanted.dom().contains(queue) by {
        if exists|k: int| entry_at(after, queue, k) {
            let k = choose|k: int| entry_at(after, queue, k);
            let a = if k < at { k } else { k + 1 };
            assert(after[k] == entries[a]);
            assert(entry_at(entries, queue, a));
            if a < at {
                assert(entries[a].queue@ != entries[at].queue@);
            } else {
                assert(entries[at].queue@ != entries[a].queue@);
            }
        }
        if queue != gone && exists|k: int| entry_at(entries, queue, k) {
            let k = choose|k: int| entry_at(entries, queue, k);
            let b = if k < at { k } else { k - 1 };
            assert(after[b] == entries[k]);
            assert(entry_at(after, queue, b));
        }
    }
    assert forall|queue: Seq<char>| wanted.dom().contains(queue) implies #[trigger] awake_map(
        after,
    )[queue] == wanted[queue] by {
        assert(awake_map(after).dom().contains(queue));
        let k = choose|k: int| entry_at(after, queue, k);
        assert(entry_at(after, queue, k));
        let a = if k < at { k } else { k + 1 };
        assert(after[k] == entries[a]);
        lemma_entry(after, k);
        lemma_entry(entries, a);
    }
    assert(awake_map(after) =~= wanted);
}

/// What wakes the engine's queues, and in which order.
pub struct Scheduler {
    /// The queues that have been woken and not been dealt with.
    pub awake: Vec<Awake>,
    /// The queues to be taken up, in the order in which they were sent.
    pub wakes: Vec<String>,
    /// The queues of the current pass.
    pub pass: Vec<String>,
    pub options: DispatchOptions,
}

/// What the scheduler holds.
#[verifier::ext_equal]
pub struct SchedulerView {
    pub awake: Map<Seq<char>, bool>,
    pub wakes: Seq<Seq<char>>,
    pub pass: Seq<Seq<char>>,
}

impl View for Scheduler {
    type V = SchedulerView;

    open spec fn view(&self) -> SchedulerView {
        SchedulerView {
            awake: awake_map(self.awake@),
            wakes: texts(self.wakes@),
            pass: texts(self.pass@),
        }
    }
}

impl SchedulerView {
    /// Whoever is marked as awake is either still to be taken up or in the
    /// current pass.
    pub open spec fn accounted(self) -> bool {
        forall|queue: Seq<char>| #[trigger]
            self.awake.dom().contains(queue) ==> self.wakes.contains(queue) || self.pass.contains(
                queue,
            )
    }

    /// Whether a look at `queue` is still to begin: it is to be taken up, or
    /// will be sent again when the current pass ends.
    pub open spec fn owed(self, queue: Seq<char>) -> bool {
        ||| self.wakes.contains(queue)
        ||| self.pass.contains(queue) && self.awake.dom().contains(queue) && self.awake[queue]
    }

    /// The scheduler once `queue` has been woken.
    pub open spec fn woken(self, queue: Seq<char>) -> SchedulerView {
        if self.awake.dom().contains(queue) {
            SchedulerView { awake: self.awake.insert(queue, true), ..self }
        } else {
            SchedulerView {
                awake: self.awake.insert(queue, false),
                wakes: self.wakes.push(queue),
                ..self
            }
        }
    }

    /// The scheduler once `queue` has been sent again.
    pub open spec fn resent(self, queue: Seq<char>) -> SchedulerView {
        SchedulerView {
            awake: if self.awake.dom().contains(queue) {
                self.awake.insert(queue, false)
            } else {
                self.awake
            },
            wakes: self.wakes.push(queue),
            ..self
        }
    }

    /// The scheduler once `queues` have been sent again, in order.
    pub open spec fn all_resent(self, queues: Seq<Seq<char>>) -> SchedulerView
        decreases queues.len(),
    {
        if queues.len() == 0 {
            self
        } else {
            self.all_resent(queues.drop_last()).resent(queues.last())
        }
    }

    /// The scheduler once `queue` has been dealt with: it sleeps, unless it
    /// was woken in the meantime.
    pub open spec fn settled(self, queue: Seq<char>) -> SchedulerView {
        SchedulerView {
            awake: self.awake.remove(queue),
            wakes: if self.awake.dom().contains(queue) && self.awake[queue] {
                self.wakes.push(queue)
            } else {
                self.wakes
            },
            ..self
        }
    }

    /// The scheduler once those of `queues` that are not `capped` have been
    /// dealt with, in order.
    pub open spec fn all_settled(
        self,
        queues: Seq<Seq<char>>,
        capped: Seq<Seq<char>>,
    ) -> SchedulerView
        decreases queues.len(),
    {
        if queues.len() == 0 {
            self
        } else {
            let before = self.all_settled(queues.drop_last(), capped);
            if capped.contains(queues.last()) {
                before
            } else {
                before.settled(queues.last())
            }
        }
    }

    /// The scheduler once the current pass has ended, with `capped` the
    /// queues that may have more to do.
    pub open spec fn finished(self, capped: Seq<Seq<char>>) -> SchedulerView {
        SchedulerView {
            pass: Seq::empty(),
            ..self.all_resent(capped).all_settled(self.pass, capped)
        }
    }
}

/// The texts in the order of their first occurrence, each once.
pub open spec fn without_repeats(list: Seq<Seq<char>>) -> Seq<Seq<char>>
    decreases list.len(),
{
    if list.len() == 0 {
        Seq::empty()
    } else {
        let before = without_repeats(list.drop_last());
        if before.contains(list.last()) {
            before
        } else {
            before.push(list.last())
        }
    }
}

/// Nothing is lost and nothing is added when repeats are left out.
pub proof fn lemma_without_repeats(list: Seq<Seq<char>>, item: Seq<char>)
    ensures
        without_repeats(list).contains(item) <==> list.contains(item),
        without_repeats(list).no_duplicates(),
    decreases list.len(),
{
    if list.len() > 0 {
        let fewer = list.drop_last();
        let before = without_repeats(fewer);
        lemma_without_repeats(fewer, item);
        lemma_without_repeats(fewer, list.last());
        let after = without_repeats(list);
        if before.contains(item) {
            let k = before.index_of(item);
            assert(after[k] == item);
            let j = fewer.index_of(item);
            assert(list[j] == item);
        }
        if list.contains(item) {
            let j = list.index_of(item);
            if j < fewer.len() {
                assert(fewer[j] == item);
            } else if !before.contains(item) {
                assert(after[before.len() as int] == item);
            }
        }
        if after.contains(item) && !before.contains(item) {
            let k = after.index_of(item);
            assert(k == before.len());
            assert(list[list.len() - 1] == item);
        }
    }
}

/// The texts of `list` in the order of their first occurrence, each once.
pub fn distinct(list: &Vec<String>) -> (r: Vec<String>)
    ensures
        texts(r@) == without_repeats(texts(list@)),
{
    let ghost all = texts(list@);
    let mut r: Vec<String> = Vec::new();
    let mut i: usize = 0;
    proof {
        assert(texts(r@) =~= without_repeats(all.take(0)));
    }
    while i < list.len()
        invariant
            i <= list@.len(),
            all == texts(list@),
            texts(r@) == without_repeats(all.take(i as int)),
        decreases list.len() - i,
    {
        proof {
            assert(all.take(i + 1).drop_last() =~= all.take(i as int));
            assert(all.take(i + 1).last() == list@[i as int]@);
        }
        if !has_text(&r, list[i].as_str()) {
            let item = list[i].clone();
            proof {
                assert(texts(r@.push(item)) =~= texts(r@).push(item@));
            }
            r.push(item);
        }
        i += 1;
    }
    proof {
        assert(all.take(list@.len() as int) =~= all);
    }
    r
}

impl Scheduler {
    /// No queue is marked twice.
    pub open spec fn wf(self) -> bool {
        entries_distinct(self.awake@)
    }

    /// A scheduler that nothing has woken.
    pub fn new(options: DispatchOptions) -> (r: Self)
        ensures
            r.wf(),
            r.options == options,
            r@.awake == Map::<Seq<char>, bool>::empty(),
            r@.wakes.len() == 0,
            r@.pass.len() == 0,
            r@.accounted(),
    {
        let r = Scheduler { awake: Vec::new(), wakes: Vec::new(), pass: Vec::new(), options };
        proof {
            assert(r@.awake =~= Map::<Seq<char>, bool>::empty());
        }
        r
    }

    /// Where the entry for `queue` is, if there is one.
    fn position(&self, queue: &str) -> (r: Option<usize>)
        requires
            self.wf(),
        ensures
            match r {
                Some(at) => {
                    &&& at < self.awake@.len()
                    &&& self.awake@[at as int].queue@ == queue@
                    &&& self@.awake.dom().contains(queue@)
                    &&& self@.awake[queue@] == self.awake@[at as int].rewake
                },
                None => !self@.awake.dom().contains(queue@),
            },
    {
        let mut i: usize = 0;
        while i < self.awake.len()
            invariant
                self.wf(),
                i <= self.awake@.len(),
                forall|k: int| 0 <= k < i ==> (#[trigger] self.awake@[k]).queue@ != queue@,
            decreases self.awake.len() - i,
        {
            if same_text(self.awake[i].queue.as_str(), queue) {
                proof {
                    lemma_entry(self.awake@, i as int);
                }
                return Some(i);
            }
            i += 1;
        }
        proof {
            if self@.awake.dom().contains(queue@) {
                let k = choose|k: int| entry_at(self.awake@, queue@, k);
                assert(self.awake@[k].queue@ == queue@);
            }
        }
        None
    }

    /// Whether `queue` has been woken and not been dealt with.
    pub fn is_awake(&self, queue: &str) -> (r: bool)
        requires
            self.wf(),
        ensures
            r == self@.awake.dom().contains(queue@),
    {
        self.position(queue).is_some()
    }

    fn send(&mut self, queue: &str)
        requires
            old(self).wf(),
        ensures
            final(self).wf(),
            final(self)@ == (SchedulerView {
                wakes: old(self)@.wakes.push(queue@),
                ..old(self)@
            }),
            final(self).options == old(self).options,
            final(self).awake == old(self).awake,
            final(self).pass == old(self).pass,
    {
        let item = queue.to_owned();
        proof {
            assert(texts(self.wakes@.push(item)) =~= texts(self.wakes@).push(item@));
        }
        self.wakes.push(item);
    }

    /// Sees to it that a look at `queue` begins after this call. A queue that
    /// is already awake is marked to be looked at again.
    pub fn ensure_awake(&mut self, queue: &str)
        requires
            old(self).wf(),
        ensures
            final(self).wf(),
            final(self)@ == old(self)@.woken(queue@),
            final(self).options == old(self).options,
    {
        match self.position(queue) {
            Some(at) => {
                let entry = Awake { queue: self.awake[at].queue.clone(), rewake: true };
                proof {
                    lemma_entry_set(self.awake@, at as int, entry);
                }
                self.awake.set(at, entry);
            },
            None => {
                let entry = Awake { queue: queue.to_owned(), rewake: false };
                proof {
                    lemma_entry_added(self.awake@, entry);
                }
                self.awake.push(entry);
                self.send(queue);
            },
        }
    }

    /// Starts a pass over every queue that has been sent, each once.
    pub fn begin_pass(&mut self) -> (r: Vec<String>)
        requires
            old(self).wf(),
            old(self)@.pass.len() == 0,
        ensures
            final(self).wf(),
            texts(r@) == without_repeats(old(self)@.wakes),
            final(self)@ == (SchedulerView {
                wakes: Seq::empty(),
                pass: without_repeats(old(self)@.wakes),
                ..old(self)@
            }),
            final(self).options == old(self).options,
    {
        let queues = distinct(&self.wakes);
        self.wakes = Vec::new();
        let kept = distinct(&queues);
        proof {
            lemma_no_repeats_twice(texts(queues@));
            lemma_without_repeats(old(self)@.wakes, Seq::empty());
            assert(texts(self.wakes@) =~= Seq::<Seq<char>>::empty());
        }
        self.pass = kept;
        queues
    }

    /// How many worker slots a pass asks for per queue.
    pub fn pass_size(&self) -> (r: usize)
        ensures
            r == (if self.options.batch_size_max <= MAX_CLAIM_BATCH_SIZE {
                self.options.batch_size_max
            } else {
                MAX_CLAIM_BATCH_SIZE
            }),
            r == one_batch(self.options.batch_size_max as int),
    {
        if self.options.batch_size_max <= MAX_CLAIM_BATCH_SIZE {
            self.options.batch_size_max
        } else {
            MAX_CLAIM_BATCH_SIZE
        }
    }

    /// Sends `queues` again: they may have more to do.
    pub fn wake_after_pass(&mut self, queues: &Vec<String>)
        requires
            old(self).wf(),
        ensures
            final(self).wf(),
            final(self)@ == old(self)@.all_resent(texts(queues@)),
            final(self).options == old(self).options,
            final(self).pass == old(self).pass,
    {
        let ghost before = self@;
        let ghost all = texts(queues@);
        let mut i: usize = 0;
        proof {
            assert(all.take(0) =~= Seq::<Seq<char>>::empty());
        }
        while i < queues.len()
            invariant
                i <= queues@.len(),
                all == texts(queues@),
                self.wf(),
                self@ == before.all_resent(all.take(i as int)),
                self.options == old(self).options,
                self.pass == old(self).pass,
            decreases queues.len() - i,
        {
            proof {
                assert(all.take(i + 1).drop_last() =~= all.take(i as int));
                assert(all.take(i + 1).last() == queues@[i as int]@);
            }
            let queue = queues[i].as_str();
            match self.position(queue) {
                Some(at) => {
                    let entry = Awake { queue: self.awake[at].queue.clone(), rewake: false };
                    proof {
                        lemma_entry_set(self.awake@, at as int, entry);
                    }
                    self.awake.set(at, entry);
                },
                None => {},
            }
            self.send(queue);
            i += 1;
        }
        proof {
            assert(all.take(queues@.len() as int) =~= all);
        }
    }

    /// Ends the current pass. The queues in `capped` filled everything that
    /// was asked for and are looked at again; the others sleep unless they
    /// were woken in the meantime. A pass for which no slots could be reserved
    /// ends with all of its queues in `capped`.
    pub fn finish_pass(&mut self, capped: &Vec<String>)
        requires
            old(self).wf(),
        ensures
            final(self).wf(),
            final(self)@ == old(self)@.finished(texts(capped@)),
            final(self).options == old(self).options,
    {
        let ghost start = self@;
        self.wake_after_pass(capped);
        let ghost before = self@;
        let ghost all = texts(self.pass@);
        let mut i: usize = 0;
        proof {
            assert(all.take(0) =~= Seq::<Seq<char>>::empty());
            lemma_resent_keeps_pass(start, texts(capped@));
        }
        while i < self.pass.len()
            invariant
                i <= self.pass@.len(),
                all == texts(self.pass@),
                self.wf(),
                self@ == before.all_settled(all.take(i as int), texts(capped@)),
                self.options == old(self).options,
            decreases self.pass.len() - i,
        {
            proof {
                assert(all.take(i + 1).drop_last() =~= all.take(i as int));
                assert(all.take(i + 1).last() == self.pass@[i as int]@);
            }
            let queue = self.pass[i].clone();
            if !has_text(capped, queue.as_str()) {
                match self.position(queue.as_str()) {
                    Some(at) => {
                        let rewake = self.awake[at].rewake;
                        proof {
                            lemma_entry_removed(self.awake@, at as int);
                        }
                        self.awake.remove(at);
                        if rewake {
                            self.send(queue.as_str());
                        }
                    },
                    None => {
                        proof {
                            assert(self@.awake.remove(queue@) =~= self@.awake);
                        }
                    },
                }
            }
            i += 1;
        }
        proof {
            assert(all.take(self.pass@.len() as int) =~= all);
        }
        self.pass = Vec::new();
        proof {
            assert(texts(self.pass@) =~= Seq::<Seq<char>>::empty());
        }
    }
}

proof fn lemma_no_repeats_twice(list: Seq<Seq<char>>)
    ensures
        list.no_duplicates() ==> without_repeats(list) == list,
    decreases list.len(),
{
    if list.len() > 0 && list.no_duplicates() {
        let fewer = list.drop_last();
        lemma_no_repeats_twice(fewer);
        assert(!fewer.contains(list.last())) by {
            if fewer.contains(list.last()) {
                let k = fewer.index_of(list.last());
                assert(list[k] == list[list.len() - 1]);
            }
        }
        assert(fewer.push(list.last()) =~= list);
    }
}

proof fn lemma_resent_keeps_pass(state: SchedulerView, queues: Seq<Seq<char>>)
    ensures
        state.all_resent(queues).pass == state.pass,
        state.all_resent(queues).awake.dom() == state.awake.dom(),
    decreases queues.len(),
{
    if queues.len() > 0 {
        lemma_resent_keeps_pass(state, queues.drop_last());
        assert(state.all_resent(queues).awake.dom() =~= state.awake.dom());
    }
}

/// Settling sends, and takes nothing back.
proof fn lemma_settling_keeps(
    state: SchedulerView,
    queues: Seq<Seq<char>>,
    capped: Seq<Seq<char>>,
    queue: Seq<char>,
)
    ensures
        state.wakes.contains(queue) ==> state.all_settled(queues, capped).wakes.contains(queue),
        state.all_settled(queues, capped).pass == state.pass,
        state.all_settled(queues, capped).awake.dom().contains(queue) <==> (
        state.awake.dom().contains(queue) && (capped.contains(queue) || !queues.contains(queue))),
        state.all_settled(queues, capped).awake.dom().contains(queue) ==> state.all_settled(
            queues,
            capped,
        ).awake[queue] == state.awake[queue],
        !capped.contains(queue) && queues.contains(queue) && state.awake.dom().contains(queue)
            && state.awake[queue] ==> state.all_settled(queues, capped).wakes.contains(queue),
    decreases queues.len(),
{
    if queues.len() > 0 {
        let fewer = queues.drop_last();
        let last = queues.last();
        lemma_settling_keeps(state, fewer, capped, queue);
        let before = state.all_settled(fewer, capped);
        let after = state.all_settled(queues, capped);
        if before.wakes.contains(queue) {
            let k = before.wakes.index_of(queue);
            assert(after.wakes[k] == queue);
        }
        if queues.contains(queue) && queue != last {
            let k = queues.index_of(queue);
            assert(fewer[k] == queue);
        }
        if fewer.contains(queue) {
            let k = fewer.index_of(queue);
            assert(queues[k] == queue);
        }
        if queue == last {
            assert(queues[queues.len() - 1] == queue);
            if !capped.contains(queue) && before.awake.dom().contains(queue)
                && before.awake[queue] {
                assert(after.wakes[before.wakes.len() as int] == queue);
            }
        }
    }
}

/// Sending again sends, and takes nothing back.
proof fn lemma_resending_sends(state: SchedulerView, queues: Seq<Seq<char>>, queue: Seq<char>)
    ensures
        state.wakes.contains(queue) || queues.contains(queue) ==> state.all_resent(
            queues,
        ).wakes.contains(queue),
        !queues.contains(queue) && state.awake.dom().contains(queue) ==> state.all_resent(
            queues,
        ).awake[queue] == state.awake[queue],
    decreases queues.len(),
{
    lemma_resent_keeps_pass(state, queues);
    if queues.len() > 0 {
        let fewer = queues.drop_last();
        lemma_resending_sends(state, fewer, queue);
        lemma_resent_keeps_pass(state, fewer);
        let before = state.all_resent(fewer);
        let after = state.all_resent(queues);
        if before.wakes.contains(queue) {
            let k = before.wakes.index_of(queue);
            assert(after.wakes[k] == queue);
        }
        if queues.contains(queue) {
            let k = queues.index_of(queue);
            if k < fewer.len() {
                assert(fewer[k] == queue);
            } else {
                assert(after.wakes[before.wakes.len() as int] == queue);
            }
        }
        if fewer.contains(queue) {
            let k = fewer.index_of(queue);
            assert(queues[k] == queue);
        }
        if queues.last() == queue {
            assert(queues[queues.len() - 1] == queue);
        }
    }
}

/// A wakeup is never lost: from then on a look at the queue is owed, whatever
/// the queue was doing when it came.
pub proof fn wakeups_are_owed(state: SchedulerView, queue: Seq<char>)
    requires
        state.accounted(),
    ensures
        state.woken(queue).owed(queue),
        state.woken(queue).accounted(),
{
    let after = state.woken(queue);
    if state.awake.dom().contains(queue) {
    } else {
        assert(after.wakes[state.wakes.len() as int] == queue);
    }
    assert forall|other: Seq<char>| #[trigger] after.awake.dom().contains(
        other,
    ) implies after.wakes.contains(other) || after.pass.contains(other) by {
        if other != queue {
            assert(state.awake.dom().contains(other));
            if state.wakes.contains(other) {
                let k = state.wakes.index_of(other);
                assert(after.wakes[k] == other);
            }
        } else if state.awake.dom().contains(queue) {
            if state.wakes.contains(queue) {
                let k = state.wakes.index_of(queue);
                assert(after.wakes[k] == queue);
            }
        }
    }
}

/// What is owed stays owed while other queues are woken, and when the current
/// pass ends it is to be taken up next.
pub proof fn owed_looks_are_kept(
    state: SchedulerView,
    queue: Seq<char>,
    other: Seq<char>,
    capped: Seq<Seq<char>>,
)
    requires
        state.owed(queue),
    ensures
        state.woken(other).owed(queue),
        state.finished(capped).wakes.contains(queue),
{
    let woken = state.woken(other);
    if state.wakes.contains(queue) {
        let k = state.wakes.index_of(queue);
        assert(woken.wakes[k] == queue);
    }
    lemma_resending_sends(state, capped, queue);
    lemma_resent_keeps_pass(state, capped);
    lemma_settling_keeps(state.all_resent(capped), state.pass, capped, queue);
}

/// Whoever is awake stays accounted for when a pass begins and when it ends.
pub proof fn passes_keep_account(state: SchedulerView, capped: Seq<Seq<char>>)
    requires
        state.accounted(),
    ensures
        state.pass.len() == 0 ==> (SchedulerView {
            wakes: Seq::empty(),
            pass: without_repeats(state.wakes),
            ..state
        }).accounted(),
        state.finished(capped).accounted(),
        state.all_resent(capped).accounted(),
{
    let begun = SchedulerView { wakes: Seq::empty(), pass: without_repeats(state.wakes), ..state };
    if state.pass.len() == 0 {
        assert forall|queue: Seq<char>| #[trigger] begun.awake.dom().contains(
            queue,
        ) implies begun.wakes.contains(queue) || begun.pass.contains(queue) by {
            assert(state.awake.dom().contains(queue));
            lemma_without_repeats(state.wakes, queue);
        }
    }
    let resent = state.all_resent(capped);
    let ended = state.finished(capped);
    lemma_resent_keeps_pass(state, capped);
    assert forall|queue: Seq<char>| #[trigger] resent.awake.dom().contains(
        queue,
    ) implies resent.wakes.contains(queue) || resent.pass.contains(queue) by {
        assert(state.awake.dom().contains(queue));
        lemma_resending_sends(state, capped, queue);
    }
    assert forall|queue: Seq<char>| #[trigger] ended.awake.dom().contains(
        queue,
    ) implies ended.wakes.contains(queue) || ended.pass.contains(queue) by {
        lemma_settling_keeps(resent, state.pass, capped, queue);
        lemma_resending_sends(state, capped, queue);
        assert(state.awake.dom().contains(queue));
    }
}

/// A pass that ends with all of its queues to be looked at again only sends
/// them again: none is put to sleep.
pub proof fn failed_passes_start_over(state: SchedulerView)
    ensures
        state.finished(state.pass) == (SchedulerView {
            pass: Seq::empty(),
            ..state.all_resent(state.pass)
        }),
{
    lemma_none_settled(state.all_resent(state.pass), state.pass, state.pass);
}

proof fn lemma_none_settled(
    state: SchedulerView,
    queues: Seq<Seq<char>>,
    capped: Seq<Seq<char>>,
)
    requires
        forall|i: int| 0 <= i < queues.len() ==> capped.contains(#[trigger] queues[i]),
    ensures
        state.all_settled(queues, capped) == state,
    decreases queues.len(),
{
    if queues.len() > 0 {
        let fewer = queues.drop_last();
        assert forall|i: int| 0 <= i < fewer.len() implies capped.contains(
            #[trigger] fewer[i],
        ) by {
            assert(capped.contains(queues[i]));
        }
        lemma_none_settled(state, fewer, capped);
        assert(capped.contains(queues[queues.len() - 1]));
    }
}

/// Wakeups are coalesced: a queue that is awake is not sent again by waking
/// it, however often that happens.
pub proof fn wakeups_are_coalesced(state: SchedulerView, queue: Seq<char>)
    requires
        state.awake.dom().contains(queue),
    ensures
        state.woken(queue).wakes == state.wakes,
        state.woken(queue).woken(queue) == state.woken(queue),
{
    assert(state.woken(queue).woken(queue) =~= state.woken(queue));
}

/// What a pass asks for: `count` slots of each queue.
pub fn reservations(queues: &Vec<String>, count: usize) -> (r: Vec<QueueReservation>)
    ensures
        r@.len() == queues@.len(),
        forall|i: int|
            0 <= i < r@.len() ==> (#[trigger] r@[i]).queue_name@ == queues@[i]@ && r@[i].count
                == count,
{
    let mut r: Vec<QueueReservation> = Vec::new();
    let mut i: usize = 0;
    while i < queues.len()
        invariant
            i <= queues@.len(),
            r@.len() == i,
            forall|k: int|
                0 <= k < i ==> (#[trigger] r@[k]).queue_name@ == queues@[k]@ && r@[k].count
                    == count,
        decreases queues.len() - i,
    {
        r.push(QueueReservation { queue_name: queues[i].clone(), count });
        i += 1;
    }
    r
}

impl Scheduler {
    /// What a look at the queues that nothing has woken asks for.
    pub fn idle_probe(&self, known: &Vec<String>) -> (r: Vec<QueueReservation>)
        requires
            self.wf(),
        ensures
            idle_requests(r@) == asleep(texts(known@), self@.awake),
            forall|i: int|
                0 <= i < r@.len() ==> (#[trigger] r@[i]).count == (
                if self.options.idle_probe_batch_size <= MAX_CLAIM_BATCH_SIZE {
                    self.options.idle_probe_batch_size
                } else {
                    MAX_CLAIM_BATCH_SIZE
                }),
            forall|i: int|
                0 <= i < r@.len() ==> (#[trigger] r@[i]).count == one_batch(
                    self.options.idle_probe_batch_size as int,
                ),
    {
        let count: usize = if self.options.idle_probe_batch_size <= MAX_CLAIM_BATCH_SIZE {
            self.options.idle_probe_batch_size
        } else {
            MAX_CLAIM_BATCH_SIZE
        };
        let ghost all = texts(known@);
        let mut r: Vec<QueueReservation> = Vec::new();
        let mut i: usize = 0;
        proof {
            assert(idle_requests(r@) =~= asleep(all.take(0), self@.awake));
        }
        while i < known.len()
            invariant
                i <= known@.len(),
                all == texts(known@),
                self.wf(),
                idle_requests(r@) == asleep(all.take(i as int), self@.awake),
                forall|k: int| 0 <= k < r@.len() ==> (#[trigger] r@[k]).count == count,
            decreases known.len() - i,
        {
            proof {
                assert(all.take(i + 1).drop_last() =~= all.take(i as int));
                assert(all.take(i + 1).last() == known@[i as int]@);
            }
            if !self.is_awake(known[i].as_str()) {
                let request = QueueReservation { queue_name: known[i].clone(), count };
                proof {
                    assert(idle_requests(r@.push(request)) =~= idle_requests(r@).push(
                        known@[i as int]@,
                    ));
                }
                r.push(request);
            }
            i += 1;
        }
        proof {
            assert(all.take(known@.len() as int) =~= all);
        }
        r
    }
}

/// As many slots as are wanted, but no more than one batch of jobs.
pub open spec fn one_batch(wanted: int) -> int {
    if wanted <= MAX_CLAIM_BATCH_SIZE {
        wanted
    } else {
        MAX_CLAIM_BATCH_SIZE as int
    }
}

/// The queues that are asked for.
pub open spec fn idle_requests(requests: Seq<QueueReservation>) -> Seq<Seq<char>> {
    requests.map_values(|r: QueueReservation| r.queue_name@)
}

/// Those of `known` that are not awake, in order.
pub open spec fn asleep(known: Seq<Seq<char>>, awake: Map<Seq<char>, bool>) -> Seq<Seq<char>>
    decreases known.len(),
{
    if known.len() == 0 {
        Seq::empty()
    } else if awake.dom().contains(known.last()) {
        asleep(known.drop_last(), awake)
    } else {
        asleep(known.drop_last(), awake).push(known.last())
    }
}

/// The permits for `queue`, in order.
pub open spec fn permits_for<P: DispatchPermit>(
    permits: Seq<ReservedDispatch<P>>,
    queue: Seq<char>,
) -> Seq<ReservedDispatch<P>>
    decreases permits.len(),
{
    if permits.len() == 0 {
        Seq::empty()
    } else if permits.last().queue_name@ == queue {
        permits_for(permits.drop_last(), queue).push(permits.last())
    } else {
        permits_for(permits.drop_last(), queue)
    }
}

/// The permits for other queues than `queue`, in order.
pub open spec fn permits_besides<P: DispatchPermit>(
    permits: Seq<ReservedDispatch<P>>,
    queue: Seq<char>,
) -> Seq<ReservedDispatch<P>>
    decreases permits.len(),
{
    if permits.len() == 0 {
        Seq::empty()
    } else if permits.last().queue_name@ == queue {
        permits_besides(permits.drop_last(), queue)
    } else {
        permits_besides(permits.drop_last(), queue).push(permits.last())
    }
}

/// Takes the permits for `queue` out of `permits`.
pub fn take_permits<P: DispatchPermit>(permits: &mut Vec<ReservedDispatch<P>>, queue: &str) -> (r:
    Vec<ReservedDispatch<P>>)
    ensures
        r@ == permits_for(old(permits)@, queue@),
        final(permits)@ == permits_besides(old(permits)@, queue@),
{
    let ghost all = permits@;
    let mut taken: Vec<ReservedDispatch<P>> = Vec::new();
    let mut i: usize = 0;
    let ghost mut seen: int = 0;
    proof {
        assert(taken@ =~= permits_for(all.take(0), queue@));
        assert(permits@ =~= permits_besides(all.take(0), queue@) + all.skip(0));
    }
    while i < permits.len()
        invariant
            0 <= seen <= all.len(),
            taken@ == permits_for(all.take(seen), queue@),
            i == permits_besides(all.take(seen), queue@).len(),
            permits@ == permits_besides(all.take(seen), queue@) + all.skip(seen),
        decreases all.len() - seen,
    {
        proof {
            assert(permits@[i as int] == all.skip(seen)[0]);
            assert(all.skip(seen)[0] == all[seen]);
            assert(all.take(seen + 1).drop_last() =~= all.take(seen));
            assert(all.take(seen + 1).last() == all[seen]);
            assert(all.skip(seen) =~= seq![all[seen]] + all.skip(seen + 1));
        }
        let ghost kept = permits_besides(all.take(seen), queue@);
        if same_text(permits[i].queue_name.as_str(), queue) {
            let permit = permits.remove(i);
            taken.push(permit);
            proof {
                assert(permits@ =~= kept + all.skip(seen + 1));
            }
        } else {
            i += 1;
            proof {
                assert(kept + all.skip(seen) =~= kept.push(all[seen]) + all.skip(seen + 1));
            }
        }
        proof {
            seen = seen + 1;
        }
    }
    proof {
        assert(all.take(seen) =~= all);
        assert(permits@ =~= permits_besides(all, queue@));
    }
    taken
}

/// Every permit is either for the queue or for another, and none is lost.
pub proof fn permits_divide<P: DispatchPermit>(permits: Seq<ReservedDispatch<P>>, queue: Seq<char>)
    ensures
        permits.to_multiset() == permits_for(permits, queue).to_multiset().add(
            permits_besides(permits, queue).to_multiset(),
        ),
        forall|i: int|
            0 <= i < permits_for(permits, queue).len() ==> (#[trigger] permits_for(
                permits,
                queue,
            )[i]).queue_name@ == queue,
        forall|i: int|
            0 <= i < permits_besides(permits, queue).len() ==> (#[trigger] permits_besides(
                permits,
                queue,
            )[i]).queue_name@ != queue,
    decreases permits.len(),
{
    broadcast use vstd::seq_lib::group_to_multiset_ensures;

    let own = permits_for(permits, queue);
    let others = permits_besides(permits, queue);
    if permits.len() > 0 {
        let fewer = permits.drop_last();
        permits_divide(fewer, queue);
        assert(fewer.push(permits.last()) =~= permits);
        assert(permits.to_multiset() =~= own.to_multiset().add(others.to_multiset()));
    } else {
        assert(permits.to_multiset() =~= own.to_multiset().add(others.to_multiset()));
    }
}

/// Whether a queue that was asked `count` slots for and got `reserved` of them
/// has filled them all with `claimed` jobs, so that there may be more to do.
pub open spec fn capped_out(claimed: int, reserved: int, count: int) -> bool {
    claimed == reserved && reserved == count
}

/// Whether a queue filled every slot that was reserved for it, and as many as
/// were asked for: there may be more to do, with capacity to do it.
pub fn is_capped(claimed: usize, reserved: usize, count: usize) -> (r: bool)
    ensures
        r == (claimed == reserved && reserved == count),
        r == capped_out(claimed as int, reserved as int, count as int),
{
    claimed == reserved && reserved == count
}

/// Jobs with the permits they go out under, and the permits left over.
pub struct Deliveries<P: DispatchPermit> {
    pub dispatches: Vec<(ReservedDispatch<P>, Job)>,
    pub unused: Vec<ReservedDispatch<P>>,
}

/// Whether each of `jobs` goes out under a permit of its own, in order, and the
/// permits that are left over are given back.
pub open spec fn pairs_up<P: DispatchPermit>(
    permits: Seq<ReservedDispatch<P>>,
    jobs: Seq<Job>,
    dispatches: Seq<(ReservedDispatch<P>, Job)>,
    unused: Seq<ReservedDispatch<P>>,
) -> bool {
    &&& dispatches.len() == jobs.len()
    &&& forall|i: int|
        0 <= i < jobs.len() ==> (#[trigger] dispatches[i]).0 == permits[i] && dispatches[i].1
            == jobs[i]
    &&& unused == permits.skip(jobs.len() as int)
}

/// Gives each job a permit, in order. A claim never exceeds what was reserved.
pub fn pair_deliveries<P: DispatchPermit>(permits: Vec<ReservedDispatch<P>>, jobs: Vec<Job>) -> (r:
    Deliveries<P>)
    requires
        jobs@.len() <= permits@.len(),
    ensures
        r.dispatches@.len() == jobs@.len(),
        forall|i: int|
            0 <= i < jobs@.len() ==> #[trigger] r.dispatches@[i] == (permits@[i], jobs@[i]),
        r.unused@ == permits@.skip(jobs@.len() as int),
        pairs_up(permits@, jobs@, r.dispatches@, r.unused@),
{
    let ghost all = permits@;
    let ghost work = jobs@;
    let mut permits = permits;
    let mut jobs = jobs;
    let mut reversed: Vec<(ReservedDispatch<P>, Job)> = Vec::new();
    let mut dispatches: Vec<(ReservedDispatch<P>, Job)> = Vec::new();
    let unused = permits.split_off(jobs.len());
    proof {
        assert(permits@ =~= all.take(work.len() as int));
        assert(unused@ =~= all.skip(work.len() as int));
    }
    while jobs.len() > 0
        invariant
            jobs@.len() <= work.len(),
            work.len() <= all.len(),
            jobs@ == work.take(jobs@.len() as int),
            permits@ == all.take(jobs@.len() as int),
            reversed@.len() == work.len() - jobs@.len(),
            forall|i: int|
                0 <= i < reversed@.len() ==> #[trigger] reversed@[i] == (
                    all[work.len() - 1 - i],
                    work[work.len() - 1 - i],
                ),
        decreases jobs@.len(),
    {
        let ghost n = jobs@.len() as int;
        match (permits.pop(), jobs.pop()) {
            (Some(permit), Some(job)) => {
                proof {
                    assert(permit == all[n - 1]);
                    assert(job == work[n - 1]);
                    assert(jobs@ =~= work.take(n - 1));
                    assert(permits@ =~= all.take(n - 1));
                }
                reversed.push((permit, job));
            },
            _ => {},
        }
    }
    while reversed.len() > 0
        invariant
            work.len() <= all.len(),
            reversed@.len() + dispatches@.len() == work.len(),
            forall|i: int|
                0 <= i < reversed@.len() ==> #[trigger] reversed@[i] == (
                    all[work.len() - 1 - i],
                    work[work.len() - 1 - i],
                ),
            forall|i: int|
                0 <= i < dispatches@.len() ==> #[trigger] dispatches@[i] == (all[i], work[i]),
        decreases reversed@.len(),
    {
        match reversed.pop() {
            Some(pair) => {
                dispatches.push(pair);
            },
            None => {},
        }
    }
    Deliveries { dispatches, unused }
}

/// Whether `claim` is what has to be given back of a job that was delivered or
/// not.
pub open spec fn gives_back(claim: Option<(i64, String)>, job: Job, delivered: bool) -> bool {
    match claim {
        Some((id, token)) => {
            &&& !delivered
            &&& id == job.id
            &&& job.dispatch_id is Some
            &&& job.dispatch_id->Some_0@ == token@
        },
        None => delivered || job.dispatch_id is None,
    }
}

/// Which claim has to be given back after a delivery, if one has: that of a
/// job that did not go out.
pub fn claim_to_release(job: &Job, delivered: bool) -> (r: Option<(i64, String)>)
    ensures
        match (r, job.dispatch_id) {
            (Some((id, token)), Some(held)) => !delivered && id == job.id && token@ == held@,
            (None, Some(_)) => delivered,
            (None, None) => true,
            _ => false,
        },
        gives_back(r, *job, delivered),
{
    if delivered {
        return None;
    }
    match &job.dispatch_id {
        Some(token) => Some((job.id, token.clone())),
        None => None,
    }
}

/// The queues of the pending ones of `jobs`, in order.
pub open spec fn pending_names(jobs: Seq<Job>) -> Seq<Seq<char>>
    decreases jobs.len(),
{
    if jobs.len() == 0 {
        Seq::empty()
    } else if jobs.last().status == ExecutionStatus::Pending {
        pending_names(jobs.drop_last()).push(jobs.last().name@)
    } else {
        pending_names(jobs.drop_last())
    }
}

/// The queues to be woken after jobs were recovered: those with a job that is
/// pending again, each once.
pub fn queues_to_wake(jobs: &Vec<Job>) -> (r: Vec<String>)
    ensures
        texts(r@) == without_repeats(pending_names(jobs@)),
{
    let mut names: Vec<String> = Vec::new();
    let mut i: usize = 0;
    proof {
        assert(texts(names@) =~= pending_names(jobs@.take(0)));
    }
    while i < jobs.len()
        invariant
            i <= jobs@.len(),
            texts(names@) == pending_names(jobs@.take(i as int)),
        decreases jobs.len() - i,
    {
        proof {
            assert(jobs@.take(i + 1).drop_last() =~= jobs@.take(i as int));
            assert(jobs@.take(i + 1).last() == jobs@[i as int]);
        }
        if jobs[i].status == ExecutionStatus::Pending {
            let name = jobs[i].name.clone();
            proof {
                assert(texts(names@.push(name)) =~= texts(names@).push(name@));
            }
            names.push(name);
        }
        i += 1;
    }
    proof {
        assert(jobs@.take(jobs@.len() as int) =~= jobs@);
    }
    distinct(&names)
}

/// Whether `woken` is the queue to be woken after a result was recorded for
/// `job`.
pub open spec fn wakes_for(woken: Option<Seq<char>>, job: Option<Job>) -> bool {
    match job {
        Some(job) => woken == (if job.status == ExecutionStatus::Pending {
            Some(job.name@)
        } else {
            None
        }),
        None => woken is None,
    }
}

/// The queue to be woken after a result was recorded: that of a job that is
/// to be tried again.
pub fn queue_to_wake(job: &Option<Job>) -> (r: Option<String>)
    ensures
        match (r, *job) {
            (Some(name), Some(job)) => job.status == ExecutionStatus::Pending && name@ == job.name@,
            (None, Some(job)) => job.status != ExecutionStatus::Pending,
            (None, None) => true,
            _ => false,
        },
        wakes_for(text_view(r), *job),
{
    match job {
        Some(job) => if job.status == ExecutionStatus::Pending {
            Some(job.name.clone())
        } else {
            None
        },
        None => None,
    }
}

/// What the engine does about a worker event.
pub struct EventPlan {
    /// The queue to be woken: there is capacity for it.
    pub wake: String,
    /// The result to be recorded, if there is one.
    pub complete: Option<WorkerResult>,
}

/// Whether a plan wakes the queue that an event speaks of, and records the
/// result that it brings.
pub open spec fn answers_event(plan: EventPlan, event: WorkerEvent) -> bool {
    match event {
        WorkerEvent::Registered { queue_name } => plan.wake == queue_name && plan.complete is None,
        WorkerEvent::Result { queue_name, result } => plan.wake == queue_name && plan.complete
            == Some(result),
    }
}

/// What the engine does about `event`.
pub fn plan_event(event: WorkerEvent) -> (r: EventPlan)
    ensures
        match event {
            WorkerEvent::Registered { queue_name } => r.wake == queue_name && r.complete is None,
            WorkerEvent::Result { queue_name, result } => r.wake == queue_name && r.complete
                == Some(result),
        },
        answers_event(r, event),
{
    match event {
        WorkerEvent::Registered { queue_name } => EventPlan { wake: queue_name, complete: None },
        WorkerEvent::Result { queue_name, result } => EventPlan {
            wake: queue_name,
            complete: Some(result),
        },
    }
}

/// Waking a queue that sleeps marks it and sends it once, behind those that
/// were sent before. Waking one that is awake only notes that it is to be looked
/// at again. No other queue is affected.
pub proof fn waking_touches_one_queue(state: SchedulerView, queue: Seq<char>, other: Seq<char>)
    requires
        other != queue,
    ensures
        ({
            let after = state.woken(queue);
            let slept = !state.awake.dom().contains(queue);
            &&& after.pass == state.pass
            &&& after.awake.dom().contains(queue)
            &&& after.awake[queue] == !slept
            &&& slept ==> after.wakes == state.wakes.push(queue)
            &&& !slept ==> after.wakes == state.wakes
            &&& after.awake.dom().contains(other) == state.awake.dom().contains(other)
            &&& state.awake.dom().contains(other) ==> after.awake[other] == state.awake[other]
        }),
{
}

/// What sending queues again does to one of them, or to another.
proof fn lemma_resent(state: SchedulerView, queues: Seq<Seq<char>>, queue: Seq<char>)
    ensures
        ({
            let after = state.all_resent(queues);
            &&& after.pass == state.pass
            &&& after.wakes.contains(queue) <==> state.wakes.contains(queue) || queues.contains(
                queue,
            )
            &&& after.awake.dom().contains(queue) == state.awake.dom().contains(queue)
            &&& state.awake.dom().contains(queue) ==> after.awake[queue] == (state.awake[queue]
                && !queues.contains(queue))
        }),
    decreases queues.len(),
{
    if queues.len() > 0 {
        let fewer = queues.drop_last();
        lemma_resent(state, fewer, queue);
        let before = state.all_resent(fewer);
        let after = state.all_resent(queues);
        assert(after.wakes == before.wakes.push(queues.last()));
        if before.wakes.contains(queue) {
            let k = before.wakes.index_of(queue);
            assert(after.wakes[k] == queue);
        }
        if fewer.contains(queue) {
            let k = fewer.index_of(queue);
            assert(queues[k] == queue);
        }
        if queues.last() == queue {
            assert(queues[queues.len() - 1] == queue);
            assert(after.wakes[before.wakes.len() as int] == queue);
        }
        if queues.contains(queue) && queues.last() != queue {
            let k = queues.index_of(queue);
            assert(fewer[k] == queue);
        }
        if after.wakes.contains(queue) && queues.last() != queue {
            let k = after.wakes.index_of(queue);
            assert(before.wakes[k] == queue);
        }
    }
}

/// What dealing with queues does to one of them, or to another.
proof fn lemma_dealt_with(
    state: SchedulerView,
    queues: Seq<Seq<char>>,
    capped: Seq<Seq<char>>,
    queue: Seq<char>,
)
    requires
        queues.no_duplicates(),
    ensures
        ({
            let after = state.all_settled(queues, capped);
            let dealt = queues.contains(queue) && !capped.contains(queue);
            &&& after.pass == state.pass
            &&& dealt ==> !after.awake.dom().contains(queue)
            &&& !dealt ==> after.awake.dom().contains(queue) == state.awake.dom().contains(queue)
            &&& !dealt && state.awake.dom().contains(queue) ==> after.awake[queue]
                == state.awake[queue]
            &&& after.wakes.contains(queue) <==> state.wakes.contains(queue) || (dealt
                && state.awake.dom().contains(queue) && state.awake[queue])
        }),
    decreases queues.len(),
{
    if queues.len() > 0 {
        let fewer = queues.drop_last();
        assert(fewer.no_duplicates());
        lemma_dealt_with(state, fewer, capped, queue);
        let before = state.all_settled(fewer, capped);
        let after = state.all_settled(queues, capped);
        let last = queues.last();
        assert(queues[queues.len() - 1] == last);
        if fewer.contains(queue) {
            let k = fewer.index_of(queue);
            assert(queues[k] == queue);
            assert(queue != last);
        }
        if queues.contains(queue) && last != queue {
            let k = queues.index_of(queue);
            assert(fewer[k] == queue);
        }
        if after.wakes.contains(queue) && !before.wakes.contains(queue) {
            let k = after.wakes.index_of(queue);
            assert(k == before.wakes.len());
        }
        if before.wakes.contains(queue) {
            let k = before.wakes.index_of(queue);
            assert(after.wakes[k] == queue);
        }
        if last == queue && !capped.contains(last) && before.awake.dom().contains(last)
            && before.awake[last] {
            assert(after.wakes[before.wakes.len() as int] == queue);
        }
    }
}

/// When a pass ends, a queue that was capped is to be taken up again. A queue
/// of the pass that was not capped is put to sleep, and is to be taken up again
/// only if it was woken during the pass or had been sent already. A queue that
/// was in neither is not affected.
pub proof fn passes_end_with_sleep_or_another_look(
    state: SchedulerView,
    capped: Seq<Seq<char>>,
    queue: Seq<char>,
)
    requires
        state.pass.no_duplicates(),
    ensures
        ({
            let after = state.finished(capped);
            let awake = state.awake.dom().contains(queue);
            &&& after.pass.len() == 0
            &&& capped.contains(queue) ==> {
                &&& after.wakes.contains(queue)
                &&& after.awake.dom().contains(queue) == awake
                &&& awake ==> !after.awake[queue]
            }
            &&& state.pass.contains(queue) && !capped.contains(queue) ==> {
                &&& !after.awake.dom().contains(queue)
                &&& after.wakes.contains(queue) <==> state.wakes.contains(queue) || (awake
                    && state.awake[queue])
            }
            &&& !state.pass.contains(queue) && !capped.contains(queue) ==> {
                &&& after.awake.dom().contains(queue) == awake
                &&& awake ==> after.awake[queue] == state.awake[queue]
                &&& after.wakes.contains(queue) == state.wakes.contains(queue)
            }
        }),
{
    lemma_resent(state, capped, queue);
    lemma_dealt_with(state.all_resent(capped), state.pass, capped, queue);
}

/// The queues that a probe asks for are those that are not awake, in order.
pub proof fn probes_ask_for_sleepers(known: Seq<Seq<char>>, awake: Map<Seq<char>, bool>)
    ensures
        asleep(known, awake) == known.filter(|queue: Seq<char>| !awake.dom().contains(queue)),
    decreases known.len(),
{
    reveal(Seq::filter);
    if known.len() > 0 {
        probes_ask_for_sleepers(known.drop_last(), awake);
    }
}

/// A queue takes the permits that name it, in order, and leaves the others.
pub proof fn permits_go_by_their_queue<P: DispatchPermit>(
    permits: Seq<ReservedDispatch<P>>,
    queue: Seq<char>,
)
    ensures
        permits_for(permits, queue) == permits.filter(
            |permit: ReservedDispatch<P>| permit.queue_name@ == queue,
        ),
        permits_besides(permits, queue) == permits.filter(
            |permit: ReservedDispatch<P>| permit.queue_name@ != queue,
        ),
    decreases permits.len(),
{
    reveal(Seq::filter);
    if permits.len() > 0 {
        permits_go_by_their_queue(permits.drop_last(), queue);
    }
}

/// After a recovery exactly the queues are woken that have a job which waits
/// again.
pub proof fn recovered_queues_are_woken(jobs: Seq<Job>, queue: Seq<char>)
    ensures
        without_repeats(pending_names(jobs)).contains(queue) <==> exists|i: int|
            0 <= i < jobs.len() && (#[trigger] jobs[i]).status == ExecutionStatus::Pending
                && jobs[i].name@ == queue,
        without_repeats(pending_names(jobs)).no_duplicates(),
    decreases jobs.len(),
{
    let names = pending_names(jobs);
    lemma_without_repeats(names, queue);
    if jobs.len() > 0 {
        let fewer = jobs.drop_last();
        recovered_queues_are_woken(fewer, queue);
        let before = pending_names(fewer);
        lemma_without_repeats(before, queue);
        let last = jobs.len() - 1;
        if before.contains(queue) {
            let k = before.index_of(queue);
            assert(names[k] == queue);
            let i = choose|i: int|
                0 <= i < fewer.len() && (#[trigger] fewer[i]).status == ExecutionStatus::Pending
                    && fewer[i].name@ == queue;
            assert(jobs[i].status == ExecutionStatus::Pending && jobs[i].name@ == queue);
        }
        if jobs[last].status == ExecutionStatus::Pending && jobs[last].name@ == queue {
            assert(names[before.len() as int] == queue);
        }
        if names.contains(queue) && !before.contains(queue) {
            let k = names.index_of(queue);
            assert(k == before.len());
            assert(jobs[last].status == ExecutionStatus::Pending && jobs[last].name@ == queue);
        }
        if exists|i: int|
            0 <= i < jobs.len() && (#[trigger] jobs[i]).status == ExecutionStatus::Pending
                && jobs[i].name@ == queue {
            let i = choose|i: int|
                0 <= i < jobs.len() && (#[trigger] jobs[i]).status == ExecutionStatus::Pending
                    && jobs[i].name@ == queue;
            if i < last {
                assert(fewer[i].status == ExecutionStatus::Pending && fewer[i].name@ == queue);
            }
        }
    }
}

/// What is asked for is what is wanted, up to one batch.
pub proof fn requests_stay_within_one_batch(wanted: int)
    requires
        wanted >= 0,
    ensures
        one_batch(wanted) <= wanted,
        one_batch(wanted) <= 16_384,
        wanted <= 16_384 ==> one_batch(wanted) == wanted,
        wanted > 16_384 ==> one_batch(wanted) == 16_384,
{
}

/// Every job that was claimed goes out, each under one permit, in the order of
/// the claims; and the permits that go out and those that come back are together
/// the permits that there were.
pub proof fn deliveries_use_one_permit_each<P: DispatchPermit>(
    permits: Seq<ReservedDispatch<P>>,
    jobs: Seq<Job>,
    dispatches: Seq<(ReservedDispatch<P>, Job)>,
    unused: Seq<ReservedDispatch<P>>,
)
    requires
        jobs.len() <= permits.len(),
        pairs_up(permits, jobs, dispatches, unused),
    ensures
        dispatches.map_values(|pair: (ReservedDispatch<P>, Job)| pair.1) == jobs,
        dispatches.map_values(|pair: (ReservedDispatch<P>, Job)| pair.0) + unused == permits,
{
    assert(dispatches.map_values(|pair: (ReservedDispatch<P>, Job)| pair.1) =~= jobs);
    assert(dispatches.map_values(|pair: (ReservedDispatch<P>, Job)| pair.0) + unused =~= permits);
}

/// A queue is looked at again right away exactly if it got all the slots that
/// were asked for and filled them all.
pub proof fn queues_are_capped_when_full(claimed: int, reserved: int, count: int)
    ensures
        capped_out(claimed, reserved, count) <==> claimed == count && reserved == count,
{
}

/// The claim on a job that did not go out is given back under its token; that
/// on a job that went out is not. Who gives it back frees the job.
pub proof fn undelivered_claims_are_given_back(
    claim: Option<(i64, String)>,
    job: Job,
    delivered: bool,
)
    requires
        gives_back(claim, job, delivered),
    ensures
        delivered ==> claim is None,
        !delivered && job.dispatch_id is Some ==> {
            &&& claim is Some
            &&& claim->Some_0.0 == job.id
            &&& Some(claim->Some_0.1@) == text_view(job.dispatch_id)
        },
{
}

/// A job that waits again wakes its queue, and no other result does.
pub proof fn retries_wake_their_queue(woken: Option<Seq<char>>, job: Option<Job>)
    requires
        wakes_for(woken, job),
    ensures
        job is None ==> woken is None,
        job is Some && job->Some_0.status == ExecutionStatus::Pending ==> woken == Some(
            job->Some_0.name@,
        ),
        job is Some && job->Some_0.status != ExecutionStatus::Pending ==> woken is None,
{
}

/// A worker that has capacity wakes its queue, whether it has just registered
/// or finished a job; and what it reports is recorded as it was reported.
pub proof fn events_wake_their_queue(plan: EventPlan, event: WorkerEvent)
    requires
        answers_event(plan, event),
    ensures
        match event {
            WorkerEvent::Registered { queue_name } => plan.wake == queue_name && plan.complete
                is None,
            WorkerEvent::Result { queue_name, result } => {
                &&& plan.wake == queue_name
                &&& plan.complete is Some
                &&& plan.complete->Some_0.job_id == result.job_id
                &&& plan.complete->Some_0.dispatch_id == result.dispatch_id
                &&& plan.complete->Some_0.outcome == result.outcome
            },
        },
{
}

/// A queue is awake exactly if it has an entry, and is to be looked at again if
/// the entry says so.
pub proof fn entries_say_who_is_awake(entries: Seq<Awake>, queue: Seq<char>, at: int)
    requires
        entries_distinct(entries),
    ensures
        awake_map(entries).dom().contains(queue) <==> exists|k: int|
            0 <= k < entries.len() && (#[trigger] entries[k]).queue@ == queue,
        0 <= at < entries.len() && entries[at].queue@ == queue ==> awake_map(entries)[queue]
            == entries[at].rewake,
{
    if exists|k: int| 0 <= k < entries.len() && (#[trigger] entries[k]).queue@ == queue {
        let k = choose|k: int| 0 <= k < entries.len() && (#[trigger] entries[k]).queue@ == queue;
        assert(entry_at(entries, queue, k));
    }
    if awake_map(entries).dom().contains(queue) {
        let k = choose|k: int| entry_at(entries, queue, k);
        assert(entries[k].queue@ == queue);
    }
    if 0 <= at < entries.len() && entries[at].queue@ == queue {
        lemma_entry(entries, at);
    }
}

} // verus!
