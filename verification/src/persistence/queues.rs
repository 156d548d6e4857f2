//! Queue configurations, by name.

use crate::engine::types::{JobQueue, JobQueueView, StoreError, StoreErrorView};
use crate::text::{chars_of, same_text};
use vstd::prelude::*;

verus! {

/// What each item of a sequence holds.
pub open spec fn views<T: View>(items: Seq<T>) -> Seq<T::V> {
    Seq::new(items.len(), |i: int| items[i]@)
}

/// An item that is appended is seen last.
pub proof fn lemma_views_push<T: View>(items: Seq<T>, item: T)
    ensures
        views(items.push(item)) == views(items).push(item@),
{
    assert(views(items.push(item)) =~= views(items).push(item@));
}

/// The order of texts: character by character, a text before its extensions.
pub open spec fn text_before(a: Seq<char>, b: Seq<char>) -> bool
    decreases a.len(),
{
    if b.len() == 0 {
        false
    } else if a.len() == 0 {
        true
    } else if a[0] != b[0] {
        (a[0] as int) < (b[0] as int)
    } else {
        text_before(a.drop_first(), b.drop_first())
    }
}

/// Of two different texts exactly one comes first, and no text comes before
/// itself.
pub proof fn lemma_text_order_is_total(a: Seq<char>, b: Seq<char>)
    ensures
        a == b ==> !text_before(a, b),
        a != b ==> (text_before(a, b) <==> !text_before(b, a)),
    decreases a.len(),
{
    if a.len() > 0 && b.len() > 0 {
        lemma_text_order_is_total(a.drop_first(), b.drop_first());
        if a.drop_first() == b.drop_first() && a[0] == b[0] {
            assert(a =~= seq![a[0]] + a.drop_first());
            assert(b =~= seq![b[0]] + b.drop_first());
        }
    } else if a.len() == 0 && b.len() == 0 {
        assert(a =~= b);
    }
}

pub proof fn lemma_text_order_is_transitive(a: Seq<char>, b: Seq<char>, c: Seq<char>)
    requires
        text_before(a, b),
        text_before(b, c),
    ensures
        text_before(a, c),
    decreases a.len(),
{
    if a.len() > 0 && a[0] == b[0] && b[0] == c[0] {
        lemma_text_order_is_transitive(a.drop_first(), b.drop_first(), c.drop_first());
    }
}

/// Whether `a` comes before `b`.
pub fn comes_before(a: &str, b: &str) -> (r: bool)
    ensures
        r == text_before(a@, b@),
{
    let x = chars_of(a);
    let y = chars_of(b);
    let mut i: usize = 0;
    proof {
        assert(a@.skip(0) =~= a@);
        assert(b@.skip(0) =~= b@);
    }
    while i < x.len() && i < y.len()
        invariant
            x@ == a@,
            y@ == b@,
            i <= x.len(),
            i <= y.len(),
            text_before(a@, b@) == text_before(a@.skip(i as int), b@.skip(i as int)),
        decreases x.len() - i,
    {
        proof {
            assert(a@.skip(i as int).drop_first() =~= a@.skip(i + 1));
            assert(b@.skip(i as int).drop_first() =~= b@.skip(i + 1));
            assert(a@.skip(i as int)[0] == x@[i as int]);
            assert(b@.skip(i as int)[0] == y@[i as int]);
        }
        if x[i] != y[i] {
            return x[i] < y[i];
        }
        i += 1;
    }
    i < y.len()
}

/// Whether `rows` holds a configuration for `name`.
pub open spec fn names_queue(rows: Seq<JobQueueView>, name: Seq<char>, at: int) -> bool {
    0 <= at < rows.len() && rows[at].name == name
}

/// The configuration that `rows` holds for each name.
pub open spec fn queue_map(rows: Seq<JobQueueView>) -> Map<Seq<char>, JobQueueView> {
    Map::new(
        |name: Seq<char>| exists|at: int| names_queue(rows, name, at),
        |name: Seq<char>| rows[choose|at: int| names_queue(rows, name, at)],
    )
}

/// Names in strict order, so that none occurs twice.
pub open spec fn names_ordered(rows: Seq<JobQueueView>) -> bool {
    forall|i: int, j: int|
        0 <= i < j < rows.len() ==> #[trigger] text_before(rows[i].name, rows[j].name)
}

/// The longest lease that a queue can be stored with, in seconds.
pub const MAX_TIMEOUT_SECS: u64 = 0x7fff_ffff_ffff_ffff;

/// The queues that `known` becomes when `queue` is configured at `now`: the
/// time at which a queue was first configured stays.
pub open spec fn configured(
    known: Map<Seq<char>, JobQueueView>,
    queue: JobQueueView,
    now: int,
) -> JobQueueView {
    JobQueueView {
        created_at: if known.dom().contains(queue.name) {
            known[queue.name].created_at
        } else {
            queue.created_at
        },
        updated_at: now,
        ..queue
    }
}

/// The message for a number that a column cannot hold.
pub open spec fn out_of_range_text() -> Seq<char> {
    "out of range integral type conversion attempted"@
}

/// The queue configurations of one database, in the order of their names.
pub struct QueueTable {
    pub rows: Vec<JobQueue>,
}

impl View for QueueTable {
    type V = Map<Seq<char>, JobQueueView>;

    open spec fn view(&self) -> Map<Seq<char>, JobQueueView> {
        queue_map(views(self.rows@))
    }
}

/// In a table without repeated names a row is what its name maps to.
pub proof fn lemma_row_is_mapped(rows: Seq<JobQueueView>, at: int)
    requires
        names_ordered(rows),
        0 <= at < rows.len(),
    ensures
        queue_map(rows).dom().contains(rows[at].name),
        queue_map(rows)[rows[at].name] == rows[at],
{
    let name = rows[at].name;
    assert(names_queue(rows, name, at));
    let chosen = choose|k: int| names_queue(rows, name, k);
    assert(names_queue(rows, name, chosen));
    lemma_text_order_is_total(name, name);
    if chosen < at {
        assert(text_before(rows[chosen].name, rows[at].name));
    } else if at < chosen {
        assert(text_before(rows[at].name, rows[chosen].name));
    }
}

/// Replacing a row by one of the same name changes what the name maps to.
proof fn lemma_replaced_row(rows: Seq<JobQueueView>, at: int, queue: JobQueueView)
    requires
        names_ordered(rows),
        0 <= at < rows.len(),
        rows[at].name == queue.name,
    ensures
        names_ordered(rows.update(at, queue)),
        queue_map(rows.update(at, queue)) == queue_map(rows).insert(queue.name, queue),
{
    let after = rows.update(at, queue);
    assert forall|i: int, j: int| 0 <= i < j < after.len() implies #[trigger] text_before(
        after[i].name,
        after[j].name,
    ) by {
        assert(text_before(rows[i].name, rows[j].name));
    }
    let wanted = queue_map(rows).insert(queue.name, queue);
    assert forall|name: Seq<char>| queue_map(after).dom().contains(name)
        <==> wanted.dom().contains(name) by {
        if exists|k: int| names_queue(after, name, k) {
            let k = choose|k: int| names_queue(after, name, k);
            assert(names_queue(rows, name, k));
        }
        if exists|k: int| names_queue(rows, name, k) {
            let k = choose|k: int| names_queue(rows, name, k);
            assert(names_queue(after, name, k));
        }
        assert(names_queue(after, queue.name, at));
    }
    assert forall|name: Seq<char>| wanted.dom().contains(name) implies #[trigger] queue_map(
        after,
    )[name] == wanted[name] by {
        assert(queue_map(after).dom().contains(name));
        let k = choose|k: int| names_queue(after, name, k);
        assert(names_queue(after, name, k));
        lemma_row_is_mapped(after, k);
        if k != at {
            lemma_row_is_mapped(rows, k);
            assert(rows[k].name != rows[at].name) by {
                lemma_text_order_is_total(rows[k].name, rows[at].name);
                if k < at {
                    assert(text_before(rows[k].name, rows[at].name));
                } else {
                    assert(text_before(rows[at].name, rows[k].name));
                    lemma_text_order_is_total(rows[at].name, rows[k].name);
                }
            }
        }
    }
    assert(queue_map(after) =~= wanted);
}

/// Placing a row between the names before and after it adds its name.
proof fn lemma_placed_row(rows: Seq<JobQueueView>, at: int, queue: JobQueueView)
    requires
        names_ordered(rows),
        0 <= at <= rows.len(),
        forall|k: int| 0 <= k < at ==> text_before(#[trigger] rows[k].name, queue.name),
        forall|k: int| at <= k < rows.len() ==> text_before(queue.name, #[trigger] rows[k].name),
    ensures
        names_ordered(rows.insert(at, queue)),
        !queue_map(rows).dom().contains(queue.name),
        queue_map(rows.insert(at, queue)) == queue_map(rows).insert(queue.name, queue),
{
    let after = rows.insert(at, queue);
    assert forall|i: int, j: int| 0 <= i < j < after.len() implies #[trigger] text_before(
        after[i].name,
        after[j].name,
    ) by {
        let old_i = if i < at { i } else { i - 1 };
        let old_j = if j < at { j } else { j - 1 };
        if i != at && j != at {
            assert(after[i] == rows[old_i]);
            assert(after[j] == rows[old_j]);
            assert(text_before(rows[old_i].name, rows[old_j].name));
        } else if i == at {
            assert(after[j] == rows[old_j]);
        } else {
            assert(after[i] == rows[old_i]);
        }
    }
    assert(!queue_map(rows).dom().contains(queue.name)) by {
        if exists|k: int| names_queue(rows, queue.name, k) {
            let k = choose|k: int| names_queue(rows, queue.name, k);
            lemma_text_order_is_total(queue.name, queue.name);
            assert(rows[k].name == queue.name);
        }
    }
    let wanted = queue_map(rows).insert(queue.name, queue);
    assert forall|name: Seq<char>| queue_map(after).dom().contains(name)
        <==> wanted.dom().contains(name) by {
        if exists|k: int| names_queue(after, name, k) {
            let k = choose|k: int| names_queue(after, name, k);
            if k != at {
                let old_k = if k < at { k } else { k - 1 };
                assert(after[k] == rows[old_k]);
                assert(names_queue(rows, name, old_k));
            }
        }
        if exists|k: int| names_queue(rows, name, k) {
            let k = choose|k: int| names_queue(rows, name, k);
            let new_k = if k < at { k } else { k + 1 };
            assert(after[new_k] == rows[k]);
            assert(names_queue(after, name, new_k));
        }
        assert(after[at] == queue);
        assert(names_queue(after, queue.name, at));
    }
    assert forall|name: Seq<char>| wanted.dom().contains(name) implies #[trigger] queue_map(
        after,
    )[name] == wanted[name] by {
        assert(queue_map(after).dom().contains(name));
        let k = choose|k: int| names_queue(after, name, k);
        assert(names_queue(after, name, k));
        lemma_row_is_mapped(after, k);
        if k != at {
            let old_k = if k < at { k } else { k - 1 };
            assert(after[k] == rows[old_k]);
            lemma_row_is_mapped(rows, old_k);
            assert(names_queue(rows, name, old_k));
        } else {
            assert(after[at] == queue);
        }
    }
    assert(queue_map(after) =~= wanted);
}

impl QueueTable {
    /// Names are in order and leases can be stored.
    pub open spec fn wf(self) -> bool {
        &&& names_ordered(views(self.rows@))
        &&& forall|i: int|
            0 <= i < self.rows@.len() ==> (#[trigger] self.rows@[i]).timeout_secs
                <= MAX_TIMEOUT_SECS
    }

    /// The lease of every configured queue can be stored.
    pub proof fn lemma_timeouts_fit(self, name: Seq<char>)
        requires
            self.wf(),
            self@.dom().contains(name),
        ensures
            self@[name].timeout_secs <= MAX_TIMEOUT_SECS,
    {
        let rows = views(self.rows@);
        let at = choose|at: int| names_queue(rows, name, at);
        assert(names_queue(rows, name, at));
        lemma_row_is_mapped(rows, at);
        assert(self.rows@[at].timeout_secs <= MAX_TIMEOUT_SECS);
    }

    /// A table without queues.
    pub fn new() -> (r: Self)
        ensures
            r.wf(),
            r@ == Map::<Seq<char>, JobQueueView>::empty(),
    {
        let r = QueueTable { rows: Vec::new() };
        proof {
            assert(r@ =~= Map::<Seq<char>, JobQueueView>::empty());
        }
        r
    }

    /// A table of rows as they were read, or nothing where names are out of
    /// order, occur twice or come with a lease that cannot be stored.
    pub fn from_rows(rows: Vec<JobQueue>) -> (r: Option<Self>)
        ensures
            r is Some <==> (QueueTable { rows }).wf(),
            r matches Some(table) ==> table == (QueueTable { rows }),
    {
        let mut i: usize = 0;
        while i < rows.len()
            invariant
                i <= rows.len(),
                forall|k: int|
                    0 <= k < i ==> (#[trigger] rows@[k]).timeout_secs <= MAX_TIMEOUT_SECS,
                forall|k: int, j: int|
                    0 <= k < j < i ==> #[trigger] text_before(
                        rows@[k].name@,
                        rows@[j].name@,
                    ),
            decreases rows.len() - i,
        {
            if rows[i].timeout_secs > MAX_TIMEOUT_SECS {
                return None;
            }
            if i > 0 && !comes_before(rows[i - 1].name.as_str(), rows[i].name.as_str()) {
                proof {
                    let seen = views(rows@);
                    assert(seen[i - 1].name == rows@[i - 1].name@);
                    assert(seen[i as int].name == rows@[i as int].name@);
                    assert(!text_before(seen[i - 1].name, seen[i as int].name));
                }
                return None;
            }
            proof {
                assert forall|k: int| 0 <= k < i implies #[trigger] text_before(
                    rows@[k].name@,
                    rows@[i as int].name@,
                ) by {
                    if k < i - 1 {
                        assert(text_before(rows@[k].name@, rows@[i - 1].name@));
                        lemma_text_order_is_transitive(
                            rows@[k].name@,
                            rows@[i - 1].name@,
                            rows@[i as int].name@,
                        );
                    }
                }
            }
            i += 1;
        }
        proof {
            let seen = views(rows@);
            assert forall|k: int, j: int| 0 <= k < j < seen.len() implies #[trigger] text_before(
                seen[k].name,
                seen[j].name,
            ) by {
                assert(text_before(rows@[k].name@, rows@[j].name@));
            }
        }
        Some(QueueTable { rows })
    }

    /// Where the configuration of `name` stands, if there is one.
    fn position(&self, name: &str) -> (r: Option<usize>)
        requires
            self.wf(),
        ensures
            match r {
                Some(at) => {
                    &&& at < self.rows@.len()
                    &&& self.rows@[at as int].name@ == name@
                    &&& self@.dom().contains(name@)
                    &&& self@[name@] == self.rows@[at as int]@
                },
                None => !self@.dom().contains(name@),
            },
    {
        let mut i: usize = 0;
        while i < self.rows.len()
            invariant
                self.wf(),
                i <= self.rows.len(),
                forall|k: int| 0 <= k < i ==> (#[trigger] self.rows@[k]).name@ != name@,
            decreases self.rows.len() - i,
        {
            if same_text(self.rows[i].name.as_str(), name) {
                proof {
                    lemma_row_is_mapped(views(self.rows@), i as int);
                }
                return Some(i);
            }
            i += 1;
        }
        proof {
            if self@.dom().contains(name@) {
                let k = choose|k: int| names_queue(views(self.rows@), name@, k);
                assert(self.rows@[k].name@ == name@);
            }
        }
        None
    }

    /// Whether `name` has been configured.
    pub fn contains(&self, name: &str) -> (r: bool)
        requires
            self.wf(),
        ensures
            r == self@.dom().contains(name@),
    {
        self.position(name).is_some()
    }

    /// The configuration of `name`, if it has one.
    pub fn get(&self, name: &str) -> (r: Option<JobQueue>)
        requires
            self.wf(),
        ensures
            match r {
                Some(queue) => self@.dom().contains(name@) && queue@ == self@[name@]
                    && queue.timeout_secs <= MAX_TIMEOUT_SECS,
                None => !self@.dom().contains(name@),
            },
    {
        match self.position(name) {
            Some(at) => Some(self.rows[at].clone()),
            None => None,
        }
    }

    /// Every configuration, in the order of the names.
    pub fn list(&self) -> (r: Vec<JobQueue>)
        requires
            self.wf(),
        ensures
            views(r@) == views(self.rows@),
            names_ordered(views(r@)),
            queue_map(views(r@)) == self@,
    {
        let mut r: Vec<JobQueue> = Vec::new();
        let mut i: usize = 0;
        while i < self.rows.len()
            invariant
                i <= self.rows.len(),
                views(r@) == views(self.rows@).take(i as int),
            decreases self.rows.len() - i,
        {
            let queue = self.rows[i].clone();
            proof {
                lemma_views_push(r@, queue);
                assert(views(self.rows@).take(i + 1) =~= views(self.rows@).take(i as int).push(
                    queue@,
                ));
            }
            r.push(queue);
            i += 1;
        }
        proof {
            assert(views(r@) =~= views(self.rows@));
        }
        r
    }

    /// Configures `queue` at `now`, and gives back what is then in force. A
    /// lease that cannot be stored is refused and nothing changes.
    pub fn upsert(&mut self, queue: JobQueue, now: i64) -> (r: Result<JobQueue, StoreError>)
        requires
            old(self).wf(),
        ensures
            final(self).wf(),
            queue.timeout_secs > MAX_TIMEOUT_SECS ==> {
                &&& r is Err
                &&& r->Err_0@ == StoreErrorView::Internal(out_of_range_text())
                &&& *final(self) == *old(self)
            },
            queue.timeout_secs <= MAX_TIMEOUT_SECS ==> {
                &&& r is Ok
                &&& r->Ok_0@ == configured(old(self)@, queue@, now as int)
                &&& r->Ok_0.timeout_secs <= MAX_TIMEOUT_SECS
                &&& final(self)@ == old(self)@.insert(
                    queue@.name,
                    configured(old(self)@, queue@, now as int),
                )
            },
    {
        if queue.timeout_secs > MAX_TIMEOUT_SECS {
            return Err(
                StoreError::Internal(
                    "out of range integral type conversion attempted".to_owned(),
                ),
            );
        }
        let mut queue = queue;
        queue.updated_at = now;
        let mut at: usize = 0;
        while at < self.rows.len() && comes_before(
            self.rows[at].name.as_str(),
            queue.name.as_str(),
        )
            invariant
                *self == *old(self),
                self.wf(),
                at <= self.rows.len(),
                forall|k: int|
                    0 <= k < at ==> text_before((#[trigger] self.rows@[k]).name@, queue.name@),
            decreases self.rows.len() - at,
        {
            at += 1;
        }
        let ghost rows = views(self.rows@);
        if at < self.rows.len() && same_text(self.rows[at].name.as_str(), queue.name.as_str()) {
            queue.created_at = self.rows[at].created_at;
            let stored = queue.clone();
            proof {
                lemma_row_is_mapped(rows, at as int);
                lemma_replaced_row(rows, at as int, stored@);
            }
            self.rows.set(at, stored);
            proof {
                assert(views(self.rows@) =~= rows.update(at as int, queue@));
            }
        } else {
            let stored = queue.clone();
            proof {
                assert forall|k: int| at <= k < rows.len() implies text_before(
                    queue.name@,
                    #[trigger] rows[k].name,
                ) by {
                    lemma_text_order_is_total(rows[at as int].name, queue.name@);
                    if k > at {
                        assert(text_before(rows[at as int].name, rows[k].name));
                        lemma_text_order_is_transitive(
                            queue.name@,
                            rows[at as int].name,
                            rows[k].name,
                        );
                    }
                }
                assert forall|k: int| 0 <= k < at implies text_before(
                    #[trigger] rows[k].name,
                    queue.name@,
                ) by {
                    assert(rows[k].name == self.rows@[k].name@);
                }
                lemma_placed_row(rows, at as int, stored@);
            }
            self.rows.insert(at, stored);
            proof {
                assert(views(self.rows@) =~= rows.insert(at as int, queue@));
            }
        }
        Ok(queue)
    }
}

/// Texts are in the order of their first difference, and a text comes before
/// what it begins. So names are in the order of an alphabet.
pub proof fn texts_are_in_alphabetical_order(
    common: Seq<char>,
    a: char,
    b: char,
    rest: Seq<char>,
    other: Seq<char>,
)
    ensures
        text_before(common, common + seq![b] + other),
        a < b ==> text_before(common + seq![a] + rest, common + seq![b] + other),
        a < b ==> !text_before(common + seq![b] + other, common + seq![a] + rest),
    decreases common.len(),
{
    let x = common + seq![a] + rest;
    let y = common + seq![b] + other;
    if common.len() > 0 {
        let fewer = common.drop_first();
        texts_are_in_alphabetical_order(fewer, a, b, rest, other);
        assert(x.drop_first() =~= fewer + seq![a] + rest);
        assert(y.drop_first() =~= fewer + seq![b] + other);
        assert(x[0] == common[0] && y[0] == common[0]);
    } else {
        assert(x[0] == a && y[0] == b);
    }
}

/// What a list holds is seen item by item.
pub proof fn lists_are_seen_item_by_item<T: View>(items: Seq<T>)
    ensures
        views(items).len() == items.len(),
        forall|i: int| 0 <= i < items.len() ==> #[trigger] views(items)[i] == items[i]@,
{
}

/// A name stands for the configuration that a row holds for it, and for nothing
/// where no row has it.
pub proof fn names_stand_for_their_rows(rows: Seq<JobQueueView>, name: Seq<char>)
    ensures
        queue_map(rows).dom().contains(name) <==> exists|k: int|
            0 <= k < rows.len() && (#[trigger] rows[k]).name == name,
        queue_map(rows).dom().contains(name) ==> rows.contains(queue_map(rows)[name])
            && queue_map(rows)[name].name == name,
{
    if exists|k: int| 0 <= k < rows.len() && (#[trigger] rows[k]).name == name {
        let k = choose|k: int| 0 <= k < rows.len() && (#[trigger] rows[k]).name == name;
        assert(names_queue(rows, name, k));
    }
    if queue_map(rows).dom().contains(name) {
        let at = choose|at: int| names_queue(rows, name, at);
        assert(names_queue(rows, name, at));
        assert(rows[at].name == name);
    }
}

} // verus!
