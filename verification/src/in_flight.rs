//! In-flight request deduplication, with deadlines and attached permits.

use crate::deadline_queue::{
    ascending, lemma_precedes_is_a_strict_order, precedes, totally_ordered, DeadlineQueue, Due,
    DueModel,
};
use crate::limiter::RateLimiter;
use crate::time;
use crate::time::nanos;
use crate::types::{Outcome, Permit};
use std::collections::hash_map::{Entry, RandomState};
use std::collections::HashMap;
use std::hash::{BuildHasher, Hash};
use std::time::Duration;
use vstd::prelude::*;
use vstd::std_specs::cmp::PartialEqSpec;
use vstd::std_specs::hash::{builds_valid_hashers, obeys_key_model};

verus! {

broadcast use vstd::std_specs::hash::group_hash_axioms;

/// Result of [`InFlightTable::begin`].
#[derive(Debug, Clone, Copy, PartialEq, Eq)]
pub enum BeginResult {
    /// A new entry was created; the caller should perform the side-effect exactly once.
    New,
    /// An existing entry was found and the waiter joined; the caller must not perform the
    /// side-effect again.
    Joined,
    /// The entry exists but the fingerprint does not match.
    PayloadMismatch,
    /// The table is at capacity and a new entry could not be created.
    TableFull,
}

/// A typed payload mismatch.
#[derive(Debug, Clone, Copy, PartialEq, Eq)]
pub struct PayloadMismatch;

#[derive(Debug)]
enum WaiterList<W> {
    One(W),
    Many(Vec<W>),
}

/// Waiters in the order in which they joined. The first is held inline; only the second needs an
/// allocation.
#[derive(Debug)]
pub struct Waiters<W> {
    list: WaiterList<W>,
}

impl<W> Waiters<W> {
    /// The waiters, in the order in which they joined.
    pub closed spec fn view(self) -> Seq<W> {
        match self.list {
            WaiterList::One(w) => seq![w],
            WaiterList::Many(v) => v@,
        }
    }

    fn one(w: W) -> (waiters: Self)
        ensures
            waiters@ == seq![w],
    {
        Waiters { list: WaiterList::One(w) }
    }

    fn push(&mut self, w: W)
        ensures
            final(self)@ == old(self)@.push(w),
    {
        let mut taken: Waiters<W> = Waiters { list: WaiterList::Many(Vec::new()) };
        std::mem::swap(self, &mut taken);
        let mut all: Vec<W> = taken.into_vec();
        all.push(w);
        self.list = WaiterList::Many(all);
    }

    fn into_vec(self) -> (v: Vec<W>)
        ensures
            v@ == self@,
    {
        match self.list {
            WaiterList::One(w) => {
                let v: Vec<W> = vec![w];
                assert(v@ =~= seq![w]);
                v
            },
            WaiterList::Many(v) => v,
        }
    }
}

/// What an in-flight entry holds, with the deadline in nanoseconds.
pub struct EntryModel<F, W> {
    /// The fingerprint of the payload.
    pub fp: F,
    /// The deadline.
    pub deadline: nat,
    /// The waiters, in the order in which they joined.
    pub waiters: Seq<W>,
    /// The turn in which the entry was created.
    pub seq: u64,
}

/// What an in-flight table holds.
#[verifier::reject_recursive_types(Id)]
pub struct TableModel<Id, F, W> {
    /// How many entries the table may hold.
    pub max_in_flight: nat,
    /// The turn of the entry that was created last.
    pub seq: u64,
    /// The entries.
    pub entries: Map<Id, EntryModel<F, W>>,
}

impl<Id, F: Copy + Eq, W> TableModel<Id, F, W> {
    /// A table without entries.
    pub open spec fn empty(max_in_flight: nat) -> Self {
        TableModel { max_in_flight, seq: 0, entries: Map::empty() }
    }

    /// The turn after the last one; the turns wrap around.
    pub open spec fn next_seq(self) -> u64 {
        if self.seq == u64::MAX {
            0
        } else {
            (self.seq + 1) as u64
        }
    }

    /// The answer to an attempt to begin an operation: an id that is in flight is joined or does
    /// not match, a new one is created where there is room.
    pub open spec fn begin_result(self, id: Id, fp: F) -> BeginResult {
        if self.entries.contains_key(id) {
            if self.entries[id].fp.eq_spec(&fp) {
                BeginResult::Joined
            } else {
                BeginResult::PayloadMismatch
            }
        } else if self.entries.len() >= self.max_in_flight {
            BeginResult::TableFull
        } else {
            BeginResult::New
        }
    }

    /// The table after an attempt to begin an operation.
    pub open spec fn begun(self, id: Id, fp: F, deadline: nat, waiter: W) -> Self {
        match self.begin_result(id, fp) {
            BeginResult::New => TableModel {
                seq: self.next_seq(),
                entries: self.entries.insert(
                    id,
                    EntryModel { fp, deadline, waiters: seq![waiter], seq: self.next_seq() },
                ),
                ..self
            },
            BeginResult::Joined => {
                let entry = self.entries[id];
                TableModel {
                    entries: self.entries.insert(
                        id,
                        EntryModel { waiters: entry.waiters.push(waiter), ..entry },
                    ),
                    ..self
                }
            },
            _ => self,
        }
    }

    /// The waiters of an id: none where it is not in flight.
    pub open spec fn waiting(self, id: Id) -> Seq<W> {
        if self.entries.contains_key(id) {
            self.entries[id].waiters
        } else {
            Seq::empty()
        }
    }

    /// The table after an operation was completed.
    pub open spec fn completed(self, id: Id) -> Self {
        TableModel { entries: self.entries.remove(id), ..self }
    }

    /// Whether an id is in flight with a deadline that is over at `now`.
    pub open spec fn is_due(self, id: Id, now: nat) -> bool {
        self.entries.contains_key(id) && self.entries[id].deadline <= now
    }

    /// The table without the entries that are due at `now`.
    pub open spec fn expired(self, now: nat) -> Self {
        TableModel {
            entries: Map::new(
                |id: Id| self.entries.contains_key(id) && !self.is_due(id, now),
                |id: Id| self.entries[id],
            ),
            ..self
        }
    }

    /// The turns are those of entries that were created: none comes after the last one, and no two
    /// entries share one.
    pub open spec fn in_turn(self) -> bool {
        &&& forall|id: Id| #[trigger]
            self.entries.contains_key(id) ==> self.entries[id].seq <= self.seq
        &&& forall|a: Id, b: Id| #[trigger]
            self.entries.contains_key(a) && #[trigger] self.entries.contains_key(b) && a != b
                ==> self.entries[a].seq != self.entries[b].seq
    }

    /// The deadline of an entry, with its turn.
    pub open spec fn due(self, id: Id) -> DueModel<Id> {
        DueModel { deadline: self.entries[id].deadline, seq: self.entries[id].seq, id }
    }
}

impl<Id: Ord, F: Copy + Eq, W> TableModel<Id, F, W> {
    /// `drained` lists the entries that are due at `now`, each once and with its waiters, in the
    /// order of their deadlines, then of their turns, then of their ids.
    pub open spec fn lists_due(self, now: nat, drained: Seq<(Id, Vec<W>)>) -> bool {
        &&& forall|i: int|
            0 <= i < drained.len() ==> self.is_due((#[trigger] drained[i]).0, now)
                && drained[i].1@ == self.entries[drained[i].0].waiters
        &&& forall|id: Id| #[trigger]
            self.is_due(id, now) ==> exists|i: int|
                0 <= i < drained.len() && (#[trigger] drained[i]).0 == id
        &&& forall|i: int, j: int|
            0 <= i < j < drained.len() ==> precedes(
                self.due((#[trigger] drained[i]).0),
                self.due((#[trigger] drained[j]).0),
            )
    }
}

#[derive(Debug)]
struct EntryState<F, W> {
    fp: F,
    deadline: Duration,
    waiters: Waiters<W>,
    seq: u64,
}

impl<F, W> EntryState<F, W> {
    spec fn view(self) -> EntryModel<F, W> {
        EntryModel {
            fp: self.fp,
            deadline: nanos(self.deadline),
            waiters: self.waiters@,
            seq: self.seq,
        }
    }
}

/// What the key and fingerprint types and the hasher of a table are relied on for: equal keys
/// hash alike, keys are totally ordered, and `==` on fingerprints means something. All of it holds
/// of the integer types with the hasher of the standard library: `law_integers_are_lawful`.
pub open spec fn lawful<Id: Ord, F: Eq, S>() -> bool {
    &&& obeys_key_model::<Id>()
    &&& builds_valid_hashers::<S>()
    &&& totally_ordered::<Id>()
    &&& F::obeys_eq_spec()
}

/// In-flight dedup table keyed by `Id`, with `Fingerprint` equality used to reject payload
/// mismatches.
///
/// Common-case waiter storage is allocation-free: the first waiter is stored inline, and only on
/// the second join do we allocate a `Vec`.
///
/// The entries are hashed with `S`.
#[derive(Debug)]
#[verifier::reject_recursive_types(Id)]
#[verifier::reject_recursive_types(S)]
pub struct InFlightTable<Id, Fingerprint, Waiter, S = RandomState> {
    max_in_flight: usize,
    seq: u64,
    map: HashMap<Id, EntryState<Fingerprint, Waiter>, S>,
    // The deadlines, among them those of entries that are gone.
    queue: DeadlineQueue<Id>,
}

impl<Id, Fingerprint, Waiter, S> InFlightTable<Id, Fingerprint, Waiter, S> where
    Id: Copy + Eq + Hash + Ord,
    Fingerprint: Copy + Eq,
    S: BuildHasher + Default,
 {
    /// What the table holds.
    pub closed spec fn view(self) -> TableModel<Id, Fingerprint, Waiter> {
        TableModel {
            max_in_flight: self.max_in_flight as nat,
            seq: self.seq,
            entries: self.map@.map_values(|e: EntryState<Fingerprint, Waiter>| e@),
        }
    }

    /// How many deadlines the table keeps, those of entries that are gone among them.
    pub closed spec fn spec_backlog(self) -> nat {
        self.queue@.len()
    }

    /// The entries are no more than allowed, the deadline of each is kept, and few others are.
    pub closed spec fn wf(self) -> bool {
        &&& self.tracks_deadlines()
        &&& self@.entries.len() <= self@.max_in_flight
        &&& self.queue@.len() <= 4 * self@.entries.len() + 64
        &&& self@.entries.len() == 0 ==> self.queue@.len() == 0
    }

    spec fn tracks_deadlines(self) -> bool {
        &&& lawful::<Id, Fingerprint, S>()
        &&& self@.entries.dom().finite()
        &&& self.queue.wf()
        &&& forall|id: Id| #[trigger]
            self@.entries.contains_key(id) ==> self.queue@.contains(self@.due(id))
    }

    /// Create a new table.
    pub fn new(max_in_flight: usize) -> (t: Self)
        requires
            lawful::<Id, Fingerprint, S>(),
        ensures
            t.wf(),
            t@ == TableModel::<Id, Fingerprint, Waiter>::empty(max_in_flight as nat),
            t.spec_backlog() == 0,
    {
        let t = Self {
            max_in_flight,
            seq: 0,
            map: HashMap::default(),
            queue: DeadlineQueue::new(),
        };
        assert(t@.entries =~= Map::empty());
        t
    }

    /// Current number of entries.
    pub fn len(&self) -> (len: usize)
        requires
            self.wf(),
        ensures
            len == self@.entries.len(),
    {
        assert(self.map@.dom() =~= self@.entries.dom());
        self.map.len()
    }

    /// Returns `true` if the table has no entries.
    pub fn is_empty(&self) -> (r: bool)
        requires
            self.wf(),
        ensures
            r == (self@.entries.len() == 0),
    {
        self.len() == 0
    }

    /// How many deadlines the table keeps, those of entries that are gone among them.
    pub fn backlog(&self) -> (n: usize)
        ensures
            n == self.spec_backlog(),
    {
        self.queue.len()
    }

    /// Begin (or join) an in-flight entry.
    pub fn begin(&mut self, id: Id, fp: Fingerprint, deadline: Duration, waiter: Waiter) -> (r:
        BeginResult)
        requires
            old(self).wf(),
        ensures
            final(self).wf(),
            r == old(self)@.begin_result(id, fp),
            final(self)@ == old(self)@.begun(id, fp, nanos(deadline), waiter),
    {
        let ghost before = self@;
        let ghost entries = self.map@;
        if let Entry::Occupied(mut e) = self.map.entry(id) {
            if e.get().fp != fp {
                assert(self@.entries =~= before.entries);
                return BeginResult::PayloadMismatch;
            }
            e.get_mut().waiters.push(waiter);
            proof {
                let after = before.begun(id, fp, nanos(deadline), waiter);
                assert(self@.entries =~= after.entries);
                lemma_replaced(before.entries, id, self@.entries[id]);
                assert forall|k: Id| #[trigger]
                    self@.entries.contains_key(k) implies self.queue@.contains(self@.due(k)) by {
                    assert(before.entries.contains_key(k));
                    assert(self@.due(k) == before.due(k));
                }
            }
            return BeginResult::Joined;
        }
        assert(self.map@ =~= entries);
        if self.len() >= self.max_in_flight {
            return BeginResult::TableFull;
        }
        let seq: u64 = self.next_seq();
        self.queue.insert(Due { deadline, seq, id });
        let entry: EntryState<Fingerprint, Waiter> = EntryState {
            fp,
            deadline,
            waiters: Waiters::one(waiter),
            seq,
        };
        self.map.insert(id, entry);
        proof {
            let after = before.begun(id, fp, nanos(deadline), waiter);
            assert(self@.entries =~= after.entries);
            assert forall|k: Id| #[trigger]
                self@.entries.contains_key(k) implies self.queue@.contains(self@.due(k)) by {
                if k != id {
                    assert(before.entries.contains_key(k));
                    assert(self@.due(k) == before.due(k));
                }
            }
        }
        self.maybe_compact_queue();
        BeginResult::New
    }

    /// Complete and drain waiters for an entry.
    pub fn complete(&mut self, id: Id) -> (waiters: Vec<Waiter>)
        requires
            old(self).wf(),
        ensures
            final(self).wf(),
            waiters@ == old(self)@.waiting(id),
            final(self)@ == old(self)@.completed(id),
    {
        let ghost before = self@;
        let waiters: Vec<Waiter> = match self.map.remove(&id) {
            Some(e) => e.waiters.into_vec(),
            None => Vec::new(),
        };
        proof {
            assert(self@.entries =~= before.completed(id).entries);
            assert forall|k: Id| #[trigger]
                self@.entries.contains_key(k) implies self.queue@.contains(self@.due(k)) by {
                assert(before.entries.contains_key(k));
                assert(self@.due(k) == before.due(k));
            }
        }
        // The deadline of a completed entry stays on the queue; the queue is rebuilt when it grows
        // too large relative to the live entries.
        self.maybe_compact_queue();
        waiters
    }

    /// Expire entries with `deadline <= now`, returning drained waiters for each expired id.
    pub fn expire(&mut self, now: Duration) -> (drained: Vec<(Id, Vec<Waiter>)>)
        requires
            old(self).wf(),
        ensures
            final(self).wf(),
            final(self)@ == old(self)@.expired(nanos(now)),
            old(self)@.lists_due(nanos(now), drained@),
    {
        let ghost before = self@;
        let mut drained: Vec<(Id, Vec<Waiter>)> = Vec::new();
        proof {
            lemma_precedes_is_a_strict_order::<Id>();
        }
        while self.has_due(now)
            invariant
                before == old(self)@,
                self.tracks_deadlines(),
                self@.max_in_flight == before.max_in_flight,
                self@.seq == before.seq,
                self@.entries.len() <= before.entries.len(),
                before.entries.dom().finite(),
                forall|id: Id| #[trigger]
                    self@.entries.contains_key(id) ==> before.entries.contains_key(id)
                        && self@.entries[id] == before.entries[id],
                forall|i: int|
                    0 <= i < drained@.len() ==> before.is_due(
                        (#[trigger] drained@[i]).0,
                        nanos(now),
                    ) && drained@[i].1@ == before.entries[drained@[i].0].waiters
                        && !self@.entries.contains_key(drained@[i].0),
                forall|id: Id| #[trigger]
                    before.entries.contains_key(id) && !self@.entries.contains_key(id) ==> exists|
                        i: int,
                    |
                        0 <= i < drained@.len() && (#[trigger] drained@[i]).0 == id,
                forall|i: int, j: int|
                    0 <= i < j < drained@.len() ==> precedes(
                        before.due((#[trigger] drained@[i]).0),
                        before.due((#[trigger] drained@[j]).0),
                    ),
                forall|i: int, j: int|
                    0 <= i < drained@.len() && 0 <= j < self.queue@.len() ==> precedes(
                        before.due((#[trigger] drained@[i]).0),
                        #[trigger] self.queue@[j],
                    ),
            decreases self.queue@.len(),
        {
            let ghost at = self@;
            let ghost queue = self.queue@;
            let ghost listed = drained@;
            if let Some(due) = self.queue.first() {
                let live: bool = self.is_live(&due);
                self.queue.drop_first();
                if live {
                    if let Some(e) = self.map.remove(&due.id) {
                        drained.push((due.id, e.waiters.into_vec()));
                    }
                    assert(self@.entries =~= at.entries.remove(due@.id));
                    assert(drained@.last().0 == due@.id);
                }
                proof {
                    assert forall|id: Id| #[trigger]
                        self@.entries.contains_key(id) implies self.queue@.contains(
                        self@.due(id),
                    ) by {
                        assert(at.entries.contains_key(id));
                        let j = choose|j: int| 0 <= j < queue.len() && queue[j] == at.due(id);
                        assert(j > 0);
                        assert(self.queue@[j - 1] == self@.due(id));
                    }
                    assert forall|id: Id| #[trigger]
                        before.entries.contains_key(id) && !self@.entries.contains_key(
                            id,
                        ) implies exists|i: int|
                        0 <= i < drained@.len() && (#[trigger] drained@[i]).0 == id by {
                        if at.entries.contains_key(id) {
                            assert(drained@[drained@.len() - 1].0 == id);
                        } else {
                            let i = choose|i: int|
                                0 <= i < listed.len() && (#[trigger] listed[i]).0 == id;
                            assert(drained@[i].0 == id);
                        }
                    }
                }
            }
        }
        proof {
            assert forall|id: Id| #[trigger] self@.entries.contains_key(id) implies !before.is_due(
                id,
                nanos(now),
            ) by {
                let due = self@.due(id);
                let j = choose|j: int| 0 <= j < self.queue@.len() && self.queue@[j] == due;
                assert(j == 0 || precedes(self.queue@[0], self.queue@[j]));
            }
            assert(self@.entries =~= before.expired(nanos(now)).entries);
        }
        self.maybe_compact_queue();
        drained
    }

    /// Whether the first deadline is over at `now`.
    fn has_due(&self, now: Duration) -> (r: bool)
        ensures
            r == (self.queue@.len() > 0 && self.queue@[0].deadline <= nanos(now)),
    {
        match self.queue.first() {
            Some(due) => !time::shorter(now, due.deadline),
            None => false,
        }
    }

    fn next_seq(&mut self) -> (seq: u64)
        ensures
            seq == old(self)@.next_seq(),
            final(self)@ == (TableModel { seq, ..old(self)@ }),
            final(self).map == old(self).map,
            final(self).queue == old(self).queue,
    {
        self.seq = self.seq.wrapping_add(1);
        self.seq
    }

    /// Keeps the queue small: rebuilds it from the live entries when it has grown too large.
    fn maybe_compact_queue(&mut self)
        requires
            old(self).tracks_deadlines(),
            old(self)@.entries.len() <= old(self)@.max_in_flight,
        ensures
            final(self).wf(),
            final(self)@ == old(self)@,
    {
        assert(self.map@.dom() =~= self@.entries.dom());
        let live: usize = self.map.len();
        if live == 0 {
            // Common in steady state: lots of short-lived ids that complete long before their
            // deadlines. Clearing is safe because there are no live entries to expire.
            self.queue.clear();
            assert forall|k: Id| #[trigger] self@.entries.contains_key(k) implies false by {
                assert(self@.entries.dom().contains(k));
            }
            return ;
        }
        let threshold: usize = if live <= (usize::MAX - 64) / 4 {
            live * 4 + 64
        } else {
            usize::MAX
        };
        if self.queue.len() > threshold {
            self.compact_queue();
        }
    }

    /// Rebuilds the queue from the deadlines of the live entries.
    fn compact_queue(&mut self)
        requires
            old(self).tracks_deadlines(),
        ensures
            final(self).tracks_deadlines(),
            final(self)@ == old(self)@,
            final(self).queue@.len() == final(self)@.entries.len(),
    {
        let mut stale: DeadlineQueue<Id> = DeadlineQueue::new();
        std::mem::swap(&mut self.queue, &mut stale);
        while stale.len() > 0
            invariant
                lawful::<Id, Fingerprint, S>(),
                self@ == old(self)@,
                self@.entries.dom().finite(),
                self.queue.wf(),
                stale.wf(),
                forall|i: int|
                    0 <= i < self.queue@.len() ==> self@.entries.contains_key(
                        (#[trigger] self.queue@[i]).id,
                    ) && self.queue@[i] == self@.due(self.queue@[i].id),
                forall|id: Id| #[trigger]
                    self@.entries.contains_key(id) ==> self.queue@.contains(self@.due(id))
                        || stale@.contains(self@.due(id)),
            decreases stale@.len(),
        {
            let ghost queue = self.queue@;
            let ghost rest = stale@;
            if let Some(due) = stale.first() {
                if self.is_live(&due) {
                    self.queue.insert(due);
                }
                proof {
                    assert forall|i: int|
                        0 <= i < self.queue@.len() implies self@.entries.contains_key(
                        (#[trigger] self.queue@[i]).id,
                    ) && self.queue@[i] == self@.due(self.queue@[i].id) by {
                        let d = self.queue@[i];
                        assert(self.queue@.contains(d));
                        if queue.contains(d) {
                            let j = choose|j: int| 0 <= j < queue.len() && queue[j] == d;
                            assert(self@.entries.contains_key(queue[j].id));
                        }
                    }
                    assert forall|id: Id| #[trigger]
                        self@.entries.contains_key(id) implies self.queue@.contains(self@.due(id))
                        || rest.drop_first().contains(self@.due(id)) by {
                        if rest.contains(self@.due(id)) && rest[0] != self@.due(id) {
                            let j = choose|j: int| 0 <= j < rest.len() && rest[j] == self@.due(id);
                            assert(rest.drop_first()[j - 1] == self@.due(id));
                        }
                    }
                }
            }
            stale.drop_first();
        }
        proof {
            assert forall|id: Id| #[trigger]
                self@.entries.contains_key(id) implies self.queue@.contains(self@.due(id)) by {
                assert(!stale@.contains(self@.due(id)));
            }
            lemma_exact_queue(self@, self.queue@);
        }
    }

    /// Whether a deadline is the one of a live entry.
    fn is_live(&self, due: &Due<Id>) -> (r: bool)
        requires
            lawful::<Id, Fingerprint, S>(),
        ensures
            r == (self@.entries.contains_key(due@.id) && self@.due(due@.id) == due@),
    {
        match self.map.get(&due.id) {
            Some(e) => e.seq == due.seq && time::same(e.deadline, due.deadline),
            None => false,
        }
    }
}

/// Replacing an entry keeps the number of entries.
proof fn lemma_replaced<K, V>(m: Map<K, V>, k: K, v: V)
    requires
        m.contains_key(k),
    ensures
        m.insert(k, v).dom() == m.dom(),
        m.insert(k, v).len() == m.len(),
{
    assert(m.insert(k, v).dom() =~= m.dom());
}

/// A queue that holds exactly the deadlines of the entries is as long as they are many.
proof fn lemma_exact_queue<Id: Ord, F: Copy + Eq, W>(
    m: TableModel<Id, F, W>,
    queue: Seq<DueModel<Id>>,
)
    requires
        totally_ordered::<Id>(),
        ascending(queue),
        m.entries.dom().finite(),
        forall|i: int|
            0 <= i < queue.len() ==> m.entries.contains_key((#[trigger] queue[i]).id) && queue[i]
                == m.due(queue[i].id),
        forall|id: Id| #[trigger] m.entries.contains_key(id) ==> queue.contains(m.due(id)),
    ensures
        queue.len() == m.entries.len(),
{
    lemma_precedes_is_a_strict_order::<Id>();
    let ids = Seq::new(queue.len(), |i: int| queue[i].id);
    assert forall|i: int, j: int| 0 <= i < j < ids.len() implies ids[i] != ids[j] by {
        assert(precedes(queue[i], queue[j]));
    }
    assert(ids.no_duplicates());
    ids.unique_seq_to_set();
    assert forall|id: Id| ids.to_set().contains(id) == m.entries.dom().contains(id) by {
        if m.entries.contains_key(id) {
            let i = choose|i: int| 0 <= i < queue.len() && queue[i] == m.due(id);
            assert(ids[i] == id);
        }
        if ids.contains(id) {
            let i = choose|i: int| 0 <= i < ids.len() && ids[i] == id;
            assert(m.entries.contains_key(queue[i].id));
        }
    }
    assert(ids.to_set() =~= m.entries.dom());
}

/// The integer types, with the hasher of the standard library, are what a table relies on.
pub proof fn law_integers_are_lawful()
    ensures
        lawful::<u8, u8, RandomState>(),
        lawful::<u16, u16, RandomState>(),
        lawful::<u32, u32, RandomState>(),
        lawful::<u64, u64, RandomState>(),
        lawful::<u128, u128, RandomState>(),
        lawful::<usize, usize, RandomState>(),
        lawful::<i8, i8, RandomState>(),
        lawful::<i16, i16, RandomState>(),
        lawful::<i32, i32, RandomState>(),
        lawful::<i64, i64, RandomState>(),
        lawful::<i128, i128, RandomState>(),
        lawful::<isize, isize, RandomState>(),
{
}

/// The table never holds more entries than allowed, and the deadlines that it keeps are no more
/// than a fixed multiple of the entries, with a fixed allowance; without entries it keeps none.
pub proof fn law_table_is_bounded<Id, F, W, S>(t: InFlightTable<Id, F, W, S>) where
    Id: Copy + Eq + Hash + Ord,
    F: Copy + Eq,
    S: BuildHasher + Default,

    requires
        t.wf(),
    ensures
        t@.entries.len() <= t@.max_in_flight,
        t.spec_backlog() <= 4 * t@.entries.len() + 64,
        t@.entries.len() == 0 ==> t.spec_backlog() == 0,
{
}

/// An operation is performed once: from the attempt that created its entry on, until the entry is
/// completed or expires, no other attempt with that id is told to perform it. One with the same
/// payload joins, one with another is told so, however full the table is.
pub proof fn law_operation_is_performed_once<Id, F: Copy + Eq, W>(
    m: TableModel<Id, F, W>,
    id: Id,
    fp: F,
    deadline: nat,
    waiter: W,
    other: Id,
    other_fp: F,
    other_deadline: nat,
    other_waiter: W,
    again: F,
)
    requires
        m.begin_result(id, fp) == BeginResult::New,
    ensures
        ({
            let first = m.begun(id, fp, deadline, waiter);
            let then = first.begun(other, other_fp, other_deadline, other_waiter);
            &&& first.begin_result(id, again) == if fp.eq_spec(&again) {
                BeginResult::Joined
            } else {
                BeginResult::PayloadMismatch
            }
            &&& then.begin_result(id, again) == first.begin_result(id, again)
            &&& then.entries[id].deadline == deadline
        }),
{
}

/// Waiters are kept in the order in which they came: a created entry has the waiter that created
/// it, one that joins comes last, and a refused one is not kept. The entries of other ids are
/// untouched.
pub proof fn law_waiters_join_in_order<Id, F: Copy + Eq, W>(
    m: TableModel<Id, F, W>,
    id: Id,
    fp: F,
    deadline: nat,
    waiter: W,
    other: Id,
)
    ensures
        m.begun(id, fp, deadline, waiter).waiting(id) == (match m.begin_result(id, fp) {
            BeginResult::New | BeginResult::Joined => m.waiting(id).push(waiter),
            _ => m.waiting(id),
        }),
        other != id ==> m.begun(id, fp, deadline, waiter).waiting(other) == m.waiting(other),
{
    assert(seq![waiter] =~= Seq::<W>::empty().push(waiter));
}

/// Completion drains an entry for good: nothing is left to drain a second time, other ids are
/// untouched, and the id may begin anew.
pub proof fn law_completion_drains_once<Id, F: Copy + Eq, W>(
    m: TableModel<Id, F, W>,
    id: Id,
    fp: F,
    other: Id,
)
    requires
        m.entries.dom().finite(),
        m.entries.len() <= m.max_in_flight,
        m.entries.contains_key(id),
    ensures
        m.completed(id).waiting(id) == Seq::<W>::empty(),
        m.completed(id).completed(id) == m.completed(id),
        other != id ==> m.completed(id).waiting(other) == m.waiting(other),
        m.completed(id).begin_result(id, fp) == BeginResult::New,
{
    assert(m.completed(id).entries.remove(id) =~= m.completed(id).entries);
}

/// Expiry drains exactly the entries whose deadline is over: none of them is left, the others
/// stay as they are, and expiring again at the same instant or before drains nothing.
pub proof fn law_expiry_is_exact<Id, F: Copy + Eq, W>(
    m: TableModel<Id, F, W>,
    now: nat,
    earlier: nat,
    id: Id,
)
    requires
        earlier <= now,
    ensures
        m.is_due(id, now) ==> !m.expired(now).entries.contains_key(id),
        !m.is_due(id, now) && m.entries.contains_key(id) ==> m.expired(now).entries.contains_key(id)
            && m.expired(now).entries[id] == m.entries[id],
        !m.expired(now).is_due(id, earlier),
        m.expired(now).expired(earlier) == m.expired(now),
        m.expired(earlier).expired(now) == m.expired(now),
{
    assert(m.expired(now).expired(earlier).entries =~= m.expired(now).entries);
    assert(m.expired(earlier).expired(now).entries =~= m.expired(now).entries);
}

/// A later entry has the larger turn, until the turns wrap around: one that is created comes after
/// all that are there, whose turns stay, and no operation upsets the turns.
pub proof fn law_turns_follow_creation<Id, F: Copy + Eq, W>(
    m: TableModel<Id, F, W>,
    id: Id,
    fp: F,
    deadline: nat,
    waiter: W,
    other: Id,
    now: nat,
)
    requires
        m.in_turn(),
        m.seq < u64::MAX,
    ensures
        ({
            let begun = m.begun(id, fp, deadline, waiter);
            &&& begun.in_turn()
            &&& m.seq <= begun.seq <= m.seq + 1
            &&& m.entries.contains_key(other) ==> begun.entries[other].seq == m.entries[other].seq
            &&& m.begin_result(id, fp) == BeginResult::New && m.entries.contains_key(other)
                ==> begun.entries[other].seq < begun.entries[id].seq
        }),
        m.completed(id).in_turn(),
        m.expired(now).in_turn(),
{
}

/// Entries with one deadline are drained in the order of their turns.
pub proof fn law_equal_deadlines_drain_in_turn<Id: Ord, F: Copy + Eq, W>(
    m: TableModel<Id, F, W>,
    now: nat,
    drained: Seq<(Id, Vec<W>)>,
    i: int,
    j: int,
)
    requires
        m.lists_due(now, drained),
        0 <= i < drained.len(),
        0 <= j < drained.len(),
        m.entries[drained[i].0].deadline == m.entries[drained[j].0].deadline,
        m.entries[drained[i].0].seq < m.entries[drained[j].0].seq,
    ensures
        i < j,
{
    if j < i {
        assert(precedes(m.due(drained[j].0), m.due(drained[i].0)));
    }
}

/// A call on a table.
pub enum TableCall<Id, F, W> {
    /// An attempt to begin an operation.
    Begin {
        /// The id.
        id: Id,
        /// The fingerprint of the payload.
        fp: F,
        /// The deadline.
        deadline: nat,
        /// The waiter.
        waiter: W,
    },
    /// An operation is completed.
    Complete {
        /// The id.
        id: Id,
    },
    /// What is due expires.
    Expire {
        /// The instant.
        now: nat,
    },
}

impl<Id, F: Copy + Eq, W> TableModel<Id, F, W> {
    /// The table after a call.
    pub open spec fn after(self, call: TableCall<Id, F, W>) -> Self {
        match call {
            TableCall::Begin { id, fp, deadline, waiter } => self.begun(id, fp, deadline, waiter),
            TableCall::Complete { id } => self.completed(id),
            TableCall::Expire { now } => self.expired(now),
        }
    }

    /// The table after the first `n` of a run of calls.
    pub open spec fn after_calls(self, calls: Seq<TableCall<Id, F, W>>, n: nat) -> Self
        decreases n,
    {
        if n == 0 {
            self
        } else {
            self.after_calls(calls, (n - 1) as nat).after(calls[n - 1])
        }
    }
}

/// In a run of calls on a new table the turns hold, until they wrap around: no entry has a turn
/// after the last one, and no two share one.
pub proof fn law_turns_hold_over_runs<Id, F: Copy + Eq, W>(
    max_in_flight: nat,
    calls: Seq<TableCall<Id, F, W>>,
    n: nat,
)
    requires
        n <= calls.len(),
        n <= u64::MAX,
    ensures
        TableModel::<Id, F, W>::empty(max_in_flight).after_calls(calls, n).in_turn(),
        TableModel::<Id, F, W>::empty(max_in_flight).after_calls(calls, n).seq <= n,
    decreases n,
{
    if n > 0 {
        law_turns_hold_over_runs(max_in_flight, calls, (n - 1) as nat);
        let m = TableModel::<Id, F, W>::empty(max_in_flight).after_calls(calls, (n - 1) as nat);
        match calls[n - 1] {
            TableCall::Begin { id, fp, deadline, waiter } => {
                law_turns_follow_creation(m, id, fp, deadline, waiter, id, 0);
            },
            TableCall::Complete { id } => {
                law_turns_follow_creation(m, id, arbitrary(), 0, arbitrary(), id, 0);
            },
            TableCall::Expire { now } => {
                let id: Id = arbitrary();
                law_turns_follow_creation(m, id, arbitrary(), 0, arbitrary(), id, now);
            },
        }
    }
}

/// Policy to apply on deadline expiry for permit-attached entries.
#[derive(Debug, Clone, Copy, PartialEq, Eq)]
pub enum LimiterInFlightExpiryPolicy {
    /// Default: treat expiry as ambiguous delivery and commit `SentNoConfirm` (no refund).
    CommitSentNoConfirm,
    /// Refund on expiry (only safe when the application can prove the operation did not send).
    Refund,
}

/// In-flight entry helper that carries a limiter `Permit` and an expiry policy.
#[derive(Debug)]
pub struct LimiterInFlight<W> {
    /// Reserved capacity.
    pub permit: Permit,
    /// Deadline for this in-flight operation.
    pub deadline: Duration,
    /// Waiters to answer on completion or expiry.
    pub waiters: Waiters<W>,
}

impl<W> LimiterInFlight<W> {
    /// The permit.
    pub open spec fn held(self) -> Permit {
        self.permit
    }

    /// The deadline.
    pub open spec fn until(self) -> Duration {
        self.deadline
    }

    /// The waiters, in the order in which they joined.
    pub open spec fn waiting(self) -> Seq<W> {
        self.waiters@
    }

    /// Create a new permit-attached in-flight entry with a single waiter (inline,
    /// allocation-free).
    pub fn new(permit: Permit, deadline: Duration, waiter: W) -> (entry: Self)
        ensures
            entry.held() == permit,
            entry.until() == deadline,
            entry.waiting() == seq![waiter],
    {
        Self { permit, deadline, waiters: Waiters::one(waiter) }
    }

    /// Join an additional waiter (allocates only on the second waiter).
    pub fn join(&mut self, waiter: W)
        ensures
            final(self).held() == old(self).held(),
            final(self).until() == old(self).until(),
            final(self).waiting() == old(self).waiting().push(waiter),
    {
        self.waiters.push(waiter);
    }

    /// Complete and drain waiters.
    pub fn complete(self) -> (waiters: Vec<W>)
        ensures
            waiters@ == self.waiting(),
    {
        self.waiters.into_vec()
    }

    /// Finalize the permit for a known outcome and drain waiters.
    pub fn finalize(self, limiter: &mut RateLimiter, outcome: Outcome, now: Duration) -> (waiters:
        Vec<W>)
        requires
            old(limiter).wf(),
        ensures
            final(limiter).wf(),
            final(limiter)@ == (if outcome is NotSent {
                old(limiter)@.refunded(self.held()@, nanos(now))
            } else {
                old(limiter)@.committed(self.held()@, outcome, nanos(now))
            }),
            final(limiter).same_observer(*old(limiter)),
            final(limiter).notices() == old(limiter).notices(),
            waiters@ == self.waiting(),
    {
        match outcome {
            Outcome::NotSent => limiter.refund(self.permit, now),
            _ => limiter.commit(self.permit, outcome, now),
        }
        self.waiters.into_vec()
    }

    /// Expire this in-flight entry, finalizing the permit according to `policy`, and drain
    /// waiters.
    pub fn expire(
        self,
        limiter: &mut RateLimiter,
        policy: LimiterInFlightExpiryPolicy,
        now: Duration,
    ) -> (waiters: Vec<W>)
        requires
            old(limiter).wf(),
        ensures
            final(limiter).wf(),
            final(limiter)@ == (match policy {
                LimiterInFlightExpiryPolicy::CommitSentNoConfirm => old(limiter)@.committed(
                    self.held()@,
                    Outcome::SentNoConfirm,
                    nanos(now),
                ),
                LimiterInFlightExpiryPolicy::Refund => old(limiter)@.refunded(
                    self.held()@,
                    nanos(now),
                ),
            }),
            final(limiter).same_observer(*old(limiter)),
            final(limiter).notices() == old(limiter).notices(),
            waiters@ == self.waiting(),
    {
        match policy {
            LimiterInFlightExpiryPolicy::CommitSentNoConfirm => {
                limiter.commit(self.permit, Outcome::SentNoConfirm, now);
            },
            LimiterInFlightExpiryPolicy::Refund => {
                limiter.refund(self.permit, now);
            },
        }
        self.waiters.into_vec()
    }
}

/// The answer to an attempt to begin says what is there: an id in flight is joined with the same
/// fingerprint and refused with another, and one that is not is created exactly while there is
/// room.
pub proof fn law_begin_answers_what_is_there<Id, F: Copy + Eq, W>(
    m: TableModel<Id, F, W>,
    id: Id,
    fp: F,
)
    ensures
        match m.begin_result(id, fp) {
            BeginResult::New => !m.entries.contains_key(id) && m.entries.len() < m.max_in_flight,
            BeginResult::TableFull => !m.entries.contains_key(id) && m.entries.len()
                >= m.max_in_flight,
            BeginResult::Joined => m.entries.contains_key(id) && m.entries[id].fp.eq_spec(&fp),
            BeginResult::PayloadMismatch => m.entries.contains_key(id) && !m.entries[id].fp.eq_spec(
                &fp,
            ),
        },
{
}

/// An attempt to begin changes its own entry alone: a created one holds what was asked for, a
/// joined one gains the waiter and keeps its fingerprint, its deadline and its turn, and a refused
/// attempt changes nothing.
pub proof fn law_begin_changes_its_entry_alone<Id, F: Copy + Eq, W>(
    m: TableModel<Id, F, W>,
    id: Id,
    fp: F,
    deadline: nat,
    waiter: W,
    other: Id,
)
    ensures
        ({
            let after = m.begun(id, fp, deadline, waiter);
            &&& after.max_in_flight == m.max_in_flight
            &&& other != id ==> (after.entries.contains_key(other) <==> m.entries.contains_key(
                other,
            )) && after.entries[other] == m.entries[other]
            &&& match m.begin_result(id, fp) {
                BeginResult::New => {
                    let e = after.entries[id];
                    &&& after.entries.contains_key(id)
                    &&& e.fp == fp
                    &&& e.deadline == deadline
                    &&& e.waiters.len() == 1
                    &&& e.waiters[0] == waiter
                    &&& e.seq == after.seq
                    &&& m.seq < u64::MAX ==> after.seq == m.seq + 1
                    &&& m.seq == u64::MAX ==> after.seq == 0
                },
                BeginResult::Joined => {
                    let e = after.entries[id];
                    let old = m.entries[id];
                    &&& after.entries.contains_key(id)
                    &&& e.fp == old.fp
                    &&& e.deadline == old.deadline
                    &&& e.seq == old.seq
                    &&& e.waiters.len() == old.waiters.len() + 1
                    &&& e.waiters.drop_last() == old.waiters
                    &&& e.waiters.last() == waiter
                    &&& after.seq == m.seq
                },
                _ => after == m,
            }
        }),
{
    if m.begin_result(id, fp) == BeginResult::Joined {
        let old = m.entries[id];
        assert(old.waiters.push(waiter).drop_last() =~= old.waiters);
    }
}

/// Completing an id takes its entry out, with its waiters, and no other one.
pub proof fn law_completion_takes_one_entry<Id, F: Copy + Eq, W>(
    m: TableModel<Id, F, W>,
    id: Id,
    other: Id,
)
    ensures
        ({
            let after = m.completed(id);
            &&& !after.entries.contains_key(id)
            &&& after.seq == m.seq
            &&& after.max_in_flight == m.max_in_flight
            &&& other != id ==> (after.entries.contains_key(other) <==> m.entries.contains_key(
                other,
            )) && after.entries[other] == m.entries[other]
            &&& m.entries.contains_key(id) ==> m.waiting(id) == m.entries[id].waiters
            &&& !m.entries.contains_key(id) ==> m.waiting(id).len() == 0
        }),
{
}

/// Expiry drains an entry exactly where its deadline is not after the instant, with all of its
/// waiters, and drains none twice; earlier deadlines come first. The turns go on from where they
/// were.
pub proof fn law_expiry_follows_the_deadlines<Id: Ord, F: Copy + Eq, W>(
    m: TableModel<Id, F, W>,
    now: nat,
    drained: Seq<(Id, Vec<W>)>,
    id: Id,
    i: int,
    j: int,
)
    requires
        m.lists_due(now, drained),
        crate::deadline_queue::totally_ordered::<Id>(),
    ensures
        m.entries.contains_key(id) && m.entries[id].deadline <= now <==> exists|k: int|
            0 <= k < drained.len() && (#[trigger] drained[k]).0 == id,
        0 <= i < drained.len() ==> drained[i].1@ == m.entries[drained[i].0].waiters,
        0 <= i < j < drained.len() ==> drained[i].0 != drained[j].0 && m.entries[drained[i].0]
            .deadline <= m.entries[drained[j].0].deadline,
        m.expired(now).seq == m.seq,
        m.expired(now).max_in_flight == m.max_in_flight,
        m.expired(now).entries.contains_key(id) <==> m.entries.contains_key(id)
            && m.entries[id].deadline > now,
{
    lemma_precedes_is_a_strict_order::<Id>();
    if m.entries.contains_key(id) && m.entries[id].deadline <= now {
        assert(m.is_due(id, now));
    }
    if exists|k: int| 0 <= k < drained.len() && (#[trigger] drained[k]).0 == id {
        let k = choose|k: int| 0 <= k < drained.len() && (#[trigger] drained[k]).0 == id;
        assert(m.is_due(drained[k].0, now));
    }
    if 0 <= i < j < drained.len() {
        assert(precedes(m.due(drained[i].0), m.due(drained[j].0)));
        assert(!precedes(m.due(drained[i].0), m.due(drained[i].0)));
    }
}

} // verus!
