//! A queue of deadlines, earliest first.

use crate::time;
use crate::time::nanos;
use std::cmp::Ordering;
use std::collections::VecDeque;
use std::time::Duration;
use vstd::laws_cmp::{
    obeys_cmp, obeys_cmp_ord, obeys_cmp_partial_ord, obeys_partial_cmp_spec_properties,
};
use vstd::laws_eq::{obeys_concrete_eq, obeys_eq_spec_properties};
use vstd::prelude::*;
use vstd::std_specs::cmp::OrdSpec;

verus! {

/// The ids are totally ordered by `cmp`, and two that compare equal are one and the same. This
/// holds of the integer types.
pub open spec fn totally_ordered<Id: Ord>() -> bool {
    &&& obeys_cmp::<Id>()
    &&& obeys_concrete_eq::<Id>()
}

/// The deadline of an id, in nanoseconds, with the turn in which it was given.
pub struct DueModel<Id> {
    /// The deadline.
    pub deadline: nat,
    /// The turn.
    pub seq: u64,
    /// The id.
    pub id: Id,
}

/// Whether `a` comes before `b`: by the deadline, then by the turn, then by the id.
pub open spec fn precedes<Id: Ord>(a: DueModel<Id>, b: DueModel<Id>) -> bool {
    ||| a.deadline < b.deadline
    ||| a.deadline == b.deadline && a.seq < b.seq
    ||| a.deadline == b.deadline && a.seq == b.seq && a.id.cmp_spec(&b.id) == Ordering::Less
}

/// Each comes before those behind it.
pub open spec fn ascending<Id: Ord>(s: Seq<DueModel<Id>>) -> bool {
    forall|i: int, j: int| 0 <= i < j < s.len() ==> precedes(#[trigger] s[i], #[trigger] s[j])
}

/// The order is a strict total one.
pub(crate) proof fn lemma_precedes_is_a_strict_order<Id: Ord>()
    requires
        totally_ordered::<Id>(),
    ensures
        forall|a: DueModel<Id>| !#[trigger] precedes(a, a),
        forall|a: DueModel<Id>, b: DueModel<Id>, c: DueModel<Id>| #[trigger]
            precedes(a, b) && #[trigger] precedes(b, c) ==> precedes(a, c),
        forall|a: DueModel<Id>, b: DueModel<Id>|
            !#[trigger] precedes(a, b) && !precedes(b, a) ==> a == b,
{
    reveal(obeys_eq_spec_properties);
    reveal(obeys_concrete_eq);
    reveal(obeys_partial_cmp_spec_properties);
    reveal(obeys_cmp_partial_ord);
    reveal(obeys_cmp_ord);
}

/// The deadline of an id, with the turn in which it was given.
#[derive(Debug)]
pub struct Due<Id> {
    /// The deadline.
    pub deadline: Duration,
    /// The turn.
    pub seq: u64,
    /// The id.
    pub id: Id,
}

impl<Id> Due<Id> {
    /// The deadline in nanoseconds.
    pub open spec fn view(self) -> DueModel<Id> {
        DueModel { deadline: nanos(self.deadline), seq: self.seq, id: self.id }
    }
}

/// Whether `a` comes before `b`.
fn is_before<Id: Copy + Ord>(a: &Due<Id>, b: &Due<Id>) -> (r: bool)
    requires
        totally_ordered::<Id>(),
    ensures
        r == precedes(a@, b@),
{
    proof {
        reveal(obeys_cmp_ord);
    }
    if !time::same(a.deadline, b.deadline) {
        return time::shorter(a.deadline, b.deadline);
    }
    if a.seq != b.seq {
        return a.seq < b.seq;
    }
    match a.id.cmp(&b.id) {
        Ordering::Less => true,
        Ordering::Equal => false,
        Ordering::Greater => false,
    }
}

/// A queue of deadlines, earliest first, each held once.
#[derive(Debug)]
pub struct DeadlineQueue<Id> {
    dues: VecDeque<Due<Id>>,
}

impl<Id: Copy + Ord> DeadlineQueue<Id> {
    /// The deadlines, in the order in which they are due.
    pub closed spec fn view(self) -> Seq<DueModel<Id>> {
        Seq::new(self.dues@.len(), |i: int| self.dues@[i]@)
    }

    /// The ids are totally ordered, and the queue is in order.
    pub open spec fn wf(self) -> bool {
        &&& totally_ordered::<Id>()
        &&& ascending(self@)
    }

    /// An empty queue.
    pub fn new() -> (q: Self)
        requires
            totally_ordered::<Id>(),
        ensures
            q.wf(),
            q@ == Seq::<DueModel<Id>>::empty(),
    {
        let q = DeadlineQueue { dues: VecDeque::new() };
        assert(q@ =~= Seq::<DueModel<Id>>::empty());
        q
    }

    /// How many deadlines the queue holds.
    pub fn len(&self) -> (len: usize)
        ensures
            len == self@.len(),
    {
        self.dues.len()
    }

    /// The first deadline.
    pub fn first(&self) -> (r: Option<Due<Id>>)
        ensures
            match r {
                Some(due) => self@.len() > 0 && due@ == self@[0],
                None => self@.len() == 0,
            },
    {
        if self.dues.len() == 0 {
            None
        } else {
            let due: &Due<Id> = &self.dues[0];
            Some(Due { deadline: due.deadline, seq: due.seq, id: due.id })
        }
    }

    /// Drops the first deadline.
    pub fn drop_first(&mut self)
        requires
            old(self).wf(),
        ensures
            final(self).wf(),
            old(self)@.len() > 0 ==> final(self)@ == old(self)@.drop_first(),
            old(self)@.len() == 0 ==> final(self)@ == old(self)@,
    {
        let _first = self.dues.pop_front();
        assert(old(self)@.len() > 0 ==> self@ =~= old(self)@.drop_first());
        assert(old(self)@.len() == 0 ==> self@ =~= old(self)@);
    }

    /// Drops everything.
    pub fn clear(&mut self)
        requires
            old(self).wf(),
        ensures
            final(self).wf(),
            final(self)@ == Seq::<DueModel<Id>>::empty(),
    {
        self.dues.clear();
        assert(self@ =~= Seq::<DueModel<Id>>::empty());
    }

    /// Adds a deadline in its place; one that is there already is not added again.
    pub fn insert(&mut self, due: Due<Id>)
        requires
            old(self).wf(),
        ensures
            final(self).wf(),
            final(self)@.len() <= old(self)@.len() + 1,
            forall|d: DueModel<Id>| #[trigger]
                final(self)@.contains(d) <==> old(self)@.contains(d) || d == due@,
    {
        proof {
            lemma_precedes_is_a_strict_order::<Id>();
        }
        // Most deadlines are later than those before them, so the search starts from the last.
        let mut at: usize = self.dues.len();
        while at > 0 && is_before(&due, &self.dues[at - 1])
            invariant
                self.wf(),
                self == old(self),
                at <= self@.len(),
                forall|j: int| at <= j < self@.len() ==> precedes(due@, #[trigger] self@[j]),
            decreases at,
        {
            assert(self@[at - 1] == self.dues@[at - 1]@);
            at = at - 1;
        }
        if at > 0 && !is_before(&self.dues[at - 1], &due) {
            assert(self@[at - 1] == due@);
            assert(self@.contains(due@));
            return ;
        }
        let ghost before = self@;
        assert(at > 0 ==> before[at - 1] == self.dues@[at - 1]@);
        assert forall|j: int| 0 <= j < at implies precedes(#[trigger] before[j], due@) by {
            if j < at - 1 {
                assert(precedes(before[j], before[at - 1]));
            }
        }
        self.dues.insert(at, due);
        assert(self@ =~= before.insert(at as int, due@));
        proof {
            lemma_insert_contains(before, at as int, due@);
        }
    }
}

/// What a sequence holds after an insertion.
proof fn lemma_insert_contains<T>(s: Seq<T>, at: int, x: T)
    requires
        0 <= at <= s.len(),
    ensures
        forall|d: T| #[trigger] s.insert(at, x).contains(d) <==> s.contains(d) || d == x,
{
    let t = s.insert(at, x);
    assert forall|d: T| #[trigger] t.contains(d) <==> s.contains(d) || d == x by {
        if t.contains(d) && d != x {
            let i = choose|i: int| 0 <= i < t.len() && t[i] == d;
            assert(s[if i < at {
                i
            } else {
                i - 1
            }] == d);
        }
        if s.contains(d) {
            let i = choose|i: int| 0 <= i < s.len() && s[i] == d;
            assert(t[if i < at {
                i
            } else {
                i + 1
            }] == d);
        }
        assert(t[at] == x);
    }
}

/// Of two deadlines the earlier comes first; of two that are equal, the one that was given first.
pub proof fn law_earlier_deadline_comes_first<Id: Ord>(a: DueModel<Id>, b: DueModel<Id>)
    ensures
        a.deadline < b.deadline ==> precedes(a, b) && !precedes(b, a),
        a.deadline == b.deadline && a.seq < b.seq ==> precedes(a, b) && !precedes(b, a),
        a.deadline == b.deadline && a.seq == b.seq ==> (precedes(a, b) <==> a.id.cmp_spec(&b.id)
            == Ordering::Less),
{
}

} // verus!
