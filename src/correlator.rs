//! Registry of pending waits: each names the reactions it waits for and an
//! optional deadline, and is resolved by the first matching event or by time.
use crate::event::{Event, Symbol};
use vstd::prelude::*;

verus! {

/// Reactions on one message whose symbol is one of two choices.
#[derive(Clone, Copy, Debug, PartialEq, Eq, Structural)]
pub struct Filter {
    pub message: u64,
    pub first: Symbol,
    pub second: Symbol,
}

pub open spec fn filter_matches(f: Filter, e: Event) -> bool {
    match e {
        Event::ReactionAdded { message, user: _, symbol } => message == f.message && (symbol
            == f.first || symbol == f.second),
        Event::MemberJoined { .. } => false,
    }
}

impl Filter {
    pub fn new(message: u64, first: Symbol, second: Symbol) -> (r: Filter)
        ensures
            r == (Filter { message, first, second }),
    {
        Filter { message, first, second }
    }

    pub fn accepts(&self, e: &Event) -> (r: bool)
        ensures
            r == filter_matches(*self, *e),
    {
        match e {
            Event::ReactionAdded { message, user: _, symbol } => *message == self.message && (
            *symbol == self.first || *symbol == self.second),
            Event::MemberJoined { .. } => false,
        }
    }
}

/// A registered wait: its handle, what it waits for, and when it gives up.
#[derive(Clone, Copy, Debug, PartialEq, Eq, Structural)]
pub struct PendingWait {
    pub id: u64,
    pub filter: Filter,
    pub deadline: Option<u64>,
}

/// The deadline of `w` has come at time `now`.
pub open spec fn expired(w: PendingWait, now: u64) -> bool {
    match w.deadline {
        Some(d) => d <= now,
        None => false,
    }
}

pub open spec fn is_expired(now: u64) -> spec_fn(PendingWait) -> bool {
    |w: PendingWait| expired(w, now)
}

pub open spec fn is_live(now: u64) -> spec_fn(PendingWait) -> bool {
    |w: PendingWait| !expired(w, now)
}

/// Handles strictly increase along the sequence, so no handle repeats.
pub open spec fn increasing_ids(s: Seq<PendingWait>) -> bool {
    forall|i: int, j: int| 0 <= i < j < s.len() ==> s[i].id < s[j].id
}

pub open spec fn has_match(s: Seq<PendingWait>, e: Event) -> bool {
    exists|i: int| 0 <= i < s.len() && filter_matches(s[i].filter, e)
}

/// `i` is the earliest registration in `s` that `e` matches.
pub open spec fn is_first_match(s: Seq<PendingWait>, e: Event, i: int) -> bool {
    &&& 0 <= i < s.len()
    &&& filter_matches(s[i].filter, e)
    &&& forall|j: int| 0 <= j < i ==> !filter_matches(s[j].filter, e)
}

proof fn lemma_filter_ids(s: Seq<PendingWait>, p: spec_fn(PendingWait) -> bool)
    requires
        increasing_ids(s),
    ensures
        increasing_ids(s.filter(p)),
        forall|i: int| 0 <= i < s.filter(p).len() ==> s.contains(#[trigger] s.filter(p)[i]),
    decreases s.len(),
{
    broadcast use Seq::lemma_filter_push;

    if s.len() > 0 {
        let prev = s.drop_last();
        let x = s.last();
        assert(s == prev.push(x));
        assert(increasing_ids(prev));
        lemma_filter_ids(prev, p);
        let f = prev.filter(p);
        assert forall|i: int| 0 <= i < f.len() implies #[trigger] f[i].id < x.id by {
            let k = choose|k: int| 0 <= k < prev.len() && prev[k] == f[i];
            assert(s[k] == prev[k]);
        }
        assert forall|i: int| 0 <= i < s.filter(p).len() implies s.contains(
            #[trigger] s.filter(p)[i],
        ) by {
            if i < f.len() {
                let k = choose|k: int| 0 <= k < prev.len() && prev[k] == f[i];
                assert(s[k] == prev[k]);
            } else {
                assert(s[s.len() - 1] == x);
            }
        }
    }
}

/// A wait whose deadline has come at `now` is handed back by `expire` exactly
/// once, is no longer pending afterwards, and so no later event resolves it.
pub proof fn lemma_timeout_is_final(before: Seq<PendingWait>, now: u64, w: PendingWait, e: Event)
    requires
        increasing_ids(before),
        before.contains(w),
        expired(w, now),
    ensures
        before.filter(is_expired(now)).contains(w),
        forall|i: int, j: int|
            0 <= i < before.filter(is_expired(now)).len() && 0 <= j < before.filter(
                is_expired(now),
            ).len() && before.filter(is_expired(now))[i].id == w.id && before.filter(
                is_expired(now),
            )[j].id == w.id ==> i == j,
        forall|i: int|
            0 <= i < before.filter(is_live(now)).len() ==> before.filter(is_live(now))[i].id
                != w.id,
        forall|i: int|
            is_first_match(before.filter(is_live(now)), e, i) ==> before.filter(is_live(now))[i].id
                != w.id,
{
    broadcast use Seq::lemma_filter_contains, Seq::lemma_filter_pred;

    let gone = before.filter(is_expired(now));
    let kept = before.filter(is_live(now));
    lemma_filter_ids(before, is_expired(now));
    lemma_filter_ids(before, is_live(now));
    let k = choose|k: int| 0 <= k < before.len() && before[k] == w;
    assert(is_expired(now)(before[k]));
    assert(gone.contains(w));
    assert forall|i: int, j: int|
        0 <= i < gone.len() && 0 <= j < gone.len() && gone[i].id == w.id && gone[j].id == w.id
        implies i == j by {
        if i < j {
            assert(gone[i].id < gone[j].id);
        } else if j < i {
            assert(gone[j].id < gone[i].id);
        }
    }
    assert forall|i: int| 0 <= i < kept.len() implies kept[i].id != w.id by {
        assert(is_live(now)(kept[i]));
        let q = choose|q: int| 0 <= q < before.len() && before[q] == kept[i];
        if kept[i].id == w.id {
            if q < k {
                assert(before[q].id < before[k].id);
            } else if k < q {
                assert(before[k].id < before[q].id);
            }
        }
    }
}

/// The pending waits, in order of registration.
pub struct Correlator {
    pending: Vec<PendingWait>,
    next_id: u64,
}

impl Correlator {
    pub closed spec fn pending(&self) -> Seq<PendingWait> {
        self.pending@
    }

    pub closed spec fn next_id(&self) -> nat {
        self.next_id as nat
    }

    pub open spec fn wf(&self) -> bool {
        &&& increasing_ids(self.pending())
        &&& forall|i: int| 0 <= i < self.pending().len() ==> self.pending()[i].id < self.next_id()
    }

    pub fn new() -> (r: Correlator)
        ensures
            r.wf(),
            r.pending() == Seq::<PendingWait>::empty(),
            r.next_id() == 0,
    {
        Correlator { pending: Vec::new(), next_id: 0 }
    }

    pub fn len(&self) -> (r: usize)
        ensures
            r == self.pending().len(),
    {
        self.pending.len()
    }

    /// Whether the wait with handle `id` is still pending.
    pub fn is_pending(&self, id: u64) -> (r: bool)
        ensures
            r == exists|i: int| 0 <= i < self.pending().len() && self.pending()[i].id == id,
    {
        let mut i: usize = 0;
        while i < self.pending.len()
            invariant
                i <= self.pending@.len(),
                forall|k: int| 0 <= k < i ==> self.pending@[k].id != id,
            decreases self.pending@.len() - i,
        {
            if self.pending[i].id == id {
                return true;
            }
            i = i + 1;
        }
        false
    }

    /// Registers a wait and returns its handle; `None` once every handle has
    /// been given out.
    pub fn register(&mut self, filter: Filter, deadline: Option<u64>) -> (r: Option<u64>)
        requires
            old(self).wf(),
        ensures
            final(self).wf(),
            old(self).next_id() == u64::MAX ==> r.is_none() && *final(self) == *old(self),
            old(self).next_id() < u64::MAX ==> {
                &&& r == Some(old(self).next_id() as u64)
                &&& final(self).pending() == old(self).pending().push(
                    (PendingWait { id: old(self).next_id() as u64, filter, deadline }),
                )
                &&& final(self).next_id() == old(self).next_id() + 1
            },
    {
        if self.next_id == u64::MAX {
            return None;
        }
        let id = self.next_id;
        self.pending.push(PendingWait { id, filter, deadline });
        self.next_id = id + 1;
        Some(id)
    }

    /// Resolves the earliest pending wait that `e` matches, removing it and
    /// returning its handle; every other wait stays pending.
    pub fn dispatch(&mut self, e: &Event) -> (r: Option<u64>)
        requires
            old(self).wf(),
        ensures
            final(self).wf(),
            final(self).next_id() == old(self).next_id(),
            r.is_none() <==> !has_match(old(self).pending(), *e),
            r.is_none() ==> final(self).pending() == old(self).pending(),
            forall|i: int|
                #![trigger is_first_match(old(self).pending(), *e, i)]
                is_first_match(old(self).pending(), *e, i) ==> r == Some(old(self).pending()[i].id)
                    && final(self).pending() == old(self).pending().remove(i),
    {
        let mut i: usize = 0;
        while i < self.pending.len()
            invariant
                *self == *old(self),
                self.wf(),
                i <= self.pending@.len(),
                forall|k: int| 0 <= k < i ==> !filter_matches(self.pending@[k].filter, *e),
            decreases self.pending@.len() - i,
        {
            if self.pending[i].filter.accepts(e) {
                let ghost s = self.pending@;
                assert(is_first_match(s, *e, i as int));
                assert forall|f: int| is_first_match(s, *e, f) implies f == i as int by {
                    if f < i as int {
                        assert(!filter_matches(s[f].filter, *e));
                    } else if f > i as int {
                        assert(!filter_matches(s[i as int].filter, *e));
                    }
                }
                let w = self.pending.remove(i);
                assert forall|a: int, b: int| 0 <= a < b < self.pending@.len()
                    implies self.pending@[a].id < self.pending@[b].id by {
                    let a0 = if a < i { a } else { a + 1 };
                    let b0 = if b < i { b } else { b + 1 };
                    assert(self.pending@[a] == s[a0]);
                    assert(self.pending@[b] == s[b0]);
                }
                assert forall|a: int| 0 <= a < self.pending@.len()
                    implies self.pending@[a].id < self.next_id by {
                    let a0 = if a < i { a } else { a + 1 };
                    assert(self.pending@[a] == s[a0]);
                }
                return Some(w.id);
            }
            i = i + 1;
        }
        None
    }

    /// Removes every wait whose deadline has come at `now` and returns them,
    /// in order of registration; the others stay pending, in order.
    pub fn expire(&mut self, now: u64) -> (r: Vec<PendingWait>)
        requires
            old(self).wf(),
        ensures
            final(self).wf(),
            final(self).next_id() == old(self).next_id(),
            final(self).pending() == old(self).pending().filter(is_live(now)),
            r@ == old(self).pending().filter(is_expired(now)),
            increasing_ids(r@),
    {
        broadcast use Seq::lemma_filter_push;

        let ghost s = self.pending@;
        let mut keep: Vec<PendingWait> = Vec::new();
        let mut gone: Vec<PendingWait> = Vec::new();
        let mut i: usize = 0;
        while i < self.pending.len()
            invariant
                *self == *old(self),
                s == self.pending@,
                self.wf(),
                i <= s.len(),
                keep@ == s.take(i as int).filter(is_live(now)),
                gone@ == s.take(i as int).filter(is_expired(now)),
                increasing_ids(keep@),
                increasing_ids(gone@),
                forall|a: int, k: int| 0 <= a < keep@.len() && i <= k < s.len() ==> keep@[a].id < s[k].id,
                forall|a: int, k: int| 0 <= a < gone@.len() && i <= k < s.len() ==> gone@[a].id < s[k].id,
                forall|a: int| 0 <= a < keep@.len() ==> keep@[a].id < self.next_id,
            decreases s.len() - i,
        {
            let w = self.pending[i];
            assert(s.take(i as int + 1) == s.take(i as int).push(w));
            let dead = match w.deadline {
                Some(d) => d <= now,
                None => false,
            };
            assert(is_live(now)(w) == !dead);
            assert(is_expired(now)(w) == dead);
            proof {
                s.take(i as int).lemma_filter_push(w, is_live(now));
                s.take(i as int).lemma_filter_push(w, is_expired(now));
            }
            if dead {
                gone.push(w);
            } else {
                keep.push(w);
            }
            i = i + 1;
        }
        assert(s.take(i as int) == s);
        self.pending = keep;
        gone
    }
}

} // verus!
