//! The window of recent joiners and the handle of the raid alert in flight.
use crate::event::MemberSnapshot;
use vstd::prelude::*;

verus! {

/// How a join leaves the window with respect to the raid threshold.
#[derive(Clone, Copy, Debug, PartialEq, Eq, Structural)]
pub enum TriggerStatus {
    Inactive,
    ShouldTrigger,
    Triggered,
}

/// The status of a window of `size` members against `threshold`.
pub open spec fn classify(size: nat, threshold: nat) -> TriggerStatus {
    if size < threshold {
        TriggerStatus::Inactive
    } else if size == threshold {
        TriggerStatus::ShouldTrigger
    } else {
        TriggerStatus::Triggered
    }
}

/// No user appears twice in the window.
pub open spec fn unique_ids(s: Seq<MemberSnapshot>) -> bool {
    forall|i: int, j: int| 0 <= i < j < s.len() ==> s[i].user_id != s[j].user_id
}

pub open spec fn has_user(s: Seq<MemberSnapshot>, user: u64) -> bool {
    exists|i: int| 0 <= i < s.len() && s[i].user_id == user
}

/// The position of `user` in the window (meaningful only where `has_user`).
pub open spec fn position_of(s: Seq<MemberSnapshot>, user: u64) -> int {
    choose|i: int| 0 <= i < s.len() && s[i].user_id == user
}

/// The window after `m` joins: its old record is overwritten, or it is appended.
pub open spec fn joined(s: Seq<MemberSnapshot>, m: MemberSnapshot) -> Seq<MemberSnapshot> {
    if has_user(s, m.user_id) {
        s.update(position_of(s, m.user_id), m)
    } else {
        s.push(m)
    }
}

/// The window without `user`.
pub open spec fn without(s: Seq<MemberSnapshot>, user: u64) -> Seq<MemberSnapshot> {
    if has_user(s, user) {
        s.remove(position_of(s, user))
    } else {
        s
    }
}

/// The user ids of a window, in order.
pub open spec fn user_ids(s: Seq<MemberSnapshot>) -> Seq<u64> {
    s.map_values(|m: MemberSnapshot| m.user_id)
}

/// The window after each of `joins` in turn, starting from `start`.
pub open spec fn replay(start: Seq<MemberSnapshot>, joins: Seq<MemberSnapshot>) -> Seq<MemberSnapshot>
    decreases joins.len(),
{
    if joins.len() == 0 {
        start
    } else {
        joined(replay(start, joins.drop_last()), joins.last())
    }
}

/// The status returned by join number `k` of `joins`, from `start`.
pub open spec fn join_status(
    start: Seq<MemberSnapshot>,
    joins: Seq<MemberSnapshot>,
    k: int,
    threshold: nat,
) -> TriggerStatus {
    classify(replay(start, joins.take(k + 1)).len(), threshold)
}

/// Every join is by a user that is neither in `start` nor joins twice.
pub open spec fn fresh_joins(start: Seq<MemberSnapshot>, joins: Seq<MemberSnapshot>) -> bool {
    &&& forall|i: int, j: int| 0 <= i < j < joins.len() ==> joins[i].user_id != joins[j].user_id
    &&& forall|i: int| 0 <= i < joins.len() ==> !has_user(start, #[trigger] joins[i].user_id)
}

proof fn lemma_replay_fresh(start: Seq<MemberSnapshot>, joins: Seq<MemberSnapshot>)
    requires
        fresh_joins(start, joins),
    ensures
        replay(start, joins).len() == start.len() + joins.len(),
        forall|u: u64|
            has_user(replay(start, joins), u) ==> has_user(start, u) || exists|i: int|
                0 <= i < joins.len() && #[trigger] joins[i].user_id == u,
    decreases joins.len(),
{
    if joins.len() > 0 {
        let prev = joins.drop_last();
        assert(fresh_joins(start, prev));
        lemma_replay_fresh(start, prev);
        let r = replay(start, prev);
        let m = joins.last();
        if has_user(r, m.user_id) {
            if !has_user(start, m.user_id) {
                let i = choose|i: int| 0 <= i < prev.len() && #[trigger] prev[i].user_id == m.user_id;
                assert(joins[i].user_id != joins[joins.len() - 1].user_id);
            } else {
                assert(!has_user(start, joins[joins.len() - 1].user_id));
            }
        }
        assert(replay(start, joins) == r.push(m));
        assert forall|u: u64| has_user(replay(start, joins), u) implies has_user(start, u)
            || exists|i: int| 0 <= i < joins.len() && #[trigger] joins[i].user_id == u by {
            let p = choose|p: int| 0 <= p < r.len() + 1 && r.push(m)[p].user_id == u;
            if p == r.len() {
                assert(joins[joins.len() - 1].user_id == u);
            } else {
                assert(has_user(r, u));
                if !has_user(start, u) {
                    let i = choose|i: int| 0 <= i < prev.len() && #[trigger] prev[i].user_id == u;
                    assert(joins[i].user_id == u);
                }
            }
        }
    }
}

/// Joins of distinct users new to the window classify as `Inactive` while the
/// window is below the threshold, `ShouldTrigger` exactly at the join that
/// brings it to the threshold, and `Triggered` at every join after that.
pub proof fn lemma_join_statuses(start: Seq<MemberSnapshot>, joins: Seq<MemberSnapshot>, threshold: nat)
    requires
        fresh_joins(start, joins),
    ensures
        forall|k: int|
            0 <= k < joins.len() ==> #[trigger] join_status(start, joins, k, threshold) == classify(
                (start.len() + k + 1) as nat,
                threshold,
            ),
        forall|k: int|
            0 <= k < joins.len() ==> (#[trigger] join_status(start, joins, k, threshold)
                == TriggerStatus::ShouldTrigger <==> start.len() + k + 1 == threshold),
{
    assert forall|k: int| 0 <= k < joins.len() implies #[trigger] join_status(start, joins, k, threshold)
        == classify((start.len() + k + 1) as nat, threshold) by {
        let t = joins.take(k + 1);
        assert forall|i: int| 0 <= i < t.len() implies !has_user(start, #[trigger] t[i].user_id) by {
            assert(t[i] == joins[i]);
        }
        assert forall|i: int, j: int| 0 <= i < j < t.len() implies t[i].user_id != t[j].user_id by {
            assert(t[i] == joins[i] && t[j] == joins[j]);
        }
        lemma_replay_fresh(start, t);
    }
}

/// After a clear the window is empty and no alert is in flight, so the next
/// join leaves a window of that member alone, classified as a window of one.
pub proof fn lemma_join_after_clear(t: MembershipTracker, m: MemberSnapshot)
    requires
        t.recent() == Seq::<MemberSnapshot>::empty(),
        t.alert() == None::<u64>,
    ensures
        joined(t.recent(), m) == seq![m],
        classify(joined(t.recent(), m).len(), t.threshold_spec()) == classify(1, t.threshold_spec()),
        t.threshold_spec() > 1 ==> classify(joined(t.recent(), m).len(), t.threshold_spec())
            == TriggerStatus::Inactive,
{
    assert(!has_user(t.recent(), m.user_id));
    assert(joined(t.recent(), m) =~= seq![m]);
}

/// Eviction forgets exactly the evicted user and keeps every other member.
pub proof fn lemma_evict_exactly(s: Seq<MemberSnapshot>, user: u64, other: u64)
    requires
        unique_ids(s),
    ensures
        !has_user(without(s, user), user),
        other != user ==> has_user(without(s, user), other) == has_user(s, other),
{
    if has_user(s, user) {
        let p = position_of(s, user);
        let r = s.remove(p);
        if has_user(r, user) {
            let q = choose|q: int| 0 <= q < r.len() && r[q].user_id == user;
            if q < p {
                assert(r[q] == s[q]);
            } else {
                assert(r[q] == s[q + 1]);
            }
        }
        if other != user {
            if has_user(s, other) {
                let q = choose|q: int| 0 <= q < s.len() && s[q].user_id == other;
                if q < p {
                    assert(r[q] == s[q]);
                } else {
                    assert(r[q - 1] == s[q]);
                }
            }
            if has_user(r, other) {
                let q = choose|q: int| 0 <= q < r.len() && r[q].user_id == other;
                if q < p {
                    assert(r[q] == s[q]);
                } else {
                    assert(r[q] == s[q + 1]);
                }
            }
        }
    }
}

/// Recent joiners not yet absorbed into a raid decision, and the raid alert
/// message currently awaiting a vote, if any.
pub struct MembershipTracker {
    recent: Vec<MemberSnapshot>,
    active_raid_alert: Option<u64>,
    threshold: usize,
}

impl MembershipTracker {
    pub closed spec fn recent(&self) -> Seq<MemberSnapshot> {
        self.recent@
    }

    pub closed spec fn alert(&self) -> Option<u64> {
        self.active_raid_alert
    }

    pub closed spec fn threshold_spec(&self) -> nat {
        self.threshold as nat
    }

    pub open spec fn wf(&self) -> bool {
        unique_ids(self.recent())
    }

    pub fn new(threshold: usize) -> (r: MembershipTracker)
        ensures
            r.wf(),
            r.recent() == Seq::<MemberSnapshot>::empty(),
            r.alert() == None::<u64>,
            r.threshold_spec() == threshold,
    {
        MembershipTracker { recent: Vec::new(), active_raid_alert: None, threshold }
    }

    pub fn threshold(&self) -> (r: usize)
        ensures
            r == self.threshold_spec(),
    {
        self.threshold
    }

    /// The handle of the raid alert awaiting a vote.
    pub fn active_alert(&self) -> (r: Option<u64>)
        ensures
            r == self.alert(),
    {
        self.active_raid_alert
    }

    pub fn len(&self) -> (r: usize)
        ensures
            r == self.recent().len(),
    {
        self.recent.len()
    }

    /// Where `user` stands in the window, if it does.
    fn find(&self, user: u64) -> (r: Option<usize>)
        requires
            self.wf(),
        ensures
            r.is_none() <==> !has_user(self.recent(), user),
            r matches Some(i) ==> i == position_of(self.recent(), user) && i < self.recent().len(),
    {
        let mut i: usize = 0;
        while i < self.recent.len()
            invariant
                self.wf(),
                i <= self.recent@.len(),
                forall|k: int| 0 <= k < i ==> self.recent@[k].user_id != user,
            decreases self.recent@.len() - i,
        {
            if self.recent[i].user_id == user {
                let ghost p = position_of(self.recent@, user);
                assert(has_user(self.recent@, user));
                assert(self.recent@[p].user_id == user);
                assert(p == i as int);
                return Some(i);
            }
            i = i + 1;
        }
        None
    }

    /// Records a join, overwriting an earlier record of the same user, and
    /// classifies the resulting window size against the threshold.
    pub fn record_join(&mut self, member: MemberSnapshot) -> (r: TriggerStatus)
        requires
            old(self).wf(),
        ensures
            final(self).wf(),
            final(self).recent() == joined(old(self).recent(), member),
            final(self).alert() == old(self).alert(),
            final(self).threshold_spec() == old(self).threshold_spec(),
            r == classify(final(self).recent().len(), final(self).threshold_spec()),
    {
        let user = member.user_id;
        match self.find(user) {
            Some(i) => {
                self.recent.set(i, member);
            },
            None => {
                self.recent.push(member);
            },
        }
        let n = self.recent.len();
        if n < self.threshold {
            TriggerStatus::Inactive
        } else if n == self.threshold {
            TriggerStatus::ShouldTrigger
        } else {
            TriggerStatus::Triggered
        }
    }

    /// A copy of the window, in order, for rendering rosters.
    pub fn snapshot_recent(&self) -> (r: Vec<MemberSnapshot>)
        ensures
            r@ == self.recent(),
    {
        let mut out: Vec<MemberSnapshot> = Vec::new();
        let mut i: usize = 0;
        while i < self.recent.len()
            invariant
                i <= self.recent@.len(),
                out@ == self.recent@.take(i as int),
            decreases self.recent@.len() - i,
        {
            out.push(self.recent[i].duplicate());
            assert(self.recent@.take(i as int + 1) == self.recent@.take(i as int).push(self.recent@[i as int]));
            i = i + 1;
        }
        assert(self.recent@.take(i as int) == self.recent@);
        out
    }

    /// Empties the window and forgets the raid alert.
    pub fn clear(&mut self)
        ensures
            final(self).wf(),
            final(self).recent() == Seq::<MemberSnapshot>::empty(),
            final(self).alert() == None::<u64>,
            final(self).threshold_spec() == old(self).threshold_spec(),
    {
        self.recent.clear();
        self.active_raid_alert = None;
    }

    /// Records the raid alert now awaiting a vote.
    pub fn set_active_alert(&mut self, handle: u64)
        ensures
            final(self).recent() == old(self).recent(),
            final(self).alert() == Some(handle),
            final(self).threshold_spec() == old(self).threshold_spec(),
    {
        self.active_raid_alert = Some(handle);
    }

    /// Forgets `user` unless a raid alert is in flight; true where it was removed.
    pub fn evict_if_no_raid(&mut self, user: u64) -> (r: bool)
        requires
            old(self).wf(),
        ensures
            final(self).wf(),
            final(self).alert() == old(self).alert(),
            final(self).threshold_spec() == old(self).threshold_spec(),
            old(self).alert().is_some() ==> final(self).recent() == old(self).recent() && !r,
            old(self).alert().is_none() ==> final(self).recent() == without(old(self).recent(), user)
                && r == has_user(old(self).recent(), user),
    {
        if self.active_raid_alert.is_some() {
            return false;
        }
        match self.find(user) {
            Some(i) => {
                let ghost s = self.recent@;
                self.recent.remove(i);
                assert forall|a: int, b: int| 0 <= a < b < self.recent@.len()
                    implies self.recent@[a].user_id != self.recent@[b].user_id by {
                    let a0 = if a < i { a } else { a + 1 };
                    let b0 = if b < i { b } else { b + 1 };
                    assert(self.recent@[a] == s[a0]);
                    assert(self.recent@[b] == s[b0]);
                }
                true
            },
            None => false,
        }
    }

    /// Removes and returns the whole window; the alert is left as it was.
    pub fn take_all(&mut self) -> (r: Vec<MemberSnapshot>)
        requires
            old(self).wf(),
        ensures
            final(self).wf(),
            r@ == old(self).recent(),
            final(self).recent() == Seq::<MemberSnapshot>::empty(),
            final(self).alert() == old(self).alert(),
            final(self).threshold_spec() == old(self).threshold_spec(),
    {
        let mut out: Vec<MemberSnapshot> = Vec::new();
        std::mem::swap(&mut out, &mut self.recent);
        out
    }
}

} // verus!
