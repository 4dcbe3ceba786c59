//! The raid vote and the ban sweep that follows a ban vote or a silent deadline.
use crate::event::{MemberSnapshot, Symbol};
use crate::tracker::{user_ids, unique_ids, MembershipTracker, TriggerStatus};
use vstd::prelude::*;

verus! {

/// What a join's status asks the caller to start.
#[derive(Clone, Copy, Debug, PartialEq, Eq, Structural)]
pub enum FollowUp {
    /// Post a raid alert and await the vote.
    StartRaid,
    /// Re-render the roster of the alert in flight.
    UpdateRaid,
    /// Forget the member after the grace period, unless a raid is in flight.
    StartDebounce,
}

pub open spec fn follow_up_spec(status: TriggerStatus) -> FollowUp {
    match status {
        TriggerStatus::Inactive => FollowUp::StartDebounce,
        TriggerStatus::ShouldTrigger => FollowUp::StartRaid,
        TriggerStatus::Triggered => FollowUp::UpdateRaid,
    }
}

/// The one workflow that a join with `status` fans out into.
pub fn follow_up(status: TriggerStatus) -> (r: FollowUp)
    ensures
        r == follow_up_spec(status),
{
    match status {
        TriggerStatus::Inactive => FollowUp::StartDebounce,
        TriggerStatus::ShouldTrigger => FollowUp::StartRaid,
        TriggerStatus::Triggered => FollowUp::UpdateRaid,
    }
}

/// The outcome of a raid vote.
#[derive(Clone, Copy, Debug, PartialEq, Eq, Structural)]
pub enum RaidDecision {
    Clear,
    BanAll,
}

/// A "clear" vote clears; a "ban" vote, or no vote before the deadline
/// (`None`), bans everyone tracked.
pub fn raid_decision(vote: Option<Symbol>) -> (r: RaidDecision)
    ensures
        r == (if vote == Some(Symbol::Clear) {
            RaidDecision::Clear
        } else {
            RaidDecision::BanAll
        }),
{
    match vote {
        Some(Symbol::Clear) => RaidDecision::Clear,
        _ => RaidDecision::BanAll,
    }
}

pub open spec fn not_in(banned: Seq<u64>) -> spec_fn(u64) -> bool {
    |u: u64| !banned.contains(u)
}

fn contains_id(v: &Vec<u64>, x: u64) -> (r: bool)
    ensures
        r == v@.contains(x),
{
    let mut i: usize = 0;
    while i < v.len()
        invariant
            i <= v@.len(),
            forall|k: int| 0 <= k < i ==> v@[k] != x,
        decreases v@.len() - i,
    {
        if v[i] == x {
            assert(v@[i as int] == x);
            return true;
        }
        i = i + 1;
    }
    false
}

proof fn lemma_filter_no_dup(s: Seq<u64>, p: spec_fn(u64) -> bool)
    requires
        s.no_duplicates(),
    ensures
        s.filter(p).no_duplicates(),
        forall|i: int| 0 <= i < s.filter(p).len() ==> s.contains(#[trigger] s.filter(p)[i]),
        forall|i: int| 0 <= i < s.len() && p(s[i]) ==> s.filter(p).contains(#[trigger] s[i]),
    decreases s.len(),
{
    broadcast use Seq::lemma_filter_push;

    if s.len() > 0 {
        let prev = s.drop_last();
        let x = s.last();
        assert(s == prev.push(x));
        lemma_filter_no_dup(prev, p);
        let f = prev.filter(p);
        assert forall|i: int| 0 <= i < f.len() implies #[trigger] f[i] != x by {
            let k = choose|k: int| 0 <= k < prev.len() && prev[k] == f[i];
            assert(s[k] == prev[k]);
        }
        assert forall|i: int| 0 <= i < s.filter(p).len() implies s.contains(
            #[trigger] s.filter(p)[i],
        ) by {
            if i < f.len() {
                let k = choose|k: int| 0 <= k < prev.len() && prev[k] == f[i];
                assert(s[k] == prev[k]);
            } else {
                assert(s[s.len() - 1] == x);
            }
        }
        assert forall|i: int| 0 <= i < s.len() && p(s[i]) implies s.filter(p).contains(
            #[trigger] s[i],
        ) by {
            if i < s.len() - 1 {
                assert(s[i] == prev[i]);
                assert(f.contains(prev[i]));
                let k = choose|k: int| 0 <= k < f.len() && f[k] == prev[i];
                assert(s.filter(p)[k] == f[k]);
            } else {
                assert(s.filter(p)[s.filter(p).len() - 1] == x);
            }
        }
    }
}

/// One batch of a ban sweep over `window`, after `banned` were banned: every
/// user in the window is banned once the batch is, nobody is banned twice,
/// and the first batch of a sweep is the whole window.
pub proof fn lemma_sweep_bans_once(banned: Seq<u64>, window: Seq<MemberSnapshot>)
    requires
        banned.no_duplicates(),
        unique_ids(window),
    ensures
        (banned + user_ids(window).filter(not_in(banned))).no_duplicates(),
        forall|i: int|
            0 <= i < window.len() ==> (banned + user_ids(window).filter(not_in(banned))).contains(
                #[trigger] window[i].user_id,
            ),
        banned.len() == 0 ==> user_ids(window).filter(not_in(banned)) == user_ids(window),
{
    let ids = user_ids(window);
    let batch = ids.filter(not_in(banned));
    let all = banned + batch;
    assert(ids.no_duplicates()) by {
        assert forall|i: int, j: int| 0 <= i < ids.len() && 0 <= j < ids.len() && i != j
            implies ids[i] != ids[j] by {
            if i < j {
                assert(window[i].user_id != window[j].user_id);
            } else {
                assert(window[j].user_id != window[i].user_id);
            }
        }
    }
    lemma_filter_no_dup(ids, not_in(banned));
    assert forall|i: int, j: int| 0 <= i < all.len() && 0 <= j < all.len() && i != j
        implies all[i] != all[j] by {
        if i >= banned.len() && j < banned.len() {
            assert(ids.contains(batch[i - banned.len()]));
            assert(not_in(banned)(batch[i - banned.len()]));
            assert(banned.contains(all[j]));
        } else if j >= banned.len() && i < banned.len() {
            assert(not_in(banned)(batch[j - banned.len()]));
            assert(banned.contains(all[i]));
        } else if i >= banned.len() && j >= banned.len() {
            assert(all[i] == batch[i - banned.len()]);
            assert(all[j] == batch[j - banned.len()]);
        }
    }
    assert forall|i: int| 0 <= i < window.len() implies all.contains(#[trigger] window[i].user_id) by {
        let u = window[i].user_id;
        assert(ids[i] == u);
        if banned.contains(u) {
            let k = choose|k: int| 0 <= k < banned.len() && banned[k] == u;
            assert(all[k] == u);
        } else {
            assert(batch.contains(u));
            let k = choose|k: int| 0 <= k < batch.len() && batch[k] == u;
            assert(all[banned.len() + k] == u);
        }
    }
    if banned.len() == 0 {
        assert forall|i: int| 0 <= i < ids.len() implies #[trigger] not_in(banned)(ids[i]) by {}
        lemma_filter_all(ids, not_in(banned));
    }
}

proof fn lemma_filter_all(s: Seq<u64>, p: spec_fn(u64) -> bool)
    requires
        forall|i: int| 0 <= i < s.len() ==> #[trigger] p(s[i]),
    ensures
        s.filter(p) == s,
    decreases s.len(),
{
    broadcast use Seq::lemma_filter_push;

    if s.len() > 0 {
        let prev = s.drop_last();
        assert(s == prev.push(s.last()));
        assert(p(s[s.len() - 1]));
        assert forall|i: int| 0 <= i < prev.len() implies #[trigger] p(prev[i]) by {
            assert(prev[i] == s[i]);
        }
        lemma_filter_all(prev, p);
    } else {
        reveal(Seq::filter);
    }
}

/// The users banned so far by one ban sweep.
pub struct BanSweep {
    banned: Vec<u64>,
}

impl BanSweep {
    pub closed spec fn banned(&self) -> Seq<u64> {
        self.banned@
    }

    /// Nobody is banned twice.
    pub open spec fn wf(&self) -> bool {
        self.banned().no_duplicates()
    }

    pub fn new() -> (r: BanSweep)
        ensures
            r.wf(),
            r.banned() == Seq::<u64>::empty(),
    {
        BanSweep { banned: Vec::new() }
    }

    /// How many users the sweep has banned.
    pub fn banned_count(&self) -> (r: usize)
        ensures
            r == self.banned().len(),
    {
        self.banned.len()
    }

    /// Drains the window and returns, in order, the users in it that this
    /// sweep has not banned yet; they count as banned from now on. When the
    /// window was already empty the sweep is over and the raid alert is
    /// forgotten.
    pub fn next_batch(&mut self, tracker: &mut MembershipTracker) -> (r: Vec<u64>)
        requires
            old(self).wf(),
            old(tracker).wf(),
        ensures
            final(self).wf(),
            final(tracker).wf(),
            r@ == user_ids(old(tracker).recent()).filter(not_in(old(self).banned())),
            final(self).banned() == old(self).banned() + r@,
            final(tracker).recent() == Seq::<MemberSnapshot>::empty(),
            final(tracker).alert() == (if old(tracker).recent().len() == 0 {
                None
            } else {
                old(tracker).alert()
            }),
            final(tracker).threshold_spec() == old(tracker).threshold_spec(),
    {
        broadcast use Seq::lemma_filter_push;

        let batch = tracker.take_all();
        if batch.len() == 0 {
            tracker.clear();
        }
        let ghost ids = user_ids(batch@);
        let ghost b0 = self.banned@;
        let mut out: Vec<u64> = Vec::new();
        let mut j: usize = 0;
        while j < batch.len()
            invariant
                self.banned@ == b0,
                unique_ids(batch@),
                ids == user_ids(batch@),
                j <= batch@.len(),
                out@ == ids.take(j as int).filter(not_in(b0)),
                out@.no_duplicates(),
                forall|a: int| 0 <= a < out@.len() ==> !b0.contains(#[trigger] out@[a]),
                forall|a: int|
                    0 <= a < out@.len() ==> exists|k: int| 0 <= k < j && #[trigger] out@[a] == ids[k],
            decreases batch@.len() - j,
        {
            let u = batch[j].user_id;
            assert(ids[j as int] == u);
            assert(ids.take(j as int + 1) == ids.take(j as int).push(u));
            proof {
                ids.take(j as int).lemma_filter_push(u, not_in(b0));
            }
            if !contains_id(&self.banned, u) {
                assert forall|a: int| 0 <= a < out@.len() implies out@[a] != u by {
                    let k = choose|k: int| 0 <= k < j && out@[a] == ids[k];
                    assert(batch@[k].user_id != batch@[j as int].user_id);
                }
                out.push(u);
                assert(out@[out@.len() - 1] == ids[j as int]);
            }
            j = j + 1;
        }
        assert(ids.take(j as int) == ids);
        let mut m: usize = 0;
        while m < out.len()
            invariant
                m <= out@.len(),
                self.banned@ == b0 + out@.take(m as int),
                self.banned@.no_duplicates(),
                b0.no_duplicates(),
                out@.no_duplicates(),
                forall|a: int| 0 <= a < out@.len() ==> !b0.contains(#[trigger] out@[a]),
            decreases out@.len() - m,
        {
            let u = out[m];
            assert(out@.take(m as int + 1) == out@.take(m as int).push(u));
            assert(!self.banned@.contains(u)) by {
                if self.banned@.contains(u) {
                    let p = choose|p: int| 0 <= p < self.banned@.len() && self.banned@[p] == u;
                    if p >= b0.len() {
                        assert(out@[p - b0.len()] == u);
                    }
                }
            }
            self.banned.push(u);
            m = m + 1;
        }
        assert(out@.take(m as int) == out@);
        out
    }
}

} // verus!
