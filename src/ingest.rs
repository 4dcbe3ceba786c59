//! One step of the ingestion loop: the correlator sees every event first,
//! then joins go to the tracker.
use crate::correlator::{has_match, is_first_match, Correlator};
use crate::event::Event;
use crate::raid::{follow_up, follow_up_spec, FollowUp};
use crate::tracker::{classify, joined, MembershipTracker};
use vstd::prelude::*;

verus! {

/// What the caller must do after one event.
#[derive(Clone, Copy, Debug, PartialEq, Eq, Structural)]
pub struct Step {
    /// The wait to resume with the event.
    pub resolved: Option<u64>,
    /// The workflow a join starts, besides its approval.
    pub follow_up: Option<FollowUp>,
}

/// Hands `e` to the correlator, then records a join in the tracker and says
/// which workflow the join starts.
pub fn ingest(correlator: &mut Correlator, tracker: &mut MembershipTracker, e: Event) -> (r: Step)
    requires
        old(correlator).wf(),
        old(tracker).wf(),
    ensures
        final(correlator).wf(),
        final(tracker).wf(),
        final(correlator).next_id() == old(correlator).next_id(),
        !has_match(old(correlator).pending(), e) ==> r.resolved.is_none()
            && final(correlator).pending() == old(correlator).pending(),
        forall|i: int|
            #![trigger is_first_match(old(correlator).pending(), e, i)]
            is_first_match(old(correlator).pending(), e, i) ==> r.resolved == Some(
                old(correlator).pending()[i].id,
            ) && final(correlator).pending() == old(correlator).pending().remove(i),
        final(tracker).alert() == old(tracker).alert(),
        final(tracker).threshold_spec() == old(tracker).threshold_spec(),
        match e {
            Event::MemberJoined { member } => {
                &&& final(tracker).recent() == joined(old(tracker).recent(), member)
                &&& r.follow_up == Some(
                    follow_up_spec(
                        classify(final(tracker).recent().len(), final(tracker).threshold_spec()),
                    ),
                )
            },
            Event::ReactionAdded { .. } => {
                &&& final(tracker).recent() == old(tracker).recent()
                &&& r.follow_up.is_none()
            },
        },
{
    let resolved = correlator.dispatch(&e);
    match e {
        Event::MemberJoined { member } => {
            let status = tracker.record_join(member);
            Step { resolved, follow_up: Some(follow_up(status)) }
        },
        Event::ReactionAdded { .. } => Step { resolved, follow_up: None },
    }
}

} // verus!
