use gatekeeper::approval::{Action, Config};
use gatekeeper::correlator::{Correlator, Filter};
use gatekeeper::event::{Event, MemberSnapshot, Symbol};
use gatekeeper::ingest::ingest;
use gatekeeper::raid::{follow_up, raid_decision, BanSweep, FollowUp, RaidDecision};
use gatekeeper::tracker::{MembershipTracker, TriggerStatus};

fn member(id: u64) -> MemberSnapshot {
    MemberSnapshot::new(id, format!("user{}", id), 1000 + id as u16)
}

fn config() -> Config {
    Config {
        guild_id: 1,
        review_channel: 2,
        welcome_channel: 3,
        base_role: 100,
        color_roles: [200, 201, 202, 203, 204],
        raid_threshold: 3,
        grace_secs: 10,
        vote_secs: 300,
        settle_secs: 3,
    }
}

fn ids(v: &[MemberSnapshot]) -> Vec<u64> {
    v.iter().map(|m| m.user_id).collect()
}

#[test]
fn three_joins_trigger_then_fourth_is_triggered() {
    let mut t = MembershipTracker::new(3);
    assert_eq!(t.record_join(member(10)), TriggerStatus::Inactive);
    assert_eq!(t.record_join(member(11)), TriggerStatus::Inactive);
    assert_eq!(t.record_join(member(12)), TriggerStatus::ShouldTrigger);
    assert_eq!(t.record_join(member(13)), TriggerStatus::Triggered);
    assert_eq!(t.len(), 4);
}

#[test]
fn should_trigger_fires_once_over_a_long_run() {
    let mut t = MembershipTracker::new(4);
    let mut triggers = 0;
    for id in 0..20u64 {
        let s = t.record_join(member(id));
        if s == TriggerStatus::ShouldTrigger {
            triggers += 1;
            assert_eq!(id, 3);
        }
        if id < 3 {
            assert_eq!(s, TriggerStatus::Inactive);
        }
        if id > 3 {
            assert_eq!(s, TriggerStatus::Triggered);
        }
    }
    assert_eq!(triggers, 1);
}

#[test]
fn rejoin_overwrites_the_snapshot() {
    let mut t = MembershipTracker::new(3);
    t.record_join(member(1));
    t.record_join(member(2));
    let s = t.record_join(MemberSnapshot::new(1, "renamed".to_string(), 7));
    assert_eq!(s, TriggerStatus::Inactive);
    let snap = t.snapshot_recent();
    assert_eq!(ids(&snap), vec![1, 2]);
    assert_eq!(snap[0].name, "renamed");
    assert_eq!(snap[0].discriminator, 7);
}

#[test]
fn clear_empties_window_and_restarts_cycle() {
    let mut t = MembershipTracker::new(3);
    for id in 1..=3u64 {
        t.record_join(member(id));
    }
    t.set_active_alert(55);
    assert_eq!(t.active_alert(), Some(55));
    t.clear();
    assert_eq!(t.len(), 0);
    assert_eq!(t.active_alert(), None);
    assert_eq!(t.record_join(member(9)), TriggerStatus::Inactive);
    assert_eq!(t.len(), 1);
}

#[test]
fn debounce_evicts_without_raid() {
    let mut t = MembershipTracker::new(3);
    t.record_join(member(1));
    t.record_join(member(2));
    assert!(t.evict_if_no_raid(1));
    assert_eq!(ids(&t.snapshot_recent()), vec![2]);
    assert!(!t.evict_if_no_raid(1));
    assert_eq!(t.len(), 1);
}

#[test]
fn debounce_never_evicts_during_raid() {
    let mut t = MembershipTracker::new(2);
    t.record_join(member(1));
    t.record_join(member(2));
    t.set_active_alert(77);
    assert!(!t.evict_if_no_raid(1));
    assert!(!t.evict_if_no_raid(2));
    assert_eq!(ids(&t.snapshot_recent()), vec![1, 2]);
}

#[test]
fn take_all_drains_window_and_keeps_alert() {
    let mut t = MembershipTracker::new(2);
    t.record_join(member(4));
    t.record_join(member(5));
    t.set_active_alert(9);
    let all = t.take_all();
    assert_eq!(ids(&all), vec![4, 5]);
    assert_eq!(t.len(), 0);
    assert_eq!(t.active_alert(), Some(9));
}

#[test]
fn dispatch_resolves_earliest_matching_only() {
    let mut c = Correlator::new();
    let a = c.register(Filter::new(7, Symbol::Clear, Symbol::Ban), None).unwrap();
    let b = c.register(Filter::new(7, Symbol::Clear, Symbol::Ban), None).unwrap();
    let other = c.register(Filter::new(8, Symbol::Approve, Symbol::Deny), None).unwrap();
    assert_eq!((a, b, other), (0, 1, 2));
    let e = Event::ReactionAdded { message: 7, user: 42, symbol: Symbol::Ban };
    assert_eq!(c.dispatch(&e), Some(a));
    assert!(!c.is_pending(a));
    assert!(c.is_pending(b));
    assert!(c.is_pending(other));
    assert_eq!(c.dispatch(&e), Some(b));
    assert_eq!(c.dispatch(&e), None);
    assert_eq!(c.len(), 1);
}

#[test]
fn dispatch_ignores_other_symbols_and_joins() {
    let mut c = Correlator::new();
    let a = c.register(Filter::new(7, Symbol::Approve, Symbol::Deny), None).unwrap();
    let wrong = Event::ReactionAdded { message: 7, user: 1, symbol: Symbol::Clear };
    assert_eq!(c.dispatch(&wrong), None);
    let join = Event::MemberJoined { member: member(3) };
    assert_eq!(c.dispatch(&join), None);
    let right = Event::ReactionAdded { message: 7, user: 1, symbol: Symbol::Deny };
    assert_eq!(c.dispatch(&right), Some(a));
    assert_eq!(c.len(), 0);
}

#[test]
fn expired_wait_times_out_once_and_never_resolves() {
    let mut c = Correlator::new();
    let raid = c.register(Filter::new(5, Symbol::Clear, Symbol::Ban), Some(300)).unwrap();
    let open = c.register(Filter::new(6, Symbol::Approve, Symbol::Deny), None).unwrap();
    assert!(c.expire(299).is_empty());
    let gone = c.expire(300);
    assert_eq!(gone.len(), 1);
    assert_eq!(gone[0].id, raid);
    assert!(c.expire(1000).is_empty());
    let late = Event::ReactionAdded { message: 5, user: 1, symbol: Symbol::Clear };
    assert_eq!(c.dispatch(&late), None);
    assert!(c.is_pending(open));
}

#[test]
fn ban_sweep_bans_each_once_and_drains_late_joins() {
    let mut t = MembershipTracker::new(3);
    for id in 1..=3u64 {
        t.record_join(member(id));
    }
    t.set_active_alert(900);
    let mut sweep = BanSweep::new();
    assert_eq!(sweep.next_batch(&mut t), vec![1, 2, 3]);
    assert_eq!(t.len(), 0);
    assert_eq!(t.active_alert(), Some(900));
    t.record_join(member(4));
    t.record_join(member(2));
    assert_eq!(sweep.next_batch(&mut t), vec![4]);
    assert_eq!(t.len(), 0);
    assert_eq!(sweep.next_batch(&mut t), Vec::<u64>::new());
    assert_eq!(t.active_alert(), None);
    assert_eq!(sweep.banned_count(), 4);
}

#[test]
fn raid_vote_outcomes() {
    assert_eq!(raid_decision(Some(Symbol::Clear)), RaidDecision::Clear);
    assert_eq!(raid_decision(Some(Symbol::Ban)), RaidDecision::BanAll);
    assert_eq!(raid_decision(None), RaidDecision::BanAll);
}

#[test]
fn join_statuses_fan_out() {
    assert_eq!(follow_up(TriggerStatus::Inactive), FollowUp::StartDebounce);
    assert_eq!(follow_up(TriggerStatus::ShouldTrigger), FollowUp::StartRaid);
    assert_eq!(follow_up(TriggerStatus::Triggered), FollowUp::UpdateRaid);
}

#[test]
fn deny_removes_without_roles() {
    let c = config();
    assert_eq!(c.approval_actions(12, Symbol::Deny), vec![Action::RemoveMember { user: 12 }]);
}

#[test]
fn approve_grants_base_and_color_role() {
    let c = config();
    let user = 787463754823630873u64;
    let expected_color = [200, 201, 202, 203, 204][(user % 5) as usize];
    assert_eq!(expected_color, 203);
    assert_eq!(
        c.approval_actions(user, Symbol::Approve),
        vec![
            Action::GrantRole { user, role: 100 },
            Action::GrantRole { user, role: 203 },
            Action::Welcome { user },
        ]
    );
    assert_eq!(c.color_role(10), 200);
    assert_eq!(c.color_role(14), 204);
}

#[test]
fn filters_name_the_vote_choices() {
    let c = config();
    assert_eq!(c.approval_filter(5), Filter::new(5, Symbol::Approve, Symbol::Deny));
    assert_eq!(c.raid_filter(6), Filter::new(6, Symbol::Clear, Symbol::Ban));
}

#[test]
fn ingest_dispatches_then_tracks_joins() {
    let mut c = Correlator::new();
    let mut t = MembershipTracker::new(2);
    let w = c.register(Filter::new(3, Symbol::Approve, Symbol::Deny), None).unwrap();
    let s1 = ingest(&mut c, &mut t, Event::MemberJoined { member: member(1) });
    assert_eq!(s1.resolved, None);
    assert_eq!(s1.follow_up, Some(FollowUp::StartDebounce));
    let s2 = ingest(&mut c, &mut t, Event::MemberJoined { member: member(2) });
    assert_eq!(s2.follow_up, Some(FollowUp::StartRaid));
    let s3 = ingest(&mut c, &mut t, Event::ReactionAdded { message: 3, user: 9, symbol: Symbol::Approve });
    assert_eq!(s3.resolved, Some(w));
    assert_eq!(s3.follow_up, None);
    assert_eq!(t.len(), 2);
}
