//! Configuration of the moderated server and the decisions of the approval
//! workflow.
use crate::correlator::Filter;
use crate::event::Symbol;
use vstd::prelude::*;

verus! {

/// Identifiers and limits loaded once at startup.
#[derive(Clone, Copy, Debug)]
pub struct Config {
    pub guild_id: u64,
    /// Where approval prompts and raid alerts are posted.
    pub review_channel: u64,
    /// Where approved members are welcomed.
    pub welcome_channel: u64,
    /// The role every approved member gets.
    pub base_role: u64,
    /// The color roles, one of which each approved member gets.
    pub color_roles: [u64; 5],
    /// Window size at which a raid alert is raised.
    pub raid_threshold: usize,
    /// Seconds after an unremarkable join before it is forgotten.
    pub grace_secs: u64,
    /// Seconds a raid vote stays open.
    pub vote_secs: u64,
    /// Seconds to wait after attaching reactions before reading votes.
    pub settle_secs: u64,
}

/// The role-table entry for `user`: identifier modulo the table size.
pub open spec fn color_index(user: u64) -> int {
    (user % 5) as int
}

/// An outbound action that completes an approval.
#[derive(Clone, Copy, Debug, PartialEq, Eq, Structural)]
pub enum Action {
    GrantRole { user: u64, role: u64 },
    RemoveMember { user: u64 },
    Welcome { user: u64 },
}

pub open spec fn approval_actions_spec(c: Config, user: u64, vote: Symbol) -> Seq<Action> {
    if vote == Symbol::Deny {
        seq![Action::RemoveMember { user }]
    } else {
        seq![
            Action::GrantRole { user, role: c.base_role },
            Action::GrantRole { user, role: c.color_roles@[color_index(user)] },
            Action::Welcome { user },
        ]
    }
}

impl Config {
    /// The color role that `user` gets on approval.
    pub fn color_role(&self, user: u64) -> (r: u64)
        ensures
            r == self.color_roles@[color_index(user)],
    {
        self.color_roles[(user % 5) as usize]
    }

    /// What approves or denies a candidate: a vote on its prompt.
    pub fn approval_filter(&self, prompt: u64) -> (r: Filter)
        ensures
            r == (Filter { message: prompt, first: Symbol::Approve, second: Symbol::Deny }),
    {
        Filter { message: prompt, first: Symbol::Approve, second: Symbol::Deny }
    }

    /// What decides a raid: a vote on its alert.
    pub fn raid_filter(&self, alert: u64) -> (r: Filter)
        ensures
            r == (Filter { message: alert, first: Symbol::Clear, second: Symbol::Ban }),
    {
        Filter { message: alert, first: Symbol::Clear, second: Symbol::Ban }
    }

    /// The actions that a moderator's `vote` on `user`'s prompt calls for: a
    /// denial removes the member; any other vote grants the base role and the
    /// member's color role, then welcomes the member.
    pub fn approval_actions(&self, user: u64, vote: Symbol) -> (r: Vec<Action>)
        ensures
            r@ == approval_actions_spec(*self, user, vote),
    {
        if vote == Symbol::Deny {
            vec![Action::RemoveMember { user }]
        } else {
            let color = self.color_role(user);
            vec![
                Action::GrantRole { user, role: self.base_role },
                Action::GrantRole { user, role: color },
                Action::Welcome { user },
            ]
        }
    }
}

} // verus!
