//! Events delivered by the gateway, and the member records captured from them.
use vstd::prelude::*;

verus! {

/// A reaction symbol, as the configuration names them.
#[derive(Clone, Copy, Debug, PartialEq, Eq, Structural)]
pub enum Symbol {
    Approve,
    Deny,
    Clear,
    Ban,
    Other,
}

/// Who joined, captured at join time so that rosters stay readable later.
#[derive(Clone, Debug)]
pub struct MemberSnapshot {
    pub user_id: u64,
    pub name: String,
    pub discriminator: u16,
}

impl MemberSnapshot {
    pub fn new(user_id: u64, name: String, discriminator: u16) -> (r: MemberSnapshot)
        ensures
            r.user_id == user_id,
            r.name == name,
            r.discriminator == discriminator,
    {
        MemberSnapshot { user_id, name, discriminator }
    }

    /// A copy equal to `self` in every field.
    pub fn duplicate(&self) -> (r: MemberSnapshot)
        ensures
            r == *self,
    {
        MemberSnapshot { user_id: self.user_id, name: self.name.clone(), discriminator: self.discriminator }
    }
}

/// One event of the gateway stream that the core consumes.
#[derive(Clone, Debug)]
pub enum Event {
    MemberJoined { member: MemberSnapshot },
    ReactionAdded { message: u64, user: u64, symbol: Symbol },
}

} // verus!
