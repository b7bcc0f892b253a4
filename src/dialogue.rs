//! Where a conversation with a user stands.
use vstd::prelude::*;

verus! {

/// The step a user's conversation is at.
#[derive(Debug, Clone, Copy, PartialEq, Eq, Structural)]
pub enum State {
    Start,
    /// The next message is the address of a repository to subscribe to.
    ReceiveRepoUrl,
}

impl Default for State {
    fn default() -> (r: Self)
        ensures
            r == State::Start,
    {
        State::Start
    }
}

} // verus!
