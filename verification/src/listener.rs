use vstd::prelude::*;

use crate::events::EventTag;

verus! {

/// A handle to a listener registered in the reactive system.
///
/// It records the listener's identifier, the optional target variable it is
/// scoped to, and the identity of the event it was registered for.
#[derive(Debug, Clone, Copy, PartialEq, Eq, Hash, Structural)]
pub struct Listener {
    pub id: u128,
    pub target: Option<u128>,
    pub tag: EventTag,
}

/// A handler's preference as to whether the effects of its event should be
/// followed through.
#[derive(Debug, Clone, Copy, Default, PartialEq, Eq, Hash, Structural)]
pub enum Vote {
    /// Choose to abstain from voting
    #[default]
    Abstain,
    /// Vote to cancel the effects of an event
    Cancel,
    /// Vote to proceed with the effects of an event
    Proceed,
}

/// The consensus among the handlers of one dispatch.
///
/// A built-in lifecycle event is treated as cancelled iff the votes to
/// cancel strictly outnumber the votes to proceed. Custom events interpret
/// the tally however they wish.
#[derive(Debug, Clone, Copy, PartialEq, Eq, Hash, Structural)]
pub struct Votes {
    /// The number of handlers that abstained
    pub abstain: usize,
    /// The number of handlers that voted to cancel
    pub cancel: usize,
    /// The number of handlers that voted to proceed
    pub proceed: usize,
}

impl Default for Votes {
    /// An empty tally.
    fn default() -> (r: Self)
        ensures
            r == (Votes { abstain: 0, cancel: 0, proceed: 0 }),
    {
        Votes { abstain: 0, cancel: 0, proceed: 0 }
    }
}

/// The tally of one dispatch, with unbounded counts, as the model speaks of
/// it.
pub struct VotesModel {
    pub abstain: int,
    pub cancel: int,
    pub proceed: int,
}

impl View for Votes {
    type V = VotesModel;

    open spec fn view(&self) -> VotesModel {
        VotesModel { abstain: self.abstain as int, cancel: self.cancel as int, proceed: self.proceed as int }
    }
}

/// The outcome of a dispatch, as the model speaks of it.
pub open spec fn votes_res(r: Result<Votes, ()>) -> Result<VotesModel, ()> {
    match r {
        Ok(v) => Ok(v@),
        Err(e) => Err(e),
    }
}

} // verus!
