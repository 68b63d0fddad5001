//! Deterministic rule engine for a turn-based world simulation:
//! an effect algebra over shared world state, a randomized event
//! scheduler, and a project lifecycle with dynamic costing.

pub mod effects;
pub mod events;
pub mod kinds;
pub mod probability;
pub mod projects;
pub mod rng;
pub mod state;

use vstd::prelude::*;

verus! {

/// Steps of the guided tour through the interface, in order.
#[derive(Clone, Copy, PartialEq, Eq, Structural, Debug)]
pub enum Tutorial {
    Projects,
    ProjectsBack,
    Processes,
    ProcessesBack,
    Parliament,
    Dashboard,
    Regions,
    Plan,
    Ready,
}

impl Tutorial {
    /// The step after this one, if any.
    pub open spec fn next_spec(self) -> Option<Tutorial> {
        match self {
            Tutorial::Projects => Some(Tutorial::ProjectsBack),
            Tutorial::ProjectsBack => Some(Tutorial::Processes),
            Tutorial::Processes => Some(Tutorial::ProcessesBack),
            Tutorial::ProcessesBack => Some(Tutorial::Parliament),
            Tutorial::Parliament => Some(Tutorial::Dashboard),
            Tutorial::Dashboard => Some(Tutorial::Regions),
            Tutorial::Regions => Some(Tutorial::Plan),
            Tutorial::Plan => Some(Tutorial::Ready),
            Tutorial::Ready => None,
        }
    }

    /// Move to the next tutorial step; the final step stays put.
    pub fn advance(&mut self)
        ensures
            old(self).next_spec() is Some ==> *final(self) == old(self).next_spec()->Some_0,
            old(self).next_spec() is None ==> *final(self) == *old(self),
    {
        let next = match self {
            Tutorial::Projects => Some(Tutorial::ProjectsBack),
            Tutorial::ProjectsBack => Some(Tutorial::Processes),
            Tutorial::Processes => Some(Tutorial::ProcessesBack),
            Tutorial::ProcessesBack => Some(Tutorial::Parliament),
            Tutorial::Parliament => Some(Tutorial::Dashboard),
            Tutorial::Dashboard => Some(Tutorial::Regions),
            Tutorial::Regions => Some(Tutorial::Plan),
            Tutorial::Plan => Some(Tutorial::Ready),
            Tutorial::Ready => None,
        };
        if let Some(n) = next {
            *self = n;
        }
    }
}

} // verus!
