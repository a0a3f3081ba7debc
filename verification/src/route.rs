//! The route: a fixed-length ordered sequence of steps, and the one
//! mutating operation on it, closing the portal at a given index.

use vstd::prelude::*;

verus! {

/// Whether a portal can still redirect the agent.
#[derive(Debug, PartialEq, Eq, Structural, Clone, Copy)]
pub enum PortalState {
    Open,
    Closed,
}

/// One position of a route: nothing special, or a portal carrying its
/// state and the index it sends the agent to. A closed portal keeps its
/// destination; it is inert, not erased.
#[derive(Debug, PartialEq, Eq, Structural, Clone, Copy)]
pub enum Step {
    Empty,
    Portal(PortalState, usize),
}

/// What a step becomes when the portal at its place is shut: an open
/// portal turns into a closed portal with the same destination, and any
/// other step stays as it is.
pub open spec fn step_closed(s: Step) -> Step {
    match s {
        Step::Portal(PortalState::Open, destination) => Step::Portal(
            PortalState::Closed,
            destination,
        ),
        _ => s,
    }
}

/// The step sequence after closing the portal at index `n`.
pub open spec fn close_portal_spec(steps: Seq<Step>, n: int) -> Seq<Step> {
    steps.update(n, step_closed(steps[n]))
}

/// An ordered sequence of steps, its length fixed at construction.
#[derive(Debug, Clone)]
pub struct Route {
    pub steps: Vec<Step>,
}

impl Route {
    pub fn new(steps: Vec<Step>) -> (r: Route)
        ensures
            r.steps@ == steps@,
    {
        Route { steps }
    }

    /// If the step at index `n` is an open portal, replace it with a
    /// closed portal to the same destination; leave any other step value
    /// unchanged. Never changes the route's length.
    pub fn close_portal(self, n: usize) -> (r: Route)
        requires
            n < self.steps.len(),
        ensures
            r.steps@ == close_portal_spec(self.steps@, n as int),
            r.steps@.len() == self.steps@.len(),
    {
        let mut result = self;
        let replacement = match result.steps[n] {
            Step::Portal(PortalState::Open, destination) => Step::Portal(
                PortalState::Closed,
                destination,
            ),
            step => step,
        };
        result.steps[n] = replacement;
        result
    }
}

/// Law: closing a portal is idempotent. Closing the same index twice
/// yields the same step sequence as closing it once; and closing a step
/// that is not an open portal (an empty step, or an already-closed
/// portal) changes nothing at all.
pub proof fn lemma_close_portal_idempotent(steps: Seq<Step>, n: int)
    requires
        0 <= n < steps.len(),
    ensures
        close_portal_spec(close_portal_spec(steps, n), n) == close_portal_spec(steps, n),
        !(steps[n] matches Step::Portal(PortalState::Open, _)) ==> close_portal_spec(steps, n)
            == steps,
{
    assert(close_portal_spec(close_portal_spec(steps, n), n) =~= close_portal_spec(steps, n));
    if !(steps[n] matches Step::Portal(PortalState::Open, _)) {
        assert(close_portal_spec(steps, n) =~= steps);
    }
}

} // verus!
