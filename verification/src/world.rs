//! The world: one route and the agent's position, mutated only through
//! the single `advance` transition.

use vstd::prelude::*;
use crate::route::{PortalState, Route, Step, close_portal_spec};

verus! {

/// Where the agent stands relative to the route: before step 0, at step
/// `n` (having traversed `n` real steps; `Step(length)` means "just past
/// the last real step, about to finish"), or past the end. The first
/// position reached from `Start` is `Step(1)` (on an empty route, where
/// no step position exists, it is `Finish` straight away).
#[derive(Debug, PartialEq, Eq, Structural, Clone, Copy)]
pub enum AntPosition {
    Start,
    Step(usize),
    Finish,
}

/// Whether the agent at `pos` can take a tick on a route of `len` steps:
/// at `Step(n)` the transition consults the step at index `n` (unless
/// `n == len`, where it finishes), so `n` must not lie past the length.
pub open spec fn position_in_range(pos: AntPosition, len: nat) -> bool {
    pos matches AntPosition::Step(n) ==> n <= len
}

/// The position one tick moves the agent to: from `Start` to `Step(1)`,
/// or straight to `Finish` on an empty route; from `Step(len)` to
/// `Finish`; from `Step(n)` with `n < len` to the destination of an open
/// portal at index `n`, or to `Step(n + 1)` when that step is empty or a
/// closed portal; `Finish` is terminal.
pub open spec fn next_position(steps: Seq<Step>, pos: AntPosition) -> AntPosition {
    match pos {
        AntPosition::Start => if steps.len() == 0 {
            AntPosition::Finish
        } else {
            AntPosition::Step(1)
        },
        AntPosition::Step(n) => if n == steps.len() {
            AntPosition::Finish
        } else {
            match steps[n as int] {
                Step::Portal(PortalState::Open, destination) => AntPosition::Step(destination),
                _ => AntPosition::Step((n + 1) as usize),
            }
        },
        AntPosition::Finish => AntPosition::Finish,
    }
}

/// The step sequence one tick leaves behind: the open portal the agent
/// jumps through closes; in every other case the route is unchanged.
pub open spec fn next_route(steps: Seq<Step>, pos: AntPosition) -> Seq<Step> {
    match pos {
        AntPosition::Step(n) => if n < steps.len() && (steps[n as int] matches Step::Portal(
            PortalState::Open,
            _,
        )) {
            close_portal_spec(steps, n as int)
        } else {
            steps
        },
        _ => steps,
    }
}

/// The route and position after `k` ticks.
pub open spec fn advance_many(steps: Seq<Step>, pos: AntPosition, k: nat) -> (Seq<Step>, AntPosition)
    decreases k,
{
    if k == 0 {
        (steps, pos)
    } else {
        let prev = advance_many(steps, pos, (k - 1) as nat);
        (next_route(prev.0, prev.1), next_position(prev.0, prev.1))
    }
}

/// One route and one agent position, jointly updated by `advance`.
#[derive(Debug)]
pub struct World {
    pub route: Route,
    pub ant_position: AntPosition,
}

impl World {
    /// A world with the given steps and the agent before the route.
    pub fn new(steps: Vec<Step>) -> (w: World)
        ensures
            w.route.steps@ == steps@,
            w.ant_position == AntPosition::Start,
    {
        World { route: Route::new(steps), ant_position: AntPosition::Start }
    }

    /// A world with the given steps and the agent already at an arbitrary
    /// position, for isolated scenario construction.
    pub fn new_from_position(steps: Vec<Step>, ant_position: AntPosition) -> (w: World)
        ensures
            w.route.steps@ == steps@,
            w.ant_position == ant_position,
    {
        World { route: Route::new(steps), ant_position }
    }

    /// One atomic tick: the agent's position and the route move together
    /// to `next_position` and `next_route`. A single call performs exactly
    /// one transition; a teleport never chains through a second portal.
    pub fn advance(&mut self)
        requires
            position_in_range(old(self).ant_position, old(self).route.steps@.len()),
        ensures
            final(self).ant_position == next_position(
                old(self).route.steps@,
                old(self).ant_position,
            ),
            final(self).route.steps@ == next_route(old(self).route.steps@, old(self).ant_position),
    {
        match self.ant_position {
            AntPosition::Start => {
                if self.route.steps.len() == 0 {
                    self.ant_position = AntPosition::Finish;
                } else {
                    self.ant_position = AntPosition::Step(1);
                }
            },
            AntPosition::Step(n) => {
                if n == self.route.steps.len() {
                    self.ant_position = AntPosition::Finish;
                } else {
                    match self.route.steps[n] {
                        Step::Portal(PortalState::Open, destination) => {
                            self.ant_position = AntPosition::Step(destination);
                            self.route.steps[n] = Step::Portal(PortalState::Closed, destination);
                        },
                        _ => {
                            self.ant_position = AntPosition::Step(n + 1);
                        },
                    }
                }
            },
            AntPosition::Finish => {},
        }
    }
}

/// Every portal on the route points at a step inside the route.
pub open spec fn destinations_in_range(steps: Seq<Step>) -> bool {
    forall|i: int|
        0 <= i < steps.len() ==> ((#[trigger] steps[i]) matches Step::Portal(_, destination)
            ==> destination < steps.len())
}

/// Law: a world whose portals all point inside the route can tick
/// forever. One tick keeps the agent's position in range, keeps every
/// portal destination in range, and never changes the route's length.
pub proof fn lemma_advance_keeps_world_in_range(steps: Seq<Step>, pos: AntPosition)
    requires
        destinations_in_range(steps),
        position_in_range(pos, steps.len()),
    ensures
        next_route(steps, pos).len() == steps.len(),
        position_in_range(next_position(steps, pos), steps.len()),
        destinations_in_range(next_route(steps, pos)),
{
}

/// How many open portals the route still holds.
pub open spec fn open_portal_count(steps: Seq<Step>) -> nat
    decreases steps.len(),
{
    if steps.len() == 0 {
        0
    } else {
        open_portal_count(steps.drop_last()) + (if steps.last() matches Step::Portal(
            PortalState::Open,
            _,
        ) {
            1nat
        } else {
            0nat
        })
    }
}

/// An upper bound on the ticks still needed to reach `Finish`: each tick
/// either closes a portal for good or moves the position strictly
/// forward, so the bound shrinks on every tick.
spec fn ticks_measure(steps: Seq<Step>, pos: AntPosition) -> int {
    match pos {
        AntPosition::Start => open_portal_count(steps) * (steps.len() + 1) + steps.len() + 1int,
        AntPosition::Step(n) => open_portal_count(steps) * (steps.len() + 1) + steps.len() + 1 - n,
        AntPosition::Finish => 0,
    }
}

/// Taking `k` ticks is one tick followed by `k - 1` ticks.
proof fn lemma_advance_many_first_step(steps: Seq<Step>, pos: AntPosition, k: nat)
    requires
        k >= 1,
    ensures
        advance_many(steps, pos, k) == advance_many(
            next_route(steps, pos),
            next_position(steps, pos),
            (k - 1) as nat,
        ),
    decreases k,
{
    if k == 1 {
        assert(advance_many(steps, pos, 0) == (steps, pos));
    } else {
        lemma_advance_many_first_step(steps, pos, (k - 1) as nat);
    }
}

/// From `Finish`, any number of ticks leaves the world unchanged.
proof fn lemma_finish_absorbs(steps: Seq<Step>, k: nat)
    ensures
        advance_many(steps, AntPosition::Finish, k) == (steps, AntPosition::Finish),
    decreases k,
{
    if k > 0 {
        lemma_finish_absorbs(steps, (k - 1) as nat);
    }
}

/// Closing an open portal lowers the open-portal count by exactly one.
proof fn lemma_close_open_portal_count(steps: Seq<Step>, n: int)
    requires
        0 <= n < steps.len(),
        steps[n] matches Step::Portal(PortalState::Open, _),
    ensures
        open_portal_count(close_portal_spec(steps, n)) + 1 == open_portal_count(steps),
    decreases steps.len(),
{
    let updated = close_portal_spec(steps, n);
    if n == steps.len() - 1 {
        assert(updated.drop_last() =~= steps.drop_last());
    } else {
        assert(updated.drop_last() =~= close_portal_spec(steps.drop_last(), n));
        lemma_close_open_portal_count(steps.drop_last(), n);
    }
}

/// One tick taken anywhere short of `Finish` strictly shrinks the
/// measure: a teleport closes one portal, any other move gains a step.
proof fn lemma_tick_shrinks_measure(steps: Seq<Step>, pos: AntPosition)
    requires
        steps.len() <= usize::MAX,
        destinations_in_range(steps),
        position_in_range(pos, steps.len()),
        pos !is Finish,
    ensures
        0 <= ticks_measure(next_route(steps, pos), next_position(steps, pos)) < ticks_measure(
            steps,
            pos,
        ),
{
    let p = open_portal_count(steps);
    let l = steps.len() as int;
    assert(p * (l + 1) >= 0) by (nonlinear_arith)
        requires
            p >= 0 && l >= 0,
    ;
    match pos {
        AntPosition::Step(n) => {
            if n < steps.len() {
                match steps[n as int] {
                    Step::Portal(PortalState::Open, destination) => {
                        lemma_close_open_portal_count(steps, n as int);
                        assert((p - 1) * (l + 1) >= 0 && (p - 1) * (l + 1) + (l + 1) == p * (l + 1))
                            by (nonlinear_arith)
                            requires
                                p >= 1 && l >= 0,
                        ;
                    },
                    _ => {},
                }
            }
        },
        _ => {},
    }
}

/// Any number of ticks at least the measure lands the agent at `Finish`.
proof fn lemma_measure_bounds_walk(steps: Seq<Step>, pos: AntPosition, k: nat)
    requires
        steps.len() <= usize::MAX,
        destinations_in_range(steps),
        position_in_range(pos, steps.len()),
        k >= ticks_measure(steps, pos),
    ensures
        advance_many(steps, pos, k).1 == AntPosition::Finish,
    decreases k,
{
    if pos is Finish {
        lemma_finish_absorbs(steps, k);
    } else {
        lemma_tick_shrinks_measure(steps, pos);
        lemma_advance_keeps_world_in_range(steps, pos);
        lemma_advance_many_first_step(steps, pos, k);
        lemma_measure_bounds_walk(
            next_route(steps, pos),
            next_position(steps, pos),
            (k - 1) as nat,
        );
    }
}

/// Law: with every portal destination inside the route, the walk
/// terminates. From any in-range position, any run of at least
/// `(open portals + 1) * (length + 2)` ticks ends at `Finish` — each
/// teleport permanently closes the portal it used, and every other tick
/// moves the position strictly forward, so no loop is unbounded — and
/// since this holds of every larger `k` too, the agent then stays at
/// `Finish` forever.
pub proof fn lemma_walk_reaches_finish(steps: Seq<Step>, pos: AntPosition, k: nat)
    requires
        steps.len() <= usize::MAX,
        destinations_in_range(steps),
        position_in_range(pos, steps.len()),
        k >= (open_portal_count(steps) + 1) * (steps.len() + 2),
    ensures
        advance_many(steps, pos, k).1 == AntPosition::Finish,
{
    let p = open_portal_count(steps);
    let l = steps.len() as int;
    assert(p * (l + 1) + l + 1 <= (p + 1) * (l + 2)) by (nonlinear_arith)
        requires
            p >= 0 && l >= 0,
    ;
    lemma_measure_bounds_walk(steps, pos, k);
}

/// Law: on a route of length `L` whose steps are all empty, successive
/// ticks from `Start` visit `Step(1)`, `Step(2)`, ..., `Step(L)`, then
/// `Finish`, and stay at `Finish` forever; the route itself never
/// changes. On an empty route the very first tick finishes.
pub proof fn lemma_empty_route_walk(steps: Seq<Step>, k: nat)
    requires
        steps.len() <= usize::MAX,
        forall|i: int| 0 <= i < steps.len() ==> steps[i] == Step::Empty,
    ensures
        advance_many(steps, AntPosition::Start, k).0 == steps,
        1 <= k <= steps.len() ==> advance_many(steps, AntPosition::Start, k).1 == AntPosition::Step(
            k as usize,
        ),
        k > steps.len() ==> advance_many(steps, AntPosition::Start, k).1 == AntPosition::Finish,
    decreases k,
{
    if k > 0 {
        lemma_empty_route_walk(steps, (k - 1) as nat);
    }
}

/// Law: from `Step(n)` with `n` equal to the route's length, one tick
/// yields `Finish` and leaves the route unchanged; every further tick
/// stays at `Finish` with the route still unchanged.
pub proof fn lemma_finish_terminal(steps: Seq<Step>, n: usize, k: nat)
    requires
        n == steps.len(),
    ensures
        next_position(steps, AntPosition::Step(n)) == AntPosition::Finish,
        next_route(steps, AntPosition::Step(n)) == steps,
        k >= 1 ==> advance_many(steps, AntPosition::Step(n), k) == (steps, AntPosition::Finish),
    decreases k,
{
    if k == 1 {
        assert(advance_many(steps, AntPosition::Step(n), 0) == (steps, AntPosition::Step(n)));
    } else if k > 1 {
        lemma_finish_terminal(steps, n, (k - 1) as nat);
    }
}

/// Law: a closed portal never alters the transition. With the agent at
/// its index, the move is the same as if that step were empty, and the
/// route is left untouched either way.
pub proof fn lemma_closed_portal_inert(steps: Seq<Step>, n: usize, destination: usize)
    requires
        n < steps.len(),
        steps[n as int] == Step::Portal(PortalState::Closed, destination),
    ensures
        next_position(steps, AntPosition::Step(n)) == next_position(
            steps.update(n as int, Step::Empty),
            AntPosition::Step(n),
        ),
        next_route(steps, AntPosition::Step(n)) == steps,
        next_route(steps.update(n as int, Step::Empty), AntPosition::Step(n)) == steps.update(
            n as int,
            Step::Empty,
        ),
{
}

/// Law: an open portal at index `n` with destination `d` teleports the
/// agent from `Step(n)` straight to `Step(d)` and flips exactly that
/// portal to closed, preserving its destination; no other step changes.
pub proof fn lemma_open_portal_teleports(steps: Seq<Step>, n: usize, destination: usize)
    requires
        n < steps.len(),
        steps[n as int] == Step::Portal(PortalState::Open, destination),
    ensures
        next_position(steps, AntPosition::Step(n)) == AntPosition::Step(destination),
        next_route(steps, AntPosition::Step(n)) == steps.update(
            n as int,
            Step::Portal(PortalState::Closed, destination),
        ),
{
}

} // verus!
