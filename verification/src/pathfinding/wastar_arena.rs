//! A* with a pluggable priority, whose records of expanded positions live in
//! a bump arena. The arena is taken back in one piece at the start of every
//! search, so no record outlives the call that made it.
//!
//! With a policy that weighs the estimate more than the cost, the search
//! expands fewer positions and may hand back a path that costs more than the
//! cheapest one: for cost plus `weight` times estimate, at most `weight`
//! times as much.

use super::engine::{answers, Frontier, Limits};
use super::arena::{arena_new, arena_reset, arena_try_with_capacity, ArenaHistory};
use super::model::{search, Task};
use super::weighting::Weighting;
use super::{Goal, Movements, PathResult, Pathfinder};
use crate::cost::Cost;
use std::hash::Hash;
use vstd::prelude::*;
use vstd::std_specs::hash::obeys_key_model;

verus! {

pub struct AStar<F, Pos, W> {
    limits: Limits<F>,
    policy: W,
    frontier: Frontier<F, Pos>,
    arena: bumpalo::Bump,
}

impl<F: Cost, Pos: Copy + Hash + Eq, W: Weighting<F>> AStar<F, Pos, W> {
    /// How far a search may go.
    pub closed spec fn limits(&self) -> Limits<F> {
        self.limits
    }

    /// The open and closed sets as the last search left them.
    pub closed spec fn frontier(&self) -> Frontier<F, Pos> {
        self.frontier
    }

    /// How many positions wait, how many are expanded, and how many nodes
    /// are in the queue, as the last search left them.
    pub fn sizes(&self) -> (counts: (usize, usize, usize))
        requires
            obeys_key_model::<Pos>(),
        ensures
            counts.0 == self.frontier().open_costs().len(),
            counts.1 == self.frontier().expanded_positions().len(),
            counts.2 == self.frontier().queue().len(),
    {
        self.frontier.sizes()
    }

    /// How cost and estimate combine into a priority.
    pub closed spec fn policy(&self) -> W {
        self.policy
    }

    /// What a call of `compute` with these arguments is asked to do.
    pub open spec fn task<G: Goal<F, Pos>, M: Movements<F, Pos>>(
        &self,
        start: Pos,
        goal: G,
        movements: M,
    ) -> Task<F, Pos, G, M, W> {
        Task {
            start,
            goal,
            movements,
            policy: self.policy(),
            bound: self.limits().cost_bound,
            limit: self.limits().node_limit as nat,
        }
    }

    /// An engine without limits that orders its frontier by `w`. `size` is
    /// the number of bytes that the arena starts with; where the allocator
    /// will not give that much, the arena starts empty and grows as needed.
    pub fn with_capacity(size: usize, w: W) -> (engine: Self)
        ensures
            engine.limits().cost_bound.value() == 0,
            engine.limits().node_limit == usize::MAX,
            engine.frontier().is_empty(),
            engine.policy() == w,
    {
        let arena = match arena_try_with_capacity(size) {
            Ok(arena) => arena,
            Err(_) => arena_new(),
        };
        Self { limits: Limits::none(), policy: w, frontier: Frontier::new(), arena }
    }

    /// Sets how far a search may go.
    pub fn set_limits(&mut self, limits: Limits<F>)
        ensures
            final(self).limits() == limits,
            final(self).frontier() == old(self).frontier(),
            final(self).policy() == old(self).policy(),
    {
        self.limits = limits;
    }
}

impl<F: Cost, Pos: Copy + Hash + Eq, W: Weighting<F>> Pathfinder for AStar<F, Pos, W> {
    type F = F;

    type Pos = Pos;

    /// Searches from `start`. What an earlier call left behind is wiped
    /// first, and the records of this call are given up when it returns.
    fn compute<G: Goal<F, Pos>, M: Movements<F, Pos>>(
        &mut self,
        start: Pos,
        goal: G,
        movements: M,
    ) -> (result: PathResult<Vec<Pos>>)
        ensures
            answers(old(self).task(start, goal, movements), result),
            final(self).frontier().holds(search(old(self).task(start, goal, movements)).last),
            final(self).limits() == old(self).limits(),
            final(self).policy() == old(self).policy(),
    {
        arena_reset(&mut self.arena);
        let mut history = ArenaHistory::new(&self.arena);
        self.frontier.search(
            &mut history,
            start,
            &goal,
            &movements,
            &self.policy,
            self.limits,
        )
    }
}

} // verus!
