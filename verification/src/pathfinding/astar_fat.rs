//! Plain A* whose records of expanded positions draw their links from a
//! recycling pool.

use super::engine::{answers, visits_once, Frontier, Limits};
use super::history::{History, Record};
use super::pooled::PooledHistory;
use super::model::{search, Task};
use super::weighting::Plain;
use super::{Goal, Movements, PathResult, Pathfinder};
use crate::cost::Cost;
use std::hash::Hash;
use vstd::prelude::*;
use vstd::std_specs::hash::obeys_key_model;

verus! {

pub struct AStar<F, Pos> {
    limits: Limits<F>,
    frontier: Frontier<F, Pos>,
    history: PooledHistory<Pos>,
}

impl<F: Cost, Pos: Copy + Hash + Eq> AStar<F, Pos> {
    /// How far a search may go.
    pub closed spec fn limits(&self) -> Limits<F> {
        self.limits
    }

    /// The open and closed sets as the last search left them.
    pub closed spec fn frontier(&self) -> Frontier<F, Pos> {
        self.frontier
    }

    /// How many positions wait, how many are expanded, and how many nodes
    /// are in the queue, as the last search left them.
    pub fn sizes(&self) -> (counts: (usize, usize, usize))
        requires
            obeys_key_model::<Pos>(),
        ensures
            counts.0 == self.frontier().open_costs().len(),
            counts.1 == self.frontier().expanded_positions().len(),
            counts.2 == self.frontier().queue().len(),
    {
        self.frontier.sizes()
    }

    /// The records of the positions that the last search expanded.
    pub closed spec fn records(&self) -> Seq<Record<Pos>> {
        self.history.records()
    }

    /// What a call of `compute` with these arguments is asked to do.
    pub open spec fn task<G: Goal<F, Pos>, M: Movements<F, Pos>>(
        &self,
        start: Pos,
        goal: G,
        movements: M,
    ) -> Task<F, Pos, G, M, Plain> {
        Task {
            start,
            goal,
            movements,
            policy: Plain,
            bound: self.limits().cost_bound,
            limit: self.limits().node_limit as nat,
        }
    }

    /// An engine without limits. `size` is the number of link cells that the
    /// pool keeps for reuse from one search to the next.
    pub fn with_refpool_size(size: usize) -> (engine: Self)
        ensures
            engine.limits().cost_bound.value() == 0,
            engine.limits().node_limit == usize::MAX,
            engine.frontier().is_empty(),
            engine.records() == Seq::<Record<Pos>>::empty(),
    {
        Self {
            limits: Limits::none(),
            frontier: Frontier::new(),
            history: PooledHistory::with_pool_size(size),
        }
    }

    /// Sets how far a search may go.
    pub fn set_limits(&mut self, limits: Limits<F>)
        ensures
            final(self).limits() == limits,
            final(self).frontier() == old(self).frontier(),
            final(self).records() == old(self).records(),
    {
        self.limits = limits;
    }
}

impl<F: Cost, Pos: Copy + Hash + Eq> Pathfinder for AStar<F, Pos> {
    type F = F;

    type Pos = Pos;

    /// Searches from `start`. What an earlier call left behind is wiped
    /// first; what this call finds out stays until the next.
    fn compute<G: Goal<F, Pos>, M: Movements<F, Pos>>(
        &mut self,
        start: Pos,
        goal: G,
        movements: M,
    ) -> (result: PathResult<Vec<Pos>>)
        ensures
            answers(old(self).task(start, goal, movements), result),
            final(self).frontier().holds(search(old(self).task(start, goal, movements)).last),
            final(self).limits() == old(self).limits(),
            final(self).records() == search(old(self).task(start, goal, movements)).last.history,
            visits_once(final(self).records()),
    {
        self.frontier.search(&mut self.history, start, &goal, &movements, &Plain, self.limits)
    }
}

} // verus!
