//! Plain A* that is set up once with its start, goal and movements and can
//! then be run again and again.

use super::engine::{answers, visits_once, Frontier, Limits};
use super::history::{History, Record};
use super::model::{search, Task};
use super::pooled::PooledHistory;
use super::weighting::Plain;
use super::{Goal, Movements, PathResult, PathfinderGen};
use crate::cost::Cost;
use std::hash::Hash;
use vstd::prelude::*;
use vstd::std_specs::hash::obeys_key_model;

verus! {

pub struct AStar<F, Pos, G, M> {
    start: Pos,
    goal: G,
    movements: M,
    limits: Limits<F>,
    frontier: Frontier<F, Pos>,
    history: PooledHistory<Pos>,
}

impl<F: Cost, Pos: Copy + Hash + Eq, G: Goal<F, Pos>, M: Movements<F, Pos>> AStar<F, Pos, G, M> {
    /// How far a search may go.
    pub closed spec fn limits(&self) -> Limits<F> {
        self.limits
    }

    /// The open and closed sets as the last search left them.
    pub closed spec fn frontier(&self) -> Frontier<F, Pos> {
        self.frontier
    }

    /// How many positions wait, how many are expanded, and how many nodes
    /// are in the queue, as the last search left them.
    pub fn sizes(&self) -> (counts: (usize, usize, usize))
        requires
            obeys_key_model::<Pos>(),
        ensures
            counts.0 == self.frontier().open_costs().len(),
            counts.1 == self.frontier().expanded_positions().len(),
            counts.2 == self.frontier().queue().len(),
    {
        self.frontier.sizes()
    }

    /// The records of the positions that the last search expanded.
    pub closed spec fn records(&self) -> Seq<Record<Pos>> {
        self.history.records()
    }

    /// What a call of `compute` is asked to do.
    pub open spec fn task(&self) -> Task<F, Pos, G, M, Plain> {
        Task {
            start: self.start(),
            goal: self.goal(),
            movements: self.movements(),
            policy: Plain,
            bound: self.limits().cost_bound,
            limit: self.limits().node_limit as nat,
        }
    }

    /// Sets how many nodes a search may generate besides the start.
    pub fn set_node_limit(&mut self, node_limit: usize)
        ensures
            final(self).limits().node_limit == node_limit,
            final(self).limits().cost_bound == old(self).limits().cost_bound,
            final(self).frontier() == old(self).frontier(),
            final(self).records() == old(self).records(),
            final(self).start() == old(self).start(),
            final(self).goal() == old(self).goal(),
            final(self).movements() == old(self).movements(),
    {
        self.limits.node_limit = node_limit;
    }
}

impl<F: Cost, Pos: Copy + Hash + Eq, G: Goal<F, Pos>, M: Movements<F, Pos>> PathfinderGen for AStar<
    F,
    Pos,
    G,
    M,
> {
    type F = F;

    type Pos = Pos;

    type Movements = M;

    type Goal = G;

    closed spec fn start(&self) -> Pos {
        self.start
    }

    closed spec fn goal(&self) -> G {
        self.goal
    }

    closed spec fn movements(&self) -> M {
        self.movements
    }

    /// An engine for searches from `start` that drop every node whose cost
    /// and estimate add up to more than `max_cost`, unless `max_cost` is
    /// zero. `size` is the number of link cells that the pool keeps for
    /// reuse from one search to the next.
    fn new(size: usize, max_cost: F, start: Pos, goal: G, movements: M) -> (engine: Self)
        ensures
            engine.limits().cost_bound == max_cost,
            engine.limits().node_limit == usize::MAX,
            engine.frontier().is_empty(),
            engine.records() == Seq::<Record<Pos>>::empty(),
    {
        Self {
            start,
            goal,
            movements,
            limits: Limits { cost_bound: max_cost, node_limit: usize::MAX },
            frontier: Frontier::new(),
            history: PooledHistory::with_pool_size(size),
        }
    }

    /// Searches from the start. What an earlier call left behind is wiped
    /// first; what this call finds out stays until the next call or `reset`.
    fn compute(&mut self) -> (result: PathResult<Vec<Pos>>)
        ensures
            answers(old(self).task(), result),
            final(self).task() == old(self).task(),
            final(self).frontier().holds(search(old(self).task()).last),
            final(self).records() == search(old(self).task()).last.history,
            visits_once(final(self).records()),
    {
        self.frontier.search(
            &mut self.history,
            self.start,
            &self.goal,
            &self.movements,
            &Plain,
            self.limits,
        )
    }

    /// Gives up what the last search found out.
    fn reset(&mut self)
        ensures
            final(self).task() == old(self).task(),
            final(self).frontier().is_empty(),
            final(self).records() == Seq::<Record<Pos>>::empty(),
    {
        self.frontier.clear();
        self.history.reset();
    }
}

} // verus!
