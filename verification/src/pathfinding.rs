//! The capabilities that a search consumes, the engines that search, and the
//! results they hand back.
//!
//! The engines differ in how they order their frontier and in where they
//! keep the records from which paths are read back:
//!
//! | engine            | priority          | records            |
//! |-------------------|-------------------|--------------------|
//! | `astar_fat`       | cost plus estimate | recycling pool    |
//! | `astar_slaballoc` | cost plus estimate | slab, by index    |
//! | `gen_astar`       | cost plus estimate | recycling pool    |
//! | `wastar`          | pluggable          | recycling pool    |
//! | `wastar_arena`    | pluggable          | bump arena        |
//!
//! All of them empty their state at the start of a search and leave it as it
//! is at the end, and all of them answer the same question alike.
//!
//! Positions are the keys of hash tables, so they have to hash and compare
//! as their values say (`obeys_key_model`). Of the integer types Verus knows
//! that; of any other type a verified caller has to be told.

pub mod arena;
pub mod astar_fat;
pub mod astar_slaballoc;
pub mod engine;
pub mod gen_astar;
pub mod heap;
pub mod history;
pub mod model;
pub mod optimality;
pub mod pooled;
pub mod routes;
pub mod wastar;
pub mod wastar_arena;
pub mod weighting;

use crate::cost::Cost;
use history::link;
use model::Candidate;
use routes::connected;
use vstd::prelude::*;
use vstd::std_specs::hash::obeys_key_model;

verus! {

/// A node of the search tree: the key `f` by which the frontier is ordered,
/// the position, and what the algorithm keeps with it.
#[derive(Clone, Copy, Debug)]
pub struct Node<F, Pos, T> {
    pub f: F,
    pub pos: Pos,
    pub t: T,
}

/// What A* keeps with a node.
#[derive(Clone, Copy, Debug)]
pub struct AStarT<F> {
    /// The cost of the way from the start.
    pub g: F,
    /// The guess of the cost that remains.
    pub h: F,
    /// How many nodes had been generated when this one was.
    pub seq: usize,
    /// The record of the position that the node was reached from.
    pub parent: Option<usize>,
}

impl<F: Cost, Pos> Node<F, Pos, AStarT<F>> {
    pub open spec fn view(self) -> Candidate<Pos> {
        Candidate {
            priority: self.f.value(),
            cost: self.t.g.value(),
            seq: self.t.seq as nat,
            pos: self.pos,
            estimate: self.t.h.value(),
            parent: link(self.t.parent),
        }
    }
}

/// Where a search wants to arrive, and how far it guesses that to be.
///
/// `reached` and `estimate` say what the two methods compute, as functions of
/// the position alone. An implementation that Verus verifies defines them and
/// is held to them; one that Verus does not see leaves them as they are.
pub trait Goal<F: Cost, Pos> {
    /// Whether `pos` counts as arrived.
    open spec fn reached(&self, pos: Pos) -> bool {
        arbitrary()
    }

    /// The guess of the cost that remains from `pos`.
    open spec fn estimate(&self, pos: Pos) -> int {
        arbitrary()
    }

    fn is_reached(&self, pos: &Pos) -> (arrived: bool)
        ensures
            arrived == self.reached(*pos),
    ;

    fn heuristic(&self, pos: &Pos) -> (h: F)
        ensures
            h.value() == self.estimate(*pos),
    ;
}

/// The steps that can be taken from a position, each with its cost.
///
/// `edges` says what `get_neighbors` computes, as a function of the position
/// alone. A position may occur in it more than once.
pub trait Movements<F: Cost, Pos> {
    /// The steps out of `pos`, in the order in which they are offered.
    open spec fn edges(&self, pos: Pos) -> Seq<(Pos, int)> {
        arbitrary()
    }

    fn get_neighbors(&self, pos: Pos) -> (steps: Vec<(Pos, F)>)
        ensures
            steps@.len() == self.edges(pos).len(),
            forall|i: int|
                0 <= i < steps@.len() ==> (#[trigger] steps@[i]).0 == self.edges(pos)[i].0
                    && steps@[i].1.value() == self.edges(pos)[i].1,
    ;
}

/// A search engine that is handed start, goal and movements with every
/// call.
pub trait Pathfinder {
    type F: Cost;

    type Pos;

    /// Searches for a way from `start` to a position that `goal` accepts.
    /// The path that comes back starts at `start` and follows edges that
    /// `movements` offers; where the result is `Complete`, it ends at a
    /// position that `goal` accepts.
    fn compute<G: Goal<Self::F, Self::Pos>, M: Movements<Self::F, Self::Pos>>(
        &mut self,
        start: Self::Pos,
        goal: G,
        movements: M,
    ) -> (result: PathResult<Vec<Self::Pos>>)
        requires
            obeys_key_model::<Self::Pos>(),
        ensures
            !(result is Partial),
            result@.path().len() > 0,
            result@.path().first() == start,
            result is Complete ==> goal.reached(result@.path().last()),
            connected(movements, result@.path()),
    ;
}

/// A search engine that is set up with start, goal and movements once and
/// for all.
pub trait PathfinderGen: Sized {
    type F: Cost;

    type Pos;

    type Movements: Movements<Self::F, Self::Pos>;

    type Goal: Goal<Self::F, Self::Pos>;

    /// Where every search starts.
    open spec fn start(&self) -> Self::Pos {
        arbitrary()
    }

    /// Where every search wants to arrive.
    open spec fn goal(&self) -> Self::Goal {
        arbitrary()
    }

    /// The steps that every search can take.
    open spec fn movements(&self) -> Self::Movements {
        arbitrary()
    }

    fn new(
        size: usize,
        max_cost: Self::F,
        start: Self::Pos,
        goal: Self::Goal,
        movements: Self::Movements,
    ) -> (engine: Self)
        ensures
            engine.start() == start,
            engine.goal() == goal,
            engine.movements() == movements,
    ;

    /// Searches for a way from the start to a position that the goal
    /// accepts. The path that comes back starts at the start and follows
    /// edges that the movements offer; where the result is `Complete`, it
    /// ends at a position that the goal accepts.
    fn compute(&mut self) -> (result: PathResult<Vec<Self::Pos>>)
        requires
            obeys_key_model::<Self::Pos>(),
        ensures
            final(self).start() == old(self).start(),
            final(self).goal() == old(self).goal(),
            final(self).movements() == old(self).movements(),
            !(result is Partial),
            result@.path().len() > 0,
            result@.path().first() == old(self).start(),
            result is Complete ==> old(self).goal().reached(result@.path().last()),
            connected(old(self).movements(), result@.path()),
    ;

    /// Gives up what the last search found out.
    fn reset(&mut self)
        ensures
            final(self).start() == old(self).start(),
            final(self).goal() == old(self).goal(),
            final(self).movements() == old(self).movements(),
    ;
}

/// How a search ended, with the path that it found.
#[derive(Debug)]
pub enum PathResult<T> {
    /// Reserved for searches that hand out what they have so far.
    Partial(T),
    /// The goal was reached; the path leads from the start to it.
    Complete(T),
    /// The search was stopped; the path leads to the most promising position.
    Timeout(T),
    /// The frontier ran empty; the path leads to the most promising position.
    NoPath(T),
}

impl<T> PathResult<T> {
    /// How the search ended.
    pub open spec fn tag(self) -> crate::solvers::path_types::Ending {
        match self {
            PathResult::Partial(_) => crate::solvers::path_types::Ending::Partial,
            PathResult::Complete(_) => crate::solvers::path_types::Ending::Complete,
            PathResult::Timeout(_) => crate::solvers::path_types::Ending::Timeout,
            PathResult::NoPath(_) => crate::solvers::path_types::Ending::NoPath,
        }
    }

    /// The path that the result carries.
    pub open spec fn path(self) -> T {
        match self {
            PathResult::Partial(path) => path,
            PathResult::Complete(path) => path,
            PathResult::Timeout(path) => path,
            PathResult::NoPath(path) => path,
        }
    }
}

impl<Pos> PathResult<Vec<Pos>> {
    /// The result with its path as a sequence.
    pub open spec fn view(self) -> PathResult<Seq<Pos>> {
        match self {
            PathResult::Partial(path) => PathResult::Partial(path@),
            PathResult::Complete(path) => PathResult::Complete(path@),
            PathResult::Timeout(path) => PathResult::Timeout(path@),
            PathResult::NoPath(path) => PathResult::NoPath(path@),
        }
    }
}

} // verus!
