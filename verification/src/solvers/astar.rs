//! A* over the places of a grid, with steps along the axes and across the
//! corners.
//!
//! The positions of the search are places, not cells: a place is a pair of
//! coordinates, and the search may start at any place, on the grid or off
//! it. A step from a place looks the stepped-to coordinates up in the grid
//! and leads to where the cell that it finds says it lies. One number stands
//! for each place, so that places can be the keys of hash tables.

use super::generic_goal::GenericGoal;
use super::generic_solver::{locate_path, places, PathSolver};
use super::path_types::PathResult;
use crate::constants::{CARDINAL_POSITIONS, DIAGONAL_POSITIONS, SQRT_FIXED, UNIT_COST, WALL_COST};
use crate::path_node::Node;
use crate::pathfinding::engine::{upheld, Frontier, Limits};
use crate::pathfinding::history::IndexedHistory;
use crate::pathfinding::model::{search, Task};
use crate::pathfinding::weighting::Plain;
use crate::pathfinding::{Goal, Movements};
use crate::world_info::{key_of, key_place, place_key, place_of, Block, Grid};
use vstd::prelude::*;

verus! {

/// The `k`-th of the eight steps: first those along the axes, then those
/// across the corners.
pub open spec fn offset(k: int) -> (int, int) {
    if k == 0 {
        (1, 0)
    } else if k == 1 {
        (-1, 0)
    } else if k == 2 {
        (0, 1)
    } else if k == 3 {
        (0, -1)
    } else if k == 4 {
        (1, 1)
    } else if k == 5 {
        (-1, -1)
    } else if k == 6 {
        (1, -1)
    } else {
        (-1, 1)
    }
}

/// What the `k`-th step costs onto a cell that can be walked on.
pub open spec fn step_cost(k: int) -> int {
    if k < 4 {
        UNIT_COST as int
    } else {
        SQRT_FIXED as int
    }
}

/// Where the `k`-th step out of the place `from` leads and what it costs, if
/// it leads anywhere: the stepped-to coordinates are looked up in the grid,
/// and the step leads to the place where the cell that is found says it
/// lies, at the cost of the step if that cell can be walked on and at
/// `WALL_COST` if not.
pub open spec fn step(grid: Grid, from: u64, k: int) -> Option<(u64, int)> {
    let x = place_of(from).0 + offset(k).0;
    let y = place_of(from).1 + offset(k).1;
    if x < i32::MIN || x > i32::MAX || y < i32::MIN || y > i32::MAX {
        None
    } else {
        match grid.cell_at(x, y) {
            Some(block) => Some(
                (
                    key_of(block.x as int, block.y as int) as u64,
                    if block.passable {
                        step_cost(k)
                    } else {
                        WALL_COST as int
                    },
                ),
            ),
            None => None,
        }
    }
}

/// The first `count` steps out of the place `from`, as far as they lead
/// anywhere.
pub open spec fn steps(grid: Grid, from: u64, count: int) -> Seq<(u64, int)>
    decreases count,
{
    if count <= 0 {
        Seq::empty()
    } else {
        match step(grid, from, count - 1) {
            Some(edge) => steps(grid, from, count - 1).push(edge),
            None => steps(grid, from, count - 1),
        }
    }
}

/// The `k`-th of the eight steps.
fn nth_offset(k: usize) -> (by: (i32, i32))
    requires
        k < 8,
    ensures
        by.0 == offset(k as int).0,
        by.1 == offset(k as int).1,
{
    if k < 4 {
        CARDINAL_POSITIONS[k]
    } else {
        DIAGONAL_POSITIONS[k - 4]
    }
}

/// The steps on a grid, for a search over places.
pub struct CellSteps<'a> {
    pub grid: &'a Grid,
}

impl<'a> Movements<i64, u64> for CellSteps<'a> {
    open spec fn edges(&self, pos: u64) -> Seq<(u64, int)> {
        steps(*self.grid, pos, 8)
    }

    fn get_neighbors(&self, pos: u64) -> (moves: Vec<(u64, i64)>) {
        let mut moves: Vec<(u64, i64)> = Vec::with_capacity(8);
        let here = key_place(pos);
        let mut k: usize = 0;
        while k < 8
            invariant
                k <= 8,
                here == place_of(pos),
                moves@.len() == steps(*self.grid, pos, k as int).len(),
                forall|i: int|
                    0 <= i < moves@.len() ==> (#[trigger] moves@[i]).0 == steps(
                        *self.grid,
                        pos,
                        k as int,
                    )[i].0 && moves@[i].1 as int == steps(*self.grid, pos, k as int)[i].1,
            decreases 8 - k,
        {
            let by = nth_offset(k);
            let x: i64 = here.0 as i64 + by.0 as i64;
            let y: i64 = here.1 as i64 + by.1 as i64;
            if x >= i32::MIN as i64 && x <= i32::MAX as i64 && y >= i32::MIN as i64 && y
                <= i32::MAX as i64 {
                match self.grid.get_pos_info_ref(x as i32, y as i32) {
                    Some(block) => {
                        let cost: i64 = if !block.passable {
                            WALL_COST
                        } else if k < 4 {
                            UNIT_COST as i64
                        } else {
                            SQRT_FIXED as i64
                        };
                        moves.push((place_key(block.x, block.y), cost));
                    },
                    None => {},
                }
            }
            k = k + 1;
        }
        moves
    }
}

/// The block that a goal is asked about at the place `(x, y)`: the cell of
/// the grid that lies there, or, where a lookup finds no cell that says it
/// lies there, a cell that can be walked on.
pub open spec fn seen(grid: Grid, x: i32, y: i32) -> Block {
    match grid.cell_at(x as int, y as int) {
        Some(block) => if block.x == x && block.y == y {
            block
        } else {
            Block::spec_passable(x, y)
        },
        None => Block::spec_passable(x, y),
    }
}

/// The block that a goal is asked about at the place `(x, y)`.
pub fn block_seen(grid: &Grid, x: i32, y: i32) -> (block: Block)
    ensures
        block == seen(*grid, x, y),
{
    match grid.get_pos_info_ref(x, y) {
        Some(found) => if found.x == x && found.y == y {
            *found
        } else {
            Block::passable(x, y)
        },
        None => Block::passable(x, y),
    }
}

/// A goal on a grid, for a search over places.
pub struct CellGoal<'a, Goal> {
    pub goal: &'a Goal,
    pub grid: &'a Grid,
}

impl<'a, Goal: GenericGoal> crate::pathfinding::Goal<i64, u64> for CellGoal<'a, Goal> {
    open spec fn reached(&self, pos: u64) -> bool {
        self.goal.accepts(seen(*self.grid, place_of(pos).0, place_of(pos).1))
    }

    open spec fn estimate(&self, pos: u64) -> int {
        self.goal.distance(seen(*self.grid, place_of(pos).0, place_of(pos).1))
    }

    fn is_reached(&self, pos: &u64) -> (arrived: bool) {
        let place = key_place(*pos);
        self.goal.goal_reached(block_seen(self.grid, place.0, place.1))
    }

    fn heuristic(&self, pos: &u64) -> (h: i64) {
        let place = key_place(*pos);
        self.goal.heuristic(block_seen(self.grid, place.0, place.1))
    }
}

/// A solver that searches one grid for a way from one place to a goal.
pub struct AStarSolver<Goal> {
    start: Node,
    goal: Goal,
    max_cost: i64,
    node_limit: usize,
    grid: Grid,
    frontier: Frontier<i64, u64>,
    history: IndexedHistory<u64>,
}

impl<Goal: GenericGoal> AStarSolver<Goal> {
    /// The node that the search starts from.
    pub closed spec fn start(&self) -> Node {
        self.start
    }

    /// Where the search wants to arrive.
    pub closed spec fn goal(&self) -> Goal {
        self.goal
    }

    /// The bound on cost plus estimate; zero stands for none.
    pub closed spec fn max_cost(&self) -> i64 {
        self.max_cost
    }

    /// How many nodes the search may generate besides the start.
    pub closed spec fn node_limit(&self) -> usize {
        self.node_limit
    }

    /// The grid that is searched.
    pub closed spec fn grid(&self) -> Grid {
        self.grid
    }

    /// The search over places that `calculate` runs.
    pub open spec fn task<'a>(&'a self) -> Task<i64, u64, CellGoal<'a, Goal>, CellSteps<'a>, Plain> {
        Task {
            start: key_of(self.start().data.x as int, self.start().data.y as int) as u64,
            goal: CellGoal { goal: &self.goal(), grid: &self.grid() },
            movements: CellSteps { grid: &self.grid() },
            policy: Plain,
            bound: self.max_cost(),
            limit: self.node_limit() as nat,
        }
    }

    /// A solver for ways from the place of `start` to `goal` over `grid`.
    /// Nodes whose cost and estimate add up to more than `max_cost` are
    /// dropped, unless `max_cost` is zero; after `node_limit` nodes have been
    /// generated the search gives up.
    pub fn new(start: Node, goal: Goal, max_cost: i64, node_limit: usize, grid: Grid) -> (solver:
        Self)
        ensures
            solver.start() == start,
            solver.goal() == goal,
            solver.max_cost() == max_cost,
            solver.node_limit() == node_limit,
            solver.grid() == grid,
    {
        Self {
            start,
            goal,
            max_cost,
            node_limit,
            grid,
            frontier: Frontier::new(),
            history: IndexedHistory::with_capacity(16),
        }
    }
}

impl<Goal: GenericGoal> PathSolver for AStarSolver<Goal> {
    /// Searches for a way from the place of the start, wherever that lies,
    /// to a place that the goal accepts. The result is that of the search
    /// over places, with its path as places: it begins at the place of the
    /// start, and none of its places but the last is one that the goal
    /// accepts.
    fn calculate(&mut self) -> (result: PathResult)
        ensures
            final(self).start() == old(self).start(),
            final(self).goal() == old(self).goal(),
            final(self).max_cost() == old(self).max_cost(),
            final(self).node_limit() == old(self).node_limit(),
            final(self).grid() == old(self).grid(),
            result.tag_and_path() == (
                search(old(self).task()).result.tag(),
                places(search(old(self).task()).result.path()),
            ),
            upheld(old(self).task()),
            result.tag_and_path().1.len() > 0,
            result.tag_and_path().1.first() == (old(self).start().data.x, old(self).start().data.y),
            result is Complete ==> old(self).goal().accepts(
                seen(
                    old(self).grid(),
                    result.tag_and_path().1.last().0,
                    result.tag_and_path().1.last().1,
                ),
            ),
            forall|i: int|
                0 <= i < result.tag_and_path().1.len() - 1 ==> !old(self).goal().accepts(
                    seen(
                        old(self).grid(),
                        (#[trigger] result.tag_and_path().1[i]).0,
                        result.tag_and_path().1[i].1,
                    ),
                ),
    {
        let from = place_key(self.start.get_x(), self.start.get_y());
        let found = self.frontier.search(
            &mut self.history,
            from,
            &CellGoal { goal: &self.goal, grid: &self.grid },
            &CellSteps { grid: &self.grid },
            &Plain,
            Limits { cost_bound: self.max_cost, node_limit: self.node_limit },
        );
        match found {
            crate::pathfinding::PathResult::Complete(path) => PathResult::Complete(
                locate_path(&path),
            ),
            crate::pathfinding::PathResult::Timeout(path) => PathResult::Timeout(
                locate_path(&path),
            ),
            crate::pathfinding::PathResult::NoPath(path) => PathResult::NoPathResolution(
                locate_path(&path),
            ),
            crate::pathfinding::PathResult::Partial(path) => PathResult::Partial(
                locate_path(&path),
            ),
        }
    }
}

} // verus!
