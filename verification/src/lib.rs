//! Shortest-path search over graphs that are generated while they are
//! searched: the A* family, with contracts proved by Verus.
//!
//! A search is handed a start position, a goal (a test for having arrived
//! and an estimate of the cost that remains) and movements (the steps out of
//! a position with their costs). It hands back a path from the start,
//! tagged with how the search ended.
//!
//! * [`cost`] holds the numbers that are added up and compared: integers, and
//!   fixed-point numbers by their bits.
//! * [`pathfinding`] holds the capabilities, the engines and what is proved
//!   of them. `pathfinding::model` says what a search computes;
//!   `pathfinding::engine` computes it; `pathfinding::routes` shows that every
//!   path handed back is a walk through the graph at the cost the search
//!   kept for it; `pathfinding::optimality` shows how good that path is.
//!   The records from which paths are read back can live in a slab
//!   (`pathfinding::history`), in cells of a recycling pool
//!   (`pathfinding::pooled`) or in a bump arena (`pathfinding::arena`).
//! * [`world_info`], [`solvers`] and [`path_node`] hold a grid of cells and a
//!   solver that searches it.

pub mod constants;
pub mod cost;
pub mod movements;
pub mod path_node;
pub mod pathfinding;
pub mod rob;
pub mod solvers;
pub mod world_info;
