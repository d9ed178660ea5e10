//! Results of searches over a grid of integer coordinates.

pub mod astar;
pub mod generic_goal;
pub mod generic_solver;
pub mod path_types;
