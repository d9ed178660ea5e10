//! Kinds of movement that a walker can make between cells.

pub mod cardinal_walk;
pub mod generic_movement;
