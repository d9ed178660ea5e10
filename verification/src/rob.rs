//! Positions of a chunked world.

pub mod chunk_data;
pub mod node;
