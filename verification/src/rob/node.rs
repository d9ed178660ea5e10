use vstd::prelude::*;

verus! {

/// The column of chunks that a position falls into.
#[derive(PartialEq, Eq, PartialOrd, Ord, Hash)]
pub struct ChunkPos {
    pub x: i16,
    pub z: i16,
}

} // verus!
