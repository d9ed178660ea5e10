use vstd::prelude::*;

verus! {

/// A block of a chunked world: what it is made of, with zero for air.
#[derive(Clone, Copy)]
pub struct Block(pub u64);

impl Block {
    /// Whether the block is made of anything.
    pub fn is_solid(self) -> (solid: bool)
        ensures
            solid == (self.0 > 0),
    {
        self.0 > 0
    }
}

/// Something that knows the block at every place of a chunked world.
pub trait ChunkDataProvider {
    /// Whether the provider may be asked about the place.
    open spec fn covers(&self, x: i32, y: i32, z: i32) -> bool {
        arbitrary()
    }

    /// Whether `block` is what the provider may answer for the place.
    open spec fn provides(&self, x: i32, y: i32, z: i32, block: Block) -> bool {
        arbitrary()
    }

    fn get_block(&self, x: i32, y: i32, z: i32) -> (block: Block)
        requires
            self.covers(x, y, z),
        ensures
            self.provides(x, y, z, block),
    ;
}

/// Every function from places to blocks is a provider: it may be asked where
/// it may be called, and answers what it returns.
impl<T> ChunkDataProvider for T where T: Fn(i32, i32, i32) -> Block {
    open spec fn covers(&self, x: i32, y: i32, z: i32) -> bool {
        call_requires(*self, (x, y, z))
    }

    open spec fn provides(&self, x: i32, y: i32, z: i32, block: Block) -> bool {
        call_ensures(*self, (x, y, z), block)
    }

    fn get_block(&self, x: i32, y: i32, z: i32) -> (block: Block) {
        self(x, y, z)
    }
}

/// A world that is flat ground up to the height of 60 and air above.
pub fn plane(x: i32, y: i32, z: i32) -> (block: Block)
    ensures
        block.0 == (if y > 60 {
            0u64
        } else {
            1u64
        }),
{
    if y > 60 {
        Block(0)
    } else {
        Block(1)
    }
}

} // verus!
