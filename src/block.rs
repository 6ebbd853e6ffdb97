//! Blocks: unit cubes on a centre point, with the material of their faces.

use vstd::prelude::*;

verus! {

/// One world unit (the edge of a block) in micrometres.
pub const UNIT: i64 = 1_000_000;

/// Half the edge of a block: each block spans its centre plus or minus this.
pub const BLOCK_SIZE_FROM_CENTER: i64 = 500_000;

/// Largest magnitude of a coordinate that the geometry accepts.
pub const WORLD_LIMIT: i64 = 1_099_511_627_776;

/// The material on the faces of a block.
#[derive(Clone, Copy, Debug, PartialEq, Eq, Structural)]
pub enum BlockSurface {
    Grass,
    Dirt,
    Gravel,
    StoneRough,
    StoneSmooth,
    Snow,
}

impl BlockSurface {
    /// The name shown for the surface.
    pub open spec fn label(&self) -> Seq<char> {
        match *self {
            BlockSurface::Grass => "Grass"@,
            BlockSurface::Dirt => "Dirt"@,
            BlockSurface::Gravel => "Gravel"@,
            BlockSurface::StoneRough => "StoneRough"@,
            BlockSurface::StoneSmooth => "StoneSmooth"@,
            BlockSurface::Snow => "Snow"@,
        }
    }

    pub fn name(&self) -> (r: &'static str)
        ensures
            r@ == self.label(),
    {
        match self {
            BlockSurface::Grass => "Grass",
            BlockSurface::Dirt => "Dirt",
            BlockSurface::Gravel => "Gravel",
            BlockSurface::StoneRough => "StoneRough",
            BlockSurface::StoneSmooth => "StoneSmooth",
            BlockSurface::Snow => "Snow",
        }
    }
}

/// A unit cube centred at `(x, y, z)`.
#[derive(Clone, Copy, Debug, PartialEq, Eq, Structural)]
pub struct Block {
    pub x: i64,
    pub y: i64,
    pub z: i64,
    pub surface: BlockSurface,
}

/// A coordinate the geometry can work with without overflow.
pub open spec fn in_world(c: int) -> bool {
    -WORLD_LIMIT <= c <= WORLD_LIMIT
}

impl Block {
    pub open spec fn in_world(&self) -> bool {
        in_world(self.x as int) && in_world(self.y as int) && in_world(self.z as int)
    }

    pub fn new(x: i64, y: i64, z: i64, surface: BlockSurface) -> (r: Block)
        ensures
            r == (Block { x, y, z, surface }),
    {
        Block { x, y, z, surface }
    }

    /// The centre as `[x, y, z]`.
    pub fn as_array(&self) -> (r: [i64; 3])
        ensures
            r[0] == self.x,
            r[1] == self.y,
            r[2] == self.z,
    {
        [self.x, self.y, self.z]
    }
}

} // verus!
