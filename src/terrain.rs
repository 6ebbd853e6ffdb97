//! Terrain columns: the layers of surfaces from the top of a column down.

use vstd::prelude::*;

use crate::block::{Block, BlockSurface, UNIT};
use crate::registry::all_in_world;

verus! {

/// Height, in blocks, of the lowest layer of every column.
pub const MIN_HEIGHT: i64 = -15;

/// Largest magnitude of a column's position or height, in blocks.
pub const COLUMN_LIMIT: i64 = 1_000_000;

pub open spec fn is_stone(s: BlockSurface) -> bool {
    s == BlockSurface::StoneRough || s == BlockSurface::StoneSmooth
}

/// The surface of the top block of a column `h` blocks high: snow on the
/// peaks, grass on the plains, gravel lower down, stone at the bottom.
pub open spec fn top_surface_fits(h: int, s: BlockSurface) -> bool {
    if h > 6 {
        s == BlockSurface::Snow
    } else if h > -8 {
        s == BlockSurface::Grass
    } else if h > -10 {
        s == BlockSurface::Gravel
    } else {
        is_stone(s)
    }
}

/// The surface of a block at height `i` under the top: dirt, then gravel,
/// then stone.
pub open spec fn fill_surface_fits(i: int, s: BlockSurface) -> bool {
    if i > -5 {
        s == BlockSurface::Dirt
    } else if i > -8 {
        s == BlockSurface::Gravel
    } else {
        is_stone(s)
    }
}

/// Number of blocks under the top of a column `h` blocks high.
pub open spec fn fill_count(h: int) -> int {
    if h > MIN_HEIGHT {
        h - MIN_HEIGHT
    } else {
        0
    }
}

/// Relies on rand::random::<bool>: a coin flip from the thread's generator.
/// Nothing is promised of the value.
#[verifier::external_body]
fn coin_flip() -> bool {
    rand::random::<bool>()
}

/// The stone that a coin flip selects: rough on heads, smooth on tails.
pub fn stone_for(heads: bool) -> (r: BlockSurface)
    ensures
        r == (if heads {
            BlockSurface::StoneRough
        } else {
            BlockSurface::StoneSmooth
        }),
{
    if heads {
        BlockSurface::StoneRough
    } else {
        BlockSurface::StoneSmooth
    }
}

/// One of the two stones, chosen by a coin flip.
fn random_stone() -> (r: BlockSurface)
    ensures
        is_stone(r),
{
    stone_for(coin_flip())
}

/// The blocks of the terrain column at block position `(x, z)` whose top is
/// `height` blocks high: the top block first, then the blocks from
/// `MIN_HEIGHT` up to just under the top, each with the surface of its layer.
pub fn terrain_column(x: i64, z: i64, height: i64) -> (r: Vec<Block>)
    requires
        -COLUMN_LIMIT <= x <= COLUMN_LIMIT,
        -COLUMN_LIMIT <= z <= COLUMN_LIMIT,
        -COLUMN_LIMIT <= height <= COLUMN_LIMIT,
    ensures
        r@.len() == 1 + fill_count(height as int),
        r@[0].x == x * UNIT,
        r@[0].y == height * UNIT,
        r@[0].z == z * UNIT,
        top_surface_fits(height as int, r@[0].surface),
        forall|k: int|
            1 <= k < r@.len() ==> {
                &&& (#[trigger] r@[k]).x == x * UNIT
                &&& r@[k].y == (MIN_HEIGHT + k - 1) * UNIT
                &&& r@[k].z == z * UNIT
                &&& fill_surface_fits(MIN_HEIGHT + k - 1, r@[k].surface)
            },
        all_in_world(r@),
{
    let top = if height > 6 {
        BlockSurface::Snow
    } else if height > -8 {
        BlockSurface::Grass
    } else if height > -10 {
        BlockSurface::Gravel
    } else {
        random_stone()
    };
    let bx = x * UNIT;
    let bz = z * UNIT;
    let mut column: Vec<Block> = Vec::new();
    column.push(Block { x: bx, y: height * UNIT, z: bz, surface: top });
    let mut i: i64 = MIN_HEIGHT;
    while i < height
        invariant
            MIN_HEIGHT <= i,
            i <= height || i == MIN_HEIGHT,
            -COLUMN_LIMIT <= height <= COLUMN_LIMIT,
            bx == x * UNIT,
            bz == z * UNIT,
            -COLUMN_LIMIT <= x <= COLUMN_LIMIT,
            -COLUMN_LIMIT <= z <= COLUMN_LIMIT,
            column@.len() == 1 + (i - MIN_HEIGHT),
            column@[0].x == x * UNIT,
            column@[0].y == height * UNIT,
            column@[0].z == z * UNIT,
            top_surface_fits(height as int, column@[0].surface),
            forall|k: int|
                1 <= k < column@.len() ==> {
                    &&& (#[trigger] column@[k]).x == x * UNIT
                    &&& column@[k].y == (MIN_HEIGHT + k - 1) * UNIT
                    &&& column@[k].z == z * UNIT
                    &&& fill_surface_fits(MIN_HEIGHT + k - 1, column@[k].surface)
                },
            all_in_world(column@),
        decreases height - i,
    {
        let surface = if i > -5 {
            BlockSurface::Dirt
        } else if i > -8 {
            BlockSurface::Gravel
        } else {
            random_stone()
        };
        column.push(Block { x: bx, y: i * UNIT, z: bz, surface });
        i = i + 1;
    }
    column
}

} // verus!
