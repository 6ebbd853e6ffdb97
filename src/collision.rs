//! The collision resolver: whether a block stops a move of the player's box,
//! axis by axis.

use vstd::prelude::*;

use crate::block::{in_world, Block, BLOCK_SIZE_FROM_CENTER};
use crate::player::{HEAD_HEIGHT, HEIGHT, PLAYER_SIZE_FROM_CENTER};

verus! {

/// Lower end of the player's box along `axis` (0 = x, 1 = y, 2 = z) when its
/// reference point is at `p` on that axis.
pub open spec fn player_lo(axis: int, p: int) -> int {
    if axis == 1 {
        p - HEIGHT
    } else {
        p - PLAYER_SIZE_FROM_CENTER
    }
}

/// Upper end of the player's box along `axis`.
pub open spec fn player_hi(axis: int, p: int) -> int {
    if axis == 1 {
        p + HEAD_HEIGHT
    } else {
        p + PLAYER_SIZE_FROM_CENTER
    }
}

/// The player's box at `p` and the block centred at `c` share more than a
/// face along `axis`: touching does not count.
pub open spec fn overlaps(axis: int, p: int, c: int) -> bool {
    player_lo(axis, p) < c + BLOCK_SIZE_FROM_CENTER && player_hi(axis, p) > c - BLOCK_SIZE_FROM_CENTER
}

/// Moving from `cur` to `next` along `axis` brings the player's box into the
/// block's extent, or carries it across: the box at `next` reaches past the
/// near face while the box at `cur` had not left the block behind.
pub open spec fn sweeps(axis: int, cur: int, next: int, c: int) -> bool {
    ||| (player_lo(axis, next) < c + BLOCK_SIZE_FROM_CENTER && player_hi(axis, cur) > c - BLOCK_SIZE_FROM_CENTER)
    ||| (player_lo(axis, cur) < c + BLOCK_SIZE_FROM_CENTER && player_hi(axis, next) > c - BLOCK_SIZE_FROM_CENTER)
}

/// The first of the two axes other than `axis`.
pub open spec fn side_a(axis: int) -> int {
    if axis == 0 {
        1
    } else {
        0
    }
}

/// The second of the two axes other than `axis`.
pub open spec fn side_b(axis: int) -> int {
    if axis == 2 {
        1
    } else {
        2
    }
}

/// Moving the player from `cur` to `next` is stopped along `axis` by the block
/// centred at `b`: the box overlaps the block on the two other axes at both
/// positions, and the move sweeps into the block along `axis`.
pub open spec fn blocked(axis: int, cur: [i64; 3], next: [i64; 3], b: [i64; 3]) -> bool {
    let a = side_a(axis);
    let o = side_b(axis);
    &&& sweeps(axis, cur[axis] as int, next[axis] as int, b[axis] as int)
    &&& overlaps(a, cur[a] as int, b[a] as int)
    &&& overlaps(o, cur[o] as int, b[o] as int)
    &&& overlaps(a, next[a] as int, b[a] as int)
    &&& overlaps(o, next[o] as int, b[o] as int)
}

/// Largest magnitude of a coordinate of the player that collision tests
/// accept: the world plus a wide margin for moves that leave it.
pub const COORD_LIMIT: i64 = 1_125_899_906_842_624;

pub open spec fn in_range(c: int) -> bool {
    -COORD_LIMIT <= c <= COORD_LIMIT
}

/// All three coordinates are in the range collision tests accept.
pub open spec fn point_in_range(p: [i64; 3]) -> bool {
    in_range(p[0] as int) && in_range(p[1] as int) && in_range(p[2] as int)
}

/// All three coordinates lie in the world.
pub open spec fn point_in_world(p: [i64; 3]) -> bool {
    in_world(p[0] as int) && in_world(p[1] as int) && in_world(p[2] as int)
}

/// The centre of a block as a point.
pub open spec fn center(b: Block) -> [i64; 3] {
    [b.x, b.y, b.z]
}

/// Along `axis`, the player's box at `p` lies entirely on one side of the
/// block centred at `c`, at most touching a face.
pub open spec fn clear_below(axis: int, p: int, c: int) -> bool {
    player_hi(axis, p) <= c - BLOCK_SIZE_FROM_CENTER
}

/// Along `axis`, the player's box at `p` lies entirely on the other side.
pub open spec fn clear_above(axis: int, p: int, c: int) -> bool {
    player_lo(axis, p) >= c + BLOCK_SIZE_FROM_CENTER
}

/// A move that keeps the player's box outside a block along one axis, on the
/// same side at both ends, is stopped by that block on no axis at all.
pub proof fn lemma_separated_move_not_blocked(axis: int, cur: [i64; 3], next: [i64; 3], b: [i64; 3])
    requires
        0 <= axis < 3,
        (clear_below(axis, cur[axis] as int, b[axis] as int) && clear_below(axis, next[axis] as int, b[axis] as int))
            || (clear_above(axis, cur[axis] as int, b[axis] as int) && clear_above(axis, next[axis] as int, b[axis] as int)),
    ensures
        !blocked(0, cur, next, b),
        !blocked(1, cur, next, b),
        !blocked(2, cur, next, b),
{
}

/// A player whose box is apart from a block along one axis at the start of a
/// move is stopped by that block on neither of the other two axes.
pub proof fn lemma_apart_frees_other_axes(axis: int, cur: [i64; 3], next: [i64; 3], b: [i64; 3])
    requires
        0 <= axis < 3,
        clear_below(axis, cur[axis] as int, b[axis] as int) || clear_above(axis, cur[axis] as int, b[axis] as int),
    ensures
        forall|other: int| 0 <= other < 3 && other != axis ==> !blocked(other, cur, next, b),
{
}

/// Which axes of a move a block stops.
#[derive(Clone, Copy, Debug, PartialEq, Eq, Structural)]
pub struct AxisBlocked {
    pub x: bool,
    pub y: bool,
    pub z: bool,
}

pub(crate) fn overlaps_exec(axis: usize, p: i64, c: i64) -> (r: bool)
    requires
        axis < 3,
        in_range(p as int),
        in_range(c as int),
    ensures
        r == overlaps(axis as int, p as int, c as int),
{
    let (lo, hi) = if axis == 1 {
        (p - HEIGHT, p + HEAD_HEIGHT)
    } else {
        (p - PLAYER_SIZE_FROM_CENTER, p + PLAYER_SIZE_FROM_CENTER)
    };
    lo < c + BLOCK_SIZE_FROM_CENTER && hi > c - BLOCK_SIZE_FROM_CENTER
}

fn sweeps_exec(axis: usize, cur: i64, next: i64, c: i64) -> (r: bool)
    requires
        axis < 3,
        in_range(cur as int),
        in_range(next as int),
        in_range(c as int),
    ensures
        r == sweeps(axis as int, cur as int, next as int, c as int),
{
    let (down, up) = if axis == 1 {
        (HEIGHT, HEAD_HEIGHT)
    } else {
        (PLAYER_SIZE_FROM_CENTER, PLAYER_SIZE_FROM_CENTER)
    };
    let far_face = c + BLOCK_SIZE_FROM_CENTER;
    let near_face = c - BLOCK_SIZE_FROM_CENTER;
    (next - down < far_face && cur + up > near_face) || (cur - down < far_face && next + up
        > near_face)
}

pub(crate) fn blocked_exec(axis: usize, cur: [i64; 3], next: [i64; 3], b: [i64; 3]) -> (r: bool)
    requires
        axis < 3,
        point_in_range(cur),
        point_in_range(next),
        point_in_range(b),
    ensures
        r == blocked(axis as int, cur, next, b),
{
    let a: usize = if axis == 0 {
        1
    } else {
        0
    };
    let o: usize = if axis == 2 {
        1
    } else {
        2
    };
    sweeps_exec(axis, cur[axis], next[axis], b[axis]) && overlaps_exec(a, cur[a], b[a])
        && overlaps_exec(o, cur[o], b[o]) && overlaps_exec(a, next[a], b[a]) && overlaps_exec(
        o,
        next[o],
        b[o],
    )
}

/// Decides, axis by axis, whether moving the player from `current` to
/// `proposed` is stopped by the block centred at `block`.
pub fn resolve(current: [i64; 3], proposed: [i64; 3], block: [i64; 3]) -> (r: AxisBlocked)
    requires
        point_in_range(current),
        point_in_range(proposed),
        point_in_range(block),
    ensures
        r.x == blocked(0, current, proposed, block),
        r.y == blocked(1, current, proposed, block),
        r.z == blocked(2, current, proposed, block),
{
    AxisBlocked {
        x: blocked_exec(0, current, proposed, block),
        y: blocked_exec(1, current, proposed, block),
        z: blocked_exec(2, current, proposed, block),
    }
}

/// Whether the block centred at `block` stops the move on any axis.
pub fn collision(current: [i64; 3], new_pos: [i64; 3], block: [i64; 3]) -> (r: bool)
    requires
        point_in_range(current),
        point_in_range(new_pos),
        point_in_range(block),
    ensures
        r == (blocked(0, current, new_pos, block) || blocked(1, current, new_pos, block)
            || blocked(2, current, new_pos, block)),
{
    let r = resolve(current, new_pos, block);
    r.x || r.y || r.z
}

} // verus!
