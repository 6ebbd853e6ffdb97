//! Horizontal moves stopped by blocks, and the full movement tick of the player.

use vstd::prelude::*;

use crate::block::{Block, BLOCK_SIZE_FROM_CENTER};
use crate::collision::{blocked, blocked_exec, center, in_range, point_in_range};
use crate::gravity::{
    fall_distance, find_landing, first_landing, kinematics, lemma_first_landing_spec, next_velocity, velocity_ok,
    MAX_TICK,
};
use crate::player::{Player, HEAD_HEIGHT, HEIGHT, PLAYER_SIZE_FROM_CENTER, TERMINAL_VELOCITY};
use crate::raycast::coord;
use crate::registry::{all_in_world, BlockRegistry};

verus! {

/// Vertical velocity given by a jump per thousandth of the jump input: a full
/// input gives five units per second.
pub const JUMP_SPEED_PER_MILLI: i64 = 5;

/// Largest horizontal move in one tick, in micrometres.
pub const MAX_STEP: i64 = 1_073_741_824;

/// `p` moved by `delta` along `axis`.
pub open spec fn moved(p: [i64; 3], axis: int, delta: int) -> [i64; 3] {
    if axis == 0 {
        [(p[0] + delta) as i64, p[1], p[2]]
    } else if axis == 1 {
        [p[0], (p[1] + delta) as i64, p[2]]
    } else {
        [p[0], p[1], (p[2] + delta) as i64]
    }
}

/// Block `k` is the first of `s` that stops the move from `cur` to `next` along `axis`.
pub open spec fn is_first_stop(s: Seq<Block>, axis: int, cur: [i64; 3], next: [i64; 3], k: int) -> bool {
    &&& 0 <= k < s.len()
    &&& blocked(axis, cur, next, center(s[k]))
    &&& forall|j: int| 0 <= j < k ==> !blocked(axis, cur, next, center(#[trigger] s[j]))
}

/// The first block of `s` that stops the move, if any.
pub open spec fn first_stop(s: Seq<Block>, axis: int, cur: [i64; 3], next: [i64; 3]) -> Option<int> {
    if exists|k: int| is_first_stop(s, axis, cur, next, k) {
        Some(choose|k: int| is_first_stop(s, axis, cur, next, k))
    } else {
        None
    }
}

/// The coordinate along the horizontal `axis` after trying to move from `cur`
/// by `delta`: a move stopped by a block ends with the player's box against
/// the face of the first such block that it moved towards; no move leaves the
/// coordinate as it is.
pub open spec fn slide(s: Seq<Block>, cur: [i64; 3], axis: int, delta: int) -> int {
    if delta == 0 {
        cur[axis] as int
    } else {
        match first_stop(s, axis, cur, moved(cur, axis, delta)) {
            Some(k) => if delta > 0 {
                coord(s[k], axis) - BLOCK_SIZE_FROM_CENTER - PLAYER_SIZE_FROM_CENTER
            } else {
                coord(s[k], axis) + BLOCK_SIZE_FROM_CENTER + PLAYER_SIZE_FROM_CENTER
            },
            None => cur[axis] + delta,
        }
    }
}

proof fn lemma_first_stop_is(s: Seq<Block>, axis: int, cur: [i64; 3], next: [i64; 3], k: int)
    requires
        is_first_stop(s, axis, cur, next, k),
    ensures
        first_stop(s, axis, cur, next) == Some(k),
{
    let c = choose|c: int| is_first_stop(s, axis, cur, next, c);
    assert(is_first_stop(s, axis, cur, next, c));
    if c < k {
        assert(!blocked(axis, cur, next, center(s[c])));
    } else if k < c {
        assert(!blocked(axis, cur, next, center(s[k])));
    }
}

proof fn lemma_no_stop(s: Seq<Block>, axis: int, cur: [i64; 3], next: [i64; 3])
    requires
        forall|j: int| 0 <= j < s.len() ==> !blocked(axis, cur, next, center(#[trigger] s[j])),
    ensures
        first_stop(s, axis, cur, next) is None,
{
    if exists|k: int| is_first_stop(s, axis, cur, next, k) {
        let k = choose|k: int| is_first_stop(s, axis, cur, next, k);
        assert(!blocked(axis, cur, next, center(s[k])));
    }
}

/// The position in `blocks` of the first block that stops the move from
/// `cur` to `next` along `axis`.
fn find_stop(blocks: &Vec<Block>, axis: usize, cur: [i64; 3], next: [i64; 3]) -> (r: Option<usize>)
    requires
        all_in_world(blocks@),
        axis < 3,
        point_in_range(cur),
        point_in_range(next),
    ensures
        match r {
            Some(k) => first_stop(blocks@, axis as int, cur, next) == Some(k as int) && k < blocks@.len(),
            None => first_stop(blocks@, axis as int, cur, next) is None,
        },
{
    let ghost s = blocks@;
    let mut i: usize = 0;
    while i < blocks.len()
        invariant
            0 <= i <= blocks@.len(),
            s == blocks@,
            all_in_world(blocks@),
            axis < 3,
            point_in_range(cur),
            point_in_range(next),
            forall|j: int| 0 <= j < i ==> !blocked(axis as int, cur, next, center(#[trigger] s[j])),
        decreases blocks@.len() - i,
    {
        let b = &blocks[i];
        let c = b.as_array();
        assert(c == center(*b));
        if blocked_exec(axis, cur, next, c) {
            proof {
                lemma_first_stop_is(s, axis as int, cur, next, i as int);
            }
            return Some(i);
        }
        i = i + 1;
    }
    proof {
        lemma_no_stop(s, axis as int, cur, next);
    }
    None
}

/// Computes `slide` along axis 0 or 2.
fn slide_exec(blocks: &Vec<Block>, cur: [i64; 3], axis: usize, delta: i64) -> (r: i64)
    requires
        all_in_world(blocks@),
        axis == 0 || axis == 2,
        point_in_range(cur),
        -MAX_STEP <= delta <= MAX_STEP,
        -COORD_MARGIN_LIMIT <= cur[axis as int] <= COORD_MARGIN_LIMIT,
    ensures
        r == slide(blocks@, cur, axis as int, delta as int),
{
    if delta == 0 {
        return cur[axis];
    }
    let next: [i64; 3] = if axis == 0 {
        [cur[0] + delta, cur[1], cur[2]]
    } else {
        [cur[0], cur[1], cur[2] + delta]
    };
    assert(next == moved(cur, axis as int, delta as int));
    match find_stop(blocks, axis, cur, next) {
        Some(k) => {
            let face = if axis == 0 {
                blocks[k].x
            } else {
                blocks[k].z
            };
            if delta > 0 {
                face - BLOCK_SIZE_FROM_CENTER - PLAYER_SIZE_FROM_CENTER
            } else {
                face + BLOCK_SIZE_FROM_CENTER + PLAYER_SIZE_FROM_CENTER
            }
        },
        None => cur[axis] + delta,
    }
}

/// The vertical part of a movement tick for the player at `p` with velocity
/// `v`: the new height, the new velocity and whether the player stands on
/// ground. Rising into a block stops the player with its head under the
/// block's bottom; falling onto a block sets its feet on the block's top,
/// where it stops and may jump; otherwise it moves freely under gravity.
pub open spec fn step_vertical(s: Seq<Block>, p: [i64; 3], v: int, dt: int) -> (int, int, bool) {
    let dy = fall_distance(v, dt);
    if dy > 0 {
        match first_stop(s, 1, p, moved(p, 1, dy)) {
            Some(k) => (s[k].y - BLOCK_SIZE_FROM_CENTER - HEAD_HEIGHT, 0, false),
            None => (p[1] + dy, next_velocity(v, dt), false),
        }
    } else {
        match first_landing(s, p[0] as int, p[1] as int, p[2] as int, dy) {
            Some(k) => (s[k].y + BLOCK_SIZE_FROM_CENTER + HEIGHT, 0, true),
            None => (p[1] + dy, next_velocity(v, dt), false),
        }
    }
}

/// Computes `step_vertical` on machine integers.
pub fn movement_vertical_step(blocks: &Vec<Block>, p: [i64; 3], v: i64, dt: i64) -> (r: (i64, i64, bool))
    requires
        all_in_world(blocks@),
        -COORD_MARGIN_LIMIT <= p[0] <= COORD_MARGIN_LIMIT,
        -COORD_MARGIN_LIMIT <= p[1] <= COORD_MARGIN_LIMIT,
        -COORD_MARGIN_LIMIT <= p[2] <= COORD_MARGIN_LIMIT,
        velocity_ok(v as int),
        0 <= dt <= MAX_TICK,
    ensures
        (r.0 as int, r.1 as int, r.2) == step_vertical(blocks@, p, v as int, dt as int),
        TERMINAL_VELOCITY <= r.1 <= if v > 0 {
            v as int
        } else {
            0
        },
        r.2 ==> r.1 == 0,
{
    let (dy, v_new) = kinematics(v, dt);
    if dy > 0 {
        let next: [i64; 3] = [p[0], p[1] + dy, p[2]];
        assert(next == moved(p, 1, dy as int));
        match find_stop(blocks, 1, p, next) {
            Some(k) => (blocks[k].y - BLOCK_SIZE_FROM_CENTER - HEAD_HEIGHT, 0, false),
            None => (p[1] + dy, v_new, false),
        }
    } else {
        match find_landing(blocks, p, dy) {
            Some(k) => {
                proof {
                    lemma_first_landing_spec(blocks@, p[0] as int, p[1] as int, p[2] as int, dy as int);
                }
                (blocks[k].y + BLOCK_SIZE_FROM_CENTER + HEIGHT, 0, true)
            },
            None => (p[1] + dy, v_new, false),
        }
    }
}

/// Bound on a horizontal coordinate before a move, so that the move stays in
/// the range that collision tests accept.
pub const COORD_MARGIN_LIMIT: i64 = 1_124_000_000_000_000;

/// The player's motion in one tick: horizontal movement as the input asks,
/// then a jump, then the vertical integrator.
pub struct MovementSystem;

/// The velocity after the jump input `jump` (thousandths of a full input):
/// a jump only starts from the ground and with a positive input.
pub open spec fn jumped_velocity(p: Player, jump: int) -> int {
    if p.can_jump && jump > 0 {
        p.y_velocity + JUMP_SPEED_PER_MILLI * jump
    } else {
        p.y_velocity as int
    }
}

impl MovementSystem {
    /// Moves the player at `translation` by `dx` along x, then by `dz`
    /// along z, each stopped by the first block in the way, then applies the
    /// jump input and one vertical step (`step_vertical`), which clamps the
    /// player against blocks above and below; all of it written back in one go.
    pub fn run(
        &self,
        registry: &BlockRegistry,
        player: &mut Player,
        translation: &mut [i64; 3],
        dx: i64,
        dz: i64,
        jump: i64,
        dt: i64,
    )
        requires
            registry.wf(),
            old(player).wf(),
            crate::collision::point_in_world(*old(translation)),
            -MAX_STEP <= dx <= MAX_STEP,
            -MAX_STEP <= dz <= MAX_STEP,
            -1000 <= jump <= 1000,
            0 <= dt <= MAX_TICK,
        ensures
            ({
                let t = *old(translation);
                let x1 = slide(registry@, t, 0, dx as int);
                let after_x = [x1 as i64, t[1], t[2]];
                let z1 = slide(registry@, after_x, 2, dz as int);
                let (y, v, ground) = step_vertical(
                    registry@,
                    [x1 as i64, t[1], z1 as i64],
                    jumped_velocity(*old(player), jump as int),
                    dt as int,
                );
                &&& final(translation)[0] == x1
                &&& final(translation)[1] == y
                &&& final(translation)[2] == z1
                &&& final(player).y_velocity == v
                &&& final(player).can_jump == ground
                &&& final(player).vert_rotation == old(player).vert_rotation
                &&& final(player).current_block == old(player).current_block
            }),
            final(player).wf(),
    {
        let blocks = registry.list();
        let t = *translation;
        let x1 = slide_exec(blocks, t, 0, dx);
        let after_x = [x1, t[1], t[2]];
        let z1 = slide_exec(blocks, after_x, 2, dz);
        let v0 = if player.can_jump && jump > 0 {
            player.y_velocity + JUMP_SPEED_PER_MILLI * jump
        } else {
            player.y_velocity
        };
        let (y, v, ground) = movement_vertical_step(blocks, [x1, t[1], z1], v0, dt);
        *translation = [x1, y, z1];
        player.y_velocity = v;
        player.can_jump = ground;
    }
}

} // verus!
