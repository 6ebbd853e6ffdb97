//! The vertical integrator: falling under gravity up to a terminal velocity,
//! and coming to stand on blocks.

use vstd::prelude::*;

use crate::block::{Block, BLOCK_SIZE_FROM_CENTER};
use crate::collision::{in_range, overlaps, point_in_range};
use crate::player::{Player, HEIGHT, TERMINAL_VELOCITY};
use crate::registry::{all_in_world, BlockRegistry};

verus! {

/// Acceleration of gravity in micrometres per square millisecond.
pub const GRAVITY: i64 = -10;

/// Half the acceleration of gravity.
pub const HALF_GRAVITY: i64 = -5;

/// Longest time step the integrator accepts, in milliseconds.
pub const MAX_TICK: i64 = 60_000;

/// Vertical displacement over `dt` starting at velocity `v`:
/// `v * dt + GRAVITY * dt^2 / 2`.
pub open spec fn fall_distance(v: int, dt: int) -> int {
    v * dt + HALF_GRAVITY * dt * dt
}

/// Velocity after `dt`, no faster downwards than the terminal velocity.
pub open spec fn next_velocity(v: int, dt: int) -> int {
    let w = v + GRAVITY * dt;
    if w < TERMINAL_VELOCITY {
        TERMINAL_VELOCITY as int
    } else {
        w
    }
}

/// The player with reference point `(x, y, z)`, displaced vertically by `dy`,
/// comes to stand on block `b`: the step does not rise, the box overlaps the
/// block horizontally, and the feet end in the block's vertical extent, at or
/// above its bottom and below its top.
pub open spec fn lands_on(x: int, y: int, z: int, dy: int, b: Block) -> bool {
    &&& dy <= 0
    &&& overlaps(0, x, b.x as int)
    &&& overlaps(2, z, b.z as int)
    &&& b.y - BLOCK_SIZE_FROM_CENTER <= y - HEIGHT + dy < b.y + BLOCK_SIZE_FROM_CENTER
}

/// Block `k` is the first of `s` that the player lands on.
pub open spec fn is_first_landing(s: Seq<Block>, x: int, y: int, z: int, dy: int, k: int) -> bool {
    &&& 0 <= k < s.len()
    &&& lands_on(x, y, z, dy, s[k])
    &&& forall|j: int| 0 <= j < k ==> !lands_on(x, y, z, dy, #[trigger] s[j])
}

/// The first block of `s` that the player lands on, if any.
pub open spec fn first_landing(s: Seq<Block>, x: int, y: int, z: int, dy: int) -> Option<int> {
    if exists|k: int| is_first_landing(s, x, y, z, dy, k) {
        Some(choose|k: int| is_first_landing(s, x, y, z, dy, k))
    } else {
        None
    }
}

/// The block that `first_landing` names is the first one landed on.
pub proof fn lemma_first_landing_spec(s: Seq<Block>, x: int, y: int, z: int, dy: int)
    requires
        first_landing(s, x, y, z, dy) is Some,
    ensures
        is_first_landing(s, x, y, z, dy, first_landing(s, x, y, z, dy).unwrap()),
{
}

proof fn lemma_first_landing_is(s: Seq<Block>, x: int, y: int, z: int, dy: int, k: int)
    requires
        is_first_landing(s, x, y, z, dy, k),
    ensures
        first_landing(s, x, y, z, dy) == Some(k),
{
    let c = choose|c: int| is_first_landing(s, x, y, z, dy, c);
    assert(is_first_landing(s, x, y, z, dy, c));
    if c < k {
        assert(!lands_on(x, y, z, dy, s[c]));
    } else if k < c {
        assert(!lands_on(x, y, z, dy, s[k]));
    }
}

proof fn lemma_no_landing(s: Seq<Block>, x: int, y: int, z: int, dy: int)
    requires
        forall|j: int| 0 <= j < s.len() ==> !lands_on(x, y, z, dy, #[trigger] s[j]),
    ensures
        first_landing(s, x, y, z, dy) is None,
{
    if exists|k: int| is_first_landing(s, x, y, z, dy, k) {
        let k = choose|k: int| is_first_landing(s, x, y, z, dy, k);
        assert(lands_on(x, y, z, dy, s[k]));
    }
}

/// One tick of the vertical integrator for the player at `(x, y, z)` with
/// vertical velocity `v`: the new height, the new velocity, and whether the
/// player stands on ground. When some block is landed on, the step is
/// cancelled and the player stops where it is; otherwise it falls freely.
pub open spec fn fall_step(s: Seq<Block>, x: int, y: int, z: int, v: int, dt: int) -> (int, int, bool) {
    let dy = fall_distance(v, dt);
    match first_landing(s, x, y, z, dy) {
        Some(k) => (y, 0, true),
        None => (y + dy, next_velocity(v, dt), false),
    }
}

/// The height, velocity and ground contact after `n` ticks of `dt` of the
/// integrator alone; the ground contact is that of the last tick.
pub open spec fn fall_ticks(s: Seq<Block>, x: int, y: int, z: int, v: int, dt: int, n: nat) -> (int, int, bool)
    decreases n,
{
    if n == 0 {
        (y, v, false)
    } else {
        let prev = fall_ticks(s, x, y, z, v, dt, (n - 1) as nat);
        fall_step(s, x, prev.0, z, prev.1, dt)
    }
}

/// Starting no faster than the terminal velocity and not rising, a body under
/// the integrator never falls faster than the terminal velocity and never
/// rises, whatever the blocks; and a tick that finds ground leaves it at rest
/// on that ground.
pub proof fn lemma_fall_speed_bounded(s: Seq<Block>, x: int, y: int, z: int, v: int, dt: int, n: nat)
    requires
        TERMINAL_VELOCITY <= v <= 0,
        dt >= 0,
    ensures
        TERMINAL_VELOCITY <= fall_ticks(s, x, y, z, v, dt, n).1 <= 0,
        fall_ticks(s, x, y, z, v, dt, n).2 ==> fall_ticks(s, x, y, z, v, dt, n).1 == 0,
    decreases n,
{
    if n > 0 {
        lemma_fall_speed_bounded(s, x, y, z, v, dt, (n - 1) as nat);
    }
}

/// A tick finds ground exactly when some block is landed on; it then stops
/// the body where it is.
pub proof fn lemma_landing_stops(s: Seq<Block>, x: int, y: int, z: int, v: int, dt: int)
    ensures
        fall_step(s, x, y, z, v, dt).2 <==> exists|k: int| 0 <= k < s.len() && lands_on(x, y, z, fall_distance(v, dt), #[trigger] s[k]),
        fall_step(s, x, y, z, v, dt).2 ==> fall_step(s, x, y, z, v, dt).1 == 0 && fall_step(s, x, y, z, v, dt).0 == y,
{
    let dy = fall_distance(v, dt);
    if let Some(k) = first_landing(s, x, y, z, dy) {
        assert(is_first_landing(s, x, y, z, dy, k));
    }
    if exists|k: int| 0 <= k < s.len() && lands_on(x, y, z, dy, #[trigger] s[k]) {
        let k = choose|k: int| 0 <= k < s.len() && lands_on(x, y, z, dy, #[trigger] s[k]);
        if first_landing(s, x, y, z, dy) is None {
            lemma_some_landing(s, x, y, z, dy, k);
        }
    }
}

proof fn lemma_some_landing(s: Seq<Block>, x: int, y: int, z: int, dy: int, k: int)
    requires
        0 <= k < s.len(),
        lands_on(x, y, z, dy, s[k]),
    ensures
        first_landing(s, x, y, z, dy) is Some,
    decreases k,
{
    if forall|j: int| 0 <= j < k ==> !lands_on(x, y, z, dy, #[trigger] s[j]) {
        assert(is_first_landing(s, x, y, z, dy, k));
    } else {
        let j = choose|j: int| 0 <= j < k && !!lands_on(x, y, z, dy, #[trigger] s[j]);
        lemma_some_landing(s, x, y, z, dy, j);
    }
}

/// Velocities that the integrator works with: within the terminal velocity,
/// with room for a jump on top.
pub open spec fn velocity_ok(v: int) -> bool {
    2 * TERMINAL_VELOCITY <= v <= -2 * TERMINAL_VELOCITY
}

/// The displacement and the new velocity of one tick, on machine integers.
pub fn kinematics(v: i64, dt: i64) -> (r: (i64, i64))
    requires
        velocity_ok(v as int),
        0 <= dt <= MAX_TICK,
    ensures
        r.0 == fall_distance(v as int, dt as int),
        r.1 == next_velocity(v as int, dt as int),
        -30_000_000_000 <= r.0 <= 30_000_000_000,
{
    proof {
        assert(-100_000 * 60_000 <= v * dt <= 100_000 * 60_000) by (nonlinear_arith)
            requires
                -100_000 <= v <= 100_000,
                0 <= dt <= 60_000,
        ;
        assert(0 <= dt * dt <= 60_000 * 60_000) by (nonlinear_arith)
            requires
                0 <= dt <= 60_000,
        ;
        assert(HALF_GRAVITY * dt * dt == -5 * (dt * dt)) by (nonlinear_arith);
    }
    let dy = v * dt + HALF_GRAVITY * dt * dt;
    let w = v + GRAVITY * dt;
    let v_new = if w < TERMINAL_VELOCITY {
        TERMINAL_VELOCITY
    } else {
        w
    };
    (dy, v_new)
}

/// The position in `blocks` of the first block that the player at `pos`
/// lands on when displaced vertically by `dy`.
pub fn find_landing(blocks: &Vec<Block>, pos: [i64; 3], dy: i64) -> (r: Option<usize>)
    requires
        all_in_world(blocks@),
        point_in_range(pos),
        -30_000_000_000 <= dy <= 30_000_000_000,
    ensures
        match r {
            Some(k) => first_landing(blocks@, pos[0] as int, pos[1] as int, pos[2] as int, dy as int)
                == Some(k as int),
            None => first_landing(blocks@, pos[0] as int, pos[1] as int, pos[2] as int, dy as int) is None,
        },
{
    let ghost s = blocks@;
    let ghost (x, y, z) = (pos[0] as int, pos[1] as int, pos[2] as int);
    let feet = pos[1] - HEIGHT + dy;
    let mut i: usize = 0;
    while i < blocks.len()
        invariant
            0 <= i <= blocks@.len(),
            s == blocks@,
            all_in_world(blocks@),
            point_in_range(pos),
            x == pos[0] && y == pos[1] && z == pos[2],
            feet == y - HEIGHT + dy,
            -30_000_000_000 <= dy <= 30_000_000_000,
            forall|j: int| 0 <= j < i ==> !lands_on(x, y, z, dy as int, #[trigger] s[j]),
        decreases blocks@.len() - i,
    {
        let b = &blocks[i];
        let lands = dy <= 0 && b.y - BLOCK_SIZE_FROM_CENTER <= feet && feet < b.y + BLOCK_SIZE_FROM_CENTER
            && crate::collision::overlaps_exec(0, pos[0], b.x)
            && crate::collision::overlaps_exec(2, pos[2], b.z);
        if lands {
            proof {
                lemma_first_landing_is(s, x, y, z, dy as int, i as int);
            }
            return Some(i);
        }
        i = i + 1;
    }
    proof {
        lemma_no_landing(s, x, y, z, dy as int);
    }
    None
}

/// Computes one tick of `fall_step` on machine integers.
pub fn vertical_step(blocks: &Vec<Block>, pos: [i64; 3], v: i64, dt: i64) -> (r: (i64, i64, bool))
    requires
        all_in_world(blocks@),
        point_in_range(pos),
        velocity_ok(v as int),
        0 <= dt <= MAX_TICK,
    ensures
        (r.0 as int, r.1 as int, r.2) == fall_step(blocks@, pos[0] as int, pos[1] as int, pos[2] as int, v as int, dt as int),
        TERMINAL_VELOCITY <= r.1 <= if v > 0 {
            v as int
        } else {
            0
        },
        r.2 ==> r.1 == 0,
{
    let (dy, v_new) = kinematics(v, dt);
    match find_landing(blocks, pos, dy) {
        Some(_) => (pos[1], 0, true),
        None => (pos[1] + dy, v_new, false),
    }
}

/// The vertical integrator as a system of the game loop.
pub struct Gravity;

impl Gravity {
    /// Advances the player's vertical motion by `dt` milliseconds: falls
    /// under gravity, or, when the feet would reach into a block below, stays
    /// where it is, stops, and may jump.
    pub fn run(&self, registry: &BlockRegistry, player: &mut Player, translation: &mut [i64; 3], dt: i64)
        requires
            registry.wf(),
            old(player).wf(),
            point_in_range(*old(translation)),
            0 <= dt <= MAX_TICK,
        ensures
            ({
                let t = *old(translation);
                let (y, v, ground) = fall_step(
                    registry@,
                    t[0] as int,
                    t[1] as int,
                    t[2] as int,
                    old(player).y_velocity as int,
                    dt as int,
                );
                &&& final(translation)[0] == t[0]
                &&& final(translation)[1] == y
                &&& final(translation)[2] == t[2]
                &&& final(player).y_velocity == v
                &&& final(player).can_jump == ground
                &&& final(player).vert_rotation == old(player).vert_rotation
                &&& final(player).current_block == old(player).current_block
            }),
            final(player).wf(),
    {
        let t = *translation;
        let (y, v, ground) = vertical_step(registry.list(), t, player.y_velocity, dt);
        *translation = [t[0], y, t[2]];
        player.y_velocity = v;
        player.can_jump = ground;
    }
}

} // verus!
