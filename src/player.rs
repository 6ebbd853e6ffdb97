//! The player's own state and the dimensions of its box.

use vstd::prelude::*;

use crate::block::BlockSurface;

verus! {

/// From the eyes (the player's reference point) down to the feet.
pub const HEIGHT: i64 = 2_000_000;

/// From the eyes up to the top of the head.
pub const HEAD_HEIGHT: i64 = 200_000;

/// Half the width of the player's box on the horizontal axes.
pub const PLAYER_SIZE_FROM_CENTER: i64 = 400_000;

/// Speed of free fall that gravity never exceeds, downwards (micrometres per millisecond).
pub const TERMINAL_VELOCITY: i64 = -50_000;

/// A quarter turn in microradians: the pitch stays strictly within plus or minus this.
pub const HALF_TURN_PITCH: i64 = 1_570_796;

/// Largest magnitude of one pitch step, in microradians (far beyond any turn).
pub const MAX_PITCH_STEP: i64 = 4_611_686_018_427_387_904;

/// The player's own state; its translation belongs to the transform store.
#[derive(Clone, Copy, Debug, PartialEq, Eq, Structural)]
pub struct Player {
    /// Vertical velocity in micrometres per millisecond (upwards positive).
    pub y_velocity: i64,
    /// Whether the last vertical step found ground under the feet.
    pub can_jump: bool,
    /// Pitch of the view in microradians.
    pub vert_rotation: i64,
    /// The surface picked from a block, used for placing new blocks.
    pub current_block: Option<BlockSurface>,
}

impl Player {
    /// The speed stays within the terminal velocity both ways, a player that
    /// may jump stands still, and the pitch stays short of straight up or down.
    pub open spec fn wf(&self) -> bool {
        &&& TERMINAL_VELOCITY <= self.y_velocity <= -TERMINAL_VELOCITY
        &&& (self.can_jump ==> self.y_velocity == 0)
        &&& -HALF_TURN_PITCH < self.vert_rotation < HALF_TURN_PITCH
    }

    pub fn new() -> (r: Player)
        ensures
            r.y_velocity == 0,
            r.can_jump,
            r.vert_rotation == 0,
            r.current_block.is_none(),
            r.wf(),
    {
        Player { y_velocity: 0, can_jump: true, vert_rotation: 0, current_block: None }
    }

    /// Turns the view up or down by `delta` microradians, unless that would
    /// reach straight up or down, in which case the pitch stays. Returns the
    /// turn that was made.
    pub fn pitch(&mut self, delta: i64) -> (r: i64)
        requires
            old(self).wf(),
            -MAX_PITCH_STEP <= delta <= MAX_PITCH_STEP,
        ensures
            ({
                let t = old(self).vert_rotation + delta;
                if -HALF_TURN_PITCH < t < HALF_TURN_PITCH {
                    r == delta && final(self).vert_rotation == t
                } else {
                    r == 0 && final(self).vert_rotation == old(self).vert_rotation
                }
            }),
            final(self).y_velocity == old(self).y_velocity,
            final(self).can_jump == old(self).can_jump,
            final(self).current_block == old(self).current_block,
            final(self).wf(),
    {
        let t = self.vert_rotation + delta;
        if -HALF_TURN_PITCH < t && t < HALF_TURN_PITCH {
            self.vert_rotation = t;
            delta
        } else {
            0
        }
    }
}

} // verus!
