//! Destroying, picking and placing blocks along the crosshair ray.

use vstd::prelude::*;

use crate::block::{Block, BlockSurface, BLOCK_SIZE_FROM_CENTER, WORLD_LIMIT};
use crate::player::Player;
use crate::raycast::{cast, hit_in_reach, is_nearest, lemma_nearest_unique, Ray};
use crate::registry::BlockRegistry;

verus! {

/// A pointer action of the player.
#[derive(Clone, Copy, Debug, PartialEq, Eq, Structural)]
pub enum MouseAction {
    /// Primary button: destroy the targeted block.
    Destroy,
    /// Secondary button: place the held surface on top of the targeted block.
    Place,
    /// Tertiary button: take the targeted block's surface as the held one.
    Pick,
}

/// What an action did, for the entity store to mirror.
#[derive(Clone, Copy, Debug, PartialEq, Eq, Structural)]
pub enum ActionOutcome {
    Nothing,
    /// The block that stood at `index` was removed.
    Destroyed { index: usize, block: Block },
    /// The player now holds `surface`.
    Picked { surface: BlockSurface },
    /// `block` was added at the end of the registry, on top of the block at `target`.
    Placed { block: Block, target: usize },
}

/// The block that the crosshair ray selects within `reach`.
pub open spec fn target(ray: Ray, s: Seq<Block>, reach: int) -> Option<int> {
    if exists|k: int| is_nearest(ray, s, reach, k) {
        Some(choose|k: int| is_nearest(ray, s, reach, k))
    } else {
        None
    }
}

/// The block that placing `surface` on `b` adds: one block edge above it.
pub open spec fn block_above(b: Block, surface: BlockSurface) -> Block {
    Block { x: b.x, y: (b.y + 2 * BLOCK_SIZE_FROM_CENTER) as i64, z: b.z, surface }
}

/// A block can be placed on `b` without leaving the world.
pub open spec fn room_above(b: Block) -> bool {
    b.y + 2 * BLOCK_SIZE_FROM_CENTER <= WORLD_LIMIT
}

/// Carries out one pointer action along the crosshair ray, whose target is
/// the block it selects within `reach` (the game uses `PLAYER_REACH`): destroying
/// removes the targeted block, picking stores its surface in the player,
/// placing adds a block with the held surface on top of it. Without a target,
/// or a held surface to place, nothing happens.
pub fn handle_action(
    registry: &mut BlockRegistry,
    player: &mut Player,
    ray: &Ray,
    reach: i64,
    action: MouseAction,
) -> (r: ActionOutcome)
    requires
        old(registry).wf(),
        ray.wf(),
        0 <= reach <= WORLD_LIMIT,
    ensures
        final(registry).wf(),
        final(player).y_velocity == old(player).y_velocity,
        final(player).can_jump == old(player).can_jump,
        final(player).vert_rotation == old(player).vert_rotation,
        match target(*ray, old(registry)@, reach as int) {
            None => {
                &&& r == ActionOutcome::Nothing
                &&& final(registry)@ == old(registry)@
                &&& final(player).current_block == old(player).current_block
            },
            Some(k) => {
                let b = old(registry)@[k];
                match action {
                    MouseAction::Destroy => {
                        &&& r == (ActionOutcome::Destroyed { index: k as usize, block: b })
                        &&& final(registry)@ == old(registry)@.remove(k)
                        &&& final(player).current_block == old(player).current_block
                    },
                    MouseAction::Pick => {
                        &&& r == (ActionOutcome::Picked { surface: b.surface })
                        &&& final(registry)@ == old(registry)@
                        &&& final(player).current_block == Some(b.surface)
                    },
                    MouseAction::Place => {
                        &&& final(player).current_block == old(player).current_block
                        &&& match old(player).current_block {
                            Some(surface) => if room_above(b) {
                                &&& r == (ActionOutcome::Placed { block: block_above(b, surface), target: k as usize })
                                &&& final(registry)@ == old(registry)@.push(block_above(b, surface))
                            } else {
                                &&& r == ActionOutcome::Nothing
                                &&& final(registry)@ == old(registry)@
                            },
                            None => {
                                &&& r == ActionOutcome::Nothing
                                &&& final(registry)@ == old(registry)@
                            },
                        }
                    },
                }
            },
        },
{
    let found = cast(ray, registry.list(), reach);
    proof {
        let s = registry@;
        match found {
            Some(h) => {
                lemma_target_is(*ray, s, reach as int, h.index as int);
            },
            None => {
                lemma_no_target(*ray, s, reach as int);
            },
        }
    }
    match found {
        None => ActionOutcome::Nothing,
        Some(hit) => {
            let b = hit.block;
            match action {
                MouseAction::Destroy => {
                    let removed = registry.remove(hit.index);
                    ActionOutcome::Destroyed { index: hit.index, block: removed }
                },
                MouseAction::Pick => {
                    player.current_block = Some(b.surface);
                    ActionOutcome::Picked { surface: b.surface }
                },
                MouseAction::Place => match player.current_block {
                    Some(surface) => {
                        if b.y <= WORLD_LIMIT - 2 * BLOCK_SIZE_FROM_CENTER {
                            let above = Block {
                                x: b.x,
                                y: b.y + 2 * BLOCK_SIZE_FROM_CENTER,
                                z: b.z,
                                surface,
                            };
                            registry.insert(above);
                            ActionOutcome::Placed { block: above, target: hit.index }
                        } else {
                            ActionOutcome::Nothing
                        }
                    },
                    None => ActionOutcome::Nothing,
                },
            }
        },
    }
}

proof fn lemma_target_is(ray: Ray, s: Seq<Block>, reach: int, k: int)
    requires
        is_nearest(ray, s, reach, k),
    ensures
        target(ray, s, reach) == Some(k),
{
    let c = choose|c: int| is_nearest(ray, s, reach, c);
    lemma_nearest_unique(ray, s, reach, c, k);
}

proof fn lemma_no_target(ray: Ray, s: Seq<Block>, reach: int)
    requires
        forall|j: int| 0 <= j < s.len() ==> !hit_in_reach(ray, #[trigger] s[j], reach),
    ensures
        target(ray, s, reach) is None,
{
    if exists|k: int| is_nearest(ray, s, reach, k) {
        let k = choose|k: int| is_nearest(ray, s, reach, k);
        assert(hit_in_reach(ray, s[k], reach));
    }
}

} // verus!
