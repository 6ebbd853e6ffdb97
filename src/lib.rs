//! Spatial interaction layer of a voxel sandbox: a registry of unit cubes,
//! collision resolution for the player's box, a vertical integrator under
//! gravity, and ray casting for block targeting, destruction and placement.
//!
//! All lengths are integers in micrometres (one block edge is
//! `UNIT` = 1_000_000), times are milliseconds and velocities are
//! micrometres per millisecond, so every rule is exact integer arithmetic.

pub mod block;
pub mod collision;
pub mod gravity;
pub mod interaction;
pub mod movement;
pub mod player;
pub mod raycast;
pub mod registry;
pub mod terrain;
pub mod ui;

pub use block::{Block, BlockSurface, BLOCK_SIZE_FROM_CENTER, UNIT, WORLD_LIMIT};
pub use collision::{collision, resolve, AxisBlocked};
pub use gravity::{Gravity, GRAVITY, MAX_TICK};
pub use interaction::{handle_action, ActionOutcome, MouseAction};
pub use movement::MovementSystem;
pub use player::{Player, HEAD_HEIGHT, HEIGHT, PLAYER_SIZE_FROM_CENTER, TERMINAL_VELOCITY};
pub use raycast::{cast, Ray, RayHit, DIRECTION_LIMIT, PLAYER_REACH};
pub use registry::BlockRegistry;
pub use terrain::{stone_for, terrain_column};
pub use ui::CurrentBlockUiSystem;
