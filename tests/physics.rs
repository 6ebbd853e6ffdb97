use voxel_world::{
    collision, resolve, AxisBlocked, Block, BlockRegistry, BlockSurface, Gravity, MovementSystem, Player,
    TERMINAL_VELOCITY, UNIT,
};

fn open_space() -> BlockRegistry {
    BlockRegistry::new()
}

#[test]
fn free_fall_tick_uses_kinematic_displacement() {
    let mut player = Player::new();
    player.can_jump = false;
    let mut translation = [0, 0, 0];
    Gravity.run(&open_space(), &mut player, &mut translation, 16);
    // dy = v*dt + g*dt^2/2 = 0 - 5 * 256
    assert_eq!(translation, [0, -1_280, 0]);
    assert_eq!(player.y_velocity, -160);
    assert!(!player.can_jump);
}

#[test]
fn fall_speed_is_clamped_at_terminal_velocity() {
    let mut player = Player::new();
    player.can_jump = false;
    player.y_velocity = -49_990;
    let mut translation = [0, 0, 0];
    Gravity.run(&open_space(), &mut player, &mut translation, 16);
    assert_eq!(player.y_velocity, TERMINAL_VELOCITY);
    assert_eq!(translation[1], -49_990 * 16 - 1_280);
}

#[test]
fn falling_from_rest_never_exceeds_terminal_velocity() {
    let mut player = Player::new();
    let mut translation = [0, 0, 0];
    for _ in 0..1000 {
        Gravity.run(&open_space(), &mut player, &mut translation, 33);
        assert!(player.y_velocity >= TERMINAL_VELOCITY);
        assert!(player.y_velocity <= 0);
        assert!(!player.can_jump);
    }
    assert_eq!(player.y_velocity, TERMINAL_VELOCITY);
}

#[test]
fn zero_tick_changes_nothing_in_open_space() {
    let mut player = Player::new();
    let mut translation = [1, 2, 3];
    Gravity.run(&open_space(), &mut player, &mut translation, 0);
    assert_eq!(translation, [1, 2, 3]);
    assert_eq!(player.y_velocity, 0);
}

#[test]
fn player_beside_block_falls_past_it() {
    let registry = BlockRegistry::from_blocks(vec![Block::new(0, 0, 0, BlockSurface::Dirt)]);
    let mut player = Player::new();
    // the box spans x in [500_000, 1_300_000]: it only touches the block's face
    let mut translation = [900_000, 2_500_000, 0];
    Gravity.run(&registry, &mut player, &mut translation, 16);
    assert_eq!(translation[1], 2_500_000 - 1_280);
    assert!(!player.can_jump);
}

#[test]
fn player_overlapping_edge_stands_on_block() {
    let registry = BlockRegistry::from_blocks(vec![Block::new(0, 0, 0, BlockSurface::Dirt)]);
    let mut player = Player::new();
    let mut translation = [899_999, 2_500_000, 0];
    Gravity.run(&registry, &mut player, &mut translation, 16);
    assert_eq!(translation[1], 2_500_000);
    assert!(player.can_jump);
}

#[test]
fn move_into_block_stops_at_its_face() {
    let registry = BlockRegistry::from_blocks(vec![Block::new(0, 0, 0, BlockSurface::Dirt)]);
    let mut player = Player::new();
    let mut translation = [-1_500_000, 1_500_000, 0];
    MovementSystem.run(&registry, &mut player, &mut translation, 700_000, 0, 0, 16);
    assert_eq!(translation, [-900_000, 1_500_000 - 1_280, 0]);
    assert_eq!(player.y_velocity, -160);
}

#[test]
fn move_away_from_block_is_free() {
    let registry = BlockRegistry::from_blocks(vec![Block::new(0, 0, 0, BlockSurface::Dirt)]);
    let mut player = Player::new();
    let mut translation = [-900_000, 1_500_000, 0];
    MovementSystem.run(&registry, &mut player, &mut translation, -300_000, 250_000, 0, 16);
    assert_eq!(translation, [-1_200_000, 1_500_000 - 1_280, 250_000]);
}

#[test]
fn move_backwards_into_block_stops_at_far_face() {
    let registry = BlockRegistry::from_blocks(vec![Block::new(0, 0, 0, BlockSurface::Dirt)]);
    let mut player = Player::new();
    let mut translation = [0, 1_500_000, 1_500_000];
    MovementSystem.run(&registry, &mut player, &mut translation, 0, -700_000, 0, 16);
    assert_eq!(translation[2], 900_000);
}

#[test]
fn jump_from_ground_adds_impulse() {
    let registry = BlockRegistry::from_blocks(vec![Block::new(0, 0, 0, BlockSurface::Grass)]);
    let mut player = Player::new();
    let mut translation = [0, 2_500_000, 0];
    MovementSystem.run(&registry, &mut player, &mut translation, 0, 0, 1000, 16);
    // v = 5000, dy = 5000 * 16 - 5 * 256
    assert_eq!(translation, [0, 2_500_000 + 78_720, 0]);
    assert_eq!(player.y_velocity, 4_840);
    assert!(!player.can_jump);
    // no second jump in the air
    MovementSystem.run(&registry, &mut player, &mut translation, 0, 0, 1000, 16);
    assert_eq!(player.y_velocity, 4_680);
}

#[test]
fn jump_into_block_above_stops_head_under_it() {
    let registry = BlockRegistry::from_blocks(vec![Block::new(0, UNIT, 0, BlockSurface::Grass)]);
    let mut player = Player::new();
    let mut translation = [0, 0, 0];
    MovementSystem.run(&registry, &mut player, &mut translation, 0, 0, 1000, 100);
    // head flush with the block's bottom: 1.0 - 0.5 - 0.2
    assert_eq!(translation, [0, 300_000, 0]);
    assert_eq!(player.y_velocity, 0);
    assert!(!player.can_jump);
}

#[test]
fn jump_into_open_space_rises() {
    let mut player = Player::new();
    let mut translation = [0, 0, 0];
    MovementSystem.run(&open_space(), &mut player, &mut translation, 0, 0, 1000, 100);
    assert_eq!(translation, [0, 450_000, 0]);
    assert_eq!(player.y_velocity, 4_000);
}

#[test]
fn downward_jump_input_gives_no_jump() {
    let registry = BlockRegistry::from_blocks(vec![Block::new(0, 0, 0, BlockSurface::Grass)]);
    let mut player = Player::new();
    let mut translation = [0, 2_500_000, 0];
    MovementSystem.run(&registry, &mut player, &mut translation, 0, 0, -1000, 16);
    assert_eq!(translation, [0, 2_500_000, 0]);
    assert_eq!(player.y_velocity, 0);
    assert!(player.can_jump);
}

#[test]
fn standing_without_jump_input_stays() {
    let registry = BlockRegistry::from_blocks(vec![Block::new(0, 0, 0, BlockSurface::Grass)]);
    let mut player = Player::new();
    let mut translation = [0, 2_500_000, 0];
    MovementSystem.run(&registry, &mut player, &mut translation, 0, 0, 0, 16);
    assert_eq!(translation, [0, 2_500_000, 0]);
    assert!(player.can_jump);
}

#[test]
fn resolver_blocks_only_the_moving_axis() {
    let r = resolve([-1_500_000, 1_500_000, 0], [-800_000, 1_500_000, 0], [0, 0, 0]);
    assert_eq!(r, AxisBlocked { x: true, y: false, z: false });
    assert!(collision([-1_500_000, 1_500_000, 0], [-800_000, 1_500_000, 0], [0, 0, 0]));
}

#[test]
fn resolver_treats_touching_as_free() {
    let r = resolve([-1_500_000, 1_500_000, 0], [-900_000, 1_500_000, 0], [0, 0, 0]);
    assert_eq!(r, AxisBlocked { x: false, y: false, z: false });
}

#[test]
fn resolver_catches_move_across_block() {
    let r = resolve([-1_500_000, 1_500_000, 0], [1_500_000, 1_500_000, 0], [0, 0, 0]);
    assert!(r.x);
}

#[test]
fn resolver_blocks_fall_into_block() {
    let r = resolve([0, 2_600_000, 0], [0, 2_400_000, 0], [0, 0, 0]);
    assert_eq!(r, AxisBlocked { x: false, y: true, z: false });
}

/// A small deterministic generator for coordinates.
fn next(seed: &mut u64) -> i64 {
    *seed = seed.wrapping_mul(6364136223846793005).wrapping_add(1442695040888963407);
    ((*seed >> 33) % 20_000_000) as i64 - 10_000_000
}

#[test]
fn separated_moves_are_never_blocked() {
    let mut seed = 7u64;
    let mut checked = 0;
    for _ in 0..20_000 {
        let cur = [next(&mut seed), next(&mut seed), next(&mut seed)];
        let new_pos = [next(&mut seed), next(&mut seed), next(&mut seed)];
        let block = [next(&mut seed) / 4, next(&mut seed) / 4, next(&mut seed) / 4];
        for axis in 0..3 {
            let (down, up) = if axis == 1 { (2_000_000, 200_000) } else { (400_000, 400_000) };
            let below = |p: i64| p + up < block[axis] - 500_000;
            let above = |p: i64| p - down > block[axis] + 500_000;
            if (below(cur[axis]) && below(new_pos[axis])) || (above(cur[axis]) && above(new_pos[axis])) {
                let r = resolve(cur, new_pos, block);
                assert_eq!(r, AxisBlocked { x: false, y: false, z: false });
                checked += 1;
            }
        }
    }
    assert!(checked > 1000);
}

#[test]
fn pitch_is_limited_short_of_vertical() {
    let mut player = Player::new();
    assert_eq!(player.pitch(1_000_000), 1_000_000);
    assert_eq!(player.vert_rotation, 1_000_000);
    assert_eq!(player.pitch(600_000), 0);
    assert_eq!(player.vert_rotation, 1_000_000);
    assert_eq!(player.pitch(-1_500_000), -1_500_000);
    assert_eq!(player.vert_rotation, -500_000);
    assert_eq!(player.pitch(-1_070_796), 0);
    assert_eq!(player.pitch(-1_070_795), -1_070_795);
    assert_eq!(player.pitch(10_000_000), 0);
    assert_eq!(player.vert_rotation, -1_570_795);
    assert_eq!(player.pitch(3_141_590), 3_141_590);
    assert_eq!(player.vert_rotation, 1_570_795);
}

#[test]
fn unit_is_one_block() {
    assert_eq!(UNIT, 1_000_000);
}
