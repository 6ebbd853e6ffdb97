use voxel_world::{
    cast, handle_action, ActionOutcome, Block, BlockRegistry, BlockSurface, Gravity, MouseAction, MovementSystem,
    Player, Ray,
    BLOCK_SIZE_FROM_CENTER, HEIGHT, PLAYER_REACH, UNIT,
};

fn downward_ray() -> Ray {
    Ray { origin: [0, 10 * UNIT, 0], direction: [0, -1, 0] }
}

#[test]
fn player_falls_onto_block_and_rests_on_top() {
    let registry = BlockRegistry::from_blocks(vec![Block::new(0, 0, 0, BlockSurface::Grass)]);
    let mut player = Player::new();
    let mut translation = [0, 5 * UNIT, 0];
    let mut landed_at = None;
    for tick in 0..2000 {
        MovementSystem.run(&registry, &mut player, &mut translation, 0, 0, 0, 16);
        assert!(translation[1] >= BLOCK_SIZE_FROM_CENTER + HEIGHT - UNIT);
        if player.can_jump && landed_at.is_none() {
            landed_at = Some(tick);
        }
    }
    assert!(landed_at.is_some());
    assert_eq!(translation, [0, BLOCK_SIZE_FROM_CENTER + HEIGHT, 0]);
    assert_eq!(translation[1], 2_500_000);
    assert!(player.can_jump);
    assert_eq!(player.y_velocity, 0);
}

#[test]
fn gravity_alone_stops_the_player_where_it_touches_ground() {
    let registry = BlockRegistry::from_blocks(vec![Block::new(0, 0, 0, BlockSurface::Grass)]);
    let mut player = Player::new();
    player.can_jump = false;
    player.y_velocity = -1_000;
    let mut translation = [0, 2_501_000, 0];
    Gravity.run(&registry, &mut player, &mut translation, 16);
    assert_eq!(translation, [0, 2_501_000, 0]);
    assert_eq!(player.y_velocity, 0);
    assert!(player.can_jump);
}

#[test]
fn resting_player_stays_put() {
    let registry = BlockRegistry::from_blocks(vec![Block::new(0, 0, 0, BlockSurface::Dirt)]);
    let mut player = Player::new();
    let mut translation = [0, 2_500_000, 0];
    for _ in 0..100 {
        Gravity.run(&registry, &mut player, &mut translation, 16);
        assert_eq!(translation, [0, 2_500_000, 0]);
        assert!(player.can_jump);
        assert_eq!(player.y_velocity, 0);
    }
}

#[test]
fn crosshair_ray_straight_down_hits_block_top() {
    let blocks = vec![Block::new(0, 0, 0, BlockSurface::Grass)];
    let hit = cast(&downward_ray(), &blocks, 10 * UNIT).expect("block below is hit");
    assert_eq!(hit.index, 0);
    assert_eq!(hit.block, blocks[0]);
    assert_eq!(hit.t_num, 9_500_000);
    assert_eq!(hit.t_den, 1);
    let distance_units = hit.t_num as f64 / hit.t_den as f64 / UNIT as f64;
    assert!((distance_units - 9.5).abs() < 1e-9);
}

#[test]
fn crosshair_ray_with_scaled_direction_gives_same_distance() {
    let blocks = vec![Block::new(0, 0, 0, BlockSurface::Grass)];
    let ray = Ray { origin: [0, 10 * UNIT, 0], direction: [0, -1_048_576, 0] };
    let hit = cast(&ray, &blocks, 10 * UNIT).unwrap();
    assert_eq!(hit.t_den, 1_048_576);
    assert_eq!(hit.t_num, 9_500_000);
    let distance = hit.t_num as f64 / hit.t_den as f64 * 1_048_576.0;
    assert!((distance - 9_500_000.0).abs() < 1e-6);
}

#[test]
fn crosshair_ray_beyond_player_reach_finds_nothing() {
    let blocks = vec![Block::new(0, 0, 0, BlockSurface::Grass)];
    assert!(cast(&downward_ray(), &blocks, PLAYER_REACH).is_none());
}

#[test]
fn destroy_removes_block_and_next_cast_finds_nothing() {
    let block = Block::new(0, 0, 0, BlockSurface::Grass);
    let mut registry = BlockRegistry::from_blocks(vec![block]);
    let mut player = Player::new();
    let outcome = handle_action(&mut registry, &mut player, &downward_ray(), 10 * UNIT, MouseAction::Destroy);
    assert_eq!(outcome, ActionOutcome::Destroyed { index: 0, block });
    assert_eq!(registry.len(), 0);
    assert!(cast(&downward_ray(), registry.list(), 10 * UNIT).is_none());
    let again = handle_action(&mut registry, &mut player, &downward_ray(), 10 * UNIT, MouseAction::Destroy);
    assert_eq!(again, ActionOutcome::Nothing);
}

#[test]
fn place_after_pick_puts_picked_surface_on_top_of_target() {
    let picked = Block::new(0, 0, 0, BlockSurface::Snow);
    let below = Block::new(0, -UNIT, 0, BlockSurface::Dirt);
    let mut registry = BlockRegistry::from_blocks(vec![picked, below]);
    let mut player = Player::new();
    let ray = downward_ray();
    let reach = 20 * UNIT;

    let outcome = handle_action(&mut registry, &mut player, &ray, reach, MouseAction::Pick);
    assert_eq!(outcome, ActionOutcome::Picked { surface: BlockSurface::Snow });
    assert_eq!(player.current_block, Some(BlockSurface::Snow));
    assert_eq!(registry.len(), 2);

    let outcome = handle_action(&mut registry, &mut player, &ray, reach, MouseAction::Destroy);
    assert_eq!(outcome, ActionOutcome::Destroyed { index: 0, block: picked });
    assert_eq!(registry.list(), &vec![below]);

    let outcome = handle_action(&mut registry, &mut player, &ray, reach, MouseAction::Place);
    let placed = Block::new(below.x, below.y + UNIT, below.z, BlockSurface::Snow);
    assert_eq!(outcome, ActionOutcome::Placed { block: placed, target: 0 });
    assert_eq!(placed.y, 0);
    assert_eq!(registry.list(), &vec![below, placed]);
    // the held surface is kept for further placements
    assert_eq!(player.current_block, Some(BlockSurface::Snow));
}

#[test]
fn place_without_held_surface_does_nothing() {
    let mut registry = BlockRegistry::from_blocks(vec![Block::new(0, 0, 0, BlockSurface::Gravel)]);
    let mut player = Player::new();
    let outcome = handle_action(&mut registry, &mut player, &downward_ray(), 10 * UNIT, MouseAction::Place);
    assert_eq!(outcome, ActionOutcome::Nothing);
    assert_eq!(registry.len(), 1);
}

#[test]
fn pick_overwrites_previous_selection() {
    let mut registry = BlockRegistry::from_blocks(vec![Block::new(0, 0, 0, BlockSurface::StoneRough)]);
    let mut player = Player::new();
    player.current_block = Some(BlockSurface::Grass);
    let outcome = handle_action(&mut registry, &mut player, &downward_ray(), 10 * UNIT, MouseAction::Pick);
    assert_eq!(outcome, ActionOutcome::Picked { surface: BlockSurface::StoneRough });
    assert_eq!(player.current_block, Some(BlockSurface::StoneRough));
}
