use voxel_world::{cast, Block, BlockSurface, Ray, UNIT};

fn block(x: i64, y: i64, z: i64) -> Block {
    Block::new(x, y, z, BlockSurface::Dirt)
}

#[test]
fn ray_along_x_towards_centre_hits_near_face() {
    let blocks = vec![block(0, 0, 0)];
    let ray = Ray { origin: [3 * UNIT, 0, 0], direction: [-1, 0, 0] };
    let hit = cast(&ray, &blocks, 5 * UNIT).unwrap();
    assert_eq!((hit.t_num, hit.t_den), (2_500_000, 1));
}

#[test]
fn ray_along_z_with_long_direction_hits_near_face() {
    let blocks = vec![block(0, 0, 0)];
    let ray = Ray { origin: [0, 0, -4 * UNIT], direction: [0, 0, 7] };
    let hit = cast(&ray, &blocks, 5 * UNIT).unwrap();
    assert_eq!((hit.t_num, hit.t_den), (3_500_000, 7));
    // distance = t * |direction| = d - BLOCK_SIZE_FROM_CENTER
    assert_eq!(hit.t_num * 7 / hit.t_den, 3_500_000);
}

#[test]
fn ray_at_offset_block_hits_near_face() {
    let blocks = vec![block(2 * UNIT, 3 * UNIT, -UNIT)];
    let ray = Ray { origin: [2 * UNIT, 3 * UNIT, 4 * UNIT], direction: [0, 0, -1] };
    let hit = cast(&ray, &blocks, 5 * UNIT).unwrap();
    assert_eq!((hit.t_num, hit.t_den), (4_500_000, 1));
}

#[test]
fn diagonal_ray_enters_at_corner() {
    let blocks = vec![block(0, 0, 0)];
    let ray = Ray { origin: [2 * UNIT, 2 * UNIT, 2 * UNIT], direction: [-1, -1, -1] };
    let hit = cast(&ray, &blocks, 5 * UNIT).unwrap();
    assert_eq!((hit.t_num, hit.t_den), (1_500_000, 1));
}

#[test]
fn blocks_further_than_reach_are_not_targeted() {
    let blocks = vec![block(10 * UNIT, 0, 0), block(0, -10 * UNIT, 0), block(0, 0, 7 * UNIT)];
    let ray = Ray { origin: [0, 0, 0], direction: [1, 0, 0] };
    assert!(cast(&ray, &blocks, 5 * UNIT).is_none());
    let ray = Ray { origin: [0, 0, 0], direction: [0, 0, 1] };
    assert!(cast(&ray, &blocks, 5 * UNIT).is_none());
    assert!(cast(&ray, &blocks, 7 * UNIT).is_some());
}

#[test]
fn face_exactly_at_reach_is_targeted() {
    let blocks = vec![block(0, 0, 0)];
    let ray = Ray { origin: [0, 0, 5_500_000], direction: [0, 0, -3] };
    assert!(cast(&ray, &blocks, 5 * UNIT).is_some());
    assert!(cast(&ray, &blocks, 5 * UNIT - 1).is_none());
}

#[test]
fn nearer_block_wins_in_either_order() {
    let near = block(0, 0, -3 * UNIT);
    let far = block(0, 0, -6 * UNIT);
    let ray = Ray { origin: [0, 0, 0], direction: [0, 0, -1] };
    let hit = cast(&ray, &vec![near, far], 10 * UNIT).unwrap();
    assert_eq!(hit.index, 0);
    assert_eq!(hit.block, near);
    assert_eq!((hit.t_num, hit.t_den), (2_500_000, 1));
    let hit = cast(&ray, &vec![far, near], 10 * UNIT).unwrap();
    assert_eq!(hit.index, 1);
    assert_eq!(hit.block, near);
}

#[test]
fn exact_tie_keeps_first_block() {
    let a = Block::new(0, 0, -3 * UNIT, BlockSurface::Grass);
    let b = Block::new(0, 0, -3 * UNIT, BlockSurface::Snow);
    let ray = Ray { origin: [0, 0, 0], direction: [0, 0, -1] };
    let hit = cast(&ray, &vec![a, b], 10 * UNIT).unwrap();
    assert_eq!(hit.index, 0);
    assert_eq!(hit.block.surface, BlockSurface::Grass);
}

#[test]
fn block_behind_origin_is_not_hit() {
    let blocks = vec![block(0, 0, 3 * UNIT)];
    let ray = Ray { origin: [0, 0, 0], direction: [0, 0, -1] };
    assert!(cast(&ray, &blocks, 10 * UNIT).is_none());
}

#[test]
fn origin_inside_cube_uses_exit() {
    let blocks = vec![block(0, 0, 0)];
    let ray = Ray { origin: [0, 100_000, 0], direction: [0, 1, 0] };
    let hit = cast(&ray, &blocks, 10 * UNIT).unwrap();
    assert_eq!((hit.t_num, hit.t_den), (400_000, 1));
}

#[test]
fn zero_direction_finds_nothing() {
    let blocks = vec![block(0, 0, 0)];
    let ray = Ray { origin: [0, 0, 0], direction: [0, 0, 0] };
    assert!(cast(&ray, &blocks, 10 * UNIT).is_none());
}

#[test]
fn parallel_ray_on_face_plane_misses() {
    let blocks = vec![block(0, 0, 0)];
    let ray = Ray { origin: [500_000, 0, -3 * UNIT], direction: [0, 0, 1] };
    assert!(cast(&ray, &blocks, 10 * UNIT).is_none());
    let ray = Ray { origin: [499_999, 0, -3 * UNIT], direction: [0, 0, 1] };
    assert!(cast(&ray, &blocks, 10 * UNIT).is_some());
}

#[test]
fn ray_passing_beside_block_misses() {
    let blocks = vec![block(0, 0, 0)];
    let ray = Ray { origin: [2 * UNIT, 0, -3 * UNIT], direction: [0, 0, 1] };
    assert!(cast(&ray, &blocks, 10 * UNIT).is_none());
}

#[test]
fn empty_registry_finds_nothing() {
    let ray = Ray { origin: [0, 0, 0], direction: [1, 0, 0] };
    assert!(cast(&ray, &Vec::new(), 10 * UNIT).is_none());
}
