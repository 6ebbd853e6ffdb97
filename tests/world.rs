use voxel_world::{stone_for, terrain_column, Block, BlockRegistry, BlockSurface, CurrentBlockUiSystem, Player, UNIT};

fn is_stone(s: BlockSurface) -> bool {
    s == BlockSurface::StoneRough || s == BlockSurface::StoneSmooth
}

#[test]
fn high_column_has_snow_on_top_and_layers_below() {
    let column = terrain_column(3, -2, 7);
    assert_eq!(column.len(), 23);
    assert_eq!(column[0], Block::new(3 * UNIT, 7 * UNIT, -2 * UNIT, BlockSurface::Snow));
    for (k, b) in column.iter().enumerate().skip(1) {
        let i = -15 + k as i64 - 1;
        assert_eq!((b.x, b.y, b.z), (3 * UNIT, i * UNIT, -2 * UNIT));
        if i > -5 {
            assert_eq!(b.surface, BlockSurface::Dirt);
        } else if i > -8 {
            assert_eq!(b.surface, BlockSurface::Gravel);
        } else {
            assert!(is_stone(b.surface));
        }
    }
    assert_eq!(column.iter().filter(|b| b.surface == BlockSurface::Dirt).count(), 11);
    assert_eq!(column.iter().filter(|b| b.surface == BlockSurface::Gravel).count(), 3);
    assert_eq!(column.iter().filter(|b| is_stone(b.surface)).count(), 8);
}

#[test]
fn column_tops_follow_height() {
    assert_eq!(terrain_column(0, 0, 6)[0].surface, BlockSurface::Grass);
    assert_eq!(terrain_column(0, 0, -7)[0].surface, BlockSurface::Grass);
    assert_eq!(terrain_column(0, 0, -8)[0].surface, BlockSurface::Gravel);
    assert_eq!(terrain_column(0, 0, -9)[0].surface, BlockSurface::Gravel);
    assert!(is_stone(terrain_column(0, 0, -10)[0].surface));
}

#[test]
fn column_below_minimum_has_only_top() {
    let column = terrain_column(1, 1, -20);
    assert_eq!(column.len(), 1);
    assert_eq!(column[0].y, -20 * UNIT);
    assert!(is_stone(column[0].surface));
    assert_eq!(terrain_column(1, 1, -15).len(), 1);
    assert_eq!(terrain_column(1, 1, -14).len(), 2);
}

#[test]
fn registry_insert_and_remove_keep_order() {
    let a = Block::new(0, 0, 0, BlockSurface::Grass);
    let b = Block::new(UNIT, 0, 0, BlockSurface::Dirt);
    let c = Block::new(2 * UNIT, 0, 0, BlockSurface::Snow);
    let mut registry = BlockRegistry::new();
    registry.insert(a);
    registry.insert(b);
    registry.insert(c);
    assert_eq!(registry.len(), 3);
    assert_eq!(registry.remove(1), b);
    assert_eq!(registry.list(), &vec![a, c]);
}

#[test]
fn overlapping_blocks_are_allowed() {
    let a = Block::new(0, 0, 0, BlockSurface::Grass);
    let mut registry = BlockRegistry::from_blocks(vec![a]);
    registry.insert(a);
    assert_eq!(registry.len(), 2);
}

#[test]
fn block_as_array_gives_centre() {
    let b = Block::new(1, -2, 3, BlockSurface::Gravel);
    assert_eq!(b.as_array(), [1, -2, 3]);
}

#[test]
fn label_names_held_surface() {
    let mut player = Player::new();
    assert_eq!(CurrentBlockUiSystem.block_label(&player), None);
    player.current_block = Some(BlockSurface::StoneSmooth);
    assert_eq!(CurrentBlockUiSystem.block_label(&player), Some("StoneSmooth"));
    assert_eq!(BlockSurface::Grass.name(), "Grass");
    assert_eq!(BlockSurface::Snow.name(), "Snow");
}

#[test]
fn new_player_is_at_rest_and_may_jump() {
    let p = Player::new();
    assert_eq!(p.y_velocity, 0);
    assert!(p.can_jump);
    assert_eq!(p.vert_rotation, 0);
    assert_eq!(p.current_block, None);
}

#[test]
fn coin_selects_stone() {
    assert_eq!(stone_for(true), BlockSurface::StoneRough);
    assert_eq!(stone_for(false), BlockSurface::StoneSmooth);
}
