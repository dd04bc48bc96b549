use arena_sim::arena::{ArenaConfig, ArenaGrid, MAX_TILES};
use arena_sim::combat::GameState;
use arena_sim::movement::{resolve_move, Collider, MoveResult};
use arena_sim::player_id::PlayerID;
use arena_sim::tilemap::same_tile;
use arena_sim::world::{actor_tile, distance_squared, sight_tile, tile_coord, WorldPos, UNIT};

fn config() -> ArenaConfig {
    ArenaConfig { width: 40, height: 28, tile_size: 4000 }
}

fn pos(x: i32, z: i32) -> WorldPos {
    WorldPos { x, y: 1000, z }
}

#[test]
fn tile_index_rounds_down_after_the_half_tile_shift() {
    assert_eq!(UNIT, 1000);
    // tile 0 holds the coordinates from 2000 up to 5999
    assert_eq!(tile_coord(2000, 4000), 0);
    assert_eq!(tile_coord(5999, 4000), 0);
    assert_eq!(tile_coord(6000, 4000), 1);
    assert_eq!(tile_coord(1999, 4000), -1);
    assert_eq!(tile_coord(0, 4000), -1);
    assert_eq!(tile_coord(-2000, 4000), -1);
    assert_eq!(tile_coord(-2001, 4000), -2);
    assert_eq!(tile_coord(16_000, 4000), 3);
    assert_eq!(tile_coord(142_000, 4000), 35);
}

#[test]
fn tile_index_with_odd_and_extreme_sizes() {
    // size 3: tile 0 holds 1.5 <= c < 4.5, that is 2, 3, 4
    assert_eq!(tile_coord(1, 3), -1);
    assert_eq!(tile_coord(2, 3), 0);
    assert_eq!(tile_coord(4, 3), 0);
    assert_eq!(tile_coord(5, 3), 1);
    assert_eq!(tile_coord(-1, 3), -1);
    assert_eq!(tile_coord(-2, 3), -2);
    assert_eq!(tile_coord(i32::MAX, 1), 2_147_483_646);
    assert_eq!(tile_coord(i32::MIN, 1), -2_147_483_649);
    assert_eq!(tile_coord(i32::MAX, u32::MAX), -1);
    assert_eq!(tile_coord(i32::MIN, u32::MAX), -2);
}

#[test]
fn actor_tile_counts_negative_indices_as_zero() {
    assert_eq!(actor_tile(&pos(16_000, 8000), &config()), (3, 1));
    assert_eq!(actor_tile(&pos(18_000, 10_000), &config()), (4, 2));
    assert_eq!(actor_tile(&pos(0, 0), &config()), (0, 0));
    assert_eq!(actor_tile(&pos(-50_000, 6000), &config()), (0, 1));
}

#[test]
fn sight_tile_keeps_negative_indices() {
    assert_eq!(sight_tile(&pos(18_000, 10_000), &config()), (4, 2));
    assert_eq!(sight_tile(&pos(0, -6000), &config()), (-1, -2));
    let tiny = ArenaConfig { width: 1, height: 1, tile_size: 1 };
    assert_eq!(sight_tile(&pos(i32::MIN, i32::MAX), &tiny), (i32::MIN, 2_147_483_646));
}

#[test]
fn squared_distances() {
    let a = WorldPos { x: 1000, y: 2000, z: 3000 };
    let b = WorldPos { x: 4000, y: 6000, z: 3000 };
    assert_eq!(distance_squared(&a, &b), 25_000_000);
    assert_eq!(distance_squared(&b, &a), 25_000_000);
    assert_eq!(distance_squared(&a, &a), 0);
    let low = WorldPos { x: i32::MIN, y: i32::MIN, z: i32::MIN };
    let high = WorldPos { x: i32::MAX, y: i32::MAX, z: i32::MAX };
    assert_eq!(distance_squared(&low, &high), 3 * (u32::MAX as u128) * (u32::MAX as u128));
}

#[test]
fn same_tile_compares_both_coordinates() {
    assert!(same_tile((3, 4), (3, 4)));
    assert!(!same_tile((3, 4), (4, 3)));
    assert!(!same_tile((3, 4), (3, 5)));
}

fn wall(x: u32, y: u32) -> Collider {
    Collider { tile: (x, y), collider_percent: 100 }
}

#[test]
fn free_move_goes_through() {
    let result = resolve_move(GameState::Playing, &pos(10_000, 10_000), 300, -200, &Vec::new(), 4000);
    assert_eq!(
        result,
        MoveResult { position: pos(10_300, 9800), blocked_x: false, blocked_z: false }
    );
}

#[test]
fn wall_stops_one_axis_and_the_actor_slides() {
    // the wall on tile (3, 2) spans x and z from 12000 to 16000 around
    // its centre (14000, 10000); the actor's box is 1000 wide
    let walls = vec![wall(3, 2)];
    let from = pos(11_400, 10_000);
    let result = resolve_move(GameState::Playing, &from, 200, 300, &walls, 4000);
    assert_eq!(
        result,
        MoveResult { position: pos(11_400, 10_300), blocked_x: true, blocked_z: false }
    );
    // touching is no overlap
    let result = resolve_move(GameState::Playing, &from, 100, 0, &walls, 4000);
    assert_eq!(
        result,
        MoveResult { position: pos(11_500, 10_000), blocked_x: false, blocked_z: false }
    );
    let result = resolve_move(GameState::Playing, &from, 101, 0, &walls, 4000);
    assert_eq!(result, MoveResult { position: from, blocked_x: true, blocked_z: false });
}

#[test]
fn corner_stops_both_axes() {
    let walls = vec![wall(3, 2), wall(2, 3)];
    // right of wall (2, 3) is free at z below 11500; below wall (3, 2) likewise
    let from = pos(11_400, 11_400);
    let result = resolve_move(GameState::Playing, &from, 200, 200, &walls, 4000);
    assert_eq!(result, MoveResult { position: from, blocked_x: true, blocked_z: true });
}

#[test]
fn smaller_colliders_leave_more_room() {
    // a turret that fills half its tile spans 13000 to 15000
    let turret = vec![Collider { tile: (3, 2), collider_percent: 50 }];
    let from = pos(12_000, 10_000);
    let result = resolve_move(GameState::Playing, &from, 500, 0, &turret, 4000);
    assert_eq!(result.position, pos(12_500, 10_000));
    let result = resolve_move(GameState::Playing, &from, 501, 0, &turret, 4000);
    assert_eq!(result, MoveResult { position: from, blocked_x: true, blocked_z: false });
    let full = vec![wall(3, 2)];
    let result = resolve_move(GameState::Playing, &from, 1, 0, &full, 4000);
    assert!(result.blocked_x);
}

#[test]
fn nobody_moves_once_the_match_is_over() {
    let from = pos(10_000, 10_000);
    let result = resolve_move(GameState::GameOver, &from, 300, -200, &Vec::new(), 4000);
    assert_eq!(result, MoveResult { position: from, blocked_x: false, blocked_z: false });
}

#[test]
fn the_edge_of_the_world_stops_a_move() {
    let from = pos(i32::MAX - 5, i32::MIN + 5);
    let result = resolve_move(GameState::Playing, &from, 10, -10, &Vec::new(), 4000);
    assert_eq!(result, MoveResult { position: from, blocked_x: true, blocked_z: true });
    let result = resolve_move(GameState::Playing, &from, 5, -5, &Vec::new(), 4000);
    assert_eq!(result.position, pos(i32::MAX, i32::MIN));
}

#[test]
fn player_ids() {
    let a = PlayerID::from_bits(7);
    assert_eq!(a, PlayerID(7));
    assert!(a.same(&PlayerID(7)));
    assert!(!a.same(&PlayerID(8)));
    // sixteen draws of 64 random bits are not all the same
    let first = PlayerID::random();
    let mut differs = false;
    for _ in 0..16 {
        if PlayerID::random() != first {
            differs = true;
        }
    }
    assert!(differs);
}

#[test]
fn grid_keeps_tiles_and_occupants() {
    assert_eq!(MAX_TILES, 0x1000_0000);
    let mut grid = ArenaGrid::new();
    assert_eq!(grid.tile_count(), 0);
    assert!(grid.insert_tile(1, 2, 10));
    assert!(grid.insert_tile(1, 2, 11));
    assert!(grid.insert_tile(2, 2, 12));
    assert_eq!(grid.tile_count(), 2);
    assert!(grid.has_tile(1, 2));
    assert!(!grid.has_tile(2, 1));
    assert_eq!(grid.tile_at(1, 2), Some(11));
    assert_eq!(grid.tile_at(2, 2), Some(12));
    assert_eq!(grid.tile_at(2, 1), None);
    assert_eq!(grid.occupant_at(1, 2), None);
    assert_eq!(grid.insert_occupant(1, 2, 20), None);
    assert_eq!(grid.occupant_at(1, 2), Some(20));
    assert_eq!(grid.insert_occupant(1, 2, 21), Some(20));
    assert_eq!(grid.occupant_at(1, 2), Some(21));
    assert!(grid.is_occupied(1, 2));
    assert!(!grid.is_occupied(2, 2));
    assert_eq!(grid.remove_occupant(2, 2), None);
    assert_eq!(grid.remove_occupant(1, 2), Some(21));
    assert!(!grid.is_occupied(1, 2));
    assert!(grid.has_tile(1, 2));
    let mut keys = grid.tile_positions();
    keys.sort();
    assert_eq!(keys, vec![(1, 2), (2, 2)]);
}

#[test]
fn arena_bounds() {
    let c = config();
    assert!(c.contains(0, 0));
    assert!(c.contains(39, 27));
    assert!(!c.contains(40, 0));
    assert!(!c.contains(0, 28));
    assert!(!c.contains(-1, 0));
    assert!(!c.contains(0, i64::MIN));
}
