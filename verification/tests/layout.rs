use arena_sim::arena::{ArenaGrid, CollectibleType, ResourceSpawner};
use arena_sim::building::{Structure, StructureType};
use arena_sim::layout::{
    parse_layout, place_cell, spawner_for, structure_for, ArenaLayout, LayoutCell, TileKind,
};

fn cell(x: u32, y: u32, kind: TileKind) -> LayoutCell {
    LayoutCell { x, y, kind }
}

#[test]
fn parse_small_layout() {
    let parsed = parse_layout("X.O\nTB?").expect("short text");
    assert_eq!(parsed.width, 3);
    assert_eq!(parsed.height, 2);
    assert_eq!(
        parsed.cells,
        vec![
            cell(0, 0, TileKind::Wall),
            cell(1, 0, TileKind::Floor),
            cell(2, 0, TileKind::Obstacle),
            cell(0, 1, TileKind::TurretSpawner),
            cell(1, 1, TileKind::ObstacleSpawner),
            cell(2, 1, TileKind::Floor),
        ]
    );
}

#[test]
fn parse_drops_blanks_at_both_ends() {
    let parsed = parse_layout("\n  XX\n..\n\t \n").expect("short text");
    assert_eq!(parsed.width, 2);
    assert_eq!(parsed.height, 2);
    assert_eq!(
        parsed.cells,
        vec![
            cell(0, 0, TileKind::Wall),
            cell(1, 0, TileKind::Wall),
            cell(0, 1, TileKind::Floor),
            cell(1, 1, TileKind::Floor),
        ]
    );
}

#[test]
fn parse_empty_and_blank_text() {
    let empty = ArenaLayout { width: 0, height: 0, cells: Vec::new() };
    assert_eq!(parse_layout(""), Some(ArenaLayout { width: 0, height: 0, cells: Vec::new() }));
    assert_eq!(parse_layout(" \n\r\n\t"), Some(empty));
}

#[test]
fn parse_takes_carriage_return_line_feed_as_one_line_end() {
    let parsed = parse_layout("X.\r\n.X").expect("short text");
    assert_eq!(parsed.width, 2);
    assert_eq!(parsed.height, 2);
    assert_eq!(
        parsed.cells,
        vec![
            cell(0, 0, TileKind::Wall),
            cell(1, 0, TileKind::Floor),
            cell(0, 1, TileKind::Floor),
            cell(1, 1, TileKind::Wall),
        ]
    );
}

#[test]
fn parse_keeps_a_lone_carriage_return_as_floor() {
    let parsed = parse_layout("X\rX").expect("short text");
    assert_eq!(parsed.width, 3);
    assert_eq!(parsed.height, 1);
    assert_eq!(parsed.cells[1], cell(1, 0, TileKind::Floor));
}

#[test]
fn parse_keeps_empty_rows_and_inner_blanks() {
    let parsed = parse_layout("X\n\n.. X").expect("short text");
    assert_eq!(parsed.width, 1);
    assert_eq!(parsed.height, 3);
    assert_eq!(
        parsed.cells,
        vec![
            cell(0, 0, TileKind::Wall),
            cell(0, 2, TileKind::Floor),
            cell(1, 2, TileKind::Floor),
            cell(2, 2, TileKind::Floor),
            cell(3, 2, TileKind::Wall),
        ]
    );
}

#[test]
fn parse_unknown_characters_are_floor() {
    let parsed = parse_layout("xo#tb").expect("short text");
    assert_eq!(parsed.width, 5);
    assert_eq!(parsed.height, 1);
    assert!(parsed.cells.iter().all(|c| c.kind == TileKind::Floor));
}

#[test]
fn parse_ragged_rows_takes_the_width_of_the_first() {
    let parsed = parse_layout("XX\nXXXX\nX").expect("short text");
    assert_eq!(parsed.width, 2);
    assert_eq!(parsed.height, 3);
    assert_eq!(parsed.cells.len(), 7);
    assert_eq!(parsed.cells[5], cell(3, 1, TileKind::Wall));
}

#[test]
fn parse_the_standard_arena() {
    let text = "
XXXXXXXXXXXXXXXXXXXXXXXXXXXXXXXXXXXXXXXX
X........X.............................X
X...XXXXXX.......T.............B...XXXXX
XXXXXXXXXXXXXXXXXXXXXXXXXXXXXXXXXXXXXXXX
";
    let parsed = parse_layout(text).expect("short text");
    assert_eq!(parsed.width, 40);
    assert_eq!(parsed.height, 4);
    assert_eq!(parsed.cells.len(), 160);
    assert_eq!(parsed.cells[41], cell(1, 1, TileKind::Floor));
    assert_eq!(parsed.cells[80 + 17], cell(17, 2, TileKind::TurretSpawner));
    assert_eq!(parsed.cells[80 + 31], cell(31, 2, TileKind::ObstacleSpawner));
    assert_eq!(parsed.cells[159], cell(39, 3, TileKind::Wall));
}

#[test]
fn spawners_come_from_their_tiles_only() {
    assert_eq!(
        spawner_for(TileKind::TurretSpawner),
        Some(ResourceSpawner { ty: CollectibleType::Turret, timer: 0 })
    );
    assert_eq!(
        spawner_for(TileKind::ObstacleSpawner),
        Some(ResourceSpawner { ty: CollectibleType::Obstacle, timer: 0 })
    );
    assert_eq!(spawner_for(TileKind::Floor), None);
    assert_eq!(spawner_for(TileKind::Wall), None);
    assert_eq!(spawner_for(TileKind::Obstacle), None);
}

#[test]
fn structures_come_from_walls_and_obstacles() {
    assert_eq!(
        structure_for(TileKind::Wall),
        Some(Structure { ty: StructureType::Wall, collider_percent: 100 })
    );
    assert_eq!(
        structure_for(TileKind::Obstacle),
        Some(Structure { ty: StructureType::Obstacle, collider_percent: 100 })
    );
    assert_eq!(structure_for(TileKind::Floor), None);
    assert_eq!(structure_for(TileKind::TurretSpawner), None);
    assert_eq!(structure_for(TileKind::ObstacleSpawner), None);
}

#[test]
fn placing_cells_fills_the_grid() {
    let parsed = parse_layout("X.\nOT").expect("short text");
    let mut grid = ArenaGrid::new();
    for (i, c) in parsed.cells.iter().enumerate() {
        assert!(place_cell(&mut grid, c, i as u64, 100 + i as u64));
    }
    assert_eq!(grid.tile_count(), 4);
    assert!(grid.has_tile(0, 0) && grid.has_tile(1, 0) && grid.has_tile(0, 1) && grid.has_tile(1, 1));
    assert!(grid.is_occupied(0, 0));
    assert!(!grid.is_occupied(1, 0));
    assert!(grid.is_occupied(0, 1));
    assert!(!grid.is_occupied(1, 1));
    assert_eq!(grid.remove_occupant(0, 1), Some(102));
    let mut keys = grid.tile_positions();
    keys.sort();
    assert_eq!(keys, vec![(0, 0), (0, 1), (1, 0), (1, 1)]);
}

#[test]
fn spawner_counts_down_and_spawns_once_free() {
    let mut spawner = ResourceSpawner { ty: CollectibleType::Turret, timer: 0 };
    assert!(spawner.tick(16, false));
    assert!(!spawner.tick(16, true));
    spawner.schedule(5000);
    assert_eq!(spawner.timer, 5000);
    assert!(!spawner.tick(3000, false));
    assert_eq!(spawner.timer, 2000);
    assert!(!spawner.tick(2000, true));
    assert_eq!(spawner.timer, 0);
    assert!(spawner.tick(1, false));
    spawner.schedule(10);
    assert!(spawner.tick(u64::MAX, false));
    assert_eq!(spawner.timer, 0);
    assert_eq!(spawner.ty, CollectibleType::Turret);
}
