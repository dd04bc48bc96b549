use arena_sim::areas::{calculate_area_connectivity, tile_in_sight, Area, AreaID, AreaMap};
use arena_sim::arena::{ArenaConfig, ArenaGrid};
use arena_sim::navgraph::generate_nav_nodes;

fn open_grid(width: u32, height: u32) -> (ArenaConfig, ArenaGrid) {
    let mut grid = ArenaGrid::new();
    let mut handle = 0u64;
    for y in 0..height {
        for x in 0..width {
            assert!(grid.insert_tile(x, y, handle));
            handle += 1;
        }
    }
    (ArenaConfig { width, height, tile_size: 4000 }, grid)
}

#[test]
fn area_contains_is_inclusive() {
    let area = Area::new(AreaID::CenterArena, 2, 3, 5, 7);
    assert!(area.contains(2, 3));
    assert!(area.contains(5, 7));
    assert!(area.contains(3, 5));
    assert!(!area.contains(1, 3));
    assert!(!area.contains(6, 7));
    assert!(!area.contains(2, 2));
    assert!(!area.contains(5, 8));
}

#[test]
fn area_center_is_the_midpoint_rounded_down() {
    assert_eq!(Area::new(AreaID::UserBase, 0, 0, 10, 10).center(), (5, 5));
    assert_eq!(Area::new(AreaID::EnemyBase, 30, 0, 39, 10).center(), (34, 5));
    assert_eq!(Area::new(AreaID::Unknown, 7, 7, 7, 7).center(), (7, 7));
    assert_eq!(
        Area::new(AreaID::Unknown, u32::MAX, u32::MAX - 1, u32::MAX, u32::MAX).center(),
        (u32::MAX, u32::MAX - 1)
    );
}

#[test]
fn standard_table_has_four_areas() {
    let map = AreaMap::new();
    assert_eq!(map.areas.len(), 4);
    assert_eq!(map.areas[0].id, AreaID::UserBase);
    assert_eq!(map.areas[1].id, AreaID::EnemyBase);
    assert_eq!(map.areas[2].id, AreaID::CenterArena);
    assert_eq!(map.areas[3].id, AreaID::NorthCorridor);
    assert_eq!((map.areas[1].min_x, map.areas[1].max_x), (30, 39));
    assert_eq!((map.areas[3].min_y, map.areas[3].max_y), (11, 27));
}

#[test]
fn area_lookup_takes_the_first_match() {
    let map = AreaMap::new();
    assert_eq!(map.get_area_id(4, 2), AreaID::UserBase);
    assert_eq!(map.get_area_id(35, 2), AreaID::EnemyBase);
    assert_eq!(map.get_area_id(20, 5), AreaID::CenterArena);
    // covered by the centre and by the corridor: the centre comes first
    assert_eq!(map.get_area_id(20, 20), AreaID::CenterArena);
    assert_eq!(map.get_area_id(5, 20), AreaID::NorthCorridor);
    assert_eq!(map.get_area_id(40, 0), AreaID::Unknown);
    assert_eq!(map.get_area_id(0, 28), AreaID::Unknown);
}

#[test]
fn area_lookup_in_an_empty_table_is_unknown() {
    let map = AreaMap::from_areas(Vec::new());
    assert_eq!(map.get_area_id(0, 0), AreaID::Unknown);
    assert_eq!(map.get_center(AreaID::UserBase), None);
}

#[test]
fn center_lookup_by_name() {
    let map = AreaMap::new();
    assert_eq!(map.get_center(AreaID::UserBase), Some((5, 5)));
    assert_eq!(map.get_center(AreaID::EnemyBase), Some((34, 5)));
    assert_eq!(map.get_center(AreaID::CenterArena), Some((20, 13)));
    assert_eq!(map.get_center(AreaID::NorthCorridor), Some((19, 19)));
    assert_eq!(map.get_center(AreaID::SouthCorridor), None);
    assert_eq!(map.get_center(AreaID::Unknown), None);
}

#[test]
fn center_lookup_takes_the_first_area_of_the_name() {
    let map = AreaMap::from_areas(vec![
        Area::new(AreaID::UserBase, 0, 0, 2, 2),
        Area::new(AreaID::UserBase, 10, 10, 20, 20),
    ]);
    assert_eq!(map.get_center(AreaID::UserBase), Some((1, 1)));
}

#[test]
fn connectivity_lists_reachable_and_visible_areas() {
    // 7 x 3 arena, split by a wall in column 3 with a gap in the bottom row
    let (config, mut grid) = open_grid(7, 3);
    grid.insert_occupant(3, 0, 100);
    grid.insert_occupant(3, 1, 101);
    let graph = generate_nav_nodes(&config, &grid);
    let mut map = AreaMap::from_areas(vec![
        Area::new(AreaID::UserBase, 0, 0, 2, 2),
        Area::new(AreaID::EnemyBase, 4, 0, 6, 2),
        Area::new(AreaID::CenterArena, 3, 0, 3, 0),
    ]);
    calculate_area_connectivity(&mut map, &graph, &config, &grid);
    assert_eq!(map.areas.len(), 3);
    // centres (1,1) and (5,1) reach each other through the gap but the
    // wall at (3,1) blocks the view; the centre (3,0) is a wall tile
    assert_eq!(map.areas[0].neighbors, vec![AreaID::EnemyBase]);
    assert_eq!(map.areas[0].visible_areas, Vec::<AreaID>::new());
    assert_eq!(map.areas[1].neighbors, vec![AreaID::UserBase]);
    assert_eq!(map.areas[1].visible_areas, Vec::<AreaID>::new());
    assert_eq!(map.areas[2].neighbors, Vec::<AreaID>::new());
    assert_eq!(map.areas[2].visible_areas, vec![AreaID::UserBase, AreaID::EnemyBase]);
    assert_eq!(map.areas[0].id, AreaID::UserBase);
    assert_eq!((map.areas[1].min_x, map.areas[1].max_y), (4, 2));
}

#[test]
fn connectivity_on_an_open_grid_links_everything() {
    let (config, grid) = open_grid(6, 2);
    let graph = generate_nav_nodes(&config, &grid);
    let mut map = AreaMap::from_areas(vec![
        Area::new(AreaID::UserBase, 0, 0, 1, 1),
        Area::new(AreaID::CenterArena, 2, 0, 3, 1),
        Area::new(AreaID::EnemyBase, 4, 0, 5, 1),
    ]);
    calculate_area_connectivity(&mut map, &graph, &config, &grid);
    assert_eq!(map.areas[0].neighbors, vec![AreaID::CenterArena, AreaID::EnemyBase]);
    assert_eq!(map.areas[1].neighbors, vec![AreaID::UserBase, AreaID::EnemyBase]);
    assert_eq!(map.areas[2].visible_areas, vec![AreaID::UserBase, AreaID::CenterArena]);
}

#[test]
fn tile_sight_between_tiles() {
    let (config, mut grid) = open_grid(5, 5);
    grid.insert_occupant(2, 2, 9);
    assert!(!tile_in_sight(&config, &grid, (0, 2), (4, 2)));
    assert!(tile_in_sight(&config, &grid, (0, 1), (4, 1)));
    assert!(!tile_in_sight(&config, &grid, (0, 0), (u32::MAX, 0)));
}
