use arena_sim::ai::{repath, PathFollower, TargetDestination};
use arena_sim::arena::{ArenaConfig, ArenaGrid};
use arena_sim::building::{
    build_structure, destroy_structure, user_requests, BuildError, BuildInput, BuildRequest, Built,
    Structure, StructureType, UserRequests,
};
use arena_sim::combat::{Turret, TurretDirection};
use arena_sim::logging::{GameEvent, MatchLog};
use arena_sim::navgraph::{generate_nav_nodes, regenerate_nav_graph, NavGraph};
use arena_sim::pathfinding::find_path;
use arena_sim::player::Inventory;
use arena_sim::player_id::PlayerID;

fn open_grid(width: u32, height: u32) -> (ArenaConfig, ArenaGrid) {
    let mut grid = ArenaGrid::new();
    let mut handle = 0u64;
    for y in 0..height {
        for x in 0..width {
            assert!(grid.insert_tile(x, y, handle));
            handle += 1;
        }
    }
    (ArenaConfig { width, height, tile_size: 4000 }, grid)
}

fn request(tile: (u32, u32), structure: StructureType, user_driven: bool) -> BuildRequest {
    BuildRequest { tile, structure, direction: None, actor: PlayerID(5), user_driven }
}

fn snapshot(graph: &NavGraph, width: u32, height: u32) -> Vec<Option<Vec<(u32, u32)>>> {
    let mut all = Vec::new();
    for y in 0..height {
        for x in 0..width {
            all.push(graph.neighbors(x, y).cloned());
        }
    }
    all
}

#[test]
fn obstacle_build_succeeds() {
    let (config, mut grid) = open_grid(5, 5);
    let mut graph = generate_nav_nodes(&config, &grid);
    let mut inventory = Inventory { obstacles: 2, turrets: 1 };
    let mut targets = vec![
        TargetDestination { x: 1, y: 1, dirty: false },
        TargetDestination { x: 4, y: 4, dirty: true },
    ];
    let result = build_structure(
        &config,
        &mut grid,
        &mut graph,
        &mut inventory,
        &mut targets,
        &vec![(0, 0)],
        &request((2, 2), StructureType::Obstacle, true),
        900,
        12_000,
        &mut MatchLog::new(),
    );
    assert_eq!(
        result,
        Ok(Built {
            structure: Structure { ty: StructureType::Obstacle, collider_percent: 100 },
            turret: None,
        })
    );
    assert_eq!(inventory, Inventory { obstacles: 1, turrets: 1 });
    assert!(grid.is_occupied(2, 2));
    assert!(!graph.contains(2, 2));
    assert_eq!(graph.len(), 24);
    assert_eq!(graph.neighbors(2, 1), Some(&vec![(2, 0), (3, 1), (1, 1)]));
    assert_eq!(
        targets,
        vec![
            TargetDestination { x: 1, y: 1, dirty: true },
            TargetDestination { x: 4, y: 4, dirty: true },
        ]
    );
    assert_eq!(grid.remove_occupant(2, 2), Some(900));
}

#[test]
fn turret_build_by_the_user() {
    let (config, mut grid) = open_grid(5, 5);
    let mut graph = generate_nav_nodes(&config, &grid);
    let mut inventory = Inventory { obstacles: 0, turrets: 1 };
    let mut targets = Vec::new();
    let mut asked = request((1, 3), StructureType::Turret, true);
    asked.direction = Some(TurretDirection::West);
    let result = build_structure(
        &config,
        &mut grid,
        &mut graph,
        &mut inventory,
        &mut targets,
        &vec![(0, 0)],
        &asked,
        901,
        12_000,
        &mut MatchLog::new(),
    );
    assert_eq!(
        result,
        Ok(Built {
            structure: Structure { ty: StructureType::Turret, collider_percent: 70 },
            turret: Some(Turret {
                owner: PlayerID(5),
                direction: TurretDirection::West,
                last_shot: 8000,
            }),
        })
    );
    assert!(result.unwrap().turret.unwrap().is_active(12_000));
    assert_eq!(inventory, Inventory { obstacles: 0, turrets: 0 });
    assert!(!graph.contains(1, 3));
}

#[test]
fn turret_build_by_a_rule_faces_south_when_nothing_is_asked() {
    let (config, mut grid) = open_grid(5, 5);
    let mut graph = NavGraph::with_diagonals();
    regenerate_nav_graph(&config, &grid, &mut graph);
    let mut inventory = Inventory { obstacles: 0, turrets: 3 };
    let mut targets = Vec::new();
    let result = build_structure(
        &config,
        &mut grid,
        &mut graph,
        &mut inventory,
        &mut targets,
        &Vec::new(),
        &request((4, 4), StructureType::Turret, false),
        902,
        1000,
        &mut MatchLog::new(),
    );
    assert_eq!(
        result,
        Ok(Built {
            structure: Structure { ty: StructureType::Turret, collider_percent: 50 },
            turret: Some(Turret {
                owner: PlayerID(5),
                direction: TurretDirection::South,
                last_shot: -3000,
            }),
        })
    );
    assert_eq!(inventory.turrets, 2);
    assert!(graph.is_eight_way());
    assert!(!graph.contains(4, 4));
    assert_eq!(graph.neighbors(3, 3), Some(&vec![(3, 4), (3, 2), (4, 3), (2, 3), (4, 2), (2, 4), (2, 2)]));
}

fn refused(
    tile: (u32, u32),
    structure: StructureType,
    user_driven: bool,
    stock: Inventory,
) -> BuildError {
    let (config, mut grid) = open_grid(5, 5);
    grid.insert_occupant(3, 3, 50);
    let mut graph = generate_nav_nodes(&config, &grid);
    let before = snapshot(&graph, 5, 5);
    let mut inventory = stock;
    let mut targets = vec![TargetDestination { x: 1, y: 1, dirty: false }];
    let result = build_structure(
        &config,
        &mut grid,
        &mut graph,
        &mut inventory,
        &mut targets,
        &vec![(1, 1), (2, 4)],
        &request(tile, structure, user_driven),
        903,
        5000,
        &mut MatchLog::new(),
    );
    // a refused build changes nothing
    assert_eq!(inventory, stock);
    assert_eq!(targets, vec![TargetDestination { x: 1, y: 1, dirty: false }]);
    assert_eq!(snapshot(&graph, 5, 5), before);
    assert!(grid.is_occupied(3, 3));
    if tile.0 < 5 && tile.1 < 5 && tile != (3, 3) {
        assert!(!grid.is_occupied(tile.0, tile.1));
    }
    result.expect_err("the build is refused")
}

const STOCKED: Inventory = Inventory { obstacles: 1, turrets: 1 };

#[test]
fn build_out_of_bounds_is_refused() {
    assert_eq!(refused((5, 0), StructureType::Obstacle, true, STOCKED), BuildError::OutOfBounds);
    assert_eq!(refused((0, 5), StructureType::Turret, false, STOCKED), BuildError::OutOfBounds);
    assert_eq!(
        refused((u32::MAX, u32::MAX), StructureType::Obstacle, true, STOCKED),
        BuildError::OutOfBounds
    );
}

#[test]
fn build_on_an_occupied_tile_is_refused() {
    assert_eq!(refused((3, 3), StructureType::Obstacle, true, STOCKED), BuildError::Occupied);
    assert_eq!(refused((3, 3), StructureType::Turret, false, STOCKED), BuildError::Occupied);
}

#[test]
fn user_build_on_an_actor_is_refused() {
    assert_eq!(refused((2, 4), StructureType::Obstacle, true, STOCKED), BuildError::ActorOnTile);
    assert_eq!(refused((1, 1), StructureType::Turret, true, STOCKED), BuildError::ActorOnTile);
}

#[test]
fn build_without_stock_is_refused() {
    let none = Inventory { obstacles: 0, turrets: 0 };
    assert_eq!(refused((0, 0), StructureType::Obstacle, true, none), BuildError::NothingInStock);
    assert_eq!(
        refused((0, 0), StructureType::Turret, true, Inventory { obstacles: 9, turrets: 0 }),
        BuildError::NothingInStock
    );
    assert_eq!(
        refused((0, 0), StructureType::Obstacle, false, Inventory { obstacles: 0, turrets: 9 }),
        BuildError::NothingInStock
    );
}

#[test]
fn walls_cannot_be_built() {
    assert_eq!(refused((0, 0), StructureType::Wall, true, STOCKED), BuildError::NotBuildable);
}

#[test]
fn refusals_come_in_a_fixed_order() {
    let none = Inventory { obstacles: 0, turrets: 0 };
    // out of bounds before lack of stock; occupied before actor and stock
    assert_eq!(refused((9, 9), StructureType::Obstacle, true, none), BuildError::OutOfBounds);
    assert_eq!(refused((3, 3), StructureType::Wall, true, none), BuildError::Occupied);
    assert_eq!(refused((1, 1), StructureType::Wall, true, none), BuildError::ActorOnTile);
}

#[test]
fn rule_build_on_its_own_tile_is_allowed() {
    let (config, mut grid) = open_grid(5, 5);
    let mut graph = generate_nav_nodes(&config, &grid);
    let mut inventory = STOCKED;
    let mut targets = Vec::new();
    let result = build_structure(
        &config,
        &mut grid,
        &mut graph,
        &mut inventory,
        &mut targets,
        &vec![(1, 1)],
        &request((1, 1), StructureType::Obstacle, false),
        904,
        0,
        &mut MatchLog::new(),
    );
    assert!(result.is_ok());
    assert!(grid.is_occupied(1, 1));
}

#[test]
fn destroy_removes_whatever_stands_there() {
    let (config, mut grid) = open_grid(3, 3);
    grid.insert_occupant(1, 1, 41);
    let mut graph = generate_nav_nodes(&config, &grid);
    assert!(!graph.contains(1, 1));
    let mut targets = vec![TargetDestination { x: 0, y: 0, dirty: false }];
    let mut log = MatchLog::new();
    let removed = destroy_structure(
        &config,
        &mut grid,
        &mut graph,
        &mut targets,
        (1, 1),
        Some(PlayerID(5)),
        StructureType::Wall,
        300,
        &mut log,
    );
    assert_eq!(removed, Some(41));
    assert!(!grid.is_occupied(1, 1));
    assert!(graph.contains(1, 1));
    assert_eq!(graph.len(), 9);
    assert_eq!(targets, vec![TargetDestination { x: 0, y: 0, dirty: true }]);
    assert_eq!(
        log.events,
        vec![GameEvent::StructureDestroyed {
            destroyer: Some(PlayerID(5)),
            structure: StructureType::Wall,
            location: (1, 1),
            time: 300,
        }]
    );
}

#[test]
fn destroy_on_a_free_tile_changes_nothing() {
    let (config, mut grid) = open_grid(3, 3);
    grid.insert_occupant(1, 1, 41);
    let mut graph = generate_nav_nodes(&config, &grid);
    let before = snapshot(&graph, 3, 3);
    let mut targets = vec![TargetDestination { x: 0, y: 0, dirty: false }];
    let mut log = MatchLog::new();
    for tile in [(0, 2), (7, 7)] {
        let removed = destroy_structure(
            &config,
            &mut grid,
            &mut graph,
            &mut targets,
            tile,
            None,
            StructureType::Obstacle,
            1,
            &mut log,
        );
        assert_eq!(removed, None);
    }
    assert_eq!(log.len(), 0);
    assert_eq!(targets, vec![TargetDestination { x: 0, y: 0, dirty: false }]);
    assert_eq!(snapshot(&graph, 3, 3), before);
    assert!(grid.is_occupied(1, 1));
}

#[test]
fn build_then_destroy_gives_back_grid_and_graph() {
    let (config, mut grid) = open_grid(5, 4);
    grid.insert_occupant(0, 3, 60);
    let mut graph = generate_nav_nodes(&config, &grid);
    let before = snapshot(&graph, 5, 4);
    let nodes_before = graph.len();
    let mut inventory = Inventory { obstacles: 3, turrets: 2 };
    let mut targets = Vec::new();
    let built = build_structure(
        &config,
        &mut grid,
        &mut graph,
        &mut inventory,
        &mut targets,
        &Vec::new(),
        &request((2, 2), StructureType::Obstacle, true),
        905,
        0,
        &mut MatchLog::new(),
    );
    assert!(built.is_ok());
    assert_ne!(snapshot(&graph, 5, 4), before);
    let removed = destroy_structure(
        &config,
        &mut grid,
        &mut graph,
        &mut targets,
        (2, 2),
        None,
        StructureType::Obstacle,
        10,
        &mut MatchLog::new(),
    );
    assert_eq!(removed, Some(905));
    assert_eq!(snapshot(&graph, 5, 4), before);
    assert_eq!(graph.len(), nodes_before);
    for y in 0..4 {
        for x in 0..5 {
            assert_eq!(grid.is_occupied(x, y), (x, y) == (0, 3));
            assert!(grid.has_tile(x, y));
        }
    }
    // only the unit that the build consumed is gone
    assert_eq!(inventory, Inventory { obstacles: 2, turrets: 2 });
}

#[test]
fn build_invalidates_paths_through_the_tile() {
    let (config, mut grid) = open_grid(10, 10);
    let mut graph = generate_nav_nodes(&config, &grid);
    let mut follower = PathFollower::new();
    let mut target = TargetDestination::new(9, 5);
    assert!(repath(&mut follower, &mut target, (0, 5), &graph));
    assert!(follower.path.windows(2).any(|w| w[0] == (5, 5) && w[1] == (6, 5)));
    assert!(!target.dirty);

    let mut targets = vec![target];
    let mut inventory = Inventory { obstacles: 1, turrets: 0 };
    let built = build_structure(
        &config,
        &mut grid,
        &mut graph,
        &mut inventory,
        &mut targets,
        &vec![(0, 0)],
        &request((6, 5), StructureType::Obstacle, true),
        906,
        0,
        &mut MatchLog::new(),
    );
    assert!(built.is_ok());
    assert!(!graph.contains(6, 5));
    assert!(targets[0].dirty);
    assert_eq!((targets[0].x, targets[0].y), (9, 5));

    let mut target = targets[0];
    assert!(repath(&mut follower, &mut target, (0, 5), &graph));
    assert!(!follower.path.is_empty());
    assert!(!follower.path.contains(&(6, 5)));
    assert_eq!(follower.path.first(), Some(&(0, 5)));
    assert_eq!(follower.path.last(), Some(&(9, 5)));
    assert_eq!(follower.path.len(), 12);
    assert_eq!(find_path((0, 5), (6, 5), &graph), None);
}

#[test]
fn inventory_never_goes_below_zero() {
    let (config, mut grid) = open_grid(4, 1);
    let mut graph = generate_nav_nodes(&config, &grid);
    let mut inventory = Inventory { obstacles: 2, turrets: 0 };
    let mut targets = Vec::new();
    let mut results = Vec::new();
    for x in 0..4 {
        results.push(
            build_structure(
                &config,
                &mut grid,
                &mut graph,
                &mut inventory,
                &mut targets,
                &Vec::new(),
                &request((x, 0), StructureType::Obstacle, false),
                x as u64,
                0,
                &mut MatchLog::new(),
            )
            .is_ok(),
        );
    }
    assert_eq!(results, vec![true, true, false, false]);
    assert_eq!(inventory, Inventory { obstacles: 0, turrets: 0 });
}

#[test]
fn builds_are_recorded_and_refusals_are_not() {
    let (config, mut grid) = open_grid(3, 3);
    let mut graph = generate_nav_nodes(&config, &grid);
    let mut inventory = Inventory { obstacles: 1, turrets: 1 };
    let mut targets = Vec::new();
    let mut log = MatchLog::new();
    let mut build = |tile, structure, handle, now, log: &mut MatchLog| {
        build_structure(
            &config,
            &mut grid,
            &mut graph,
            &mut inventory,
            &mut targets,
            &Vec::new(),
            &request(tile, structure, false),
            handle,
            now,
            log,
        )
    };
    assert!(build((0, 0), StructureType::Obstacle, 1, 100, &mut log).is_ok());
    assert!(build((0, 0), StructureType::Turret, 2, 200, &mut log).is_err());
    assert!(build((1, 0), StructureType::Obstacle, 3, 300, &mut log).is_err());
    assert!(build((1, 0), StructureType::Turret, 4, 400, &mut log).is_ok());
    assert_eq!(
        log.events,
        vec![
            GameEvent::StructureBuilt {
                entity: PlayerID(5),
                structure: StructureType::Obstacle,
                location: (0, 0),
                time: 100,
            },
            GameEvent::StructureBuilt {
                entity: PlayerID(5),
                structure: StructureType::Turret,
                location: (1, 0),
                time: 400,
            },
        ]
    );
}

#[test]
fn obstacles_are_built_by_default() {
    assert_eq!(StructureType::default(), StructureType::Obstacle);
}

#[test]
fn user_input_becomes_requests() {
    let input = |build_request, destroy_request, aim_tile| BuildInput {
        build_kind_selected: StructureType::Turret,
        build_request,
        destroy_request,
        aim_tile,
    };
    let wanted = BuildRequest {
        tile: (3, 4),
        structure: StructureType::Turret,
        direction: Some(TurretDirection::East),
        actor: PlayerID(1),
        user_driven: true,
    };
    let ask = |i: BuildInput| user_requests(&i, PlayerID(1), TurretDirection::East);
    assert_eq!(
        ask(input(true, false, Some((3, 4)))),
        UserRequests { build: Some(wanted), destroy: None }
    );
    assert_eq!(
        ask(input(false, true, Some((3, 4)))),
        UserRequests { build: None, destroy: Some((3, 4)) }
    );
    assert_eq!(
        ask(input(true, true, Some((3, 4)))),
        UserRequests { build: Some(wanted), destroy: Some((3, 4)) }
    );
    assert_eq!(ask(input(false, false, Some((3, 4)))), UserRequests { build: None, destroy: None });
    assert_eq!(ask(input(true, true, None)), UserRequests { build: None, destroy: None });
}
