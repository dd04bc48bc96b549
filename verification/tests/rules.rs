use arena_sim::ai::{
    apply_action, evaluate_condition, evaluate_rules, repath, rule_order, select_rule, FollowStep,
    PathFollower, TargetDestination,
};
use arena_sim::areas::{AreaID, AreaMap};
use arena_sim::arena::{ArenaConfig, ArenaGrid};
use arena_sim::building::{BuildRequest, StructureType};
use arena_sim::combat::{Hp, TurretDirection};
use arena_sim::navgraph::generate_nav_nodes;
use arena_sim::player::{Inventory, PlayerStatus};
use arena_sim::player_id::PlayerID;
use arena_sim::rules::{Action, Condition, Rule, RuleSet};
use arena_sim::world::WorldPos;
use arena_sim::{receive, ServerMessage};

fn config() -> ArenaConfig {
    ArenaConfig { width: 40, height: 28, tile_size: 4000 }
}

/// A position well inside tile `(x, y)`.
fn on_tile(x: i32, y: i32) -> WorldPos {
    WorldPos { x: 4000 * x + 3000, y: 1000, z: 4000 * y + 3000 }
}

fn status() -> PlayerStatus {
    PlayerStatus::new()
}

fn seeing(enemy: WorldPos) -> PlayerStatus {
    let mut s = PlayerStatus::new();
    s.visible_players.push(PlayerID(7));
    s.nearest_enemy_position = Some(enemy);
    s
}

fn rule(name: &str, priority: i32, condition: Condition, action: Action) -> Rule {
    Rule { name: name.to_string(), priority, condition, action }
}

fn has(item: &str, count: u32) -> Condition {
    Condition::HasItem { item: item.to_string(), count }
}

const FULL: Hp = Hp { current: 3, max: 3 };
const EMPTY: Inventory = Inventory { obstacles: 0, turrets: 0 };

#[test]
fn primitive_conditions() {
    let s = status();
    assert!(evaluate_condition(&Condition::True, &s, &FULL, &EMPTY));
    assert!(!evaluate_condition(&Condition::IsEnemyVisible, &s, &FULL, &EMPTY));
    assert!(evaluate_condition(&Condition::IsEnemyVisible, &seeing(on_tile(1, 1)), &FULL, &EMPTY));
    assert!(!evaluate_condition(&Condition::IsUnderAttack, &s, &FULL, &EMPTY));
}

#[test]
fn health_low_compares_with_the_threshold() {
    let s = status();
    let low = Condition::IsHealthLow { threshold: 1 };
    assert!(evaluate_condition(&low, &s, &Hp { current: 1, max: 3 }, &EMPTY));
    assert!(evaluate_condition(&low, &s, &Hp { current: 0, max: 3 }, &EMPTY));
    assert!(!evaluate_condition(&low, &s, &Hp { current: 2, max: 3 }, &EMPTY));
}

#[test]
fn in_area_compares_with_the_current_area() {
    let mut s = status();
    let center = Condition::InArea(AreaID::CenterArena);
    assert!(!evaluate_condition(&center, &s, &FULL, &EMPTY));
    s.current_area_id = Some(AreaID::CenterArena);
    assert!(evaluate_condition(&center, &s, &FULL, &EMPTY));
    s.current_area_id = Some(AreaID::UserBase);
    assert!(!evaluate_condition(&center, &s, &FULL, &EMPTY));
}

#[test]
fn has_item_knows_obstacles_and_turrets_only() {
    let s = status();
    let stock = Inventory { obstacles: 2, turrets: 1 };
    assert!(evaluate_condition(&has("obstacle", 2), &s, &FULL, &stock));
    assert!(!evaluate_condition(&has("obstacle", 3), &s, &FULL, &stock));
    assert!(evaluate_condition(&has("turret", 1), &s, &FULL, &stock));
    assert!(!evaluate_condition(&has("turret", 2), &s, &FULL, &stock));
    assert!(evaluate_condition(&has("turret", 0), &s, &FULL, &EMPTY));
    assert!(!evaluate_condition(&has("coin", 0), &s, &FULL, &stock));
    assert!(!evaluate_condition(&has("Obstacle", 1), &s, &FULL, &stock));
    assert!(!evaluate_condition(&has("", 0), &s, &FULL, &stock));
}

#[test]
fn composite_conditions() {
    let s = status();
    let t = || Condition::True;
    let f = || Condition::IsUnderAttack;
    assert!(evaluate_condition(&Condition::And(vec![]), &s, &FULL, &EMPTY));
    assert!(!evaluate_condition(&Condition::Or(vec![]), &s, &FULL, &EMPTY));
    assert!(evaluate_condition(&Condition::And(vec![t(), t()]), &s, &FULL, &EMPTY));
    assert!(!evaluate_condition(&Condition::And(vec![t(), f(), t()]), &s, &FULL, &EMPTY));
    assert!(evaluate_condition(&Condition::Or(vec![f(), t()]), &s, &FULL, &EMPTY));
    assert!(!evaluate_condition(&Condition::Or(vec![f(), f()]), &s, &FULL, &EMPTY));
    assert!(evaluate_condition(&Condition::Not(Box::new(f())), &s, &FULL, &EMPTY));
    assert!(!evaluate_condition(&Condition::Not(Box::new(t())), &s, &FULL, &EMPTY));
    let nested = Condition::Or(vec![
        Condition::And(vec![t(), Condition::Not(Box::new(t()))]),
        Condition::Not(Box::new(Condition::And(vec![f(), t()]))),
    ]);
    assert!(evaluate_condition(&nested, &s, &FULL, &EMPTY));
}

#[test]
fn rule_order_sorts_by_priority_and_keeps_declaration_order() {
    let set = RuleSet::from_rules(vec![
        rule("a", 10, Condition::True, Action::Idle),
        rule("b", 50, Condition::True, Action::Idle),
        rule("c", 10, Condition::True, Action::Idle),
        rule("d", 100, Condition::True, Action::Idle),
        rule("e", 50, Condition::True, Action::Idle),
        rule("f", -5, Condition::True, Action::Idle),
    ]);
    assert_eq!(rule_order(&set), vec![3, 1, 4, 0, 2, 5]);
    assert_eq!(rule_order(&RuleSet::from_rules(vec![])), Vec::<usize>::new());
}

#[test]
fn rule_priority_picks_flee_when_health_is_low() {
    let set = RuleSet::from_rules(vec![
        rule("flee", 100, Condition::IsHealthLow { threshold: 1 }, Action::Flee),
        rule("chase", 50, Condition::IsEnemyVisible, Action::ChaseEnemy),
        rule("move", 10, Condition::True, Action::MoveToArea(AreaID::CenterArena)),
    ]);
    let s = seeing(on_tile(5, 5));
    let fired = select_rule(&set, &s, &Hp { current: 1, max: 3 }, &EMPTY);
    assert_eq!(fired, Some(0));
    assert_eq!(set.rules[0].action, Action::Flee);
    // with full health the chase rule is next
    assert_eq!(select_rule(&set, &s, &FULL, &EMPTY), Some(1));
    // and without an enemy in sight only the last rule is left
    assert_eq!(select_rule(&set, &status(), &FULL, &EMPTY), Some(2));
}

#[test]
fn equal_priorities_go_by_declaration_order() {
    let set = RuleSet::from_rules(vec![
        rule("never", 7, Condition::IsUnderAttack, Action::Idle),
        rule("first", 7, Condition::True, Action::ChaseEnemy),
        rule("second", 7, Condition::True, Action::Flee),
        rule("low", 1, Condition::True, Action::Idle),
    ]);
    assert_eq!(select_rule(&set, &status(), &FULL, &EMPTY), Some(1));
}

#[test]
fn a_later_rule_of_greater_priority_wins() {
    let set = RuleSet::from_rules(vec![
        rule("low", 1, Condition::True, Action::Idle),
        rule("high", 2, Condition::True, Action::Flee),
    ]);
    assert_eq!(select_rule(&set, &status(), &FULL, &EMPTY), Some(1));
}

#[test]
fn no_rule_fires_when_no_condition_holds() {
    let set = RuleSet::from_rules(vec![
        rule("a", 5, Condition::IsEnemyVisible, Action::ChaseEnemy),
        rule("b", 9, Condition::IsUnderAttack, Action::Flee),
    ]);
    assert_eq!(select_rule(&set, &status(), &FULL, &EMPTY), None);
    assert_eq!(select_rule(&RuleSet::from_rules(vec![]), &status(), &FULL, &EMPTY), None);
}

#[test]
fn standard_rule_set() {
    let set = RuleSet::default();
    assert_eq!(set.rules.len(), 6);
    let names: Vec<&str> = set.rules.iter().map(|r| r.name.as_str()).collect();
    assert_eq!(
        names,
        vec![
            "RetreatToSafety",
            "DeployCombatTurret",
            "EngageEnemy",
            "FortifyCenter",
            "ClaimCenter",
            "InvadePlayerBase"
        ]
    );
    let priorities: Vec<i32> = set.rules.iter().map(|r| r.priority).collect();
    assert_eq!(priorities, vec![100, 95, 80, 50, 20, 10]);
    assert_eq!(set.rules[0].condition, Condition::IsHealthLow { threshold: 1 });
    assert_eq!(set.rules[0].action, Action::MoveToArea(AreaID::EnemyBase));
    assert_eq!(
        set.rules[1].condition,
        Condition::And(vec![Condition::IsEnemyVisible, has("turret", 1)])
    );
    assert_eq!(
        set.rules[1].action,
        Action::Build { structure: StructureType::Turret, direction: None }
    );
    assert_eq!(set.rules[2].action, Action::ChaseEnemy);
    assert_eq!(
        set.rules[3].condition,
        Condition::And(vec![Condition::InArea(AreaID::CenterArena), has("obstacle", 1)])
    );
    assert_eq!(
        set.rules[4].condition,
        Condition::Not(Box::new(Condition::InArea(AreaID::CenterArena)))
    );
    assert_eq!(set.rules[5].action, Action::MoveToArea(AreaID::UserBase));
}

#[test]
fn standard_rule_set_in_play() {
    let set = RuleSet::default();
    let mut s = seeing(on_tile(3, 3));
    s.current_area_id = Some(AreaID::CenterArena);
    let stock = Inventory { obstacles: 1, turrets: 1 };
    assert_eq!(select_rule(&set, &s, &Hp { current: 1, max: 3 }, &stock), Some(0));
    assert_eq!(select_rule(&set, &s, &FULL, &stock), Some(1));
    assert_eq!(select_rule(&set, &s, &FULL, &Inventory { obstacles: 1, turrets: 0 }), Some(2));
    let mut calm = status();
    calm.current_area_id = Some(AreaID::CenterArena);
    assert_eq!(select_rule(&set, &calm, &FULL, &stock), Some(3));
    assert_eq!(select_rule(&set, &calm, &FULL, &EMPTY), Some(5));
    calm.current_area_id = Some(AreaID::UserBase);
    assert_eq!(select_rule(&set, &calm, &FULL, &stock), Some(4));
}

#[test]
fn turret_only_rule_set() {
    let set = RuleSet::new_turret_only();
    assert_eq!(set.rules.len(), 1);
    assert_eq!(set.rules[0].name, "DebugBuildTurret");
    assert_eq!(set.rules[0].priority, 100);
    assert_eq!(set.rules[0].condition, has("turret", 1));
    assert_eq!(
        set.rules[0].action,
        Action::Build { structure: StructureType::Turret, direction: None }
    );
}

#[test]
fn target_writes_are_idempotent() {
    let mut target = TargetDestination::new(3, 4);
    assert_eq!(target, TargetDestination { x: 3, y: 4, dirty: true });
    target.dirty = false;
    target.set(3, 4);
    assert_eq!(target, TargetDestination { x: 3, y: 4, dirty: false });
    target.set(3, 5);
    assert_eq!(target, TargetDestination { x: 3, y: 5, dirty: true });
    target.dirty = false;
    target.mark_dirty();
    assert_eq!(target, TargetDestination { x: 3, y: 5, dirty: true });
}

#[test]
fn move_to_area_writes_the_centre() {
    let map = AreaMap::new();
    let mut target = TargetDestination { x: 0, y: 0, dirty: false };
    let request = apply_action(
        &Action::MoveToArea(AreaID::CenterArena),
        PlayerID(1),
        &on_tile(4, 2),
        &status(),
        &map,
        &config(),
        &mut target,
    );
    assert_eq!(request, None);
    assert_eq!(target, TargetDestination { x: 20, y: 13, dirty: true });
    // again: nothing changes, the flag stays down
    target.dirty = false;
    apply_action(
        &Action::MoveToArea(AreaID::CenterArena),
        PlayerID(1),
        &on_tile(4, 2),
        &status(),
        &map,
        &config(),
        &mut target,
    );
    assert_eq!(target, TargetDestination { x: 20, y: 13, dirty: false });
    // an area the table does not hold
    apply_action(
        &Action::MoveToArea(AreaID::SouthCorridor),
        PlayerID(1),
        &on_tile(4, 2),
        &status(),
        &map,
        &config(),
        &mut target,
    );
    assert_eq!(target, TargetDestination { x: 20, y: 13, dirty: false });
}

#[test]
fn chase_writes_the_tile_of_the_enemy() {
    let map = AreaMap::new();
    let mut target = TargetDestination { x: 0, y: 0, dirty: false };
    apply_action(
        &Action::ChaseEnemy,
        PlayerID(1),
        &on_tile(4, 2),
        &seeing(on_tile(9, 6)),
        &map,
        &config(),
        &mut target,
    );
    assert_eq!(target, TargetDestination { x: 9, y: 6, dirty: true });
    let mut idle = TargetDestination { x: 1, y: 1, dirty: false };
    apply_action(
        &Action::ChaseEnemy,
        PlayerID(1),
        &on_tile(4, 2),
        &status(),
        &map,
        &config(),
        &mut idle,
    );
    assert_eq!(idle, TargetDestination { x: 1, y: 1, dirty: false });
}

#[test]
fn flee_runs_away_and_stays_inside_the_arena() {
    let map = AreaMap::new();
    let mut target = TargetDestination { x: 0, y: 0, dirty: false };
    // actor at (10, 10), enemy at (7, 12): away is (13, 8)
    apply_action(
        &Action::Flee,
        PlayerID(1),
        &on_tile(10, 10),
        &seeing(on_tile(7, 12)),
        &map,
        &config(),
        &mut target,
    );
    assert_eq!(target, TargetDestination { x: 13, y: 8, dirty: true });
    // actor at (38, 1), enemy at (30, 5): (46, -3) is kept inside 40 x 28
    apply_action(
        &Action::Flee,
        PlayerID(1),
        &on_tile(38, 1),
        &seeing(on_tile(30, 5)),
        &map,
        &config(),
        &mut target,
    );
    assert_eq!(target, TargetDestination { x: 39, y: 0, dirty: true });
    // actor at (2, 26), enemy at (9, 20): (-5, 32) is kept inside
    apply_action(
        &Action::Flee,
        PlayerID(1),
        &on_tile(2, 26),
        &seeing(on_tile(9, 20)),
        &map,
        &config(),
        &mut target,
    );
    assert_eq!(target, TargetDestination { x: 0, y: 27, dirty: true });
    // no enemy in sight: nothing changes
    target.dirty = false;
    apply_action(
        &Action::Flee,
        PlayerID(1),
        &on_tile(2, 26),
        &status(),
        &map,
        &config(),
        &mut target,
    );
    assert_eq!(target, TargetDestination { x: 0, y: 27, dirty: false });
}

#[test]
fn flee_in_an_arena_without_tiles_goes_to_the_origin() {
    let map = AreaMap::new();
    let mut target = TargetDestination { x: 5, y: 5, dirty: false };
    apply_action(
        &Action::Flee,
        PlayerID(1),
        &on_tile(10, 10),
        &seeing(on_tile(7, 12)),
        &map,
        &ArenaConfig { width: 0, height: 0, tile_size: 4000 },
        &mut target,
    );
    assert_eq!(target, TargetDestination { x: 0, y: 0, dirty: true });
}

#[test]
fn build_action_asks_for_a_build_on_the_actor_tile() {
    let map = AreaMap::new();
    let mut target = TargetDestination { x: 1, y: 1, dirty: false };
    let request = apply_action(
        &Action::Build { structure: StructureType::Obstacle, direction: None },
        PlayerID(9),
        &on_tile(6, 5),
        &seeing(on_tile(9, 5)),
        &map,
        &config(),
        &mut target,
    );
    assert_eq!(
        request,
        Some(BuildRequest {
            tile: (6, 5),
            structure: StructureType::Obstacle,
            direction: None,
            actor: PlayerID(9),
            user_driven: false,
        })
    );
    assert_eq!(target, TargetDestination { x: 1, y: 1, dirty: false });
}

fn turret_direction(me: WorldPos, s: &PlayerStatus, asked: Option<TurretDirection>) -> TurretDirection {
    let mut target = TargetDestination { x: 1, y: 1, dirty: false };
    let request = apply_action(
        &Action::Build { structure: StructureType::Turret, direction: asked },
        PlayerID(9),
        &me,
        s,
        &AreaMap::new(),
        &config(),
        &mut target,
    )
    .expect("a build is asked for");
    assert_eq!(request.structure, StructureType::Turret);
    request.direction.expect("a turret faces somewhere")
}

#[test]
fn turret_faces_the_nearest_enemy_along_the_longer_axis() {
    let me = WorldPos { x: 10_000, y: 1000, z: 10_000 };
    let at = |dx: i32, dz: i32| seeing(WorldPos { x: 10_000 + dx, y: 1000, z: 10_000 + dz });
    assert_eq!(turret_direction(me, &at(5000, 1000), None), TurretDirection::East);
    assert_eq!(turret_direction(me, &at(-5000, 4999), None), TurretDirection::West);
    assert_eq!(turret_direction(me, &at(1000, 5000), None), TurretDirection::South);
    assert_eq!(turret_direction(me, &at(1000, -5000), None), TurretDirection::North);
    // equal components: the z axis decides
    assert_eq!(turret_direction(me, &at(3000, 3000), None), TurretDirection::South);
    assert_eq!(turret_direction(me, &at(3000, -3000), None), TurretDirection::North);
    // the enemy on the very spot
    assert_eq!(turret_direction(me, &at(0, 0), None), TurretDirection::North);
    // no enemy in sight
    assert_eq!(turret_direction(me, &status(), None), TurretDirection::South);
    // the rule says where to face
    assert_eq!(
        turret_direction(me, &at(5000, 0), Some(TurretDirection::West)),
        TurretDirection::West
    );
}

#[test]
fn idle_does_nothing() {
    let mut target = TargetDestination { x: 1, y: 1, dirty: false };
    let request = apply_action(
        &Action::Idle,
        PlayerID(9),
        &on_tile(6, 5),
        &seeing(on_tile(9, 5)),
        &AreaMap::new(),
        &config(),
        &mut target,
    );
    assert_eq!(request, None);
    assert_eq!(target, TargetDestination { x: 1, y: 1, dirty: false });
}

#[test]
fn one_tick_of_the_rule_engine() {
    let set = RuleSet::from_rules(vec![
        rule("flee", 100, Condition::IsHealthLow { threshold: 1 }, Action::Flee),
        rule("chase", 50, Condition::IsEnemyVisible, Action::ChaseEnemy),
        rule(
            "build",
            60,
            has("turret", 1),
            Action::Build { structure: StructureType::Turret, direction: None },
        ),
    ]);
    let map = AreaMap::new();
    let s = seeing(on_tile(12, 10));
    let mut target = TargetDestination { x: 0, y: 0, dirty: false };
    let outcome = evaluate_rules(
        &set,
        PlayerID(2),
        &on_tile(10, 10),
        &s,
        &FULL,
        &EMPTY,
        &map,
        &config(),
        &mut target,
    );
    assert_eq!(outcome.fired, Some(1));
    assert_eq!(outcome.request, None);
    assert_eq!(target, TargetDestination { x: 12, y: 10, dirty: true });

    target.dirty = false;
    let outcome = evaluate_rules(
        &set,
        PlayerID(2),
        &on_tile(10, 10),
        &s,
        &FULL,
        &Inventory { obstacles: 0, turrets: 2 },
        &map,
        &config(),
        &mut target,
    );
    assert_eq!(outcome.fired, Some(2));
    assert_eq!(
        outcome.request,
        Some(BuildRequest {
            tile: (10, 10),
            structure: StructureType::Turret,
            direction: Some(TurretDirection::East),
            actor: PlayerID(2),
            user_driven: false,
        })
    );
    assert_eq!(target, TargetDestination { x: 12, y: 10, dirty: false });

    let outcome = evaluate_rules(
        &set,
        PlayerID(2),
        &on_tile(10, 10),
        &status(),
        &FULL,
        &EMPTY,
        &map,
        &config(),
        &mut target,
    );
    assert_eq!(outcome.fired, None);
    assert_eq!(outcome.request, None);
    assert_eq!(target, TargetDestination { x: 12, y: 10, dirty: false });
}

fn open_grid(width: u32, height: u32) -> (ArenaConfig, ArenaGrid) {
    let mut grid = ArenaGrid::new();
    let mut handle = 0u64;
    for y in 0..height {
        for x in 0..width {
            assert!(grid.insert_tile(x, y, handle));
            handle += 1;
        }
    }
    (ArenaConfig { width, height, tile_size: 4000 }, grid)
}

#[test]
fn repath_follows_the_dirty_flag() {
    let (config, grid) = open_grid(4, 1);
    let graph = generate_nav_nodes(&config, &grid);
    let mut follower = PathFollower::new();
    let mut target = TargetDestination::new(3, 0);
    assert!(repath(&mut follower, &mut target, (0, 0), &graph));
    assert_eq!(follower.path, vec![(0, 0), (1, 0), (2, 0), (3, 0)]);
    assert_eq!(follower.current_index, 0);
    assert_eq!(target, TargetDestination { x: 3, y: 0, dirty: false });
    follower.current_index = 2;
    assert!(!repath(&mut follower, &mut target, (0, 0), &graph));
    assert_eq!(follower.current_index, 2);
    assert_eq!(follower.path.len(), 4);
}

#[test]
fn repath_to_an_unreachable_tile_leaves_the_follower_idle() {
    let (config, mut grid) = open_grid(4, 1);
    grid.insert_occupant(2, 0, 77);
    let graph = generate_nav_nodes(&config, &grid);
    let mut follower = PathFollower { path: vec![(0, 0), (1, 0)], current_index: 1 };
    let mut target = TargetDestination::new(3, 0);
    assert!(repath(&mut follower, &mut target, (0, 0), &graph));
    assert_eq!(follower.path, Vec::<(u32, u32)>::new());
    assert_eq!(follower.current_index, 0);
    assert!(!target.dirty);
    assert_eq!((target.x, target.y), (3, 0));
    assert_eq!(follower.follow(&on_tile(0, 0), &config), FollowStep::Idle);
}

#[test]
fn follower_heads_for_nodes_and_moves_on_when_close() {
    let config = config();
    let mut follower = PathFollower { path: vec![(1, 0), (2, 0)], current_index: 0 };
    // the centre of tile (1, 0) lies at (6000, 2000)
    let far = WorldPos { x: 2000, y: 1000, z: 2000 };
    assert_eq!(follower.follow(&far, &config), FollowStep::Toward((1, 0)));
    assert_eq!(follower.current_index, 0);
    let close = WorldPos { x: 5700, y: 1000, z: 2300 };
    assert_eq!(follower.follow(&close, &config), FollowStep::Reached);
    assert_eq!(follower.current_index, 1);
    assert_eq!(follower.follow(&close, &config), FollowStep::Toward((2, 0)));
    // exactly half a unit away is not close enough
    let edge = WorldPos { x: 9500, y: 1000, z: 2000 };
    assert_eq!(follower.follow(&edge, &config), FollowStep::Toward((2, 0)));
    let inside = WorldPos { x: 9501, y: 1000, z: 2000 };
    assert_eq!(follower.follow(&inside, &config), FollowStep::Reached);
    assert_eq!(follower.current_index, 2);
    assert_eq!(follower.follow(&inside, &config), FollowStep::Idle);
    assert_eq!(follower.current_index, 2);
    assert_eq!(follower.path, vec![(1, 0), (2, 0)]);
}

#[test]
fn a_new_rule_set_replaces_the_old_one() {
    let mut set = RuleSet::default();
    receive(&mut set, ServerMessage::UpdateRuleSet(RuleSet::new_turret_only()));
    assert_eq!(set.rules.len(), 1);
    assert_eq!(set.rules[0].name, "DebugBuildTurret");
}
