//! The rule engine: which rule of a scripted actor fires, and what its
//! action does.

use crate::areas::{center_of, AreaMap};
use crate::arena::ArenaConfig;
use crate::building::{BuildRequest, StructureType};
use crate::combat::{Hp, TurretDirection};
use crate::navgraph::NavGraph;
use crate::pathfinding::{connects, find_path, is_shortest, reachable};
use crate::player::{Inventory, PlayerStatus};
use crate::player_id::PlayerID;
use crate::rules::{Action, Condition, Rule, RuleSet};
use crate::tilemap::TilePos;
use crate::world::{actor_tile, tile_of, WorldPos};
use vstd::prelude::*;
use vstd::string::StringExecFns;

verus! {

/// The tile a scripted actor is heading for. `dirty` tells the path finder
/// that the actor's path must be found anew.
#[derive(Clone, Copy, Debug, PartialEq, Eq, Structural)]
pub struct TargetDestination {
    pub x: u32,
    pub y: u32,
    pub dirty: bool,
}

impl TargetDestination {
    /// A fresh destination, for which no path has been found yet.
    pub fn new(x: u32, y: u32) -> (target: Self)
        ensures
            target == (TargetDestination { x, y, dirty: true }),
    {
        TargetDestination { x, y, dirty: true }
    }

    /// The destination after a write of `(x, y)`: a write of the tile it
    /// already names changes nothing, any other names the new tile and
    /// asks for a new path.
    pub open spec fn written(self, x: u32, y: u32) -> TargetDestination {
        if self.x == x && self.y == y {
            self
        } else {
            TargetDestination { x, y, dirty: true }
        }
    }

    /// Writes the destination `(x, y)`.
    pub fn set(&mut self, x: u32, y: u32)
        ensures
            *final(self) == old(self).written(x, y),
    {
        if self.x != x || self.y != y {
            self.x = x;
            self.y = y;
            self.dirty = true;
        }
    }

    /// Asks for a new path to the same tile.
    pub fn mark_dirty(&mut self)
        ensures
            *final(self) == (TargetDestination { dirty: true, ..*old(self) }),
    {
        self.dirty = true;
    }
}

/// Whether `condition` holds for an actor that perceives `status`, has
/// `hp` hit points and carries `inventory`.
///
/// `HasItem` knows the items `"obstacle"` and `"turret"`; of any other
/// item the actor has none. `IsUnderAttack` never holds.
pub open spec fn holds(
    condition: Condition,
    status: PlayerStatus,
    hp: Hp,
    inventory: Inventory,
) -> bool
    decreases condition,
{
    match condition {
        Condition::True => true,
        Condition::IsEnemyVisible => status.visible_players@.len() > 0,
        Condition::IsHealthLow { threshold } => hp.current <= threshold,
        Condition::InArea(area_id) => status.current_area_id == Some(area_id),
        Condition::HasItem { item, count } => if item@ == "obstacle"@ {
            inventory.obstacles >= count
        } else if item@ == "turret"@ {
            inventory.turrets >= count
        } else {
            false
        },
        Condition::IsUnderAttack => false,
        Condition::And(conditions) => forall|i: int|
            0 <= i < conditions@.len() ==> holds(
                #[trigger] conditions@[i],
                status,
                hp,
                inventory,
            ),
        Condition::Or(conditions) => exists|i: int|
            0 <= i < conditions@.len() && holds(#[trigger] conditions@[i], status, hp, inventory),
        Condition::Not(inner) => !holds(*inner, status, hp, inventory),
    }
}

/// Evaluates `condition` for an actor.
pub fn evaluate_condition(
    condition: &Condition,
    status: &PlayerStatus,
    hp: &Hp,
    inventory: &Inventory,
) -> (r: bool)
    ensures
        r == holds(*condition, *status, *hp, *inventory),
    decreases *condition,
{
    match condition {
        Condition::True => true,
        Condition::IsEnemyVisible => status.visible_players.len() > 0,
        Condition::IsHealthLow { threshold } => hp.current <= *threshold,
        Condition::InArea(area_id) => match status.current_area_id {
            Some(current) => current == *area_id,
            None => false,
        },
        Condition::HasItem { item, count } => {
            let obstacle = String::from_str("obstacle");
            let turret = String::from_str("turret");
            if *item == obstacle {
                inventory.obstacles >= *count
            } else if *item == turret {
                inventory.turrets >= *count
            } else {
                false
            }
        },
        Condition::IsUnderAttack => false,
        Condition::And(conditions) => {
            let mut i: usize = 0;
            while i < conditions.len()
                invariant
                    i <= conditions.len(),
                    *condition is And,
                    condition->And_0 == *conditions,
                    forall|k: int|
                        0 <= k < i ==> holds(#[trigger] conditions@[k], *status, *hp, *inventory),
                decreases conditions.len() - i,
            {
                proof {
                    assert(decreases_to!(*condition => condition->And_0));
                    assert(decreases_to!(*conditions => conditions[i as int]));
                }
                if !evaluate_condition(&conditions[i], status, hp, inventory) {
                    return false;
                }
                i = i + 1;
            }
            true
        },
        Condition::Or(conditions) => {
            let mut i: usize = 0;
            while i < conditions.len()
                invariant
                    i <= conditions.len(),
                    *condition is Or,
                    condition->Or_0 == *conditions,
                    forall|k: int|
                        0 <= k < i ==> !holds(#[trigger] conditions@[k], *status, *hp, *inventory),
                decreases conditions.len() - i,
            {
                proof {
                    assert(decreases_to!(*condition => condition->Or_0));
                    assert(decreases_to!(*conditions => conditions[i as int]));
                }
                if evaluate_condition(&conditions[i], status, hp, inventory) {
                    return true;
                }
                i = i + 1;
            }
            false
        },
        Condition::Not(inner) => !evaluate_condition(inner, status, hp, inventory),
    }
}

/// Rule `a` is tried before rule `b`: its priority is greater, or the
/// priorities are equal and `a` was declared first.
pub open spec fn ranks_before(rules: Seq<Rule>, a: int, b: int) -> bool {
    rules[a].priority > rules[b].priority || (rules[a].priority == rules[b].priority && a < b)
}

/// `order` holds the index `j`.
pub open spec fn lists(order: Seq<usize>, j: int) -> bool {
    exists|k: int| 0 <= k < order.len() && #[trigger] order[k] == j
}

/// `order` lists the index of every rule once, each before all those it
/// ranks before.
pub open spec fn is_rule_order(rules: Seq<Rule>, order: Seq<usize>) -> bool {
    &&& order.len() == rules.len()
    &&& forall|k: int| 0 <= k < order.len() ==> (#[trigger] order[k]) < rules.len()
    &&& forall|j: int| 0 <= j < rules.len() ==> #[trigger] lists(order, j)
    &&& forall|a: int, b: int|
        0 <= a < b < order.len() ==> ranks_before(
            rules,
            (#[trigger] order[a]) as int,
            (#[trigger] order[b]) as int,
        )
}

/// The order in which the rules are tried: by priority, greatest first,
/// and by declaration among rules of equal priority.
pub fn rule_order(rule_set: &RuleSet) -> (order: Vec<usize>)
    ensures
        is_rule_order(rule_set.rules@, order@),
{
    let rules = &rule_set.rules;
    let mut order: Vec<usize> = Vec::new();
    let mut i: usize = 0;
    while i < rules.len()
        invariant
            i <= rules.len(),
            rules == &rule_set.rules,
            order@.len() == i,
            forall|k: int| 0 <= k < order@.len() ==> (#[trigger] order@[k]) < i,
            forall|j: int| 0 <= j < i ==> #[trigger] lists(order@, j),
            forall|a: int, b: int|
                0 <= a < b < order@.len() ==> ranks_before(
                    rules@,
                    (#[trigger] order@[a]) as int,
                    (#[trigger] order@[b]) as int,
                ),
        decreases rules.len() - i,
    {
        let priority = rules[i].priority;
        let mut pos: usize = 0;
        while pos < order.len() && rules[order[pos]].priority >= priority
            invariant
                pos <= order@.len(),
                order@.len() == i,
                i < rules.len(),
                priority == rules@[i as int].priority,
                forall|k: int| 0 <= k < order@.len() ==> (#[trigger] order@[k]) < i,
                forall|k: int|
                    0 <= k < pos ==> rules@[(#[trigger] order@[k]) as int].priority >= priority,
            decreases order@.len() - pos,
        {
            pos = pos + 1;
        }
        let ghost before = order@;
        order.insert(pos, i);
        proof {
            let after = order@;
            assert forall|k: int| 0 <= k < after.len() implies (#[trigger] after[k]) < i + 1 by {
                if k < pos {
                    assert(after[k] == before[k]);
                } else if k > pos {
                    assert(after[k] == before[k - 1]);
                }
            }
            assert forall|j: int| 0 <= j < i + 1 implies #[trigger] lists(after, j) by {
                if j == i {
                    assert(after[pos as int] == j);
                } else {
                    assert(lists(before, j));
                    let k0 = choose|k: int| 0 <= k < before.len() && #[trigger] before[k] == j;
                    if k0 < pos {
                        assert(after[k0] == j);
                    } else {
                        assert(after[k0 + 1] == j);
                    }
                }
            }
            assert forall|a: int, b: int| 0 <= a < b < after.len() implies ranks_before(
                rules@,
                (#[trigger] after[a]) as int,
                (#[trigger] after[b]) as int,
            ) by {
                let a0 = if a < pos {
                    a
                } else {
                    a - 1
                };
                let b0 = if b < pos {
                    b
                } else {
                    b - 1
                };
                if a != pos {
                    assert(after[a] == before[a0]);
                }
                if b != pos {
                    assert(after[b] == before[b0]);
                }
                if a == pos {
                    // the new rule before an old one
                    if pos < before.len() {
                        assert(rules@[before[pos as int] as int].priority < priority);
                        if b0 > pos {
                            assert(ranks_before(
                                rules@,
                                before[pos as int] as int,
                                before[b0] as int,
                            ));
                        }
                    }
                } else if b == pos {
                    assert(rules@[before[a0] as int].priority >= priority);
                    assert(before[a0] < i);
                } else {
                    assert(ranks_before(rules@, before[a0] as int, before[b0] as int));
                }
            }
        }
        i = i + 1;
    }
    order
}

/// Rule `i` is the one that fires: its condition holds, and it is tried
/// before every other rule whose condition holds. Among rules of equal
/// priority the one declared first wins.
pub open spec fn is_selected(
    rules: Seq<Rule>,
    status: PlayerStatus,
    hp: Hp,
    inventory: Inventory,
    i: int,
) -> bool {
    &&& 0 <= i < rules.len()
    &&& holds(rules[i].condition, status, hp, inventory)
    &&& forall|j: int|
        0 <= j < rules.len() && j != i && holds(
            (#[trigger] rules[j]).condition,
            status,
            hp,
            inventory,
        ) ==> ranks_before(rules, i, j)
}

/// No rule's condition holds.
pub open spec fn none_holds(
    rules: Seq<Rule>,
    status: PlayerStatus,
    hp: Hp,
    inventory: Inventory,
) -> bool {
    forall|j: int|
        0 <= j < rules.len() ==> !holds((#[trigger] rules[j]).condition, status, hp, inventory)
}

/// Picks the rule that fires this tick: the rules are tried in the order
/// of `rule_order`, and the first whose condition holds is the answer.
/// Where no condition holds there is none, and the actor idles.
pub fn select_rule(
    rule_set: &RuleSet,
    status: &PlayerStatus,
    hp: &Hp,
    inventory: &Inventory,
) -> (fired: Option<usize>)
    ensures
        match fired {
            Some(i) => is_selected(rule_set.rules@, *status, *hp, *inventory, i as int),
            None => none_holds(rule_set.rules@, *status, *hp, *inventory),
        },
{
    let order = rule_order(rule_set);
    let ghost rules = rule_set.rules@;
    let mut k: usize = 0;
    while k < order.len()
        invariant
            k <= order@.len(),
            rules == rule_set.rules@,
            is_rule_order(rules, order@),
            forall|m: int|
                0 <= m < k ==> !holds(
                    rules[(#[trigger] order@[m]) as int].condition,
                    *status,
                    *hp,
                    *inventory,
                ),
        decreases order@.len() - k,
    {
        let index = order[k];
        if evaluate_condition(&rule_set.rules[index].condition, status, hp, inventory) {
            proof {
                assert forall|j: int|
                    0 <= j < rules.len() && j != index && holds(
                        (#[trigger] rules[j]).condition,
                        *status,
                        *hp,
                        *inventory,
                    ) implies ranks_before(rules, index as int, j) by {
                    assert(lists(order@, j));
                    let m = choose|m: int| 0 <= m < order@.len() && #[trigger] order@[m] == j;
                    if m < k {
                        assert(!holds(rules[order@[m] as int].condition, *status, *hp, *inventory));
                    } else {
                        assert(m > k);
                        assert(ranks_before(rules, order@[k as int] as int, order@[m] as int));
                    }
                }
            }
            return Some(index);
        }
        k = k + 1;
    }
    proof {
        assert forall|j: int| 0 <= j < rules.len() implies !holds(
            (#[trigger] rules[j]).condition,
            *status,
            *hp,
            *inventory,
        ) by {
            assert(lists(order@, j));
            let m = choose|m: int| 0 <= m < order@.len() && #[trigger] order@[m] == j;
            assert(!holds(rules[order@[m] as int].condition, *status, *hp, *inventory));
        }
    }
    None
}

/// A coordinate of the tile an actor flees to: as far beyond its own
/// coordinate as the enemy lies before it, kept inside `[0, limit - 1]`.
pub open spec fn flee_coord(me: u32, enemy: u32, limit: u32) -> u32 {
    let wanted = me + (me - enemy);
    if wanted < 0 || limit == 0 {
        0
    } else if wanted > limit - 1 {
        (limit - 1) as u32
    } else {
        wanted as u32
    }
}

/// The tile that `action` sends the actor to, if it sends it anywhere:
/// the centre of the named region, the tile of the nearest enemy, or the
/// tile away from the nearest enemy.
pub open spec fn destination_of(
    action: Action,
    position: WorldPos,
    status: PlayerStatus,
    areas: AreaMap,
    config: ArenaConfig,
) -> Option<TilePos> {
    match action {
        Action::MoveToArea(id) => center_of(areas.areas@, id),
        Action::ChaseEnemy => match status.nearest_enemy_position {
            Some(enemy) => Some(tile_of(enemy, config.tile_size)),
            None => None,
        },
        Action::Flee => match status.nearest_enemy_position {
            Some(enemy) => {
                let me = tile_of(position, config.tile_size);
                let foe = tile_of(enemy, config.tile_size);
                Some(
                    (
                        flee_coord(me.0, foe.0, config.width),
                        flee_coord(me.1, foe.1, config.height),
                    ),
                )
            },
            None => None,
        },
        _ => None,
    }
}

/// The way a turret built by a rule faces: as the rule says or, where it
/// says nothing, towards the nearest enemy along the axis on which the
/// enemy lies farther away; south where no enemy is in sight.
pub open spec fn turret_facing(
    direction: Option<TurretDirection>,
    position: WorldPos,
    status: PlayerStatus,
) -> TurretDirection {
    match direction {
        Some(d) => d,
        None => match status.nearest_enemy_position {
            Some(enemy) => TurretDirection::facing(enemy.x - position.x, enemy.z - position.z),
            None => TurretDirection::South,
        },
    }
}

/// The build that `action` asks for, if it asks for one: a structure on
/// the tile where the actor stands.
pub open spec fn request_of(
    action: Action,
    actor: PlayerID,
    position: WorldPos,
    status: PlayerStatus,
    config: ArenaConfig,
) -> Option<BuildRequest> {
    match action {
        Action::Build { structure, direction } => Some(
            BuildRequest {
                tile: tile_of(position, config.tile_size),
                structure,
                direction: if structure == StructureType::Turret {
                    Some(turret_facing(direction, position, status))
                } else {
                    None
                },
                actor,
                user_driven: false,
            },
        ),
        _ => None,
    }
}

fn flee_to(me: u32, enemy: u32, limit: u32) -> (r: u32)
    ensures
        r == flee_coord(me, enemy, limit),
{
    let wanted: i64 = me as i64 + (me as i64 - enemy as i64);
    if wanted < 0 || limit == 0 {
        0
    } else if wanted > limit as i64 - 1 {
        limit - 1
    } else {
        wanted as u32
    }
}

/// Carries out `action` for the actor at `position`.
///
/// An action that sends the actor somewhere writes the destination, and
/// a write of the tile the destination already names changes nothing. A
/// build action leaves the destination alone and returns the request to
/// build on the actor's tile. `Idle`, and an action that lacks what it
/// needs (a region the table does not hold, an enemy that is not in
/// sight), do nothing.
pub fn apply_action(
    action: &Action,
    actor: PlayerID,
    position: &WorldPos,
    status: &PlayerStatus,
    area_map: &AreaMap,
    config: &ArenaConfig,
    target: &mut TargetDestination,
) -> (request: Option<BuildRequest>)
    requires
        config.tile_size > 0,
    ensures
        *final(target) == (match destination_of(*action, *position, *status, *area_map, *config) {
            Some(tile) => old(target).written(tile.0, tile.1),
            None => *old(target),
        }),
        request == request_of(*action, actor, *position, *status, *config),
{
    match action {
        Action::MoveToArea(area_id) => {
            match area_map.get_center(*area_id) {
                Some((x, y)) => {
                    target.set(x, y);
                },
                None => {},
            }
            None
        },
        Action::ChaseEnemy => {
            match status.nearest_enemy_position {
                Some(enemy) => {
                    let tile = actor_tile(&enemy, config);
                    target.set(tile.0, tile.1);
                },
                None => {},
            }
            None
        },
        Action::Flee => {
            match status.nearest_enemy_position {
                Some(enemy) => {
                    let me = actor_tile(position, config);
                    let foe = actor_tile(&enemy, config);
                    let x = flee_to(me.0, foe.0, config.width);
                    let y = flee_to(me.1, foe.1, config.height);
                    target.set(x, y);
                },
                None => {},
            }
            None
        },
        Action::Build { structure, direction } => {
            let tile = actor_tile(position, config);
            let facing = match structure {
                StructureType::Turret => {
                    let d = match direction {
                        Some(d) => *d,
                        None => match status.nearest_enemy_position {
                            Some(enemy) => TurretDirection::from_vector(
                                enemy.x as i64 - position.x as i64,
                                enemy.z as i64 - position.z as i64,
                            ),
                            None => TurretDirection::South,
                        },
                    };
                    Some(d)
                },
                _ => None,
            };
            Some(
                BuildRequest {
                    tile,
                    structure: *structure,
                    direction: facing,
                    actor,
                    user_driven: false,
                },
            )
        },
        Action::Idle => None,
    }
}

/// What the rules of an actor did in one tick: the rule that fired, if
/// any, and the build it asked for, if any.
#[derive(Clone, Copy, Debug, PartialEq, Eq)]
pub struct RuleOutcome {
    pub fired: Option<usize>,
    pub request: Option<BuildRequest>,
}

/// One tick of the rule engine for one actor: picks the rule that fires,
/// as `select_rule` does, and carries out its action, as `apply_action`
/// does. At most one rule fires; where none does, nothing changes.
pub fn evaluate_rules(
    rule_set: &RuleSet,
    actor: PlayerID,
    position: &WorldPos,
    status: &PlayerStatus,
    hp: &Hp,
    inventory: &Inventory,
    area_map: &AreaMap,
    config: &ArenaConfig,
    target: &mut TargetDestination,
) -> (outcome: RuleOutcome)
    requires
        config.tile_size > 0,
    ensures
        match outcome.fired {
            Some(i) => {
                &&& is_selected(rule_set.rules@, *status, *hp, *inventory, i as int)
                &&& *final(target) == (match destination_of(
                    rule_set.rules@[i as int].action,
                    *position,
                    *status,
                    *area_map,
                    *config,
                ) {
                    Some(tile) => old(target).written(tile.0, tile.1),
                    None => *old(target),
                })
                &&& outcome.request == request_of(
                    rule_set.rules@[i as int].action,
                    actor,
                    *position,
                    *status,
                    *config,
                )
            },
            None => {
                &&& none_holds(rule_set.rules@, *status, *hp, *inventory)
                &&& *final(target) == *old(target)
                &&& outcome.request.is_none()
            },
        },
{
    match select_rule(rule_set, status, hp, inventory) {
        Some(index) => {
            let request = apply_action(
                &rule_set.rules[index].action,
                actor,
                position,
                status,
                area_map,
                config,
                target,
            );
            RuleOutcome { fired: Some(index), request }
        },
        None => RuleOutcome { fired: None, request: None },
    }
}

/// The path a scripted actor follows, and how far along it has come.
#[derive(Debug, PartialEq, Eq)]
pub struct PathFollower {
    pub path: Vec<TilePos>,
    pub current_index: usize,
}

/// What the follower of a path does next.
#[derive(Clone, Copy, Debug, PartialEq, Eq)]
pub enum FollowStep {
    /// The path is at its end: the actor stands still.
    Idle,
    /// The actor has come to the node it was heading for, and will head
    /// for the next one from the next tick on.
    Reached,
    /// The actor heads for the centre of this tile.
    Toward(TilePos),
}

/// The actor at `position` stands within half a world unit of the centre
/// of `tile`, heights left aside.
pub open spec fn at_node(position: WorldPos, tile: TilePos, tile_size: u32) -> bool {
    let dx = 2 * tile.0 * tile_size + tile_size - 2 * position.x;
    let dz = 2 * tile.1 * tile_size + tile_size - 2 * position.z;
    dx * dx + dz * dz < 1_000_000
}

impl PathFollower {
    /// A follower without a path.
    pub fn new() -> (follower: Self)
        ensures
            follower.path@ == Seq::<TilePos>::empty(),
            follower.current_index == 0,
    {
        PathFollower { path: Vec::new(), current_index: 0 }
    }

    /// One tick of path following for the actor at `position`: past the
    /// end of the path the actor idles; within half a unit of the node it
    /// heads for, it moves on to the next node; else it keeps heading for
    /// the node.
    pub fn follow(&mut self, position: &WorldPos, config: &ArenaConfig) -> (step: FollowStep)
        ensures
            final(self).path@ == old(self).path@,
            old(self).current_index >= old(self).path@.len() ==> step == FollowStep::Idle
                && final(self).current_index == old(self).current_index,
            old(self).current_index < old(self).path@.len() && at_node(
                *position,
                old(self).path@[old(self).current_index as int],
                config.tile_size,
            ) ==> step == FollowStep::Reached && final(self).current_index == old(self).current_index + 1,
            old(self).current_index < old(self).path@.len() && !at_node(
                *position,
                old(self).path@[old(self).current_index as int],
                config.tile_size,
            ) ==> step == FollowStep::Toward(old(self).path@[old(self).current_index as int])
                && final(self).current_index == old(self).current_index,
    {
        if self.current_index >= self.path.len() {
            return FollowStep::Idle;
        }
        let node = self.path[self.current_index];
        let size: i128 = config.tile_size as i128;
        assert(0 <= 2 * node.0 * size <= 2 * 0xffff_ffff * 0xffff_ffff) by (nonlinear_arith)
            requires
                0 <= node.0 <= 0xffff_ffff,
                0 <= size <= 0xffff_ffff,
        ;
        assert(0 <= 2 * node.1 * size <= 2 * 0xffff_ffff * 0xffff_ffff) by (nonlinear_arith)
            requires
                0 <= node.1 <= 0xffff_ffff,
                0 <= size <= 0xffff_ffff,
        ;
        let dx: i128 = 2 * (node.0 as i128) * size + size - 2 * (position.x as i128);
        let dz: i128 = 2 * (node.1 as i128) * size + size - 2 * (position.z as i128);
        let near_x = -1000 < dx && dx < 1000;
        let near_z = -1000 < dz && dz < 1000;
        proof {
            if !near_x {
                assert(dx * dx >= 1_000_000) by (nonlinear_arith)
                    requires
                        dx <= -1000 || dx >= 1000,
                ;
                assert(dz * dz >= 0) by (nonlinear_arith);
            }
            if !near_z {
                assert(dz * dz >= 1_000_000) by (nonlinear_arith)
                    requires
                        dz <= -1000 || dz >= 1000,
                ;
                assert(dx * dx >= 0) by (nonlinear_arith);
            }
            if near_x && near_z {
                assert(0 <= dx * dx < 1_000_000) by (nonlinear_arith)
                    requires
                        -1000 < dx < 1000,
                ;
                assert(0 <= dz * dz < 1_000_000) by (nonlinear_arith)
                    requires
                        -1000 < dz < 1000,
                ;
            }
        }
        if near_x && near_z && dx * dx + dz * dz < 1_000_000 {
            self.current_index = self.current_index + 1;
            FollowStep::Reached
        } else {
            FollowStep::Toward(node)
        }
    }
}

/// Finds the path of a scripted actor anew where its destination asks for
/// it.
///
/// A destination that is not dirty leaves the follower alone. A dirty one
/// is searched for from `start`: where a path exists the follower takes
/// it up from its first node, where none exists the follower is left
/// without a path and idles. Either way the destination is clean
/// afterwards and names the tile it named.
pub fn repath(
    follower: &mut PathFollower,
    target: &mut TargetDestination,
    start: TilePos,
    graph: &NavGraph,
) -> (searched: bool)
    ensures
        searched == old(target).dirty,
        *final(target) == (TargetDestination { dirty: false, ..*old(target) }),
        !searched ==> final(follower).path@ == old(follower).path@ && final(follower).current_index == old(follower).current_index,
        searched ==> final(follower).current_index == 0,
        searched && reachable(graph.nodes(), start, (old(target).x, old(target).y)) ==> connects(
            graph.nodes(),
            final(follower).path@,
            start,
            (old(target).x, old(target).y),
        ),
        searched && reachable(graph.nodes(), start, (old(target).x, old(target).y))
            && !graph.eight_way() ==> is_shortest(
            graph.nodes(),
            final(follower).path@,
            start,
            (old(target).x, old(target).y),
        ),
        searched && !reachable(graph.nodes(), start, (old(target).x, old(target).y)) ==> final(follower).path@ == Seq::<TilePos>::empty(),
{
    if !target.dirty {
        return false;
    }
    target.dirty = false;
    match find_path(start, (target.x, target.y), graph) {
        Some(path) => {
            follower.path = path;
            follower.current_index = 0;
        },
        None => {
            follower.path = Vec::new();
            follower.current_index = 0;
        },
    }
    true
}

impl Default for PathFollower {
    /// A follower without a path.
    fn default() -> (follower: Self)
        ensures
            follower.path@ == Seq::<TilePos>::empty(),
            follower.current_index == 0,
    {
        PathFollower::new()
    }
}

} // verus!
