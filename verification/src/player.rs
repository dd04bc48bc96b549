//! What an actor carries and what it perceives.

use crate::areas::{area_id_at, tile_in_sight, tile_sees, Area, AreaID, AreaMap};
use crate::arena::{ArenaConfig, ArenaGrid, CollectibleType};
use crate::logging::{GameEvent, MatchLog};
use crate::navgraph::NavGraph;
use crate::pathfinding::{path_steps, reachable, steps_fit};
use crate::player_id::PlayerID;
use crate::sight::{has_line_of_sight, sight_clear};
use crate::tilemap::TilePos;
use crate::world::{
    actor_tile, dist_sq, distance_squared, sight_tile, sight_tile_of, tile_of, WorldPos,
};
use vstd::prelude::*;

verus! {

/// The structures an actor has in stock.
#[derive(Clone, Copy, Debug, PartialEq, Eq, Structural)]
pub struct Inventory {
    pub obstacles: u32,
    pub turrets: u32,
}

/// What an actor perceives of the world at one tick.
#[derive(Debug, PartialEq)]
pub struct PlayerStatus {
    /// The other actors in line of sight.
    pub visible_players: Vec<PlayerID>,
    /// Where the nearest visible actor stands.
    pub nearest_enemy_position: Option<WorldPos>,
    /// The squared distance to the nearest visible actor.
    pub nearest_enemy_distance: Option<u128>,
    /// The region the actor stands in.
    pub current_area_id: Option<AreaID>,
    /// For each region that can be reached, the number of steps to its
    /// centre.
    pub area_distances: Vec<(AreaID, u32)>,
    /// The regions whose centre is in line of sight.
    pub visible_areas_from_self: Vec<AreaID>,
}

impl PlayerStatus {
    /// The perception of an actor that has seen nothing yet.
    pub fn new() -> (status: Self)
        ensures
            status.visible_players@ == Seq::<PlayerID>::empty(),
            status.nearest_enemy_position.is_none(),
            status.nearest_enemy_distance.is_none(),
            status.current_area_id.is_none(),
            status.area_distances@ == Seq::<(AreaID, u32)>::empty(),
            status.visible_areas_from_self@ == Seq::<AreaID>::empty(),
    {
        PlayerStatus {
            visible_players: Vec::new(),
            nearest_enemy_position: None,
            nearest_enemy_distance: None,
            current_area_id: None,
            area_distances: Vec::new(),
            visible_areas_from_self: Vec::new(),
        }
    }
}

/// The square of the distance within which an actor picks a resource up:
/// 2 world units, in thousandths.
pub const COLLECT_RANGE_SQ: u128 = 4_000_000;

/// A resource on the ground: where it lies and what it is.
#[derive(Clone, Copy, Debug, PartialEq, Eq, Structural)]
pub struct GroundItem {
    pub position: WorldPos,
    pub ty: CollectibleType,
}

/// The item lies within reach of an actor at `position`.
pub open spec fn in_reach(position: WorldPos, item: GroundItem) -> bool {
    dist_sq(position, item.position) < COLLECT_RANGE_SQ
}

/// The indices, among the first `n` items, of those within reach.
pub open spec fn reached_upto(position: WorldPos, items: Seq<GroundItem>, n: int) -> Seq<usize>
    decreases n,
{
    if n <= 0 {
        Seq::empty()
    } else if in_reach(position, items[n - 1]) {
        reached_upto(position, items, n - 1).push((n - 1) as usize)
    } else {
        reached_upto(position, items, n - 1)
    }
}

/// The number, among the first `n` items, of those of kind `ty` within
/// reach.
pub open spec fn count_upto(
    position: WorldPos,
    items: Seq<GroundItem>,
    ty: CollectibleType,
    n: int,
) -> nat
    decreases n,
{
    if n <= 0 {
        0
    } else if in_reach(position, items[n - 1]) && items[n - 1].ty == ty {
        count_upto(position, items, ty, n - 1) + 1
    } else {
        count_upto(position, items, ty, n - 1)
    }
}

/// A stock of `have` after `gain` more came in; it stops at the greatest
/// number a stock can hold.
pub open spec fn stocked(have: u32, gain: nat) -> u32 {
    if have + gain > u32::MAX {
        u32::MAX
    } else {
        (have + gain) as u32
    }
}

/// The events that record the pick-up of every item within reach among
/// the first `n`, in order: each names the actor, the kind of the item and
/// the tile the item lay on.
pub open spec fn pickups_upto(
    actor: PlayerID,
    position: WorldPos,
    items: Seq<GroundItem>,
    tile_size: u32,
    now: i64,
    n: int,
) -> Seq<GameEvent>
    decreases n,
{
    if n <= 0 {
        Seq::empty()
    } else if in_reach(position, items[n - 1]) {
        pickups_upto(actor, position, items, tile_size, now, n - 1).push(
            GameEvent::ItemCollected {
                entity: actor,
                item_type: items[n - 1].ty,
                location: tile_of(items[n - 1].position, tile_size),
                time: now,
            },
        )
    } else {
        pickups_upto(actor, position, items, tile_size, now, n - 1)
    }
}

/// Picks up every resource within reach of `actor`, who stands at
/// `position`: the inventory grows by the number of items of each kind,
/// the journal records each pick-up, and the indices of the items picked
/// up are returned in order.
pub fn collect_items(
    actor: PlayerID,
    position: &WorldPos,
    items: &Vec<GroundItem>,
    inventory: &mut Inventory,
    config: &ArenaConfig,
    now: i64,
    log: &mut MatchLog,
) -> (collected: Vec<usize>)
    requires
        config.tile_size > 0,
    ensures
        collected@ == reached_upto(*position, items@, items@.len() as int),
        final(inventory).obstacles == stocked(
            old(inventory).obstacles,
            count_upto(*position, items@, CollectibleType::Obstacle, items@.len() as int),
        ),
        final(inventory).turrets == stocked(
            old(inventory).turrets,
            count_upto(*position, items@, CollectibleType::Turret, items@.len() as int),
        ),
        final(inventory).obstacles >= old(inventory).obstacles,
        final(inventory).turrets >= old(inventory).turrets,
        final(log).events@ == old(log).events@ + pickups_upto(
            actor,
            *position,
            items@,
            config.tile_size,
            now,
            items@.len() as int,
        ),
{
    let mut collected: Vec<usize> = Vec::new();
    let mut i: usize = 0;
    assert(log.events@ + Seq::<GameEvent>::empty() =~= log.events@);
    while i < items.len()
        invariant
            i <= items.len(),
            config.tile_size > 0,
            collected@ == reached_upto(*position, items@, i as int),
            inventory.obstacles == stocked(
                old(inventory).obstacles,
                count_upto(*position, items@, CollectibleType::Obstacle, i as int),
            ),
            inventory.turrets == stocked(
                old(inventory).turrets,
                count_upto(*position, items@, CollectibleType::Turret, i as int),
            ),
            log.events@ == old(log).events@ + pickups_upto(
                actor,
                *position,
                items@,
                config.tile_size,
                now,
                i as int,
            ),
        decreases items.len() - i,
    {
        let item = items[i];
        if distance_squared(position, &item.position) < COLLECT_RANGE_SQ {
            collected.push(i);
            match item.ty {
                CollectibleType::Obstacle => {
                    inventory.obstacles = inventory.obstacles.saturating_add(1);
                },
                CollectibleType::Turret => {
                    inventory.turrets = inventory.turrets.saturating_add(1);
                },
            }
            let ghost before = log.events@;
            let event = GameEvent::ItemCollected {
                entity: actor,
                item_type: item.ty,
                location: actor_tile(&item.position, config),
                time: now,
            };
            log.add(event);
            assert(log.events@ =~= old(log).events@ + pickups_upto(
                actor,
                *position,
                items@,
                config.tile_size,
                now,
                i as int,
            ).push(event));
        }
        i = i + 1;
    }
    collected
}

/// An actor as the others perceive it.
#[derive(Clone, Copy, Debug, PartialEq, Eq, Structural)]
pub struct ActorView {
    pub id: PlayerID,
    pub position: WorldPos,
}

/// An actor at `from` sees the tile on which one at `to` stands.
pub open spec fn sees(config: ArenaConfig, grid: ArenaGrid, from: WorldPos, to: WorldPos) -> bool {
    let a = sight_tile_of(from, config.tile_size);
    let b = sight_tile_of(to, config.tile_size);
    sight_clear(config, grid, a.0 as int, a.1 as int, b.0 as int, b.1 as int)
}

/// `me` perceives `other`: it is another actor, and in line of sight.
pub open spec fn perceives(
    config: ArenaConfig,
    grid: ArenaGrid,
    me: ActorView,
    other: ActorView,
) -> bool {
    other.id != me.id && sees(config, grid, me.position, other.position)
}

/// The actors that `me` perceives among the first `n`, in order.
pub open spec fn seen_upto(
    config: ArenaConfig,
    grid: ArenaGrid,
    me: ActorView,
    actors: Seq<ActorView>,
    n: int,
) -> Seq<PlayerID>
    decreases n,
{
    if n <= 0 {
        Seq::empty()
    } else if perceives(config, grid, me, actors[n - 1]) {
        seen_upto(config, grid, me, actors, n - 1).push(actors[n - 1].id)
    } else {
        seen_upto(config, grid, me, actors, n - 1)
    }
}

/// Actor `i` is the nearest that `me` perceives; among equally near ones
/// the first.
pub open spec fn is_nearest(
    config: ArenaConfig,
    grid: ArenaGrid,
    me: ActorView,
    actors: Seq<ActorView>,
    i: int,
) -> bool {
    &&& 0 <= i < actors.len()
    &&& perceives(config, grid, me, actors[i])
    &&& forall|j: int|
        0 <= j < actors.len() && perceives(config, grid, me, #[trigger] actors[j]) ==> dist_sq(
            me.position,
            actors[i].position,
        ) < dist_sq(me.position, actors[j].position) || (dist_sq(me.position, actors[i].position)
            == dist_sq(me.position, actors[j].position) && i <= j)
}

/// Tells whether an actor at `from` sees the tile of one at `to`.
pub fn can_see(config: &ArenaConfig, grid: &ArenaGrid, from: &WorldPos, to: &WorldPos) -> (r: bool)
    requires
        config.tile_size > 0,
    ensures
        r == sees(*config, *grid, *from, *to),
{
    let a = sight_tile(from, config);
    let b = sight_tile(to, config);
    has_line_of_sight(a, b, config, grid)
}

/// What `me` perceives of the other actors: those in line of sight, in
/// the order of `actors`, and the nearest of them.
pub fn observe_actors(
    me: &ActorView,
    actors: &Vec<ActorView>,
    config: &ArenaConfig,
    grid: &ArenaGrid,
) -> (seen: (Vec<PlayerID>, Option<usize>))
    requires
        config.tile_size > 0,
    ensures
        seen.0@ == seen_upto(*config, *grid, *me, actors@, actors@.len() as int),
        match seen.1 {
            Some(i) => is_nearest(*config, *grid, *me, actors@, i as int),
            None => forall|j: int|
                0 <= j < actors@.len() ==> !perceives(*config, *grid, *me, #[trigger] actors@[j]),
        },
{
    let mut visible: Vec<PlayerID> = Vec::new();
    let mut nearest: Option<usize> = None;
    let mut nearest_distance: u128 = 0;
    let mut j: usize = 0;
    while j < actors.len()
        invariant
            j <= actors.len(),
            config.tile_size > 0,
            visible@ == seen_upto(*config, *grid, *me, actors@, j as int),
            match nearest {
                Some(i) => {
                    &&& i < j
                    &&& perceives(*config, *grid, *me, actors@[i as int])
                    &&& nearest_distance == dist_sq(me.position, actors@[i as int].position)
                    &&& forall|k: int|
                        0 <= k < j && perceives(*config, *grid, *me, #[trigger] actors@[k])
                            ==> nearest_distance < dist_sq(me.position, actors@[k].position) || (
                        nearest_distance == dist_sq(me.position, actors@[k].position) && i <= k)
                },
                None => forall|k: int|
                    0 <= k < j ==> !perceives(*config, *grid, *me, #[trigger] actors@[k]),
            },
        decreases actors.len() - j,
    {
        let other = actors[j];
        if !other.id.same(&me.id) && can_see(config, grid, &me.position, &other.position) {
            visible.push(other.id);
            let d = distance_squared(&me.position, &other.position);
            let closer = match nearest {
                Some(_) => d < nearest_distance,
                None => true,
            };
            if closer {
                nearest = Some(j);
                nearest_distance = d;
            }
        }
        j = j + 1;
    }
    (visible, nearest)
}

/// The regions, among the first `n` of the table, whose centre can be
/// reached from `start`: the index of each in the table.
pub open spec fn reachable_upto(
    areas: Seq<Area>,
    nodes: Map<TilePos, Seq<TilePos>>,
    start: TilePos,
    n: int,
) -> Seq<int>
    decreases n,
{
    if n <= 0 {
        Seq::empty()
    } else if reachable(nodes, start, areas[n - 1].midpoint()) {
        reachable_upto(areas, nodes, start, n - 1).push(n - 1)
    } else {
        reachable_upto(areas, nodes, start, n - 1)
    }
}

/// The names of the regions, among the first `n` of the table, whose
/// centre can be seen from the tile `from`.
pub open spec fn visible_upto(
    config: ArenaConfig,
    grid: ArenaGrid,
    areas: Seq<Area>,
    from: TilePos,
    n: int,
) -> Seq<AreaID>
    decreases n,
{
    if n <= 0 {
        Seq::empty()
    } else if tile_sees(config, grid, from, areas[n - 1].midpoint()) {
        visible_upto(config, grid, areas, from, n - 1).push(areas[n - 1].id)
    } else {
        visible_upto(config, grid, areas, from, n - 1)
    }
}

/// `distances` names, in table order, every region whose centre can be
/// reached from `start`, each with a number of steps that fits.
pub open spec fn distances_fit(
    areas: Seq<Area>,
    nodes: Map<TilePos, Seq<TilePos>>,
    eight_way: bool,
    start: TilePos,
    n: int,
    distances: Seq<(AreaID, u32)>,
) -> bool {
    let found = reachable_upto(areas, nodes, start, n);
    &&& distances.len() == found.len()
    &&& forall|k: int|
        0 <= k < distances.len() ==> {
            &&& 0 <= found[k] < areas.len()
            &&& (#[trigger] distances[k]).0 == areas[found[k]].id
            &&& steps_fit(nodes, eight_way, start, areas[found[k]].midpoint(), distances[k].1)
        }
}

/// For each region whose centre can be reached from `start`, its name and
/// the number of steps of the path there; regions out of reach are left
/// out.
pub fn area_distances(start: TilePos, area_map: &AreaMap, graph: &NavGraph) -> (distances: Vec<
    (AreaID, u32),
>)
    ensures
        distances_fit(
            area_map.areas@,
            graph.nodes(),
            graph.eight_way(),
            start,
            area_map.areas@.len() as int,
            distances@,
        ),
{
    let mut distances: Vec<(AreaID, u32)> = Vec::new();
    let mut i: usize = 0;
    while i < area_map.areas.len()
        invariant
            i <= area_map.areas@.len(),
            distances_fit(
                area_map.areas@,
                graph.nodes(),
                graph.eight_way(),
                start,
                i as int,
                distances@,
            ),
        decreases area_map.areas.len() - i,
    {
        let ghost before = distances@;
        let ghost found = reachable_upto(area_map.areas@, graph.nodes(), start, i as int);
        let center = area_map.areas[i].center();
        match path_steps(start, center, graph) {
            Some(steps) => {
                distances.push((area_map.areas[i].id, steps));
                proof {
                    let found2 = reachable_upto(
                        area_map.areas@,
                        graph.nodes(),
                        start,
                        i + 1,
                    );
                    assert(found2 == found.push(i as int));
                    assert forall|k: int| 0 <= k < distances@.len() implies {
                        &&& 0 <= found2[k] < area_map.areas@.len()
                        &&& (#[trigger] distances@[k]).0 == area_map.areas@[found2[k]].id
                        &&& steps_fit(
                            graph.nodes(),
                            graph.eight_way(),
                            start,
                            area_map.areas@[found2[k]].midpoint(),
                            distances@[k].1,
                        )
                    } by {
                        if k < before.len() {
                            assert(distances@[k] == before[k]);
                            assert(found2[k] == found[k]);
                        }
                    }
                }
            },
            None => {},
        }
        i = i + 1;
    }
    distances
}

/// The names of the regions whose centre can be seen from the tile
/// `from`, in table order.
pub fn visible_areas(from: TilePos, area_map: &AreaMap, config: &ArenaConfig, grid: &ArenaGrid) -> (
    visible: Vec<AreaID>)
    ensures
        visible@ == visible_upto(*config, *grid, area_map.areas@, from, area_map.areas@.len() as int),
{
    let mut visible: Vec<AreaID> = Vec::new();
    let mut i: usize = 0;
    while i < area_map.areas.len()
        invariant
            i <= area_map.areas@.len(),
            visible@ == visible_upto(*config, *grid, area_map.areas@, from, i as int),
        decreases area_map.areas.len() - i,
    {
        let center = area_map.areas[i].center();
        if tile_in_sight(config, grid, from, center) {
            visible.push(area_map.areas[i].id);
        }
        i = i + 1;
    }
    visible
}

/// The event that a change of region calls for: none where the actor is
/// still in the region it was in.
pub open spec fn area_event(
    me: ActorView,
    previous: Option<AreaID>,
    current: AreaID,
    now: i64,
) -> Option<GameEvent> {
    if previous == Some(current) {
        None
    } else {
        Some(GameEvent::AreaEntered { entity: me.id, area_id: current, time: now })
    }
}

/// Refreshes what the actor `me` perceives at time `now`.
///
/// The snapshot holds the other actors in line of sight and the nearest
/// of them with its squared distance, the region of the tile the actor
/// stands on, the steps to the centre of each region within reach, and
/// the regions whose centre is in sight. Where the region differs from
/// `previous`, the region of the tick before, an `AreaEntered` event
/// comes with it.
pub fn perceive(
    me: &ActorView,
    actors: &Vec<ActorView>,
    previous: Option<AreaID>,
    config: &ArenaConfig,
    grid: &ArenaGrid,
    graph: &NavGraph,
    area_map: &AreaMap,
    now: i64,
) -> (seen: (PlayerStatus, Option<GameEvent>))
    requires
        config.tile_size > 0,
    ensures
        seen.0.visible_players@ == seen_upto(*config, *grid, *me, actors@, actors@.len() as int),
        match seen.0.nearest_enemy_position {
            Some(position) => exists|i: int|
                #[trigger] is_nearest(*config, *grid, *me, actors@, i) && position
                    == actors@[i].position && seen.0.nearest_enemy_distance == Some(
                    dist_sq(me.position, position) as u128,
                ),
            None => seen.0.nearest_enemy_distance.is_none() && forall|j: int|
                0 <= j < actors@.len() ==> !perceives(*config, *grid, *me, #[trigger] actors@[j]),
        },
        seen.0.current_area_id == Some(
            area_id_at(
                area_map.areas@,
                tile_of(me.position, config.tile_size).0,
                tile_of(me.position, config.tile_size).1,
            ),
        ),
        distances_fit(
            area_map.areas@,
            graph.nodes(),
            graph.eight_way(),
            tile_of(me.position, config.tile_size),
            area_map.areas@.len() as int,
            seen.0.area_distances@,
        ),
        seen.0.visible_areas_from_self@ == visible_upto(
            *config,
            *grid,
            area_map.areas@,
            tile_of(me.position, config.tile_size),
            area_map.areas@.len() as int,
        ),
        seen.1 == area_event(
            *me,
            previous,
            area_id_at(
                area_map.areas@,
                tile_of(me.position, config.tile_size).0,
                tile_of(me.position, config.tile_size).1,
            ),
            now,
        ),
{
    let (visible_players, nearest) = observe_actors(me, actors, config, grid);
    let (nearest_enemy_position, nearest_enemy_distance) = match nearest {
        Some(i) => {
            let position = actors[i].position;
            (Some(position), Some(distance_squared(&me.position, &position)))
        },
        None => (None, None),
    };
    let tile = actor_tile(&me.position, config);
    let current = area_map.get_area_id(tile.0, tile.1);
    let entered = match previous {
        Some(before) => before != current,
        None => true,
    };
    let event = if entered {
        Some(GameEvent::AreaEntered { entity: me.id, area_id: current, time: now })
    } else {
        None
    };
    let status = PlayerStatus {
        visible_players,
        nearest_enemy_position,
        nearest_enemy_distance,
        current_area_id: Some(current),
        area_distances: area_distances(tile, area_map, graph),
        visible_areas_from_self: visible_areas(tile, area_map, config, grid),
    };
    (status, event)
}

impl Default for Inventory {
    /// An empty stock.
    fn default() -> (inventory: Self)
        ensures
            inventory == (Inventory { obstacles: 0, turrets: 0 }),
    {
        Inventory { obstacles: 0, turrets: 0 }
    }
}

impl Default for PlayerStatus {
    /// The perception of an actor that has seen nothing yet.
    fn default() -> (status: Self)
        ensures
            status.visible_players@ == Seq::<PlayerID>::empty(),
            status.nearest_enemy_position.is_none(),
            status.nearest_enemy_distance.is_none(),
            status.current_area_id.is_none(),
            status.area_distances@ == Seq::<(AreaID, u32)>::empty(),
            status.visible_areas_from_self@ == Seq::<AreaID>::empty(),
    {
        PlayerStatus::new()
    }
}

} // verus!
