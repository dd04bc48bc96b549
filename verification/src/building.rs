//! Structures, and the pipeline that builds and destroys them.

use crate::ai::TargetDestination;
use crate::arena::{ArenaConfig, ArenaGrid};
use crate::combat::{Turret, TurretDirection, TURRET_COOLDOWN};
use crate::logging::{GameEvent, MatchLog};
use crate::navgraph::{nav_nodes, neighbors_upto, regenerate_nav_graph, NavGraph};
use crate::player::Inventory;
use crate::player_id::PlayerID;
use crate::tilemap::{same_tile, TilePos};
use vstd::pervasive::VecAdditionalExecFns;
use vstd::prelude::*;

verus! {

/// The kinds of structure that can stand on a tile.
#[derive(Clone, Copy, Debug, PartialEq, Eq, Structural)]
pub enum StructureType {
    Obstacle,
    Wall,
    Turret,
}

/// What a structure is, and how much of its tile its collider fills, in
/// hundredths of the tile.
#[derive(Clone, Copy, Debug, PartialEq, Eq, Structural)]
pub struct Structure {
    pub ty: StructureType,
    pub collider_percent: u32,
}

/// A request to build: where, what, facing which way, and for whom.
/// `user_driven` tells a build by the user from one by a rule.
#[derive(Clone, Copy, Debug, PartialEq, Eq)]
pub struct BuildRequest {
    pub tile: TilePos,
    pub structure: StructureType,
    pub direction: Option<TurretDirection>,
    pub actor: PlayerID,
    pub user_driven: bool,
}

/// What the user asks for in one tick, as far as building goes: the kind
/// of structure selected, whether to build, whether to destroy, and the
/// tile aimed at, if any.
#[derive(Clone, Copy, Debug, PartialEq, Eq)]
pub struct BuildInput {
    pub build_kind_selected: StructureType,
    pub build_request: bool,
    pub destroy_request: bool,
    pub aim_tile: Option<TilePos>,
}

/// The requests that the input of one tick amounts to.
#[derive(Clone, Copy, Debug, PartialEq, Eq)]
pub struct UserRequests {
    pub build: Option<BuildRequest>,
    pub destroy: Option<TilePos>,
}

/// Why a build was refused.
#[derive(Clone, Copy, Debug, PartialEq, Eq, Structural)]
pub enum BuildError {
    /// The tile lies outside the arena.
    OutOfBounds,
    /// The tile holds an occupant already.
    Occupied,
    /// An actor stands on the tile.
    ActorOnTile,
    /// The requesting actor has no structure of the kind in stock.
    NothingInStock,
    /// Walls cannot be built.
    NotBuildable,
}

/// What a build has put on its tile.
#[derive(Clone, Copy, Debug, PartialEq, Eq, Structural)]
pub struct Built {
    pub structure: Structure,
    pub turret: Option<Turret>,
}

/// Turns the user's input of one tick into requests: with a tile aimed
/// at, a build request asks for the selected structure on that tile,
/// facing as the user faces, and a destroy request asks for the tile to be
/// cleared. Without a tile aimed at nothing is asked for.
pub fn user_requests(input: &BuildInput, actor: PlayerID, facing: TurretDirection) -> (requests:
    UserRequests)
    ensures
        requests.build == (match input.aim_tile {
            Some(tile) if input.build_request => Some(
                BuildRequest {
                    tile,
                    structure: input.build_kind_selected,
                    direction: Some(facing),
                    actor,
                    user_driven: true,
                },
            ),
            _ => None,
        }),
        requests.destroy == (match input.aim_tile {
            Some(tile) if input.destroy_request => Some(tile),
            _ => None,
        }),
{
    match input.aim_tile {
        Some(tile) => UserRequests {
            build: if input.build_request {
                Some(
                    BuildRequest {
                        tile,
                        structure: input.build_kind_selected,
                        direction: Some(facing),
                        actor,
                        user_driven: true,
                    },
                )
            } else {
                None
            },
            destroy: if input.destroy_request {
                Some(tile)
            } else {
                None
            },
        },
        None => UserRequests { build: None, destroy: None },
    }
}

/// The reason for which `request` is refused, if it is: the first of out
/// of bounds, tile occupied, actor on the tile (user-driven builds only),
/// and nothing in stock.
pub open spec fn build_verdict(
    config: ArenaConfig,
    grid: ArenaGrid,
    inventory: Inventory,
    actor_tiles: Seq<TilePos>,
    request: BuildRequest,
) -> Option<BuildError> {
    if !config.in_bounds(request.tile.0 as int, request.tile.1 as int) {
        Some(BuildError::OutOfBounds)
    } else if grid.occupants().dom().contains(request.tile) {
        Some(BuildError::Occupied)
    } else if request.user_driven && actor_tiles.contains(request.tile) {
        Some(BuildError::ActorOnTile)
    } else {
        match request.structure {
            StructureType::Wall => Some(BuildError::NotBuildable),
            StructureType::Obstacle => if inventory.obstacles == 0 {
                Some(BuildError::NothingInStock)
            } else {
                None
            },
            StructureType::Turret => if inventory.turrets == 0 {
                Some(BuildError::NothingInStock)
            } else {
                None
            },
        }
    }
}

/// The inventory after one structure of the kind has been taken from it.
pub open spec fn debited(inventory: Inventory, structure: StructureType) -> Inventory {
    match structure {
        StructureType::Obstacle => Inventory {
            obstacles: (inventory.obstacles - 1) as u32,
            ..inventory
        },
        StructureType::Turret => Inventory { turrets: (inventory.turrets - 1) as u32, ..inventory },
        StructureType::Wall => inventory,
    }
}

/// What an accepted `request` puts on its tile at time `now`: an obstacle
/// that fills its tile, or a turret of the requesting actor that faces as
/// asked (south where nothing was asked) and may fire at once.
pub open spec fn built_by(request: BuildRequest, now: i64) -> Built {
    match request.structure {
        StructureType::Turret => Built {
            structure: Structure {
                ty: StructureType::Turret,
                collider_percent: if request.user_driven {
                    70
                } else {
                    50
                },
            },
            turret: Some(
                Turret {
                    owner: request.actor,
                    direction: match request.direction {
                        Some(d) => d,
                        None => TurretDirection::South,
                    },
                    last_shot: if now - TURRET_COOLDOWN < i64::MIN {
                        i64::MIN
                    } else {
                        (now - TURRET_COOLDOWN) as i64
                    },
                },
            ),
        },
        _ => Built {
            structure: Structure { ty: request.structure, collider_percent: 100 },
            turret: None,
        },
    }
}

/// The last shot of a turret that is built at time `now` is dated no later
/// than `now`, and the turret may fire at once.
pub proof fn lemma_built_turret_is_ready(request: BuildRequest, now: i64)
    requires
        request.structure == StructureType::Turret,
    ensures
        built_by(request, now).turret.is_some(),
        built_by(request, now).turret.unwrap().last_shot <= now,
        now - TURRET_COOLDOWN >= i64::MIN ==> built_by(request, now).turret.unwrap().ready(now),
{
}

/// Every destination names the tile it named and asks for a new path.
pub open spec fn all_dirty(before: Seq<TargetDestination>, after: Seq<TargetDestination>) -> bool {
    &&& after.len() == before.len()
    &&& forall|i: int|
        0 <= i < before.len() ==> #[trigger] after[i] == (TargetDestination {
            dirty: true,
            ..before[i]
        })
}

fn mark_all_dirty(targets: &mut Vec<TargetDestination>)
    ensures
        all_dirty(old(targets)@, final(targets)@),
{
    let mut i: usize = 0;
    while i < targets.len()
        invariant
            i <= targets.len(),
            targets@.len() == old(targets)@.len(),
            forall|k: int|
                0 <= k < i ==> #[trigger] targets@[k] == (TargetDestination {
                    dirty: true,
                    ..old(targets)@[k]
                }),
            forall|k: int| i <= k < targets@.len() ==> #[trigger] targets@[k] == old(targets)@[k],
        decreases targets.len() - i,
    {
        let mut t = targets[i];
        t.mark_dirty();
        targets.set(i, t);
        i = i + 1;
    }
}

fn tile_taken(actor_tiles: &Vec<TilePos>, tile: TilePos) -> (r: bool)
    ensures
        r == actor_tiles@.contains(tile),
{
    let mut i: usize = 0;
    while i < actor_tiles.len()
        invariant
            i <= actor_tiles.len(),
            forall|k: int| 0 <= k < i ==> actor_tiles@[k] != tile,
        decreases actor_tiles.len() - i,
    {
        if same_tile(actor_tiles[i], tile) {
            return true;
        }
        i = i + 1;
    }
    false
}

/// Carries out one build request at time `now`, with `handle` naming the
/// entity of the new structure.
///
/// A request that `build_verdict` refuses changes nothing and returns the
/// reason. An accepted one takes the structure from the inventory, puts
/// the occupant on the tile, rebuilds the navigation graph from the
/// changed grid, marks every destination in `targets` dirty, so that
/// the scripted actors look for new paths, and records the build in the
/// journal.
pub fn build_structure(
    config: &ArenaConfig,
    grid: &mut ArenaGrid,
    nav_graph: &mut NavGraph,
    inventory: &mut Inventory,
    targets: &mut Vec<TargetDestination>,
    actor_tiles: &Vec<TilePos>,
    request: &BuildRequest,
    handle: u64,
    now: i64,
    log: &mut MatchLog,
) -> (result: Result<Built, BuildError>)
    ensures
        final(grid).tiles() == old(grid).tiles(),
        final(nav_graph).eight_way() == old(nav_graph).eight_way(),
        match build_verdict(*config, *old(grid), *old(inventory), actor_tiles@, *request) {
            Some(reason) => {
                &&& result == Err::<Built, BuildError>(reason)
                &&& final(grid).occupants() == old(grid).occupants()
                &&& final(nav_graph).nodes() == old(nav_graph).nodes()
                &&& *final(inventory) == *old(inventory)
                &&& final(targets)@ == old(targets)@
                &&& final(log).events@ == old(log).events@
            },
            None => {
                &&& result == Ok::<Built, BuildError>(built_by(*request, now))
                &&& final(log).events@ == old(log).events@.push(
                    GameEvent::StructureBuilt {
                        entity: request.actor,
                        structure: request.structure,
                        location: request.tile,
                        time: now,
                    },
                )
                &&& final(grid).occupants() == old(grid).occupants().insert(request.tile, handle)
                &&& final(nav_graph).nodes() == nav_nodes(
                    *config,
                    *final(grid),
                    old(nav_graph).eight_way(),
                )
                &&& !final(nav_graph).nodes().dom().contains(request.tile)
                &&& *final(inventory) == debited(*old(inventory), request.structure)
                &&& final(inventory).obstacles <= old(inventory).obstacles
                &&& final(inventory).turrets <= old(inventory).turrets
                &&& all_dirty(old(targets)@, final(targets)@)
            },
        },
{
    let tile = request.tile;
    if !config.contains(tile.0 as i64, tile.1 as i64) {
        return Err(BuildError::OutOfBounds);
    }
    if grid.is_occupied(tile.0, tile.1) {
        return Err(BuildError::Occupied);
    }
    if request.user_driven && tile_taken(actor_tiles, tile) {
        return Err(BuildError::ActorOnTile);
    }
    let built = match request.structure {
        StructureType::Wall => {
            return Err(BuildError::NotBuildable);
        },
        StructureType::Obstacle => {
            if inventory.obstacles == 0 {
                return Err(BuildError::NothingInStock);
            }
            inventory.obstacles = inventory.obstacles - 1;
            Built {
                structure: Structure { ty: StructureType::Obstacle, collider_percent: 100 },
                turret: None,
            }
        },
        StructureType::Turret => {
            if inventory.turrets == 0 {
                return Err(BuildError::NothingInStock);
            }
            inventory.turrets = inventory.turrets - 1;
            let direction = match request.direction {
                Some(d) => d,
                None => TurretDirection::South,
            };
            Built {
                structure: Structure {
                    ty: StructureType::Turret,
                    collider_percent: if request.user_driven {
                        70
                    } else {
                        50
                    },
                },
                turret: Some(Turret::new(request.actor, direction, now)),
            }
        },
    };
    grid.insert_occupant(tile.0, tile.1, handle);
    regenerate_nav_graph(config, grid, nav_graph);
    mark_all_dirty(targets);
    log.add(
        GameEvent::StructureBuilt {
            entity: request.actor,
            structure: request.structure,
            location: tile,
            time: now,
        },
    );
    Ok(built)
}

/// Destroys whatever stands on `tile`, at time `now`.
///
/// Where the tile holds an occupant, it is taken off the grid, the
/// navigation graph is rebuilt, every destination in `targets` is marked
/// dirty, and the handle of the occupant is returned; the journal records
/// who destroyed it and, as `structure`, what the caller knows it to have
/// been. Where the tile holds none, nothing changes.
pub fn destroy_structure(
    config: &ArenaConfig,
    grid: &mut ArenaGrid,
    nav_graph: &mut NavGraph,
    targets: &mut Vec<TargetDestination>,
    tile: TilePos,
    destroyer: Option<PlayerID>,
    structure: StructureType,
    now: i64,
    log: &mut MatchLog,
) -> (removed: Option<u64>)
    ensures
        final(grid).tiles() == old(grid).tiles(),
        final(grid).occupants() == old(grid).occupants().remove(tile),
        final(nav_graph).eight_way() == old(nav_graph).eight_way(),
        match removed {
            Some(handle) => {
                &&& old(grid).occupants().dom().contains(tile)
                &&& handle == old(grid).occupants()[tile]
                &&& final(nav_graph).nodes() == nav_nodes(
                    *config,
                    *final(grid),
                    old(nav_graph).eight_way(),
                )
                &&& all_dirty(old(targets)@, final(targets)@)
                &&& final(log).events@ == old(log).events@.push(
                    GameEvent::StructureDestroyed { destroyer, structure, location: tile, time: now },
                )
            },
            None => {
                &&& !old(grid).occupants().dom().contains(tile)
                &&& final(grid).occupants() == old(grid).occupants()
                &&& final(nav_graph).nodes() == old(nav_graph).nodes()
                &&& final(targets)@ == old(targets)@
                &&& final(log).events@ == old(log).events@
            },
        },
{
    let removed = grid.remove_occupant(tile.0, tile.1);
    match removed {
        Some(_) => {
            regenerate_nav_graph(config, grid, nav_graph);
            mark_all_dirty(targets);
            log.add(
                GameEvent::StructureDestroyed { destroyer, structure, location: tile, time: now },
            );
        },
        None => {
            assert(old(grid).occupants().remove(tile) =~= old(grid).occupants());
        },
    }
    removed
}

/// Two grids with the same tiles and the same occupants list the same
/// neighbours for every tile.
pub proof fn lemma_neighbors_depend_on_contents(
    config: ArenaConfig,
    a: ArenaGrid,
    b: ArenaGrid,
    p: TilePos,
    n: int,
)
    requires
        a.tiles() == b.tiles(),
        a.occupants() == b.occupants(),
    ensures
        neighbors_upto(config, a, p, n) == neighbors_upto(config, b, p, n),
    decreases n,
{
    if n > 0 {
        lemma_neighbors_depend_on_contents(config, a, b, p, n - 1);
    }
}

/// Building on a free tile and then destroying what was built gives back
/// the grid and the navigation graph as they were: the same tiles, the
/// same occupants, the same nodes with the same neighbours. Of the
/// inventory only the unit that the build consumed is gone.
pub proof fn lemma_build_then_destroy(
    config: ArenaConfig,
    before: ArenaGrid,
    built: ArenaGrid,
    after: ArenaGrid,
    tile: TilePos,
    handle: u64,
    eight_way: bool,
)
    requires
        !before.occupants().dom().contains(tile),
        built.tiles() == before.tiles(),
        built.occupants() == before.occupants().insert(tile, handle),
        after.tiles() == built.tiles(),
        after.occupants() == built.occupants().remove(tile),
    ensures
        after.tiles() == before.tiles(),
        after.occupants() == before.occupants(),
        nav_nodes(config, after, eight_way) == nav_nodes(config, before, eight_way),
{
    assert(after.occupants() =~= before.occupants());
    let x = nav_nodes(config, after, eight_way);
    let y = nav_nodes(config, before, eight_way);
    assert forall|p: TilePos| x.dom().contains(p) implies #[trigger] x[p] == y[p] by {
        lemma_neighbors_depend_on_contents(
            config,
            after,
            before,
            p,
            crate::navgraph::direction_count(eight_way),
        );
    }
    assert(x =~= y);
}

impl Default for StructureType {
    /// Obstacles are what is built unless something else is chosen.
    fn default() -> (kind: Self)
        ensures
            kind == StructureType::Obstacle,
    {
        StructureType::Obstacle
    }
}

} // verus!
