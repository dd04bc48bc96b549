//! Movement of actors against the structures on the grid: collisions of
//! axis-aligned boxes, resolved one axis at a time.

use crate::combat::GameState;
use crate::tilemap::TilePos;
use crate::world::WorldPos;
use vstd::prelude::*;

verus! {

/// Half the side of an actor's box: half a world unit, in thousandths.
pub const PLAYER_HALF_SIZE: i64 = 500;

/// The box of a structure: the tile it stands on and how much of the tile
/// it fills, in hundredths.
#[derive(Clone, Copy, Debug, PartialEq, Eq)]
pub struct Collider {
    pub tile: TilePos,
    pub collider_percent: u32,
}

/// The box of an actor centred at `(x, z)` overlaps the box of
/// `collider`: along both axes the centres are closer than the two half
/// sides together. The centre of a tile `(tx, ty)` lies at `(tx + 1/2,
/// ty + 1/2)` tile sizes, and the half side of a structure is that share
/// of half a tile which its collider fills.
pub open spec fn overlaps(x: int, z: int, collider: Collider, tile_size: u32) -> bool {
    let reach = 200 * PLAYER_HALF_SIZE + tile_size * collider.collider_percent;
    let dx = 200 * x - (200 * collider.tile.0 * tile_size + 100 * tile_size);
    let dz = 200 * z - (200 * collider.tile.1 * tile_size + 100 * tile_size);
    -reach < dx < reach && -reach < dz < reach
}

/// An actor centred at `(x, z)` cannot be there: it would overlap a
/// structure, or leave the range of world coordinates.
pub open spec fn blocked_at(x: int, z: int, colliders: Seq<Collider>, tile_size: u32) -> bool {
    x < i32::MIN || x > i32::MAX || z < i32::MIN || z > i32::MAX || exists|i: int|
        0 <= i < colliders.len() && overlaps(x, z, #[trigger] colliders[i], tile_size)
}

/// Where a move ended, and along which axes it was stopped.
#[derive(Clone, Copy, Debug, PartialEq, Eq, Structural)]
pub struct MoveResult {
    pub position: WorldPos,
    pub blocked_x: bool,
    pub blocked_z: bool,
}

/// The outcome of the move of an actor at `position` by `(dx, dz)`: each
/// axis is tried alone from where the actor stands, and the actor moves
/// along the axes that are free.
pub open spec fn moved(
    position: WorldPos,
    dx: i32,
    dz: i32,
    colliders: Seq<Collider>,
    tile_size: u32,
) -> MoveResult {
    let blocked_x = blocked_at(position.x + dx, position.z as int, colliders, tile_size);
    let blocked_z = blocked_at(position.x as int, position.z + dz, colliders, tile_size);
    MoveResult {
        position: WorldPos {
            x: if blocked_x {
                position.x
            } else {
                (position.x + dx) as i32
            },
            y: position.y,
            z: if blocked_z {
                position.z
            } else {
                (position.z + dz) as i32
            },
        },
        blocked_x,
        blocked_z,
    }
}

fn hits(x: i64, z: i64, collider: &Collider, tile_size: u32) -> (r: bool)
    requires
        i32::MIN <= x <= i32::MAX,
        i32::MIN <= z <= i32::MAX,
    ensures
        r == overlaps(x as int, z as int, *collider, tile_size),
{
    let size: i128 = tile_size as i128;
    let percent: i128 = collider.collider_percent as i128;
    let tx: i128 = collider.tile.0 as i128;
    let tz: i128 = collider.tile.1 as i128;
    assert(0 <= size * percent <= 0xffff_ffff * 0xffff_ffff) by (nonlinear_arith)
        requires
            0 <= size <= 0xffff_ffff,
            0 <= percent <= 0xffff_ffff,
    ;
    assert(0 <= tx * size <= 0xffff_ffff * 0xffff_ffff) by (nonlinear_arith)
        requires
            0 <= size <= 0xffff_ffff,
            0 <= tx <= 0xffff_ffff,
    ;
    assert(0 <= tz * size <= 0xffff_ffff * 0xffff_ffff) by (nonlinear_arith)
        requires
            0 <= size <= 0xffff_ffff,
            0 <= tz <= 0xffff_ffff,
    ;
    let reach: i128 = 200 * (PLAYER_HALF_SIZE as i128) + size * percent;
    let dx: i128 = 200 * (x as i128) - (200 * (tx * size) + 100 * size);
    let dz: i128 = 200 * (z as i128) - (200 * (tz * size) + 100 * size);
    assert(200 * (tx * size) == 200 * tx * size) by (nonlinear_arith);
    assert(200 * (tz * size) == 200 * tz * size) by (nonlinear_arith);
    -reach < dx && dx < reach && -reach < dz && dz < reach
}

fn blocked(x: i64, z: i64, colliders: &Vec<Collider>, tile_size: u32) -> (r: bool)
    requires
        -0x1_0000_0000 <= x <= 0x1_0000_0000,
        -0x1_0000_0000 <= z <= 0x1_0000_0000,
    ensures
        r == blocked_at(x as int, z as int, colliders@, tile_size),
{
    if x < i32::MIN as i64 || x > i32::MAX as i64 || z < i32::MIN as i64 || z > i32::MAX as i64 {
        return true;
    }
    let mut i: usize = 0;
    while i < colliders.len()
        invariant
            i <= colliders.len(),
            i32::MIN <= x <= i32::MAX,
            i32::MIN <= z <= i32::MAX,
            forall|k: int|
                0 <= k < i ==> !overlaps(x as int, z as int, #[trigger] colliders@[k], tile_size),
        decreases colliders.len() - i,
    {
        if hits(x, z, &colliders[i], tile_size) {
            return true;
        }
        i = i + 1;
    }
    false
}

/// Moves an actor at `position` by `(dx, dz)` against the structures in
/// `colliders`.
///
/// While the match is being played the move is resolved one axis at a
/// time, as `moved` says: the actor slides along a wall that stops it on
/// one axis only. Once the match is over nobody moves: the actor stays
/// where it is.
pub fn resolve_move(
    state: GameState,
    position: &WorldPos,
    dx: i32,
    dz: i32,
    colliders: &Vec<Collider>,
    tile_size: u32,
) -> (result: MoveResult)
    ensures
        state == GameState::GameOver ==> result == (MoveResult {
            position: *position,
            blocked_x: false,
            blocked_z: false,
        }),
        state == GameState::Playing ==> result == moved(*position, dx, dz, colliders@, tile_size),
{
    match state {
        GameState::GameOver => MoveResult { position: *position, blocked_x: false, blocked_z: false },
        GameState::Playing => {
            let nx: i64 = position.x as i64 + dx as i64;
            let nz: i64 = position.z as i64 + dz as i64;
            let blocked_x = blocked(nx, position.z as i64, colliders, tile_size);
            let blocked_z = blocked(position.x as i64, nz, colliders, tile_size);
            MoveResult {
                position: WorldPos {
                    x: if blocked_x {
                        position.x
                    } else {
                        nx as i32
                    },
                    y: position.y,
                    z: if blocked_z {
                        position.z
                    } else {
                        nz as i32
                    },
                },
                blocked_x,
                blocked_z,
            }
        },
    }
}

} // verus!
