//! World coordinates in fixed point, and their tiles.
//!
//! A position is measured in thousandths of a world unit along each axis.
//! Tile `(x, y)` is centred at `(x + 1/2, y + 1/2)` tile sizes along the
//! world's x and z axes, and a position belongs to the tile found by
//! shifting it back by half a tile and rounding down.

use crate::arena::ArenaConfig;
use crate::tilemap::TilePos;
use vstd::prelude::*;

verus! {

/// Thousandths per world unit.
pub const UNIT: i64 = 1000;

/// A position in the world, in thousandths of a unit. The y axis points up.
#[derive(Clone, Copy, Debug, PartialEq, Eq, Structural)]
pub struct WorldPos {
    pub x: i32,
    pub y: i32,
    pub z: i32,
}

/// The index of the tile that holds `coord`: `(coord - tile_size / 2) /
/// tile_size`, rounded down.
pub open spec fn tile_index(coord: int, tile_size: int) -> int {
    (2 * coord - tile_size) / (2 * tile_size)
}

/// A tile index as the grid takes it: a negative one counts as 0.
pub open spec fn clamp_index(index: int) -> u32 {
    if index < 0 {
        0
    } else {
        index as u32
    }
}

/// The tile on which an actor at `pos` stands.
pub open spec fn tile_of(pos: WorldPos, tile_size: u32) -> TilePos {
    (
        clamp_index(tile_index(pos.x as int, tile_size as int)),
        clamp_index(tile_index(pos.z as int, tile_size as int)),
    )
}

/// A tile index as a line of sight takes it: one below the 32-bit range
/// counts as the least 32-bit number.
pub open spec fn clamp_sight(index: int) -> i32 {
    if index < i32::MIN {
        i32::MIN
    } else {
        index as i32
    }
}

/// The tile from which an actor at `pos` looks; it may lie outside the
/// arena, to the left of column 0 or above row 0.
pub open spec fn sight_tile_of(pos: WorldPos, tile_size: u32) -> (i32, i32) {
    (
        clamp_sight(tile_index(pos.x as int, tile_size as int)),
        clamp_sight(tile_index(pos.z as int, tile_size as int)),
    )
}

/// The squared distance between two positions.
pub open spec fn dist_sq(a: WorldPos, b: WorldPos) -> int {
    (a.x - b.x) * (a.x - b.x) + (a.y - b.y) * (a.y - b.y) + (a.z - b.z) * (a.z - b.z)
}

/// The index of the tile that holds `coord`.
pub fn tile_coord(coord: i32, tile_size: u32) -> (index: i64)
    requires
        tile_size > 0,
    ensures
        index == tile_index(coord as int, tile_size as int),
        -0x8000_0001 <= index <= 0x7fff_ffff,
{
    let n: i64 = 2 * (coord as i64) - tile_size as i64;
    let d: i64 = 2 * (tile_size as i64);
    if n >= 0 {
        let q = (n as u64) / (d as u64);
        assert(2 * q <= n) by (nonlinear_arith)
            requires
                q == (n as int) / (d as int),
                n >= 0,
                d >= 2,
        ;
        q as i64
    } else {
        let m: u64 = (-n) as u64;
        let q: u64 = (m + (d as u64) - 1) / (d as u64);
        proof {
            lemma_floor_of_negative(n as int, d as int);
            assert(q <= 0x8000_0001) by (nonlinear_arith)
                requires
                    q == (m + d - 1) / (d as int),
                    d == 2 * tile_size,
                    tile_size >= 1,
                    1 <= m <= tile_size + 0x1_0000_0000,
            ;
        }
        -(q as i64)
    }
}

proof fn lemma_floor_of_negative(n: int, d: int)
    requires
        n < 0,
        d > 0,
    ensures
        n / d == -((-n + d - 1) / d),
{
    let q = (-n + d - 1) / d;
    let r = (-n + d - 1) % d;
    vstd::arithmetic::div_mod::lemma_fundamental_div_mod(-n + d - 1, d);
    vstd::arithmetic::div_mod::lemma_mod_bound(-n + d - 1, d);
    // -n + d - 1 == d * q + r, hence n == d * (-q) + (d - 1 - r)
    assert(n == d * (-q) + (d - 1 - r)) by (nonlinear_arith)
        requires
            -n + d - 1 == d * q + r,
    ;
    vstd::arithmetic::div_mod::lemma_fundamental_div_mod_converse(n, d, -q, d - 1 - r);
}

/// The tile on which an actor at `pos` stands.
pub fn actor_tile(pos: &WorldPos, config: &ArenaConfig) -> (tile: TilePos)
    requires
        config.tile_size > 0,
    ensures
        tile == tile_of(*pos, config.tile_size),
{
    let tx = tile_coord(pos.x, config.tile_size);
    let tz = tile_coord(pos.z, config.tile_size);
    (
        if tx < 0 {
            0
        } else {
            tx as u32
        },
        if tz < 0 {
            0
        } else {
            tz as u32
        },
    )
}

/// The tile from which an actor at `pos` looks.
pub fn sight_tile(pos: &WorldPos, config: &ArenaConfig) -> (tile: (i32, i32))
    requires
        config.tile_size > 0,
    ensures
        tile == sight_tile_of(*pos, config.tile_size),
{
    let tx = tile_coord(pos.x, config.tile_size);
    let tz = tile_coord(pos.z, config.tile_size);
    (
        if tx < -0x8000_0000 {
            -0x8000_0000
        } else {
            tx as i32
        },
        if tz < -0x8000_0000 {
            -0x8000_0000
        } else {
            tz as i32
        },
    )
}

/// The squared distance between two positions.
pub fn distance_squared(a: &WorldPos, b: &WorldPos) -> (d: u128)
    ensures
        d == dist_sq(*a, *b),
{
    let dx: i128 = a.x as i128 - b.x as i128;
    let dy: i128 = a.y as i128 - b.y as i128;
    let dz: i128 = a.z as i128 - b.z as i128;
    assert(0 <= dx * dx <= 0x1_0000_0000 * 0x1_0000_0000) by (nonlinear_arith)
        requires
            -0x1_0000_0000 <= dx <= 0x1_0000_0000,
    ;
    assert(0 <= dy * dy <= 0x1_0000_0000 * 0x1_0000_0000) by (nonlinear_arith)
        requires
            -0x1_0000_0000 <= dy <= 0x1_0000_0000,
    ;
    assert(0 <= dz * dz <= 0x1_0000_0000 * 0x1_0000_0000) by (nonlinear_arith)
        requires
            -0x1_0000_0000 <= dz <= 0x1_0000_0000,
    ;
    (dx * dx + dy * dy + dz * dz) as u128
}

} // verus!
