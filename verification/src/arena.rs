//! The tile grid: which tiles exist and which of them hold an occupant.

use crate::tilemap::{
    handle_entries, handle_map_contains, handle_map_get, handle_map_insert, handle_map_keys,
    handle_map_new, handle_map_remove, TilePos,
};
use bevy::platform::collections::HashMap;
use vstd::prelude::*;

verus! {

/// The most tiles a grid holds. Path costs are kept in 32 bits, and the
/// costliest step counts 14, so this many tiles can never overflow a cost.
pub const MAX_TILES: usize = 0x1000_0000;

/// The dimensions of the arena in tiles, and the side of one tile in
/// thousandths of a world unit.
#[derive(Clone, Copy, Debug, PartialEq, Eq, Structural)]
pub struct ArenaConfig {
    pub width: u32,
    pub height: u32,
    pub tile_size: u32,
}

impl ArenaConfig {
    /// `(x, y)` lies inside `[0, width) x [0, height)`.
    pub open spec fn in_bounds(self, x: int, y: int) -> bool {
        0 <= x < self.width && 0 <= y < self.height
    }

    /// Tells whether `(x, y)` lies inside the arena.
    pub fn contains(&self, x: i64, y: i64) -> (r: bool)
        ensures
            r == self.in_bounds(x as int, y as int),
    {
        0 <= x && x < self.width as i64 && 0 <= y && y < self.height as i64
    }
}

/// The kinds of resource that lie about the arena to be collected.
#[derive(Clone, Copy, Debug, PartialEq, Eq, Structural)]
pub enum CollectibleType {
    Obstacle,
    Turret,
}

/// A resource that lies on the ground.
#[derive(Clone, Copy, Debug, PartialEq, Eq, Structural)]
pub struct Collectible {
    pub ty: CollectibleType,
}

/// A place where a resource appears again some time after it has been
/// collected. `timer` is the time left until then, in milliseconds.
#[derive(Clone, Copy, Debug, PartialEq, Eq, Structural)]
pub struct ResourceSpawner {
    pub ty: CollectibleType,
    pub timer: u64,
}

impl ResourceSpawner {
    /// Schedules the next resource `delay` milliseconds from now.
    pub fn schedule(&mut self, delay: u64)
        ensures
            final(self).timer == delay,
            final(self).ty == old(self).ty,
    {
        self.timer = delay;
    }

    /// Lets `dt` milliseconds pass. The answer tells whether a resource
    /// is to appear now: the time is up, and none lies at the spawner.
    pub fn tick(&mut self, dt: u64, item_present: bool) -> (spawn: bool)
        ensures
            final(self).ty == old(self).ty,
            final(self).timer == (if old(self).timer >= dt {
                old(self).timer - dt
            } else {
                0
            }),
            spawn == (old(self).timer <= dt && !item_present),
    {
        self.timer = self.timer.saturating_sub(dt);
        self.timer == 0 && !item_present
    }
}

/// Floor tiles and the occupants (walls, obstacles, turrets) that stand on
/// them. A tile with an occupant can be neither walked on nor seen through.
pub struct ArenaGrid {
    tiles: HashMap<TilePos, u64>,
    occupants: HashMap<TilePos, u64>,
    tile_count: usize,
}

impl ArenaGrid {
    #[verifier::type_invariant]
    spec fn inv(self) -> bool {
        &&& handle_entries(self.tiles).dom().finite()
        &&& self.tile_count == handle_entries(self.tiles).dom().len()
        &&& self.tile_count <= MAX_TILES
    }

    /// The floor tiles, each with the handle of its floor entity.
    pub closed spec fn tiles(self) -> Map<TilePos, u64> {
        handle_entries(self.tiles)
    }

    /// The occupied tiles, each with the handle of its occupant.
    pub closed spec fn occupants(self) -> Map<TilePos, u64> {
        handle_entries(self.occupants)
    }

    /// A tile that exists and holds no occupant.
    pub open spec fn walkable(self, p: TilePos) -> bool {
        self.tiles().dom().contains(p) && !self.occupants().dom().contains(p)
    }

    /// Every tile of the grid lies inside the arena that `config` describes.
    pub open spec fn fits(self, config: ArenaConfig) -> bool {
        forall|p: TilePos| #[trigger]
            self.tiles().dom().contains(p) ==> config.in_bounds(p.0 as int, p.1 as int)
    }

    /// A grid without tiles.
    pub fn new() -> (grid: Self)
        ensures
            grid.tiles() == Map::<TilePos, u64>::empty(),
            grid.occupants() == Map::<TilePos, u64>::empty(),
    {
        ArenaGrid { tiles: handle_map_new(), occupants: handle_map_new(), tile_count: 0 }
    }

    /// Records the floor tile at `(x, y)`. A tile that is already there gets
    /// the new handle. A new tile is refused, and `false` returned, once the
    /// grid holds `MAX_TILES` tiles.
    pub fn insert_tile(&mut self, x: u32, y: u32, handle: u64) -> (stored: bool)
        ensures
            stored == (old(self).tiles().dom().contains((x, y)) || old(self).tiles().dom().len()
                < MAX_TILES),
            stored ==> final(self).tiles() == old(self).tiles().insert((x, y), handle),
            !stored ==> final(self).tiles() == old(self).tiles(),
            final(self).occupants() == old(self).occupants(),
    {
        proof {
            use_type_invariant(&*self);
        }
        let mut taken = ArenaGrid::new();
        std::mem::swap(&mut taken, self);
        let ArenaGrid { tiles, occupants, tile_count } = taken;
        let mut tiles = tiles;
        let present = handle_map_contains(&tiles, (x, y));
        if present {
            handle_map_insert(&mut tiles, (x, y), handle);
            assert(handle_entries(tiles).dom() =~= old(self).tiles().dom());
            *self = ArenaGrid { tiles, occupants, tile_count };
            true
        } else if tile_count < MAX_TILES {
            handle_map_insert(&mut tiles, (x, y), handle);
            *self = ArenaGrid { tiles, occupants, tile_count: tile_count + 1 };
            true
        } else {
            *self = ArenaGrid { tiles, occupants, tile_count };
            false
        }
    }

    /// Puts an occupant on `(x, y)` and returns the handle of the occupant
    /// that stood there before, if any.
    pub fn insert_occupant(&mut self, x: u32, y: u32, handle: u64) -> (previous: Option<u64>)
        ensures
            final(self).occupants() == old(self).occupants().insert((x, y), handle),
            final(self).tiles() == old(self).tiles(),
            previous == (if old(self).occupants().dom().contains((x, y)) {
                Some(old(self).occupants()[(x, y)])
            } else {
                None
            }),
    {
        proof {
            use_type_invariant(&*self);
        }
        let mut taken = ArenaGrid::new();
        std::mem::swap(&mut taken, self);
        let ArenaGrid { tiles, occupants, tile_count } = taken;
        let mut occupants = occupants;
        let previous = handle_map_insert(&mut occupants, (x, y), handle);
        *self = ArenaGrid { tiles, occupants, tile_count };
        previous
    }

    /// Takes the occupant off `(x, y)` and returns its handle, or nothing
    /// when the tile holds none.
    pub fn remove_occupant(&mut self, x: u32, y: u32) -> (removed: Option<u64>)
        ensures
            final(self).occupants() == old(self).occupants().remove((x, y)),
            final(self).tiles() == old(self).tiles(),
            removed == (if old(self).occupants().dom().contains((x, y)) {
                Some(old(self).occupants()[(x, y)])
            } else {
                None
            }),
    {
        proof {
            use_type_invariant(&*self);
        }
        let mut taken = ArenaGrid::new();
        std::mem::swap(&mut taken, self);
        let ArenaGrid { tiles, occupants, tile_count } = taken;
        let mut occupants = occupants;
        let removed = handle_map_remove(&mut occupants, (x, y));
        *self = ArenaGrid { tiles, occupants, tile_count };
        removed
    }

    /// Tells whether a floor tile exists at `(x, y)`.
    pub fn has_tile(&self, x: u32, y: u32) -> (r: bool)
        ensures
            r == self.tiles().dom().contains((x, y)),
    {
        handle_map_contains(&self.tiles, (x, y))
    }

    /// Tells whether `(x, y)` holds an occupant.
    pub fn is_occupied(&self, x: u32, y: u32) -> (r: bool)
        ensures
            r == self.occupants().dom().contains((x, y)),
    {
        handle_map_contains(&self.occupants, (x, y))
    }

    /// The handle of the floor tile at `(x, y)`, if one exists there.
    pub fn tile_at(&self, x: u32, y: u32) -> (handle: Option<u64>)
        ensures
            handle == (if self.tiles().dom().contains((x, y)) {
                Some(self.tiles()[(x, y)])
            } else {
                None
            }),
    {
        handle_map_get(&self.tiles, (x, y))
    }

    /// The handle of the occupant of `(x, y)`, if the tile holds one.
    pub fn occupant_at(&self, x: u32, y: u32) -> (handle: Option<u64>)
        ensures
            handle == (if self.occupants().dom().contains((x, y)) {
                Some(self.occupants()[(x, y)])
            } else {
                None
            }),
    {
        handle_map_get(&self.occupants, (x, y))
    }

    /// The number of floor tiles.
    pub fn tile_count(&self) -> (n: usize)
        ensures
            self.tiles().dom().finite(),
            n == self.tiles().dom().len(),
            n <= MAX_TILES,
    {
        proof {
            use_type_invariant(&*self);
        }
        self.tile_count
    }

    /// The coordinates of every floor tile, each once, in no particular
    /// order.
    pub fn tile_positions(&self) -> (keys: Vec<TilePos>)
        ensures
            keys@.no_duplicates(),
            keys@.to_set() == self.tiles().dom(),
    {
        handle_map_keys(&self.tiles)
    }
}

impl Default for ArenaGrid {
    /// A grid without tiles.
    fn default() -> (grid: Self)
        ensures
            grid.tiles() == Map::<TilePos, u64>::empty(),
            grid.occupants() == Map::<TilePos, u64>::empty(),
    {
        ArenaGrid::new()
    }
}

} // verus!
