//! Named rectangular regions of the arena, and the lookup from a tile to
//! its region.

use crate::arena::{ArenaConfig, ArenaGrid};
use crate::navgraph::NavGraph;
use crate::pathfinding::{find_path, reachable};
use crate::sight::{has_line_of_sight, sight_clear};
use crate::tilemap::TilePos;
use vstd::prelude::*;

verus! {

/// The name of a region.
#[derive(Debug, Clone, Copy, PartialEq, Eq, Hash, Structural)]
pub enum AreaID {
    UserBase,
    EnemyBase,
    CenterArena,
    NorthCorridor,
    SouthCorridor,
    Unknown,
}

/// A named rectangle of tiles, both corners included, with the regions
/// that can be reached from its centre and those that can be seen from it.
#[derive(Debug, Clone)]
pub struct Area {
    pub id: AreaID,
    pub min_x: u32,
    pub min_y: u32,
    pub max_x: u32,
    pub max_y: u32,
    pub neighbors: Vec<AreaID>,
    pub visible_areas: Vec<AreaID>,
}

impl Area {
    /// The tile `(x, y)` lies in the rectangle.
    pub open spec fn covers(self, x: u32, y: u32) -> bool {
        self.min_x <= x <= self.max_x && self.min_y <= y <= self.max_y
    }

    /// The midpoint of the rectangle, rounded down.
    pub open spec fn midpoint(self) -> (u32, u32) {
        (((self.min_x + self.max_x) / 2) as u32, ((self.min_y + self.max_y) / 2) as u32)
    }

    /// A region without links to other regions.
    pub fn new(id: AreaID, min_x: u32, min_y: u32, max_x: u32, max_y: u32) -> (area: Self)
        ensures
            area.id == id,
            area.min_x == min_x,
            area.min_y == min_y,
            area.max_x == max_x,
            area.max_y == max_y,
            area.neighbors@ == Seq::<AreaID>::empty(),
            area.visible_areas@ == Seq::<AreaID>::empty(),
    {
        Area { id, min_x, min_y, max_x, max_y, neighbors: Vec::new(), visible_areas: Vec::new() }
    }

    /// Tells whether the tile `(x, y)` lies in the rectangle.
    pub fn contains(&self, x: u32, y: u32) -> (r: bool)
        ensures
            r == self.covers(x, y),
    {
        x >= self.min_x && x <= self.max_x && y >= self.min_y && y <= self.max_y
    }

    /// The tile at the centre of the rectangle.
    pub fn center(&self) -> (c: (u32, u32))
        ensures
            c == self.midpoint(),
    {
        (
            ((self.min_x as u64 + self.max_x as u64) / 2) as u32,
            ((self.min_y as u64 + self.max_y as u64) / 2) as u32,
        )
    }
}

/// The name of the first region, in table order, that covers `(x, y)`;
/// `Unknown` where none does.
pub open spec fn area_id_at(areas: Seq<Area>, x: u32, y: u32) -> AreaID
    decreases areas.len(),
{
    if areas.len() == 0 {
        AreaID::Unknown
    } else if areas[0].covers(x, y) {
        areas[0].id
    } else {
        area_id_at(areas.drop_first(), x, y)
    }
}

/// The centre of the first region, in table order, that is named `id`.
pub open spec fn center_of(areas: Seq<Area>, id: AreaID) -> Option<(u32, u32)>
    decreases areas.len(),
{
    if areas.len() == 0 {
        None
    } else if areas[0].id == id {
        Some(areas[0].midpoint())
    } else {
        center_of(areas.drop_first(), id)
    }
}

/// The table of regions. Its order decides which region a tile belongs to
/// where several cover it.
pub struct AreaMap {
    pub areas: Vec<Area>,
}

impl AreaMap {
    /// The table of the standard arena of 40 by 28 tiles: the two bases in
    /// the upper corners, the centre between them, and the corridor below.
    pub fn new() -> (map: Self)
        ensures
            map.areas@.len() == 4,
            map.areas@[0].id == AreaID::UserBase,
            map.areas@[1].id == AreaID::EnemyBase,
            map.areas@[2].id == AreaID::CenterArena,
            map.areas@[3].id == AreaID::NorthCorridor,
            forall|x: u32, y: u32| #[trigger]
                map.areas@[0].covers(x, y) <==> x <= 10 && y <= 10,
            forall|x: u32, y: u32| #[trigger]
                map.areas@[1].covers(x, y) <==> 30 <= x <= 39 && y <= 10,
            forall|x: u32, y: u32| #[trigger]
                map.areas@[2].covers(x, y) <==> 11 <= x <= 29 && y <= 27,
            forall|x: u32, y: u32| #[trigger]
                map.areas@[3].covers(x, y) <==> x <= 39 && 11 <= y <= 27,
            forall|i: int|
                0 <= i < 4 ==> (#[trigger] map.areas@[i]).neighbors@.len() == 0
                    && map.areas@[i].visible_areas@.len() == 0,
    {
        let mut areas: Vec<Area> = Vec::new();
        areas.push(Area::new(AreaID::UserBase, 0, 0, 10, 10));
        areas.push(Area::new(AreaID::EnemyBase, 30, 0, 39, 10));
        areas.push(Area::new(AreaID::CenterArena, 11, 0, 29, 27));
        areas.push(Area::new(AreaID::NorthCorridor, 0, 11, 39, 27));
        AreaMap { areas }
    }

    /// The table that holds `areas`, in their order.
    pub fn from_areas(areas: Vec<Area>) -> (map: Self)
        ensures
            map.areas == areas,
    {
        AreaMap { areas }
    }

    /// The name of the first region that covers `(x, y)`, or `Unknown`.
    pub fn get_area_id(&self, x: u32, y: u32) -> (id: AreaID)
        ensures
            id == area_id_at(self.areas@, x, y),
    {
        let mut i: usize = 0;
        assert(self.areas@.skip(0) =~= self.areas@);
        while i < self.areas.len()
            invariant
                i <= self.areas.len(),
                area_id_at(self.areas@, x, y) == area_id_at(self.areas@.skip(i as int), x, y),
            decreases self.areas.len() - i,
        {
            proof {
                assert(self.areas@.skip(i as int).drop_first() =~= self.areas@.skip(i + 1));
            }
            if self.areas[i].contains(x, y) {
                return self.areas[i].id;
            }
            i = i + 1;
        }
        AreaID::Unknown
    }

    /// The centre of the first region named `id`, or nothing where the
    /// table holds no such region.
    pub fn get_center(&self, id: AreaID) -> (center: Option<(u32, u32)>)
        ensures
            center == center_of(self.areas@, id),
    {
        let mut i: usize = 0;
        assert(self.areas@.skip(0) =~= self.areas@);
        while i < self.areas.len()
            invariant
                i <= self.areas.len(),
                center_of(self.areas@, id) == center_of(self.areas@.skip(i as int), id),
            decreases self.areas.len() - i,
        {
            proof {
                assert(self.areas@.skip(i as int).drop_first() =~= self.areas@.skip(i + 1));
            }
            if self.areas[i].id == id {
                return Some(self.areas[i].center());
            }
            i = i + 1;
        }
        None
    }
}

/// A region that covers a tile is found by name where none before it in
/// the table covers the tile; a tile that no region covers is `Unknown`.
pub proof fn lemma_first_area_wins(areas: Seq<Area>, x: u32, y: u32, i: int)
    requires
        0 <= i < areas.len(),
        areas[i].covers(x, y),
        forall|j: int| 0 <= j < i ==> !(#[trigger] areas[j]).covers(x, y),
    ensures
        area_id_at(areas, x, y) == areas[i].id,
    decreases i,
{
    if i > 0 {
        let rest = areas.drop_first();
        assert(rest[i - 1] == areas[i]);
        assert forall|j: int| 0 <= j < i - 1 implies !(#[trigger] rest[j]).covers(x, y) by {
            assert(rest[j] == areas[j + 1]);
        }
        lemma_first_area_wins(rest, x, y, i - 1);
    }
}

/// A tile coordinate as a line of sight takes it: one beyond the 32-bit
/// signed range counts as the greatest number of that range.
pub open spec fn sight_coord(c: u32) -> i32 {
    if c > 0x7fff_ffff {
        0x7fff_ffff
    } else {
        c as i32
    }
}

/// The tile `to` can be seen from the tile `from`.
pub open spec fn tile_sees(config: ArenaConfig, grid: ArenaGrid, from: TilePos, to: TilePos) -> bool {
    sight_clear(
        config,
        grid,
        sight_coord(from.0) as int,
        sight_coord(from.1) as int,
        sight_coord(to.0) as int,
        sight_coord(to.1) as int,
    )
}

/// The names of the regions, among the first `n` of the table and other
/// than region `i`, whose centre can be reached from the centre of
/// region `i`.
pub open spec fn linked_upto(
    areas: Seq<Area>,
    nodes: Map<TilePos, Seq<TilePos>>,
    i: int,
    n: int,
) -> Seq<AreaID>
    decreases n,
{
    if n <= 0 {
        Seq::empty()
    } else if n - 1 != i && reachable(nodes, areas[i].midpoint(), areas[n - 1].midpoint()) {
        linked_upto(areas, nodes, i, n - 1).push(areas[n - 1].id)
    } else {
        linked_upto(areas, nodes, i, n - 1)
    }
}

/// The names of the regions, among the first `n` of the table and other
/// than region `i`, whose centre can be seen from the centre of region
/// `i`.
pub open spec fn sighted_upto(
    config: ArenaConfig,
    grid: ArenaGrid,
    areas: Seq<Area>,
    i: int,
    n: int,
) -> Seq<AreaID>
    decreases n,
{
    if n <= 0 {
        Seq::empty()
    } else if n - 1 != i && tile_sees(config, grid, areas[i].midpoint(), areas[n - 1].midpoint()) {
        sighted_upto(config, grid, areas, i, n - 1).push(areas[n - 1].id)
    } else {
        sighted_upto(config, grid, areas, i, n - 1)
    }
}

/// Tells whether the tile `to` can be seen from the tile `from`.
pub fn tile_in_sight(config: &ArenaConfig, grid: &ArenaGrid, from: TilePos, to: TilePos) -> (r:
    bool)
    ensures
        r == tile_sees(*config, *grid, from, to),
{
    has_line_of_sight(
        (clamp_coord(from.0), clamp_coord(from.1)),
        (clamp_coord(to.0), clamp_coord(to.1)),
        config,
        grid,
    )
}

fn clamp_coord(c: u32) -> (r: i32)
    ensures
        r == sight_coord(c),
{
    if c > 0x7fff_ffff {
        0x7fff_ffff
    } else {
        c as i32
    }
}

/// Works out, for every region of the table, which other regions can be
/// reached from its centre and which can be seen from it. The rectangles
/// and names of the table stay as they are.
pub fn calculate_area_connectivity(
    area_map: &mut AreaMap,
    nav_graph: &NavGraph,
    config: &ArenaConfig,
    grid: &ArenaGrid,
)
    ensures
        final(area_map).areas@.len() == old(area_map).areas@.len(),
        forall|i: int|
            0 <= i < old(area_map).areas@.len() ==> {
                let before = old(area_map).areas@[i];
                let after = #[trigger] final(area_map).areas@[i];
                &&& after.id == before.id
                &&& after.min_x == before.min_x
                &&& after.min_y == before.min_y
                &&& after.max_x == before.max_x
                &&& after.max_y == before.max_y
                &&& after.neighbors@ == linked_upto(
                    old(area_map).areas@,
                    nav_graph.nodes(),
                    i,
                    old(area_map).areas@.len() as int,
                )
                &&& after.visible_areas@ == sighted_upto(
                    *config,
                    *grid,
                    old(area_map).areas@,
                    i,
                    old(area_map).areas@.len() as int,
                )
            },
{
    let count = area_map.areas.len();
    let mut updated: Vec<Area> = Vec::new();
    let mut i: usize = 0;
    while i < count
        invariant
            i <= count,
            count == area_map.areas@.len(),
            area_map.areas@ == old(area_map).areas@,
            updated@.len() == i,
            forall|k: int|
                0 <= k < i ==> {
                    let before = area_map.areas@[k];
                    let after = #[trigger] updated@[k];
                    &&& after.id == before.id
                    &&& after.min_x == before.min_x
                    &&& after.min_y == before.min_y
                    &&& after.max_x == before.max_x
                    &&& after.max_y == before.max_y
                    &&& after.neighbors@ == linked_upto(
                        area_map.areas@,
                        nav_graph.nodes(),
                        k,
                        count as int,
                    )
                    &&& after.visible_areas@ == sighted_upto(
                        *config,
                        *grid,
                        area_map.areas@,
                        k,
                        count as int,
                    )
                },
        decreases count - i,
    {
        let center_a = area_map.areas[i].center();
        let mut neighbors: Vec<AreaID> = Vec::new();
        let mut visible: Vec<AreaID> = Vec::new();
        let mut j: usize = 0;
        while j < count
            invariant
                j <= count,
                i < count,
                count == area_map.areas@.len(),
                center_a == area_map.areas@[i as int].midpoint(),
                neighbors@ == linked_upto(area_map.areas@, nav_graph.nodes(), i as int, j as int),
                visible@ == sighted_upto(*config, *grid, area_map.areas@, i as int, j as int),
            decreases count - j,
        {
            if i != j {
                let center_b = area_map.areas[j].center();
                let id_b = area_map.areas[j].id;
                if find_path(center_a, center_b, nav_graph).is_some() {
                    neighbors.push(id_b);
                }
                if tile_in_sight(config, grid, center_a, center_b) {
                    visible.push(id_b);
                }
            }
            j = j + 1;
        }
        let area = &area_map.areas[i];
        updated.push(
            Area {
                id: area.id,
                min_x: area.min_x,
                min_y: area.min_y,
                max_x: area.max_x,
                max_y: area.max_y,
                neighbors,
                visible_areas: visible,
            },
        );
        i = i + 1;
    }
    area_map.areas = updated;
}

impl Default for AreaMap {
    /// The table of the standard arena.
    fn default() -> (map: Self)
        ensures
            map.areas@.len() == 4,
            map.areas@[0].id == AreaID::UserBase,
            map.areas@[1].id == AreaID::EnemyBase,
            map.areas@[2].id == AreaID::CenterArena,
            map.areas@[3].id == AreaID::NorthCorridor,
    {
        AreaMap::new()
    }
}

} // verus!
