//! The navigation graph: adjacency over the walkable tiles of a grid.

use crate::arena::{ArenaConfig, ArenaGrid, MAX_TILES};
use crate::tilemap::{
    neighbor_entries, neighbor_map_get, neighbor_map_insert, neighbor_map_new, TilePos,
};
use bevy::platform::collections::HashMap;
use vstd::prelude::*;

verus! {

/// The offsets of the eight directions, in the order in which neighbours
/// are listed: the four cardinal ones first.
pub open spec fn direction(i: int) -> (int, int) {
    if i == 0 {
        (0, 1)
    } else if i == 1 {
        (0, -1)
    } else if i == 2 {
        (1, 0)
    } else if i == 3 {
        (-1, 0)
    } else if i == 4 {
        (1, 1)
    } else if i == 5 {
        (1, -1)
    } else if i == 6 {
        (-1, 1)
    } else {
        (-1, -1)
    }
}

/// The number of directions of a graph: four, or eight with diagonals.
pub open spec fn direction_count(eight_way: bool) -> int {
    if eight_way {
        8
    } else {
        4
    }
}

/// `q` is next to `p`: one step away along a row or a column or, where
/// diagonals are enabled, along a diagonal.
pub open spec fn adjacent(p: TilePos, q: TilePos, eight_way: bool) -> bool {
    let dx = q.0 - p.0;
    let dy = q.1 - p.1;
    &&& -1 <= dx <= 1
    &&& -1 <= dy <= 1
    &&& !(dx == 0 && dy == 0)
    &&& (!eight_way ==> dx == 0 || dy == 0)
}

/// The step from `p` by offset `d` may be walked: it ends inside the arena
/// on a tile without occupant, and a diagonal step cuts no corner, that is,
/// neither of the two tiles it squeezes between holds an occupant.
pub open spec fn edge_open(config: ArenaConfig, grid: ArenaGrid, p: TilePos, d: (int, int)) -> bool {
    let nx = p.0 + d.0;
    let ny = p.1 + d.1;
    &&& config.in_bounds(nx, ny)
    &&& grid.walkable((nx as u32, ny as u32))
    &&& (d.0 != 0 && d.1 != 0 ==> !grid.occupants().dom().contains((p.0, ny as u32))
        && !grid.occupants().dom().contains((nx as u32, p.1)))
}

/// The neighbours of `p` found among the first `n` directions, in order.
pub open spec fn neighbors_upto(config: ArenaConfig, grid: ArenaGrid, p: TilePos, n: int) -> Seq<
    TilePos,
>
    decreases n,
{
    if n <= 0 {
        Seq::empty()
    } else {
        let rest = neighbors_upto(config, grid, p, n - 1);
        let d = direction(n - 1);
        if edge_open(config, grid, p, d) {
            rest.push(((p.0 + d.0) as u32, (p.1 + d.1) as u32))
        } else {
            rest
        }
    }
}

/// The navigation graph that a grid determines: its nodes are the walkable
/// tiles, and each lists its walkable neighbours in direction order.
pub open spec fn nav_nodes(config: ArenaConfig, grid: ArenaGrid, eight_way: bool) -> Map<
    TilePos,
    Seq<TilePos>,
> {
    Map::new(
        |p: TilePos| grid.walkable(p),
        |p: TilePos| neighbors_upto(config, grid, p, direction_count(eight_way)),
    )
}

/// Every listed neighbour is itself a node and is next to the node that
/// lists it.
pub open spec fn links_closed(nodes: Map<TilePos, Seq<TilePos>>, eight_way: bool) -> bool {
    forall|p: TilePos, i: int|
        nodes.dom().contains(p) && 0 <= i < nodes[p].len() ==> nodes.dom().contains(
            #[trigger] nodes[p][i],
        ) && adjacent(p, nodes[p][i], eight_way)
}

/// Every neighbour that is found is walkable and next to the tile it was
/// found from.
pub proof fn lemma_neighbors_walkable(config: ArenaConfig, grid: ArenaGrid, p: TilePos, n: int)
    requires
        0 <= n <= 8,
    ensures
        forall|i: int|
            0 <= i < neighbors_upto(config, grid, p, n).len() ==> grid.walkable(
                #[trigger] neighbors_upto(config, grid, p, n)[i],
            ) && adjacent(p, neighbors_upto(config, grid, p, n)[i], n > 4),
        neighbors_upto(config, grid, p, n).len() <= n,
    decreases n,
{
    if n > 0 {
        lemma_neighbors_walkable(config, grid, p, n - 1);
    }
}

/// The graph that a grid determines lists only nodes as neighbours.
pub proof fn lemma_nav_nodes_closed(config: ArenaConfig, grid: ArenaGrid, eight_way: bool)
    ensures
        links_closed(nav_nodes(config, grid, eight_way), eight_way),
{
    let nodes = nav_nodes(config, grid, eight_way);
    assert forall|p: TilePos, i: int|
        nodes.dom().contains(p) && 0 <= i < nodes[p].len() implies nodes.dom().contains(
        #[trigger] nodes[p][i],
    ) && adjacent(p, nodes[p][i], eight_way) by {
        lemma_neighbors_walkable(config, grid, p, direction_count(eight_way));
    }
}

/// The index of the direction opposite to direction `i`.
pub open spec fn opposite(i: int) -> int {
    if i == 0 {
        1
    } else if i == 1 {
        0
    } else if i == 2 {
        3
    } else if i == 3 {
        2
    } else if i == 4 {
        7
    } else if i == 5 {
        6
    } else if i == 6 {
        5
    } else {
        4
    }
}

/// A tile is listed among the neighbours of `p` exactly when an open step
/// in one of the directions leads to it.
pub proof fn lemma_neighbor_listed(
    config: ArenaConfig,
    grid: ArenaGrid,
    p: TilePos,
    n: int,
    q: TilePos,
)
    requires
        0 <= n <= 8,
    ensures
        neighbors_upto(config, grid, p, n).contains(q) <==> exists|i: int|
            0 <= i < n && edge_open(config, grid, p, #[trigger] direction(i)) && q.0 == p.0
                + direction(i).0 && q.1 == p.1 + direction(i).1,
    decreases n,
{
    if n > 0 {
        lemma_neighbor_listed(config, grid, p, n - 1, q);
        let rest = neighbors_upto(config, grid, p, n - 1);
        let d = direction(n - 1);
        let all = neighbors_upto(config, grid, p, n);
        if all.contains(q) {
            let k = choose|k: int| 0 <= k < all.len() && all[k] == q;
            if edge_open(config, grid, p, d) && k == all.len() - 1 {
                assert(edge_open(config, grid, p, direction(n - 1)) && q.0 == p.0 + direction(
                    n - 1,
                ).0 && q.1 == p.1 + direction(n - 1).1);
            } else {
                assert(rest[k] == q);
                assert(rest.contains(q));
                let i = choose|i: int|
                    0 <= i < n - 1 && edge_open(config, grid, p, #[trigger] direction(i)) && q.0
                        == p.0 + direction(i).0 && q.1 == p.1 + direction(i).1;
                assert(0 <= i < n);
            }
        }
        if exists|i: int|
            0 <= i < n && edge_open(config, grid, p, #[trigger] direction(i)) && q.0 == p.0
                + direction(i).0 && q.1 == p.1 + direction(i).1 {
            let i = choose|i: int|
                0 <= i < n && edge_open(config, grid, p, #[trigger] direction(i)) && q.0 == p.0
                    + direction(i).0 && q.1 == p.1 + direction(i).1;
            if i == n - 1 {
                assert(all[all.len() - 1] == q);
            } else {
                assert(rest.contains(q));
                let k = choose|k: int| 0 <= k < rest.len() && rest[k] == q;
                assert(all[k] == q);
            }
        }
    }
}

/// Where every tile of the grid lies inside the arena, each link of the
/// graph that the grid determines can be walked in both directions.
pub proof fn lemma_nav_nodes_symmetric(
    config: ArenaConfig,
    grid: ArenaGrid,
    eight_way: bool,
    p: TilePos,
    q: TilePos,
)
    requires
        grid.fits(config),
        grid.walkable(p),
        nav_nodes(config, grid, eight_way)[p].contains(q),
    ensures
        grid.walkable(q),
        nav_nodes(config, grid, eight_way)[q].contains(p),
{
    let n = direction_count(eight_way);
    lemma_neighbor_listed(config, grid, p, n, q);
    let i = choose|i: int|
        0 <= i < n && edge_open(config, grid, p, #[trigger] direction(i)) && q.0 == p.0
            + direction(i).0 && q.1 == p.1 + direction(i).1;
    let j = opposite(i);
    assert(grid.tiles().dom().contains(p));
    assert(config.in_bounds(p.0 as int, p.1 as int));
    assert(0 <= j < n && edge_open(config, grid, q, direction(j)) && p.0 == q.0 + direction(j).0
        && p.1 == q.1 + direction(j).1);
    lemma_neighbor_listed(config, grid, q, n, p);
}

/// `p` is among the first `n` entries of `keys`.
pub open spec fn listed_before(keys: Seq<TilePos>, n: int, p: TilePos) -> bool {
    exists|j: int| 0 <= j < n && j < keys.len() && keys[j] == p
}

/// Adjacency over the walkable tiles of the arena.
pub struct NavGraph {
    nodes: HashMap<TilePos, Vec<TilePos>>,
    count: usize,
    eight_way: bool,
}

fn direction_offset(i: usize) -> (d: (i64, i64))
    requires
        i < 8,
    ensures
        (d.0 as int, d.1 as int) == direction(i as int),
{
    if i == 0 {
        (0, 1)
    } else if i == 1 {
        (0, -1)
    } else if i == 2 {
        (1, 0)
    } else if i == 3 {
        (-1, 0)
    } else if i == 4 {
        (1, 1)
    } else if i == 5 {
        (1, -1)
    } else if i == 6 {
        (-1, 1)
    } else {
        (-1, -1)
    }
}

fn open_neighbors(config: &ArenaConfig, grid: &ArenaGrid, p: TilePos, eight_way: bool) -> (list:
    Vec<TilePos>)
    ensures
        list@ == neighbors_upto(*config, *grid, p, direction_count(eight_way)),
{
    let count: usize = if eight_way {
        8
    } else {
        4
    };
    let mut list: Vec<TilePos> = Vec::new();
    let mut i: usize = 0;
    while i < count
        invariant
            i <= count,
            count == direction_count(eight_way),
            list@ == neighbors_upto(*config, *grid, p, i as int),
        decreases count - i,
    {
        let d = direction_offset(i);
        let nx: i64 = p.0 as i64 + d.0;
        let ny: i64 = p.1 as i64 + d.1;
        if config.contains(nx, ny) {
            let qx: u32 = nx as u32;
            let qy: u32 = ny as u32;
            if !grid.is_occupied(qx, qy) {
                let mut blocked = false;
                if d.0 != 0 && d.1 != 0 {
                    if grid.is_occupied(p.0, qy) || grid.is_occupied(qx, p.1) {
                        blocked = true;
                    }
                }
                if !blocked && grid.has_tile(qx, qy) {
                    list.push((qx, qy));
                }
            }
        }
        i = i + 1;
    }
    list
}

impl NavGraph {
    #[verifier::type_invariant]
    spec fn inv(self) -> bool {
        &&& neighbor_entries(self.nodes).dom().finite()
        &&& self.count == neighbor_entries(self.nodes).dom().len()
        &&& self.count <= MAX_TILES
        &&& links_closed(neighbor_entries(self.nodes), self.eight_way)
    }

    /// The nodes, each with its list of neighbours.
    pub closed spec fn nodes(self) -> Map<TilePos, Seq<TilePos>> {
        neighbor_entries(self.nodes)
    }

    /// Whether the graph links diagonal neighbours too.
    pub closed spec fn eight_way(self) -> bool {
        self.eight_way
    }

    /// An empty graph whose nodes will be linked along rows and columns.
    pub fn new() -> (graph: Self)
        ensures
            graph.nodes() == Map::<TilePos, Seq<TilePos>>::empty(),
            !graph.eight_way(),
    {
        NavGraph { nodes: neighbor_map_new(), count: 0, eight_way: false }
    }

    /// An empty graph whose nodes will be linked along diagonals too.
    pub fn with_diagonals() -> (graph: Self)
        ensures
            graph.nodes() == Map::<TilePos, Seq<TilePos>>::empty(),
            graph.eight_way(),
    {
        NavGraph { nodes: neighbor_map_new(), count: 0, eight_way: true }
    }

    /// Tells whether the graph links diagonal neighbours.
    pub fn is_eight_way(&self) -> (r: bool)
        ensures
            r == self.eight_way(),
    {
        self.eight_way
    }

    /// The number of nodes.
    pub fn len(&self) -> (n: usize)
        ensures
            self.nodes().dom().finite(),
            n == self.nodes().dom().len(),
            n <= MAX_TILES,
            links_closed(self.nodes(), self.eight_way()),
    {
        proof {
            use_type_invariant(&*self);
        }
        self.count
    }

    /// Tells whether `(x, y)` is a node.
    pub fn contains(&self, x: u32, y: u32) -> (r: bool)
        ensures
            r == self.nodes().dom().contains((x, y)),
    {
        neighbor_map_get(&self.nodes, (x, y)).is_some()
    }

    /// The neighbours of `(x, y)`, or nothing when it is no node.
    pub fn neighbors(&self, x: u32, y: u32) -> (r: Option<&Vec<TilePos>>)
        ensures
            r.is_some() == self.nodes().dom().contains((x, y)),
            r.is_some() ==> r.unwrap()@ == self.nodes()[(x, y)],
    {
        neighbor_map_get(&self.nodes, (x, y))
    }
}

/// Rebuilds the graph from the grid, from scratch: afterwards its nodes are
/// exactly the tiles that exist and hold no occupant, and each node lists,
/// in direction order, the neighbours it may step to. The graph keeps its
/// choice between four and eight directions.
pub fn regenerate_nav_graph(config: &ArenaConfig, grid: &ArenaGrid, nav_graph: &mut NavGraph)
    ensures
        final(nav_graph).eight_way() == old(nav_graph).eight_way(),
        final(nav_graph).nodes() == nav_nodes(*config, *grid, old(nav_graph).eight_way()),
        forall|p: TilePos|
            final(nav_graph).nodes().dom().contains(p) <==> (grid.tiles().dom().contains(p)
                && !grid.occupants().dom().contains(p)),
        links_closed(final(nav_graph).nodes(), final(nav_graph).eight_way()),
{
    let eight_way = nav_graph.eight_way;
    let keys = grid.tile_positions();
    let total = grid.tile_count();
    proof {
        keys@.unique_seq_to_set();
    }
    let mut nodes = neighbor_map_new();
    let mut count: usize = 0;
    let mut i: usize = 0;
    while i < total
        invariant
            i <= total,
            total == keys.len(),
            total <= MAX_TILES,
            keys@.no_duplicates(),
            keys@.to_set() == grid.tiles().dom(),
            count <= i,
            neighbor_entries(nodes).dom().finite(),
            count == neighbor_entries(nodes).dom().len(),
            forall|p: TilePos| #[trigger]
                neighbor_entries(nodes).dom().contains(p) <==> (grid.walkable(p) && listed_before(
                    keys@,
                    i as int,
                    p,
                )),
            forall|p: TilePos|
                neighbor_entries(nodes).dom().contains(p) ==> #[trigger] neighbor_entries(nodes)[p]
                    == neighbors_upto(*config, *grid, p, direction_count(eight_way)),
        decreases total - i,
    {
        let p = keys[i];
        let ghost before = neighbor_entries(nodes);
        proof {
            assert forall|q: TilePos| listed_before(keys@, i + 1, q) <==> (listed_before(
                keys@,
                i as int,
                q,
            ) || q == p) by {
                if listed_before(keys@, i + 1, q) {
                    let j = choose|j: int| 0 <= j < i + 1 && j < keys@.len() && keys@[j] == q;
                    if j < i {
                        assert(0 <= j < i && j < keys@.len() && keys@[j] == q);
                    }
                }
                if listed_before(keys@, i as int, q) {
                    let j = choose|j: int| 0 <= j < i && j < keys@.len() && keys@[j] == q;
                    assert(0 <= j < i + 1 && j < keys@.len() && keys@[j] == q);
                }
                if q == p {
                    assert(0 <= i < i + 1 && i < keys@.len() && keys@[i as int] == q);
                }
            }
            if listed_before(keys@, i as int, p) {
                let j = choose|j: int| 0 <= j < i && j < keys@.len() && keys@[j] == p;
                assert(keys@[j] == keys@[i as int]);
            }
            assert(!before.dom().contains(p));
            assert(keys@.to_set().contains(p));
        }
        if !grid.is_occupied(p.0, p.1) {
            let list = open_neighbors(config, grid, p, eight_way);
            neighbor_map_insert(&mut nodes, p, list);
            count = count + 1;
            proof {
                assert(grid.walkable(p));
                assert(neighbor_entries(nodes).dom() =~= before.dom().insert(p));
            }
        }
        i = i + 1;
    }
    proof {
        let built = neighbor_entries(nodes);
        let target = nav_nodes(*config, *grid, eight_way);
        assert forall|p: TilePos| built.dom().contains(p) <==> grid.walkable(p) by {
            if grid.walkable(p) {
                assert(keys@.to_set().contains(p));
                let j = choose|j: int| 0 <= j < keys@.len() && keys@[j] == p;
                assert(0 <= j < i && j < keys@.len() && keys@[j] == p);
            }
        }
        assert(built =~= target);
        lemma_nav_nodes_closed(*config, *grid, eight_way);
    }
    *nav_graph = NavGraph { nodes, count, eight_way };
}

/// Builds the graph of a grid with links along rows and columns only.
pub fn generate_nav_nodes(config: &ArenaConfig, grid: &ArenaGrid) -> (graph: NavGraph)
    ensures
        !graph.eight_way(),
        graph.nodes() == nav_nodes(*config, *grid, false),
        forall|p: TilePos|
            graph.nodes().dom().contains(p) <==> (grid.tiles().dom().contains(p)
                && !grid.occupants().dom().contains(p)),
        links_closed(graph.nodes(), false),
{
    let mut graph = NavGraph::new();
    regenerate_nav_graph(config, grid, &mut graph);
    graph
}

impl Default for NavGraph {
    /// An empty graph of four directions.
    fn default() -> (graph: Self)
        ensures
            graph.nodes() == Map::<TilePos, Seq<TilePos>>::empty(),
            !graph.eight_way(),
    {
        NavGraph::new()
    }
}

} // verus!
