//! A* search over the navigation graph.

use crate::arena::MAX_TILES;
use crate::navgraph::{adjacent, links_closed, NavGraph};
use crate::tilemap::{
    cost_entries, cost_map_get, cost_map_insert, cost_map_new, parent_entries, parent_map_get,
    parent_map_insert, parent_map_new, same_tile, TilePos,
};
use bevy::platform::collections::HashMap;
use vstd::prelude::*;

verus! {

/// `path` is a walk in the graph: it is not empty, each of its tiles is a
/// node, and each tile but the first is listed as a neighbour of the tile
/// before it.
pub open spec fn is_walk(nodes: Map<TilePos, Seq<TilePos>>, path: Seq<TilePos>) -> bool {
    &&& path.len() > 0
    &&& forall|i: int| 0 <= i < path.len() ==> nodes.dom().contains(#[trigger] path[i])
    &&& forall|i: int|
        0 <= i < path.len() - 1 ==> nodes[path[i]].contains(#[trigger] path[i + 1])
}

/// `path` is a walk that starts at `a` and ends at `b`.
pub open spec fn connects(
    nodes: Map<TilePos, Seq<TilePos>>,
    path: Seq<TilePos>,
    a: TilePos,
    b: TilePos,
) -> bool {
    is_walk(nodes, path) && path[0] == a && path.last() == b
}

/// Some walk leads from `a` to `b`.
pub open spec fn reachable(nodes: Map<TilePos, Seq<TilePos>>, a: TilePos, b: TilePos) -> bool {
    exists|path: Seq<TilePos>| connects(nodes, path, a, b)
}

/// `path` is a walk from `a` to `b`, and no walk from `a` to `b` has fewer
/// tiles.
pub open spec fn is_shortest(
    nodes: Map<TilePos, Seq<TilePos>>,
    path: Seq<TilePos>,
    a: TilePos,
    b: TilePos,
) -> bool {
    connects(nodes, path, a, b) && forall|w: Seq<TilePos>|
        connects(nodes, w, a, b) ==> path.len() <= w.len()
}

/// Every link can be walked in both directions.
pub open spec fn links_symmetric(nodes: Map<TilePos, Seq<TilePos>>) -> bool {
    forall|p: TilePos, q: TilePos|
        nodes.dom().contains(p) && nodes.dom().contains(q) && #[trigger] nodes[p].contains(q)
            ==> nodes[q].contains(p)
}

/// Where every link runs both ways, a walk read backwards is a walk.
pub proof fn lemma_reverse_walk(
    nodes: Map<TilePos, Seq<TilePos>>,
    path: Seq<TilePos>,
    a: TilePos,
    b: TilePos,
)
    requires
        links_symmetric(nodes),
        connects(nodes, path, a, b),
    ensures
        connects(nodes, path.reverse(), b, a),
        path.reverse().len() == path.len(),
{
    let back = path.reverse();
    assert forall|i: int| 0 <= i < back.len() implies nodes.dom().contains(#[trigger] back[i]) by {
        assert(back[i] == path[path.len() - 1 - i]);
    }
    assert forall|i: int| 0 <= i < back.len() - 1 implies nodes[back[i]].contains(
        #[trigger] back[i + 1],
    ) by {
        let j = path.len() - 2 - i;
        assert(back[i] == path[j + 1]);
        assert(back[i + 1] == path[j]);
        assert(nodes[path[j]].contains(path[j + 1]));
    }
}

/// Path finding is symmetric in its end points, as far as it can be: where
/// every link runs both ways, `b` can be reached from `a` exactly when `a`
/// can be reached from `b`, a shortest path read backwards is a shortest
/// path the other way, and therefore any two shortest paths, one each way,
/// have the same length. The tiles they visit may differ.
pub proof fn lemma_path_symmetry(
    nodes: Map<TilePos, Seq<TilePos>>,
    a: TilePos,
    b: TilePos,
    forth: Seq<TilePos>,
    back: Seq<TilePos>,
)
    requires
        links_symmetric(nodes),
    ensures
        reachable(nodes, a, b) == reachable(nodes, b, a),
        is_shortest(nodes, forth, a, b) ==> is_shortest(nodes, forth.reverse(), b, a),
        is_shortest(nodes, forth, a, b) && is_shortest(nodes, back, b, a) ==> forth.len()
            == back.len(),
{
    if reachable(nodes, a, b) {
        let w = choose|w: Seq<TilePos>| connects(nodes, w, a, b);
        lemma_reverse_walk(nodes, w, a, b);
    }
    if reachable(nodes, b, a) {
        let w = choose|w: Seq<TilePos>| connects(nodes, w, b, a);
        lemma_reverse_walk(nodes, w, b, a);
    }
    if is_shortest(nodes, forth, a, b) {
        lemma_reverse_walk(nodes, forth, a, b);
        assert forall|w: Seq<TilePos>| connects(nodes, w, b, a) implies forth.reverse().len()
            <= w.len() by {
            lemma_reverse_walk(nodes, w, b, a);
        }
        if is_shortest(nodes, back, b, a) {
            lemma_reverse_walk(nodes, back, b, a);
        }
    }
}

/// What one step costs: 1 in a graph of four directions; in a graph of
/// eight, 10 along a row or column and 14 along a diagonal.
pub open spec fn step_cost(p: TilePos, q: TilePos, eight_way: bool) -> int {
    if !eight_way {
        1
    } else if p.0 != q.0 && p.1 != q.1 {
        14
    } else {
        10
    }
}

/// An entry of the search frontier: a tile and the estimated cost of the
/// cheapest path through it.
#[derive(Clone, Copy)]
struct State {
    cost: u64,
    position: TilePos,
}

/// The Manhattan distance between two tiles.
pub open spec fn manhattan(p: TilePos, q: TilePos) -> int {
    (if p.0 >= q.0 {
        p.0 - q.0
    } else {
        q.0 - p.0
    }) + (if p.1 >= q.1 {
        p.1 - q.1
    } else {
        q.1 - p.1
    })
}

/// `r` is the square root of `n`, rounded down.
pub open spec fn is_floor_sqrt(n: int, r: int) -> bool {
    0 <= r && r * r <= n < (r + 1) * (r + 1)
}

spec fn pending(heap: Seq<State>, u: TilePos) -> bool {
    exists|k: int| 0 <= k < heap.len() && (#[trigger] heap[k]).position == u
}

spec fn entry_for(
    heap: Seq<State>,
    dist: Map<TilePos, u32>,
    goal: TilePos,
    eight_way: bool,
    u: TilePos,
) -> bool {
    exists|k: int|
        0 <= k < heap.len() && (#[trigger] heap[k]).position == u && (!eight_way ==> heap[k].cost
            == dist[u] + manhattan(u, goal))
}

spec fn expanded_upto(
    nodes: Map<TilePos, Seq<TilePos>>,
    dist: Map<TilePos, u32>,
    eight_way: bool,
    u: TilePos,
    n: int,
) -> bool {
    forall|i: int|
        0 <= i < n && i < nodes[u].len() ==> dist.dom().contains(#[trigger] nodes[u][i])
            && dist[nodes[u][i]] <= dist[u] + step_cost(u, nodes[u][i], eight_way)
}

spec fn tree_ok(
    nodes: Map<TilePos, Seq<TilePos>>,
    start: TilePos,
    dist: Map<TilePos, u32>,
    parent: Map<TilePos, TilePos>,
) -> bool {
    &&& dist.dom().contains(start)
    &&& dist[start] == 0
    &&& forall|v: TilePos| #[trigger] dist.dom().contains(v) ==> nodes.dom().contains(v)
    &&& forall|v: TilePos|
        #[trigger] dist.dom().contains(v) && v != start ==> {
            &&& parent.dom().contains(v)
            &&& dist.dom().contains(parent[v])
            &&& nodes[parent[v]].contains(v)
            &&& dist[parent[v]] < dist[v]
        }
}

spec fn route_ok(dist: Map<TilePos, u32>, route: Seq<TilePos>, v: TilePos) -> bool {
    &&& route.len() >= 1
    &&& route.last() == v
    &&& route.no_duplicates()
    &&& dist[v] <= 14 * (route.len() - 1)
    &&& forall|i: int|
        0 <= i < route.len() - 1 ==> dist.dom().contains(#[trigger] route[i]) && dist[route[i]]
            < dist[v]
}

spec fn routes_ok(dist: Map<TilePos, u32>, routes: Map<TilePos, Seq<TilePos>>) -> bool {
    forall|v: TilePos| #[trigger]
        dist.dom().contains(v) ==> routes.dom().contains(v) && route_ok(dist, routes[v], v)
}

spec fn entries_ok(heap: Seq<State>, dist: Map<TilePos, u32>, goal: TilePos, eight_way: bool) -> bool {
    forall|k: int|
        0 <= k < heap.len() ==> dist.dom().contains((#[trigger] heap[k]).position) && (!eight_way
            ==> heap[k].cost >= dist[heap[k].position] + manhattan(heap[k].position, goal))
}

spec fn frontier_ok(
    nodes: Map<TilePos, Seq<TilePos>>,
    goal: TilePos,
    eight_way: bool,
    dist: Map<TilePos, u32>,
    heap: Seq<State>,
    active: bool,
    current: TilePos,
    done: int,
) -> bool {
    &&& entries_ok(heap, dist, goal, eight_way)
    &&& forall|u: TilePos|
        #[trigger] dist.dom().contains(u) ==> entry_for(heap, dist, goal, eight_way, u)
            || expanded_upto(nodes, dist, eight_way, u, nodes[u].len() as int) || (active && u
            == current && expanded_upto(nodes, dist, eight_way, u, done))
    &&& dist.dom().contains(goal) ==> pending(heap, goal)
}

spec fn slack(dist: Map<TilePos, u32>, k: TilePos) -> nat {
    if dist.dom().contains(k) {
        dist[k] as nat
    } else {
        0x1_0000_0000
    }
}

spec fn potential(keys: Seq<TilePos>, dist: Map<TilePos, u32>) -> nat
    decreases keys.len(),
{
    if keys.len() == 0 {
        0
    } else {
        potential(keys.drop_last(), dist) + slack(dist, keys.last())
    }
}

proof fn lemma_potential_drop(keys: Seq<TilePos>, dist: Map<TilePos, u32>, v: TilePos, c: u32)
    requires
        c < slack(dist, v),
    ensures
        potential(keys, dist.insert(v, c)) <= potential(keys, dist),
        keys.contains(v) ==> potential(keys, dist.insert(v, c)) < potential(keys, dist),
    decreases keys.len(),
{
    if keys.len() > 0 {
        lemma_potential_drop(keys.drop_last(), dist, v, c);
        let last = keys.last();
        if last != v {
            assert(slack(dist.insert(v, c), last) == slack(dist, last));
            if keys.contains(v) {
                let j = choose|j: int| 0 <= j < keys.len() && keys[j] == v;
                assert(keys.drop_last()[j] == v);
            }
        }
    }
}

proof fn lemma_route_bound(
    nodes: Map<TilePos, Seq<TilePos>>,
    dist: Map<TilePos, u32>,
    route: Seq<TilePos>,
    v: TilePos,
)
    requires
        nodes.dom().finite(),
        dist.dom().contains(v),
        route_ok(dist, route, v),
        forall|w: TilePos| #[trigger] dist.dom().contains(w) ==> nodes.dom().contains(w),
    ensures
        route.len() <= nodes.dom().len(),
{
    route.unique_seq_to_set();
    assert forall|x: TilePos| route.to_set().contains(x) implies nodes.dom().contains(x) by {
        let j = choose|j: int| 0 <= j < route.len() && route[j] == x;
        if j < route.len() - 1 {
            assert(dist.dom().contains(route[j]));
        }
    }
    vstd::set_lib::lemma_len_subset(route.to_set(), nodes.dom());
}

proof fn lemma_closed_holds_walk(
    nodes: Map<TilePos, Seq<TilePos>>,
    dist: Map<TilePos, u32>,
    eight_way: bool,
    walk: Seq<TilePos>,
    i: int,
)
    requires
        is_walk(nodes, walk),
        dist.dom().contains(walk[0]),
        forall|u: TilePos|
            #[trigger] dist.dom().contains(u) ==> expanded_upto(
                nodes,
                dist,
                eight_way,
                u,
                nodes[u].len() as int,
            ),
        0 <= i < walk.len(),
    ensures
        dist.dom().contains(walk[i]),
    decreases i,
{
    if i > 0 {
        lemma_closed_holds_walk(nodes, dist, eight_way, walk, i - 1);
        let u = walk[i - 1];
        assert(nodes[u].contains(walk[i - 1 + 1]));
        let j = choose|j: int| 0 <= j < nodes[u].len() && nodes[u][j] == walk[i];
        assert(dist.dom().contains(nodes[u][j]));
    }
}

proof fn lemma_relax(
    nodes: Map<TilePos, Seq<TilePos>>,
    start: TilePos,
    goal: TilePos,
    eight_way: bool,
    dist: Map<TilePos, u32>,
    parent: Map<TilePos, TilePos>,
    heap: Seq<State>,
    routes: Map<TilePos, Seq<TilePos>>,
    u: TilePos,
    idx: int,
    c: u32,
    entry: State,
)
    requires
        links_closed(nodes, eight_way),
        tree_ok(nodes, start, dist, parent),
        routes_ok(dist, routes),
        frontier_ok(nodes, goal, eight_way, dist, heap, true, u, idx),
        dist.dom().contains(u),
        0 <= idx < nodes[u].len(),
        c == dist[u] + step_cost(u, nodes[u][idx], eight_way),
        !dist.dom().contains(nodes[u][idx]) || c < dist[nodes[u][idx]],
        entry.position == nodes[u][idx],
        !eight_way ==> entry.cost == c + manhattan(nodes[u][idx], goal),
    ensures
        tree_ok(nodes, start, dist.insert(nodes[u][idx], c), parent.insert(nodes[u][idx], u)),
        routes_ok(
            dist.insert(nodes[u][idx], c),
            routes.insert(nodes[u][idx], routes[u].push(nodes[u][idx])),
        ),
        frontier_ok(
            nodes,
            goal,
            eight_way,
            dist.insert(nodes[u][idx], c),
            heap.push(entry),
            true,
            u,
            idx + 1,
        ),
{
    let v = nodes[u][idx];
    let dist2 = dist.insert(v, c);
    let parent2 = parent.insert(v, u);
    let heap2 = heap.push(entry);
    let routes2 = routes.insert(v, routes[u].push(v));
    assert(nodes.dom().contains(u));
    assert(nodes.dom().contains(v) && adjacent(u, v, eight_way));
    assert(u != v);
    assert(v != start);
    assert(nodes[u].contains(v));
    assert forall|w: TilePos| #[trigger] dist.dom().contains(w) implies dist2.dom().contains(w)
        && dist2[w] <= dist[w] by {}
    // the search tree
    assert forall|w: TilePos| #[trigger] dist2.dom().contains(w) && w != start implies {
        &&& parent2.dom().contains(w)
        &&& dist2.dom().contains(parent2[w])
        &&& nodes[parent2[w]].contains(w)
        &&& dist2[parent2[w]] < dist2[w]
    } by {
        if w != v {
            assert(dist.dom().contains(w));
            assert(dist.dom().contains(parent[w]));
        }
    }
    assert forall|w: TilePos| #[trigger] dist2.dom().contains(w) implies nodes.dom().contains(
        w,
    ) by {
        if w != v {
            assert(dist.dom().contains(w));
        }
    }
    // the routes
    assert forall|w: TilePos| #[trigger] dist2.dom().contains(w) implies routes2.dom().contains(w)
        && route_ok(dist2, routes2[w], w) by {
        if w == v {
            let old_route = routes[u];
            let route = old_route.push(v);
            assert(route_ok(dist, old_route, u));
            assert forall|i: int| 0 <= i < route.len() - 1 implies dist2.dom().contains(
                #[trigger] route[i],
            ) && dist2[route[i]] < dist2[v] && route[i] != v by {
                if i < old_route.len() - 1 {
                    assert(dist.dom().contains(old_route[i]));
                } else {
                    assert(route[i] == u);
                }
            }
            assert(route.no_duplicates()) by {
                assert forall|i: int, j: int|
                    0 <= i < route.len() && 0 <= j < route.len() && i != j implies route[i]
                    != route[j] by {
                    if i < old_route.len() && j < old_route.len() {
                        assert(old_route[i] != old_route[j]);
                    }
                }
            }
        } else {
            assert(dist.dom().contains(w));
            let route = routes[w];
            assert(route_ok(dist, route, w));
            assert forall|i: int| 0 <= i < route.len() - 1 implies dist2.dom().contains(
                #[trigger] route[i],
            ) && dist2[route[i]] < dist2[w] by {
                assert(dist.dom().contains(route[i]));
            }
        }
    }
    // the frontier
    assert(heap2[heap.len() as int] == entry);
    assert forall|k: int| 0 <= k < heap2.len() implies dist2.dom().contains(
        (#[trigger] heap2[k]).position,
    ) && (!eight_way ==> heap2[k].cost >= dist2[heap2[k].position] + manhattan(
        heap2[k].position,
        goal,
    )) by {
        if k < heap.len() {
            assert(heap2[k] == heap[k]);
            assert(dist.dom().contains(heap[k].position));
        }
    }
    assert forall|w: TilePos| #[trigger] dist2.dom().contains(w) implies entry_for(
        heap2,
        dist2,
        goal,
        eight_way,
        w,
    ) || expanded_upto(nodes, dist2, eight_way, w, nodes[w].len() as int) || (w == u
        && expanded_upto(nodes, dist2, eight_way, w, idx + 1)) by {
        if w == v {
            assert(heap2[heap.len() as int].position == v);
        } else {
            assert(dist.dom().contains(w));
            if entry_for(heap, dist, goal, eight_way, w) {
                let k = choose|k: int|
                    0 <= k < heap.len() && (#[trigger] heap[k]).position == w && (!eight_way
                        ==> heap[k].cost == dist[w] + manhattan(w, goal));
                assert(heap2[k] == heap[k]);
            } else if expanded_upto(nodes, dist, eight_way, w, nodes[w].len() as int) {
                assert forall|i: int| 0 <= i < nodes[w].len() implies dist2.dom().contains(
                    #[trigger] nodes[w][i],
                ) && dist2[nodes[w][i]] <= dist2[w] + step_cost(w, nodes[w][i], eight_way) by {
                    assert(dist.dom().contains(nodes[w][i]));
                }
            } else {
                assert(w == u && expanded_upto(nodes, dist, eight_way, w, idx));
                assert forall|i: int| 0 <= i < idx + 1 && i < nodes[w].len() implies dist2.dom().contains(
                    #[trigger] nodes[w][i],
                ) && dist2[nodes[w][i]] <= dist2[w] + step_cost(w, nodes[w][i], eight_way) by {
                    if i < idx {
                        assert(dist.dom().contains(nodes[w][i]));
                    }
                }
            }
        }
    }
    if dist2.dom().contains(goal) {
        if goal == v {
            assert(heap2[heap.len() as int].position == goal);
        } else {
            let k = choose|k: int| 0 <= k < heap.len() && (#[trigger] heap[k]).position == goal;
            assert(heap2[k] == heap[k]);
        }
    }
}

proof fn lemma_skip(
    nodes: Map<TilePos, Seq<TilePos>>,
    goal: TilePos,
    eight_way: bool,
    dist: Map<TilePos, u32>,
    heap: Seq<State>,
    u: TilePos,
    idx: int,
)
    requires
        frontier_ok(nodes, goal, eight_way, dist, heap, true, u, idx),
        0 <= idx < nodes[u].len(),
        dist.dom().contains(nodes[u][idx]),
        dist[nodes[u][idx]] <= dist[u] + step_cost(u, nodes[u][idx], eight_way),
    ensures
        frontier_ok(nodes, goal, eight_way, dist, heap, true, u, idx + 1),
{
    assert forall|w: TilePos| #[trigger] dist.dom().contains(w) implies entry_for(
        heap,
        dist,
        goal,
        eight_way,
        w,
    ) || expanded_upto(nodes, dist, eight_way, w, nodes[w].len() as int) || (w == u
        && expanded_upto(nodes, dist, eight_way, w, idx + 1)) by {
        if w == u && expanded_upto(nodes, dist, eight_way, w, idx) {
            assert forall|i: int| 0 <= i < idx + 1 && i < nodes[w].len() implies dist.dom().contains(
                #[trigger] nodes[w][i],
            ) && dist[nodes[w][i]] <= dist[w] + step_cost(w, nodes[w][i], eight_way) by {}
        }
    }
}

proof fn lemma_pop(
    nodes: Map<TilePos, Seq<TilePos>>,
    goal: TilePos,
    eight_way: bool,
    dist: Map<TilePos, u32>,
    heap: Seq<State>,
    k: int,
    current: TilePos,
)
    requires
        frontier_ok(nodes, goal, eight_way, dist, heap, false, current, 0),
        0 <= k < heap.len(),
        heap[k].position != goal,
    ensures
        frontier_ok(nodes, goal, eight_way, dist, heap.remove(k), true, heap[k].position, 0),
{
    let heap2 = heap.remove(k);
    let u = heap[k].position;
    assert forall|j: int| 0 <= j < heap2.len() implies #[trigger] heap2[j] == heap[if j < k {
        j
    } else {
        j + 1
    }] by {}
    assert forall|j: int| 0 <= j < heap2.len() implies dist.dom().contains(
        (#[trigger] heap2[j]).position,
    ) && (!eight_way ==> heap2[j].cost >= dist[heap2[j].position] + manhattan(
        heap2[j].position,
        goal,
    )) by {
        let j0 = if j < k {
            j
        } else {
            j + 1
        };
        assert(heap2[j] == heap[j0]);
    }
    assert forall|w: TilePos| #[trigger] dist.dom().contains(w) implies entry_for(
        heap2,
        dist,
        goal,
        eight_way,
        w,
    ) || expanded_upto(nodes, dist, eight_way, w, nodes[w].len() as int) || (w == u
        && expanded_upto(nodes, dist, eight_way, w, 0)) by {
        if w != u && entry_for(heap, dist, goal, eight_way, w) {
            let j = choose|j: int|
                0 <= j < heap.len() && (#[trigger] heap[j]).position == w && (!eight_way
                    ==> heap[j].cost == dist[w] + manhattan(w, goal));
            let j2 = if j < k {
                j
            } else {
                j - 1
            };
            assert(heap2[j2] == heap[j]);
        }
    }
    if dist.dom().contains(goal) {
        let j = choose|j: int| 0 <= j < heap.len() && (#[trigger] heap[j]).position == goal;
        let j2 = if j < k {
            j
        } else {
            j - 1
        };
        assert(heap2[j2] == heap[j]);
    }
}

fn span(a: u32, b: u32) -> (d: u32)
    ensures
        d == (if a >= b {
            a - b
        } else {
            b - a
        }),
{
    if a >= b {
        a - b
    } else {
        b - a
    }
}

fn floor_sqrt(n: u128) -> (r: u64)
    requires
        n < 0x100_0000_0000 * 0x100_0000_0000,
    ensures
        is_floor_sqrt(n as int, r as int),
{
    let mut lo: u128 = 0;
    let mut hi: u128 = 0x100_0000_0000;
    while hi - lo > 1
        invariant
            lo < hi <= 0x100_0000_0000,
            lo * lo <= n < hi * hi,
        decreases hi - lo,
    {
        let mid: u128 = lo + (hi - lo) / 2;
        assert(mid * mid < 0x100_0000_0000 * 0x100_0000_0000) by (nonlinear_arith)
            requires
                0 <= mid < 0x100_0000_0000,
        ;
        if mid * mid <= n {
            lo = mid;
        } else {
            hi = mid;
        }
    }
    lo as u64
}

/// The straight-line distance between two tiles, times ten, rounded down:
/// the estimate that steers the search where diagonal steps are allowed.
pub fn euclid_estimate(p: TilePos, q: TilePos) -> (r: u64)
    ensures
        is_floor_sqrt(100 * ((p.0 - q.0) * (p.0 - q.0) + (p.1 - q.1) * (p.1 - q.1)), r as int),
{
    let dx: u128 = span(p.0, q.0) as u128;
    let dy: u128 = span(p.1, q.1) as u128;
    assert(dx * dx <= 0xffff_ffff * 0xffff_ffff) by (nonlinear_arith)
        requires
            0 <= dx <= 0xffff_ffff,
    ;
    assert(dy * dy <= 0xffff_ffff * 0xffff_ffff) by (nonlinear_arith)
        requires
            0 <= dy <= 0xffff_ffff,
    ;
    assert(dx * dx == (p.0 - q.0) * (p.0 - q.0)) by (nonlinear_arith)
        requires
            dx == p.0 - q.0 || dx == q.0 - p.0,
    ;
    assert(dy * dy == (p.1 - q.1) * (p.1 - q.1)) by (nonlinear_arith)
        requires
            dy == p.1 - q.1 || dy == q.1 - p.1,
    ;
    floor_sqrt(100 * (dx * dx + dy * dy))
}

/// The Manhattan distance between two tiles: the estimate that steers the
/// search where steps run along rows and columns only.
pub fn manhattan_estimate(p: TilePos, q: TilePos) -> (r: u64)
    ensures
        r == manhattan(p, q),
{
    span(p.0, q.0) as u64 + span(p.1, q.1) as u64
}

spec fn outranks(a: State, b: State) -> bool {
    a.cost < b.cost || (a.cost == b.cost && (a.position.0 > b.position.0 || (a.position.0
        == b.position.0 && a.position.1 > b.position.1)))
}

fn pop_best(heap: &mut Vec<State>) -> (r: (State, Ghost<int>))
    requires
        old(heap).len() > 0,
    ensures
        0 <= r.1@ < old(heap).len(),
        r.0 == old(heap)@[r.1@],
        final(heap)@ == old(heap)@.remove(r.1@),
        forall|j: int| 0 <= j < old(heap).len() ==> !outranks(#[trigger] old(heap)@[j], r.0),
{
    let mut best: usize = 0;
    let mut j: usize = 1;
    while j < heap.len()
        invariant
            0 <= best < heap.len(),
            1 <= j <= heap.len(),
            forall|k: int| 0 <= k < j ==> !outranks(#[trigger] heap@[k], heap@[best as int]),
        decreases heap.len() - j,
    {
        let a = heap[j];
        let b = heap[best];
        if a.cost < b.cost || (a.cost == b.cost && (a.position.0 > b.position.0 || (a.position.0
            == b.position.0 && a.position.1 > b.position.1))) {
            best = j;
        }
        j = j + 1;
    }
    let entry = heap.remove(best);
    (entry, Ghost(best as int))
}

fn reconstruct(
    start: TilePos,
    goal: TilePos,
    came_from: &HashMap<TilePos, TilePos>,
    Ghost(nodes): Ghost<Map<TilePos, Seq<TilePos>>>,
    Ghost(dist): Ghost<Map<TilePos, u32>>,
) -> (r: Option<Vec<TilePos>>)
    requires
        tree_ok(nodes, start, dist, parent_entries(*came_from)),
        dist.dom().contains(goal),
    ensures
        r.is_some(),
        connects(nodes, r.unwrap()@, start, goal),
        r.unwrap()@.len() - 1 <= dist[goal],
        r.unwrap()@.no_duplicates(),
{
    let mut back: Vec<TilePos> = Vec::new();
    let mut current = goal;
    back.push(goal);
    while !same_tile(current, start)
        invariant
            tree_ok(nodes, start, dist, parent_entries(*came_from)),
            back@.len() >= 1,
            back@[0] == goal,
            back@.last() == current,
            dist.dom().contains(current),
            back@.len() - 1 + dist[current] <= dist[goal],
            forall|i: int| 0 <= i < back@.len() ==> nodes.dom().contains(#[trigger] back@[i]),
            forall|i: int|
                0 <= i < back@.len() - 1 ==> nodes[back@[i + 1]].contains(#[trigger] back@[i]),
            forall|i: int|
                0 <= i < back@.len() - 1 ==> dist.dom().contains(#[trigger] back@[i])
                    && dist[back@[i]] > dist[current],
            back@.no_duplicates(),
        decreases dist[current],
    {
        match parent_map_get(came_from, current) {
            Some(prev) => {
                proof {
                    assert(dist.dom().contains(prev));
                    assert(nodes.dom().contains(prev));
                }
                let ghost before = back@;
                back.push(prev);
                proof {
                    assert forall|i: int, j: int|
                        0 <= i < back@.len() && 0 <= j < back@.len() && i != j implies back@[i]
                        != back@[j] by {
                        if i < before.len() && j < before.len() {
                            assert(before[i] != before[j]);
                        } else if i < before.len() - 1 {
                            assert(dist[before[i]] > dist[current]);
                        } else if j < before.len() - 1 {
                            assert(dist[before[j]] > dist[current]);
                        }
                    }
                }
                current = prev;
            },
            None => {
                return None;
            },
        }
    }
    let mut path: Vec<TilePos> = Vec::new();
    let mut i: usize = back.len();
    while i > 0
        invariant
            0 <= i <= back@.len(),
            path@.len() == back@.len() - i,
            forall|j: int| 0 <= j < path@.len() ==> path@[j] == back@[back@.len() - 1 - j],
        decreases i,
    {
        i = i - 1;
        path.push(back[i]);
    }
    proof {
        assert forall|j: int| 0 <= j < path@.len() - 1 implies nodes[path@[j]].contains(
            #[trigger] path@[j + 1],
        ) by {
            let k = back@.len() - 2 - j;
            assert(nodes[back@[k + 1]].contains(back@[k]));
        }
        assert forall|a: int, b: int|
            0 <= a < path@.len() && 0 <= b < path@.len() && a != b implies path@[a] != path@[b] by {
            assert(back@[back@.len() - 1 - a] != back@[back@.len() - 1 - b]);
        }
    }
    Some(path)
}

proof fn lemma_manhattan_step(p: TilePos, q: TilePos, goal: TilePos)
    requires
        adjacent(p, q, false),
    ensures
        manhattan(p, goal) <= manhattan(q, goal) + 1,
{
}

proof fn lemma_estimate_admissible(
    nodes: Map<TilePos, Seq<TilePos>>,
    walk: Seq<TilePos>,
    goal: TilePos,
    j: int,
)
    requires
        links_closed(nodes, false),
        is_walk(nodes, walk),
        walk.last() == goal,
        0 <= j < walk.len(),
    ensures
        manhattan(walk[j], goal) <= walk.len() - 1 - j,
    decreases walk.len() - j,
{
    if j < walk.len() - 1 {
        lemma_estimate_admissible(nodes, walk, goal, j + 1);
        let u = walk[j];
        assert(nodes.dom().contains(u));
        assert(nodes[u].contains(walk[j + 1]));
        let i = choose|i: int| 0 <= i < nodes[u].len() && nodes[u][i] == walk[j + 1];
        assert(adjacent(u, nodes[u][i], false));
        lemma_manhattan_step(u, walk[j + 1], goal);
    }
}

proof fn lemma_walk_bound(
    nodes: Map<TilePos, Seq<TilePos>>,
    goal: TilePos,
    dist: Map<TilePos, u32>,
    heap: Seq<State>,
    walk: Seq<TilePos>,
    i: int,
)
    requires
        links_closed(nodes, false),
        frontier_ok(nodes, goal, false, dist, heap, false, goal, 0),
        is_walk(nodes, walk),
        walk.last() == goal,
        dist.dom().contains(walk[0]),
        dist[walk[0]] == 0,
        0 <= i < walk.len(),
    ensures
        (dist.dom().contains(walk[i]) && dist[walk[i]] <= i) || exists|k: int|
            0 <= k < heap.len() && (#[trigger] heap[k]).cost <= walk.len() - 1,
    decreases i,
{
    if i > 0 {
        lemma_walk_bound(nodes, goal, dist, heap, walk, i - 1);
        let u = walk[i - 1];
        if dist.dom().contains(u) && dist[u] <= i - 1 {
            if entry_for(heap, dist, goal, false, u) {
                let k = choose|k: int|
                    0 <= k < heap.len() && (#[trigger] heap[k]).position == u && (!false
                        ==> heap[k].cost == dist[u] + manhattan(u, goal));
                lemma_estimate_admissible(nodes, walk, goal, i - 1);
                assert(heap[k].cost <= walk.len() - 1);
            } else {
                assert(expanded_upto(nodes, dist, false, u, nodes[u].len() as int));
                assert(nodes[u].contains(walk[i - 1 + 1]));
                let j = choose|j: int| 0 <= j < nodes[u].len() && nodes[u][j] == walk[i];
                assert(dist.dom().contains(nodes[u][j]));
            }
        }
    }
}

/// Searches the graph for a path from `start` to `goal` with A*.
///
/// The answer is a walk from `start` to `goal`, both included, exactly
/// when one exists; where either tile is no node there is none. The walk
/// visits no tile twice. In a graph of four directions no walk between
/// the two is shorter than the answer. A path from a tile to itself is
/// that tile alone.
///
/// The frontier is ordered by the cost so far plus an estimate of the
/// rest: the Manhattan distance in a graph of four directions, ten times
/// the straight-line distance in a graph of eight. Among entries of equal
/// order the one with the greater column, then the greater row, is
/// expanded first, so that the same search always takes the same turns.
pub fn find_path(start: TilePos, goal: TilePos, graph: &NavGraph) -> (result: Option<Vec<TilePos>>)
    ensures
        result.is_some() <==> reachable(graph.nodes(), start, goal),
        result.is_some() ==> connects(graph.nodes(), result.unwrap()@, start, goal),
        result.is_some() && start == goal ==> result.unwrap()@ == seq![start],
        result.is_some() ==> result.unwrap()@.len() <= u32::MAX,
        result.is_some() ==> result.unwrap()@.no_duplicates(),
        result.is_some() && !graph.eight_way() ==> is_shortest(
            graph.nodes(),
            result.unwrap()@,
            start,
            goal,
        ),
{
    let ghost nodes = graph.nodes();
    if !graph.contains(start.0, start.1) || !graph.contains(goal.0, goal.1) {
        proof {
            assert forall|w: Seq<TilePos>| !connects(nodes, w, start, goal) by {
                if connects(nodes, w, start, goal) {
                    assert(nodes.dom().contains(w[0]));
                    assert(nodes.dom().contains(w[w.len() - 1]));
                }
            }
        }
        return None;
    }
    let eight_way = graph.is_eight_way();
    let count = graph.len();
    let ghost keys = nodes.dom().to_seq();
    proof {
        nodes.dom().lemma_to_seq_to_set_id();
        assert forall|v: TilePos| nodes.dom().contains(v) implies keys.contains(v) by {
            assert(keys.to_set().contains(v));
        }
    }
    let mut dist = cost_map_new();
    let mut came_from = parent_map_new();
    let mut heap: Vec<State> = Vec::new();
    let first_cost = if eight_way {
        euclid_estimate(start, goal)
    } else {
        manhattan_estimate(start, goal)
    };
    cost_map_insert(&mut dist, start, 0);
    heap.push(State { cost: first_cost, position: start });
    let ghost mut routes: Map<TilePos, Seq<TilePos>> = Map::empty().insert(start, seq![start]);
    proof {
        assert(heap@[0].position == start);
        assert(entry_for(heap@, cost_entries(dist), goal, eight_way, start));
        assert(pending(heap@, start));
        assert(route_ok(cost_entries(dist), seq![start], start));
    }
    while heap.len() > 0
        invariant
            nodes == graph.nodes(),
            eight_way == graph.eight_way(),
            links_closed(nodes, eight_way),
            nodes.dom().finite(),
            count == nodes.dom().len(),
            count <= MAX_TILES,
            nodes.dom().contains(goal),
            forall|v: TilePos| nodes.dom().contains(v) ==> keys.contains(v),
            tree_ok(nodes, start, cost_entries(dist), parent_entries(came_from)),
            routes_ok(cost_entries(dist), routes),
            frontier_ok(nodes, goal, eight_way, cost_entries(dist), heap@, false, goal, 0),
        decreases potential(keys, cost_entries(dist)), heap.len(),
    {
        let ghost heap_before = heap@;
        let ghost pot_before = potential(keys, cost_entries(dist));
        let (entry, Ghost(k)) = pop_best(&mut heap);
        let position = entry.position;
        if same_tile(position, goal) {
            let found = reconstruct(
                start,
                goal,
                &came_from,
                Ghost(nodes),
                Ghost(cost_entries(dist)),
            );
            proof {
                let d = cost_entries(dist);
                let path = found.unwrap()@;
                assert(route_ok(d, routes[goal], goal));
                lemma_route_bound(nodes, d, routes[goal], goal);
                if start == goal {
                    assert(path.len() == 1);
                    assert(path =~= seq![start]);
                }
                if !eight_way {
                    assert forall|w: Seq<TilePos>| connects(nodes, w, start, goal) implies path.len()
                        <= w.len() by {
                        lemma_walk_bound(nodes, goal, d, heap_before, w, w.len() - 1);
                        if !(d[goal] <= w.len() - 1) {
                            let j = choose|j: int|
                                0 <= j < heap_before.len() && (#[trigger] heap_before[j]).cost
                                    <= w.len() - 1;
                            assert(!outranks(heap_before[j], entry));
                            assert(manhattan(goal, goal) == 0);
                        }
                    }
                }
            }
            return found;
        }
        proof {
            lemma_pop(nodes, goal, eight_way, cost_entries(dist), heap_before, k, goal);
            assert(cost_entries(dist).dom().contains(position));
            assert(nodes.dom().contains(position));
        }
        match graph.neighbors(position.0, position.1) {
            Some(neighbors) => {
                let mut idx: usize = 0;
                while idx < neighbors.len()
                    invariant
                        idx <= neighbors.len(),
                        neighbors@ == nodes[position],
                        nodes == graph.nodes(),
                        eight_way == graph.eight_way(),
                        links_closed(nodes, eight_way),
                        nodes.dom().finite(),
                        count == nodes.dom().len(),
                        count <= MAX_TILES,
                        nodes.dom().contains(goal),
                        nodes.dom().contains(position),
                        forall|v: TilePos| nodes.dom().contains(v) ==> keys.contains(v),
                        tree_ok(nodes, start, cost_entries(dist), parent_entries(came_from)),
                        routes_ok(cost_entries(dist), routes),
                        cost_entries(dist).dom().contains(position),
                        frontier_ok(
                            nodes,
                            goal,
                            eight_way,
                            cost_entries(dist),
                            heap@,
                            true,
                            position,
                            idx as int,
                        ),
                        potential(keys, cost_entries(dist)) <= pot_before,
                        potential(keys, cost_entries(dist)) == pot_before ==> heap@.len()
                            == heap_before.len() - 1,
                    decreases neighbors.len() - idx,
                {
                    let neighbor = neighbors[idx];
                    let current_g = cost_map_get(&dist, position).unwrap();
                    let diagonal = neighbor.0 != position.0 && neighbor.1 != position.1;
                    let step: u32 = if !eight_way {
                        1
                    } else if diagonal {
                        14
                    } else {
                        10
                    };
                    proof {
                        let d = cost_entries(dist);
                        assert(route_ok(d, routes[position], position));
                        lemma_route_bound(nodes, d, routes[position], position);
                        assert(nodes.dom().contains(nodes[position][idx as int]));
                    }
                    let new_cost: u32 = current_g + step;
                    let known = cost_map_get(&dist, neighbor);
                    let improves = match known {
                        Some(old_cost) => new_cost < old_cost,
                        None => true,
                    };
                    if improves {
                        let estimate = if eight_way {
                            euclid_estimate(neighbor, goal)
                        } else {
                            manhattan_estimate(neighbor, goal)
                        };
                        assert(estimate <= 0xffff_ffff_ffff) by {
                            if eight_way {
                                let dx = neighbor.0 - goal.0;
                                let dy = neighbor.1 - goal.1;
                                assert(100 * (dx * dx + dy * dy) < 0x1_0000_0000_0000
                                    * 0x1_0000_0000_0000) by (nonlinear_arith)
                                    requires
                                        -0x1_0000_0000 < dx < 0x1_0000_0000,
                                        -0x1_0000_0000 < dy < 0x1_0000_0000,
                                ;
                                assert(estimate < 0x1_0000_0000_0000) by (nonlinear_arith)
                                    requires
                                        estimate * estimate < 0x1_0000_0000_0000
                                            * 0x1_0000_0000_0000,
                                        estimate >= 0,
                                ;
                            }
                        }
                        let pushed = State { cost: new_cost as u64 + estimate, position: neighbor };
                        proof {
                            let d = cost_entries(dist);
                            lemma_relax(
                                nodes,
                                start,
                                goal,
                                eight_way,
                                d,
                                parent_entries(came_from),
                                heap@,
                                routes,
                                position,
                                idx as int,
                                new_cost,
                                pushed,
                            );
                            lemma_potential_drop(keys, d, neighbor, new_cost);
                            routes = routes.insert(neighbor, routes[position].push(neighbor));
                        }
                        cost_map_insert(&mut dist, neighbor, new_cost);
                        heap.push(pushed);
                        parent_map_insert(&mut came_from, neighbor, position);
                    } else {
                        proof {
                            lemma_skip(
                                nodes,
                                goal,
                                eight_way,
                                cost_entries(dist),
                                heap@,
                                position,
                                idx as int,
                            );
                        }
                    }
                    idx = idx + 1;
                }
            },
            None => {},
        }
    }
    proof {
        let d = cost_entries(dist);
        assert(heap@.len() == 0);
        assert(!d.dom().contains(goal));
        assert forall|u: TilePos| #[trigger] d.dom().contains(u) implies expanded_upto(
            nodes,
            d,
            eight_way,
            u,
            nodes[u].len() as int,
        ) by {}
        assert forall|w: Seq<TilePos>| !connects(nodes, w, start, goal) by {
            if connects(nodes, w, start, goal) {
                lemma_closed_holds_walk(nodes, d, eight_way, w, w.len() - 1);
            }
        }
    }
    None
}

/// `steps` is the number of steps of some walk from `a` to `b`; in a
/// graph of four directions, of a shortest one.
pub open spec fn steps_fit(
    nodes: Map<TilePos, Seq<TilePos>>,
    eight_way: bool,
    a: TilePos,
    b: TilePos,
    steps: u32,
) -> bool {
    exists|w: Seq<TilePos>|
        #[trigger] connects(nodes, w, a, b) && w.len() == steps + 1 && (!eight_way ==> is_shortest(
            nodes,
            w,
            a,
            b,
        ))
}

/// The number of steps of the path that `find_path` finds from `start` to
/// `goal`, or nothing where `goal` cannot be reached.
pub fn path_steps(start: TilePos, goal: TilePos, graph: &NavGraph) -> (steps: Option<u32>)
    ensures
        steps.is_some() <==> reachable(graph.nodes(), start, goal),
        steps.is_some() ==> steps_fit(
            graph.nodes(),
            graph.eight_way(),
            start,
            goal,
            steps.unwrap(),
        ),
{
    match find_path(start, goal, graph) {
        Some(path) => {
            assert(connects(graph.nodes(), path@, start, goal));
            Some((path.len() - 1) as u32)
        },
        None => None,
    }
}

} // verus!