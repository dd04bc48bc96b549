//! Line of sight: the Bresenham line between two tiles, and the test that
//! no tile on it blocks the view.

use crate::arena::{ArenaConfig, ArenaGrid};
use vstd::prelude::*;

verus! {

/// The distance between two coordinates.
pub open spec fn gap(a: int, b: int) -> int {
    if a <= b {
        b - a
    } else {
        a - b
    }
}

/// The direction from coordinate `a` to coordinate `b`: 1 where `b` is
/// greater, else -1.
pub open spec fn heading(a: int, b: int) -> int {
    if a < b {
        1
    } else {
        -1
    }
}

/// The larger of two numbers.
pub open spec fn larger(a: int, b: int) -> int {
    if a >= b {
        a
    } else {
        b
    }
}

/// One step of the rasterisation of a line that spans `dx` columns and
/// `dy` rows. A state holds the steps taken so far along the columns and
/// along the rows, and the error term that decides the next step.
pub open spec fn raster_step(dx: int, dy: int, s: (int, int, int)) -> (int, int, int) {
    let step_x = 2 * s.2 >= -dy;
    let step_y = 2 * s.2 <= dx;
    (
        if step_x {
            s.0 + 1
        } else {
            s.0
        },
        if step_y {
            s.1 + 1
        } else {
            s.1
        },
        s.2 - (if step_x {
            dy
        } else {
            0
        }) + (if step_y {
            dx
        } else {
            0
        }),
    )
}

/// The state of the rasterisation after `k` steps.
pub open spec fn raster_state(dx: int, dy: int, k: nat) -> (int, int, int)
    decreases k,
{
    if k == 0 {
        (0, 0, dx - dy)
    } else {
        raster_step(dx, dy, raster_state(dx, dy, (k - 1) as nat))
    }
}

/// The tile that the line from `(x0, y0)` to `(x1, y1)` reaches after `k`
/// steps.
pub open spec fn raster_point(x0: int, y0: int, x1: int, y1: int, k: nat) -> (int, int) {
    let s = raster_state(gap(x0, x1), gap(y0, y1), k);
    (x0 + heading(x0, x1) * s.0, y0 + heading(y0, y1) * s.1)
}

/// The number of steps that the line from `(x0, y0)` to `(x1, y1)` takes.
pub open spec fn raster_steps(x0: int, y0: int, x1: int, y1: int) -> nat {
    larger(gap(x0, x1), gap(y0, y1)) as nat
}

/// The Bresenham line from `(x0, y0)` to `(x1, y1)`, both ends included.
pub open spec fn raster_line(x0: int, y0: int, x1: int, y1: int) -> Seq<(int, int)> {
    Seq::new(raster_steps(x0, y0, x1, y1) + 1, |k: int| raster_point(x0, y0, x1, y1, k as nat))
}

/// How the rasterisation proceeds: the error term is a fixed combination
/// of the steps taken, no step leaves the box between the two ends, the
/// longer side advances at every step, and after as many steps as the
/// longer side is long both ends are met.
pub proof fn lemma_raster_state(dx: int, dy: int, k: nat)
    requires
        0 <= dx,
        0 <= dy,
        k <= larger(dx, dy),
    ensures
        ({
            let s = raster_state(dx, dy, k);
            &&& s.2 == dx * (1 + s.1) - dy * (1 + s.0)
            &&& 0 <= s.0 <= dx
            &&& 0 <= s.1 <= dy
            &&& -2 * dy <= s.2 <= 2 * dx
            &&& dx >= dy ==> s.0 == k && 2 * s.2 >= -dy
            &&& dx < dy ==> s.1 == k && 2 * s.2 <= dx
            &&& k == larger(dx, dy) ==> s.0 == dx && s.1 == dy
        }),
    decreases k,
{
    if k == 0 {
        assert(dx * (1 + 0) - dy * (1 + 0) == dx - dy) by (nonlinear_arith);
    } else {
        lemma_raster_state(dx, dy, (k - 1) as nat);
        let p = raster_state(dx, dy, (k - 1) as nat);
        let s = raster_state(dx, dy, k);
        let a = p.0;
        let b = p.1;
        let e = p.2;
        let step_x = 2 * e >= -dy;
        let step_y = 2 * e <= dx;
        assert(s == raster_step(dx, dy, p));
        // the error term
        assert(dx * (1 + (b + 1)) == dx * (1 + b) + dx) by (nonlinear_arith);
        assert(dy * (1 + (a + 1)) == dy * (1 + a) + dy) by (nonlinear_arith);
        assert(s.2 == dx * (1 + s.1) - dy * (1 + s.0));
        if dx >= dy {
            assert(a == k - 1 && a < dx);
            assert(step_x);
            if step_y {
                assert(b < dy) by (nonlinear_arith)
                    requires
                        e == dx * (1 + b) - dy * (1 + a),
                        2 * e <= dx,
                        0 <= a < dx,
                        0 <= b <= dy,
                        0 <= dy <= dx,
                ;
            }
            if k == dx {
                assert(s.1 >= dy) by (nonlinear_arith)
                    requires
                        s.2 == dx * (1 + s.1) - dy * (1 + dx),
                        2 * s.2 >= -dy,
                        0 <= s.1,
                        0 <= dy <= dx,
                        dx >= 1,
                ;
            }
        } else {
            assert(b == k - 1 && b < dy);
            assert(step_y);
            if step_x {
                assert(a < dx) by (nonlinear_arith)
                    requires
                        e == dx * (1 + b) - dy * (1 + a),
                        2 * e >= -dy,
                        0 <= b < dy,
                        0 <= a <= dx,
                        0 <= dx < dy,
                ;
            }
            if k == dy {
                assert(s.0 >= dx) by (nonlinear_arith)
                    requires
                        s.2 == dx * (1 + dy) - dy * (1 + s.0),
                        2 * s.2 <= dx,
                        0 <= s.0,
                        0 <= dx < dy,
                ;
            }
        }
    }
}

fn first_error(x0: i32, y0: i32, x1: i32, y1: i32) -> (err: i64)
    ensures
        err == raster_state(gap(x0 as int, x1 as int), gap(y0 as int, y1 as int), 0).2,
{
    let dx: i64 = if x0 <= x1 {
        x1 as i64 - x0 as i64
    } else {
        x0 as i64 - x1 as i64
    };
    let dy: i64 = if y0 <= y1 {
        y0 as i64 - y1 as i64
    } else {
        y1 as i64 - y0 as i64
    };
    dx + dy
}

fn advance(
    x0: i32,
    y0: i32,
    x1: i32,
    y1: i32,
    at: (i64, i64, i64),
    Ghost(k): Ghost<nat>,
) -> (next: (i64, i64, i64))
    requires
        k <= raster_steps(x0 as int, y0 as int, x1 as int, y1 as int),
        (at.0 as int, at.1 as int) == raster_point(x0 as int, y0 as int, x1 as int, y1 as int, k),
        at.2 == raster_state(gap(x0 as int, x1 as int), gap(y0 as int, y1 as int), k).2,
        !(at.0 == x1 && at.1 == y1),
    ensures
        k < raster_steps(x0 as int, y0 as int, x1 as int, y1 as int),
        (next.0 as int, next.1 as int) == raster_point(
            x0 as int,
            y0 as int,
            x1 as int,
            y1 as int,
            k + 1,
        ),
        next.2 == raster_state(gap(x0 as int, x1 as int), gap(y0 as int, y1 as int), k + 1).2,
        i32::MIN <= next.0 <= i32::MAX,
        i32::MIN <= next.1 <= i32::MAX,
{
    let ghost span_x = gap(x0 as int, x1 as int);
    let ghost span_y = gap(y0 as int, y1 as int);
    let ghost s = raster_state(span_x, span_y, k);
    let ghost t = raster_state(span_x, span_y, k + 1);
    proof {
        lemma_raster_state(span_x, span_y, k);
        lemma_signed_steps(x0 as int, x1 as int, s.0);
        lemma_signed_steps(y0 as int, y1 as int, s.1);
        if k < raster_steps(x0 as int, y0 as int, x1 as int, y1 as int) {
            lemma_raster_state(span_x, span_y, k + 1);
            assert(t == raster_step(span_x, span_y, s));
            lemma_signed_steps(x0 as int, x1 as int, t.0);
            lemma_signed_steps(y0 as int, y1 as int, t.1);
        }
    }
    let dx: i64 = if x0 <= x1 {
        x1 as i64 - x0 as i64
    } else {
        x0 as i64 - x1 as i64
    };
    let dy: i64 = if y0 <= y1 {
        y0 as i64 - y1 as i64
    } else {
        y1 as i64 - y0 as i64
    };
    let sx: i64 = if x0 < x1 {
        1
    } else {
        -1
    };
    let sy: i64 = if y0 < y1 {
        1
    } else {
        -1
    };
    let mut x = at.0;
    let mut y = at.1;
    let mut err = at.2;
    let e2: i64 = 2 * err;
    if e2 >= dy {
        err = err + dy;
        x = x + sx;
    }
    if e2 <= dx {
        err = err + dx;
        y = y + sy;
    }
    (x, y, err)
}

proof fn lemma_signed_steps(a: int, b: int, n: int)
    ensures
        heading(a, b) * n == (if a < b {
            n
        } else {
            -n
        }),
{
    assert(heading(a, b) * n == (if a < b {
        n
    } else {
        -n
    })) by (nonlinear_arith)
        requires
            heading(a, b) == (if a < b {
                1int
            } else {
                -1int
            }),
    ;
}

/// Rasterises the segment from `(x0, y0)` to `(x1, y1)` with Bresenham's
/// algorithm and returns its tiles in order, both ends included.
pub fn get_line(x0: i32, y0: i32, x1: i32, y1: i32) -> (points: Vec<(i32, i32)>)
    ensures
        points@.len() == raster_line(x0 as int, y0 as int, x1 as int, y1 as int).len(),
        forall|k: int|
            0 <= k < points@.len() ==> ((#[trigger] points@[k]).0 as int, points@[k].1 as int)
                == raster_line(x0 as int, y0 as int, x1 as int, y1 as int)[k],
{
    let mut points: Vec<(i32, i32)> = Vec::new();
    let mut at: (i64, i64, i64) = (x0 as i64, y0 as i64, first_error(x0, y0, x1, y1));
    let ghost steps = raster_steps(x0 as int, y0 as int, x1 as int, y1 as int);
    let ghost mut k: nat = 0;
    proof {
        lemma_signed_steps(x0 as int, x1 as int, 0);
        lemma_signed_steps(y0 as int, y1 as int, 0);
    }
    loop
        invariant_except_break
            k <= steps,
            points@.len() == k,
            (at.0 as int, at.1 as int) == raster_point(
                x0 as int,
                y0 as int,
                x1 as int,
                y1 as int,
                k,
            ),
            at.2 == raster_state(gap(x0 as int, x1 as int), gap(y0 as int, y1 as int), k).2,
            i32::MIN <= at.0 <= i32::MAX,
            i32::MIN <= at.1 <= i32::MAX,
        invariant
            steps == raster_steps(x0 as int, y0 as int, x1 as int, y1 as int),
            forall|j: int|
                0 <= j < points@.len() && j <= steps ==> ((#[trigger] points@[j]).0 as int,
                    points@[j].1 as int) == raster_point(
                    x0 as int,
                    y0 as int,
                    x1 as int,
                    y1 as int,
                    j as nat,
                ),
        ensures
            points@.len() == steps + 1,
        decreases steps - k,
    {
        points.push((at.0 as i32, at.1 as i32));
        if at.0 == x1 as i64 && at.1 == y1 as i64 {
            proof {
                lemma_line_ends(x0 as int, y0 as int, x1 as int, y1 as int, k);
            }
            break ;
        }
        at = advance(x0, y0, x1, y1, at, Ghost(k));
        proof {
            k = k + 1;
        }
    }
    points
}

/// The line meets its far end after exactly as many steps as its longer
/// side is long, and not before.
pub proof fn lemma_line_ends(x0: int, y0: int, x1: int, y1: int, k: nat)
    requires
        k <= raster_steps(x0, y0, x1, y1),
    ensures
        raster_point(x0, y0, x1, y1, k) == (x1, y1) <==> k == raster_steps(x0, y0, x1, y1),
{
    let s = raster_state(gap(x0, x1), gap(y0, y1), k);
    lemma_raster_state(gap(x0, x1), gap(y0, y1), k);
    lemma_signed_steps(x0, x1, s.0);
    lemma_signed_steps(y0, y1, s.1);
}

/// The tile `p` lies inside the arena and holds no occupant.
pub open spec fn tile_open(config: ArenaConfig, grid: ArenaGrid, p: (int, int)) -> bool {
    config.in_bounds(p.0, p.1) && !grid.occupants().dom().contains((p.0 as u32, p.1 as u32))
}

/// Every tile of the line from `(x0, y0)` to `(x1, y1)`, the first one
/// left aside, lies inside the arena and holds no occupant.
pub open spec fn sight_clear(
    config: ArenaConfig,
    grid: ArenaGrid,
    x0: int,
    y0: int,
    x1: int,
    y1: int,
) -> bool {
    forall|k: int|
        0 <= k < raster_line(x0, y0, x1, y1).len() && raster_line(x0, y0, x1, y1)[k] != (x0, y0)
            ==> tile_open(config, grid, #[trigger] raster_line(x0, y0, x1, y1)[k])
}

/// Tells whether the tile `end` can be seen from the tile `start`: the
/// view is blocked exactly when a tile of the rasterised segment between
/// them, the start tile left aside, lies outside the arena or holds an
/// occupant.
pub fn has_line_of_sight(
    start: (i32, i32),
    end: (i32, i32),
    config: &ArenaConfig,
    grid: &ArenaGrid,
) -> (clear: bool)
    ensures
        clear == sight_clear(
            *config,
            *grid,
            start.0 as int,
            start.1 as int,
            end.0 as int,
            end.1 as int,
        ),
{
    let x0 = start.0;
    let y0 = start.1;
    let x1 = end.0;
    let y1 = end.1;
    let ghost steps = raster_steps(x0 as int, y0 as int, x1 as int, y1 as int);
    let ghost line = raster_line(x0 as int, y0 as int, x1 as int, y1 as int);
    let mut at: (i64, i64, i64) = (x0 as i64, y0 as i64, first_error(x0, y0, x1, y1));
    let ghost mut k: nat = 0;
    proof {
        lemma_signed_steps(x0 as int, x1 as int, 0);
        lemma_signed_steps(y0 as int, y1 as int, 0);
    }
    loop
        invariant
            k <= steps,
            steps == raster_steps(x0 as int, y0 as int, x1 as int, y1 as int),
            line == raster_line(x0 as int, y0 as int, x1 as int, y1 as int),
            x0 == start.0 && y0 == start.1 && x1 == end.0 && y1 == end.1,
            (at.0 as int, at.1 as int) == raster_point(
                x0 as int,
                y0 as int,
                x1 as int,
                y1 as int,
                k,
            ),
            at.2 == raster_state(gap(x0 as int, x1 as int), gap(y0 as int, y1 as int), k).2,
            i32::MIN <= at.0 <= i32::MAX,
            i32::MIN <= at.1 <= i32::MAX,
            forall|j: int|
                0 <= j < k && line[j] != (x0 as int, y0 as int) ==> tile_open(
                    *config,
                    *grid,
                    #[trigger] line[j],
                ),
        decreases steps - k,
    {
        assert(line[k as int] == (at.0 as int, at.1 as int));
        if !(at.0 == x0 as i64 && at.1 == y0 as i64) {
            if !config.contains(at.0, at.1) {
                return false;
            }
            if grid.is_occupied(at.0 as u32, at.1 as u32) {
                return false;
            }
        }
        if at.0 == x1 as i64 && at.1 == y1 as i64 {
            proof {
                lemma_line_ends(x0 as int, y0 as int, x1 as int, y1 as int, k);
            }
            return true;
        }
        at = advance(x0, y0, x1, y1, at, Ghost(k));
        proof {
            k = k + 1;
        }
    }
}

/// The line from `(x1, y1)` back to `(x0, y0)` visits the tiles of the line
/// from `(x0, y0)` to `(x1, y1)` in reverse order.
pub open spec fn line_mirrored(x0: int, y0: int, x1: int, y1: int) -> bool {
    forall|k: int|
        0 <= k <= raster_steps(x0, y0, x1, y1) ==> #[trigger] raster_point(x1, y1, x0, y0, k as nat)
            == raster_point(x0, y0, x1, y1, (raster_steps(x0, y0, x1, y1) - k) as nat)
}

proof fn lemma_diagonal_state(d: int, k: nat)
    requires
        0 <= d,
    ensures
        raster_state(d, d, k) == (k as int, k as int, 0int),
    decreases k,
{
    if k > 0 {
        lemma_diagonal_state(d, (k - 1) as nat);
    }
}

/// Along a row, along a column and along an exact diagonal the line back
/// visits the same tiles as the line forth.
pub proof fn lemma_straight_lines_mirror(x0: int, y0: int, x1: int, y1: int)
    requires
        x0 == x1 || y0 == y1 || gap(x0, x1) == gap(y0, y1),
    ensures
        line_mirrored(x0, y0, x1, y1),
{
    let dx = gap(x0, x1);
    let dy = gap(y0, y1);
    let n = raster_steps(x0, y0, x1, y1);
    assert(gap(x1, x0) == dx && gap(y1, y0) == dy);
    assert forall|k: int| 0 <= k <= n implies #[trigger] raster_point(x1, y1, x0, y0, k as nat)
        == raster_point(x0, y0, x1, y1, (n - k) as nat) by {
        let s = raster_state(dx, dy, k as nat);
        let t = raster_state(dx, dy, (n - k) as nat);
        lemma_raster_state(dx, dy, k as nat);
        lemma_raster_state(dx, dy, (n - k) as nat);
        if dx == dy {
            lemma_diagonal_state(dx, k as nat);
            lemma_diagonal_state(dx, (n - k) as nat);
        }
        assert(s.0 + t.0 == dx && s.1 + t.1 == dy);
        assert(heading(x1, x0) * s.0 == (if x1 < x0 {
            s.0
        } else {
            -s.0
        })) by (nonlinear_arith);
        assert(heading(y1, y0) * s.1 == (if y1 < y0 {
            s.1
        } else {
            -s.1
        })) by (nonlinear_arith);
        assert(heading(x0, x1) * t.0 == (if x0 < x1 {
            t.0
        } else {
            -t.0
        })) by (nonlinear_arith);
        assert(heading(y0, y1) * t.1 == (if y0 < y1 {
            t.1
        } else {
            -t.1
        })) by (nonlinear_arith);
    }
}

/// The rasterisation of a line that spans `dx` columns and `dy` rows is
/// that of the line that spans `dy` columns and `dx` rows with the two
/// axes exchanged and the error term negated.
pub proof fn lemma_raster_transpose(dx: int, dy: int, k: nat)
    ensures
        raster_state(dy, dx, k) == (
            raster_state(dx, dy, k).1,
            raster_state(dx, dy, k).0,
            -raster_state(dx, dy, k).2,
        ),
    decreases k,
{
    if k > 0 {
        lemma_raster_transpose(dx, dy, (k - 1) as nat);
    }
}

/// After `k` steps the line passes exactly midway between two tiles: the
/// error term stands at the value at which the side step was taken on a
/// tie.
pub open spec fn tie_at(dx: int, dy: int, k: nat) -> bool {
    if dx <= 0 && dy <= 0 {
        false
    } else if dx >= dy {
        2 * raster_state(dx, dy, k).2 == 3 * dx - 2 * dy
    } else {
        -2 * raster_state(dx, dy, k).2 == 3 * dy - 2 * dx
    }
}

/// Somewhere along its way the line passes exactly midway between two
/// tiles.
pub open spec fn has_tie(dx: int, dy: int) -> bool {
    exists|k: nat| k <= larger(dx, dy) && #[trigger] tie_at(dx, dy, k)
}

proof fn lemma_error_range(dx: int, dy: int, k: nat)
    requires
        0 <= dy <= dx,
        0 < dx,
        k <= dx,
    ensures
        dx - 2 * dy < 2 * raster_state(dx, dy, k).2 <= 3 * dx - 2 * dy,
    decreases k,
{
    if k > 0 {
        lemma_error_range(dx, dy, (k - 1) as nat);
        lemma_raster_state(dx, dy, (k - 1) as nat);
        assert(raster_state(dx, dy, k) == raster_step(dx, dy, raster_state(dx, dy, (k - 1) as nat)));
    }
}

proof fn lemma_side_steps_mirror(dx: int, dy: int, k: nat)
    requires
        0 <= dy <= dx,
        k <= dx,
        !tie_at(dx, dy, k),
    ensures
        raster_state(dx, dy, k).0 + raster_state(dx, dy, (dx - k) as nat).0 == dx,
        raster_state(dx, dy, k).1 + raster_state(dx, dy, (dx - k) as nat).1 == dy,
{
    let s = raster_state(dx, dy, k);
    let t = raster_state(dx, dy, (dx - k) as nat);
    lemma_raster_state(dx, dy, k);
    lemma_raster_state(dx, dy, (dx - k) as nat);
    if dx > 0 {
        lemma_error_range(dx, dy, k);
        lemma_error_range(dx, dy, (dx - k) as nat);
        let b = s.1 + t.1;
        assert(2 * s.2 + 2 * t.2 == 2 * dx * (2 + b) - 2 * dy * (2 + dx)) by (nonlinear_arith)
            requires
                s.2 == dx * (1 + s.1) - dy * (1 + s.0),
                t.2 == dx * (1 + t.1) - dy * (1 + t.0),
                s.0 + t.0 == dx,
                b == s.1 + t.1,
        ;
        assert(b == dy) by (nonlinear_arith)
            requires
                2 * s.2 + 2 * t.2 == 2 * dx * (2 + b) - 2 * dy * (2 + dx),
                2 * dx - 4 * dy < 2 * s.2 + 2 * t.2 < 6 * dx - 4 * dy,
                dx > 0,
        ;
    }
}

/// A line that nowhere passes exactly midway between two tiles visits the
/// same tiles forth and back.
pub proof fn lemma_no_tie_mirrors(x0: int, y0: int, x1: int, y1: int)
    requires
        !has_tie(gap(x0, x1), gap(y0, y1)),
    ensures
        line_mirrored(x0, y0, x1, y1),
{
    let dx = gap(x0, x1);
    let dy = gap(y0, y1);
    let n = raster_steps(x0, y0, x1, y1);
    assert(gap(x1, x0) == dx && gap(y1, y0) == dy);
    assert forall|k: int| 0 <= k <= n implies #[trigger] raster_point(x1, y1, x0, y0, k as nat)
        == raster_point(x0, y0, x1, y1, (n - k) as nat) by {
        let s = raster_state(dx, dy, k as nat);
        let t = raster_state(dx, dy, (n - k) as nat);
        assert(!tie_at(dx, dy, k as nat));
        lemma_raster_state(dx, dy, k as nat);
        lemma_raster_state(dx, dy, (n - k) as nat);
        if dx >= dy {
            lemma_side_steps_mirror(dx, dy, k as nat);
        } else {
            lemma_raster_transpose(dx, dy, k as nat);
            lemma_raster_transpose(dx, dy, (n - k) as nat);
            lemma_side_steps_mirror(dy, dx, k as nat);
        }
        assert(s.0 + t.0 == dx && s.1 + t.1 == dy);
        lemma_signed_steps(x1, x0, s.0);
        lemma_signed_steps(y1, y0, s.1);
        lemma_signed_steps(x0, x1, t.0);
        lemma_signed_steps(y0, y1, t.1);
    }
}

proof fn lemma_tie_shifts_side_steps(dx: int, dy: int, k: nat)
    requires
        0 <= dy <= dx,
        k <= dx,
        tie_at(dx, dy, k),
    ensures
        raster_state(dx, dy, k).0 + raster_state(dx, dy, (dx - k) as nat).0 == dx,
        raster_state(dx, dy, k).1 + raster_state(dx, dy, (dx - k) as nat).1 != dy,
{
    let s = raster_state(dx, dy, k);
    let t = raster_state(dx, dy, (dx - k) as nat);
    lemma_raster_state(dx, dy, k);
    lemma_raster_state(dx, dy, (dx - k) as nat);
    if dx > 0 {
        lemma_error_range(dx, dy, (dx - k) as nat);
        let b = s.1 + t.1;
        assert(2 * s.2 + 2 * t.2 == 2 * dx * (2 + b) - 2 * dy * (2 + dx)) by (nonlinear_arith)
            requires
                s.2 == dx * (1 + s.1) - dy * (1 + s.0),
                t.2 == dx * (1 + t.1) - dy * (1 + t.0),
                s.0 + t.0 == dx,
                b == s.1 + t.1,
        ;
        if b == dy {
            assert(2 * dx * (2 + b) - 2 * dy * (2 + dx) == 4 * dx - 4 * dy) by (nonlinear_arith)
                requires
                    b == dy,
            ;
        }
    }
}

/// A line that somewhere passes exactly midway between two tiles visits
/// one tile forth and another back.
pub proof fn lemma_tie_breaks_mirror(x0: int, y0: int, x1: int, y1: int)
    requires
        has_tie(gap(x0, x1), gap(y0, y1)),
    ensures
        !line_mirrored(x0, y0, x1, y1),
{
    let dx = gap(x0, x1);
    let dy = gap(y0, y1);
    let n = raster_steps(x0, y0, x1, y1);
    assert(gap(x1, x0) == dx && gap(y1, y0) == dy);
    let k = choose|k: nat| k <= larger(dx, dy) && #[trigger] tie_at(dx, dy, k);
    let s = raster_state(dx, dy, k);
    let t = raster_state(dx, dy, (n - k) as nat);
    lemma_raster_state(dx, dy, k);
    lemma_raster_state(dx, dy, (n - k) as nat);
    if dx >= dy {
        lemma_tie_shifts_side_steps(dx, dy, k);
    } else {
        lemma_raster_transpose(dx, dy, k);
        lemma_raster_transpose(dx, dy, (n - k) as nat);
        lemma_tie_shifts_side_steps(dy, dx, k);
    }
    lemma_signed_steps(x1, x0, s.0);
    lemma_signed_steps(y1, y0, s.1);
    lemma_signed_steps(x0, x1, t.0);
    lemma_signed_steps(y0, y1, t.1);
    let i = k as int;
    assert(0 <= i <= n);
    assert(raster_point(x1, y1, x0, y0, i as nat) != raster_point(
        x0,
        y0,
        x1,
        y1,
        (n - i) as nat,
    ));
}

/// A line whose longer side is odd never passes exactly midway between two
/// tiles.
pub proof fn lemma_odd_side_has_no_tie(dx: int, dy: int)
    requires
        larger(dx, dy) % 2 == 1,
    ensures
        !has_tie(dx, dy),
{
    assert forall|k: nat| k <= larger(dx, dy) implies !#[trigger] tie_at(dx, dy, k) by {
        let e = raster_state(dx, dy, k).2;
        if dx >= dy {
            assert(2 * e != 3 * dx - 2 * dy) by {
                assert((2 * e) % 2 == 0);
                assert((3 * dx - 2 * dy) % 2 == 1);
            }
        } else {
            assert(-2 * e != 3 * dy - 2 * dx) by {
                assert((-2 * e) % 2 == 0);
                assert((3 * dy - 2 * dx) % 2 == 1);
            }
        }
    }
}

/// Line of sight is symmetric wherever the line back visits the tiles of
/// the line forth and the two end tiles are both open or both blocked:
/// then each end sees the other or neither does. (A view skips the tile it
/// starts from but not the one it ends on, and the two rasterisations of a
/// slanted segment differ where the segment passes exactly midway between
/// two tiles; on such inputs the two views can differ.)
pub proof fn lemma_sight_symmetric(
    config: ArenaConfig,
    grid: ArenaGrid,
    x0: int,
    y0: int,
    x1: int,
    y1: int,
)
    requires
        line_mirrored(x0, y0, x1, y1),
        tile_open(config, grid, (x0, y0)) == tile_open(config, grid, (x1, y1)),
    ensures
        sight_clear(config, grid, x0, y0, x1, y1) == sight_clear(config, grid, x1, y1, x0, y0),
{
    let n = raster_steps(x0, y0, x1, y1);
    let forth = raster_line(x0, y0, x1, y1);
    let back = raster_line(x1, y1, x0, y0);
    assert(raster_steps(x1, y1, x0, y0) == n);
    lemma_raster_state(gap(x0, x1), gap(y0, y1), n);
    lemma_raster_state(gap(x0, x1), gap(y0, y1), 0);
    assert(heading(x0, x1) * gap(x0, x1) == x1 - x0) by (nonlinear_arith);
    assert(heading(y0, y1) * gap(y0, y1) == y1 - y0) by (nonlinear_arith);
    assert(forth[n as int] == (x1, y1));
    assert(forth[0] == (x0, y0));
    assert forall|k: int| 0 <= k <= n implies back[k] == forth[n - k] by {
        assert(raster_point(x1, y1, x0, y0, k as nat) == raster_point(
            x0,
            y0,
            x1,
            y1,
            (n - k) as nat,
        ));
    }
    if sight_clear(config, grid, x0, y0, x1, y1) {
        assert forall|k: int| 0 <= k < back.len() && back[k] != (x1, y1) implies tile_open(
            config,
            grid,
            #[trigger] back[k],
        ) by {
            assert(back[k] == forth[n - k]);
            if forth[n - k] == (x0, y0) {
                assert((x0, y0) != (x1, y1));
                assert(tile_open(config, grid, forth[n as int]));
            } else {
                assert(tile_open(config, grid, forth[n - k]));
            }
        }
    }
    if sight_clear(config, grid, x1, y1, x0, y0) {
        assert forall|k: int| 0 <= k < forth.len() && forth[k] != (x0, y0) implies tile_open(
            config,
            grid,
            #[trigger] forth[k],
        ) by {
            assert(back[n - k] == forth[n - (n - k)]);
            if forth[k] == (x1, y1) {
                assert((x0, y0) != (x1, y1));
                assert(back[n as int] == forth[0]);
                assert(tile_open(config, grid, back[n as int]));
            } else {
                assert(tile_open(config, grid, back[n - k]));
            }
        }
    }
}

/// Line of sight is symmetric for every pair of tiles whose segment
/// nowhere passes exactly midway between two tiles, and whose end tiles
/// are both open or both blocked.
pub proof fn lemma_line_of_sight_symmetric(
    config: ArenaConfig,
    grid: ArenaGrid,
    x0: int,
    y0: int,
    x1: int,
    y1: int,
)
    requires
        !has_tie(gap(x0, x1), gap(y0, y1)),
        tile_open(config, grid, (x0, y0)) == tile_open(config, grid, (x1, y1)),
    ensures
        sight_clear(config, grid, x0, y0, x1, y1) == sight_clear(config, grid, x1, y1, x0, y0),
{
    lemma_no_tie_mirrors(x0, y0, x1, y1);
    lemma_sight_symmetric(config, grid, x0, y0, x1, y1);
}

} // verus!
