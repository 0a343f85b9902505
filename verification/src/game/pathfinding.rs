use vstd::prelude::*;

use crate::game::priority::{
    lemma_sqrt_sum_less_irreflexive, lemma_sqrt_sum_less_transitive, lemma_within_order,
};
use crate::net::protocol::objects::{MapDefinition, MapView, RectWall};

verus! {

/// Side of a path-finding cell in map units: the map is discretised into
/// square cells of this size.
pub const GRID_SIZE: i64 = 40;

/// Most nodes the search expands before it gives up.
pub const MAX_EXPANSIONS: u64 = 500;

/// A cell of the path-finding grid; cell `(x, y)` covers the map square
/// `[40x, 40x + 40] x [40y, 40y + 40]`.
#[derive(Debug, Clone, Copy, PartialEq, Eq, Structural)]
pub struct GridPos {
    pub x: i32,
    pub y: i32,
}

/// The cell is not fully inside the map.
pub open spec fn cell_outside_map(pos: GridPos, map: MapView) -> bool {
    ||| pos.x * GRID_SIZE < 0
    ||| pos.y * GRID_SIZE < 0
    ||| pos.x * GRID_SIZE + GRID_SIZE > map.width
    ||| pos.y * GRID_SIZE + GRID_SIZE > map.height
}

/// The interiors of the cell and of the wall intersect.
pub open spec fn cell_overlaps_wall(pos: GridPos, w: RectWall) -> bool {
    &&& pos.x * GRID_SIZE < w.max.x
    &&& pos.x * GRID_SIZE + GRID_SIZE > w.min.x
    &&& pos.y * GRID_SIZE < w.max.y
    &&& pos.y * GRID_SIZE + GRID_SIZE > w.min.y
}

/// A cell cannot be walked through: it leaves the map or touches a wall.
#[verifier::opaque]
pub open spec fn cell_blocked(pos: GridPos, map: MapView) -> bool {
    ||| cell_outside_map(pos, map)
    ||| exists|i: int| 0 <= i < map.walls.len() && #[trigger] cell_overlaps_wall(pos, map.walls[i])
}

/// Two cells share a side.
pub open spec fn adjacent(a: GridPos, b: GridPos) -> bool {
    ||| (a.x == b.x && (a.y - b.y == 1 || b.y - a.y == 1))
    ||| (a.y == b.y && (a.x - b.x == 1 || b.x - a.x == 1))
}

/// `path` leads from `start` (not included) to `end` (included) through free
/// cells, one side-step at a time, never visiting a cell twice nor coming back
/// to `start`. The empty path is the walk from a cell to itself.
pub open spec fn is_walk(start: GridPos, end: GridPos, path: Seq<GridPos>, map: MapView) -> bool {
    &&& path.len() == 0 ==> start == end
    &&& path.len() > 0 ==> adjacent(start, path[0]) && path.last() == end
    &&& forall|i: int| 0 <= i < path.len() - 1 ==> adjacent(#[trigger] path[i], path[i + 1])
    &&& forall|i: int| 0 <= i < path.len() ==> !cell_blocked(#[trigger] path[i], map)
    &&& forall|i: int| 0 <= i < path.len() ==> #[trigger] path[i] != start
    &&& forall|i: int, j: int| 0 <= i < j < path.len() ==> #[trigger] path[i] != #[trigger] path[j]
}

/// Squared Euclidean distance between two cells.
pub open spec fn dist_sq(a: GridPos, b: GridPos) -> int {
    (a.x - b.x) * (a.x - b.x) + (a.y - b.y) * (a.y - b.y)
}

/// `g1 + sqrt(d1) < g2 + sqrt(d2)` for `d1, d2 >= 0`, decided exactly in the
/// integers: with `c = g2 - g1`, both sides are squared (once or twice) after
/// moving the constant to the side where everything is non-negative.
pub open spec fn sqrt_sum_less(g1: int, d1: int, g2: int, d2: int) -> bool {
    let c = g2 - g1;
    if c >= 0 {
        let m = d1 - d2 - c * c;
        m < 0 || m * m < 4 * c * c * d2
    } else {
        let e = -c;
        let n = d2 - e * e - d1;
        n > 0 && n * n > 4 * e * e * d1
    }
}

/// The (cell, cost) pairs the search can expand before it reaches the goal
/// when a walk of `l` steps leads there: the start or a free cell, with a cost
/// `g` such that `g + sqrt(dist_sq(cell, end)) <= l`.
pub open spec fn search_pairs(start: GridPos, end: GridPos, map: MapView, l: int) -> Set<
    (GridPos, int),
> {
    Set::new(
        |e: (GridPos, int)|
            0 <= e.1 <= l && dist_sq(e.0, end) <= (l - e.1) * (l - e.1) && (e.0 == start
                || !cell_blocked(e.0, map)),
    )
}

/// Largest squared distance between two cells that lie inside a map.
pub open spec fn max_dist_sq() -> int {
    0x40_0000_0000_0000
}

/// A node of the open set: the cell, its cost `g` from the start when it was
/// queued, the squared distance `d` from the cell to the goal, and the index
/// of the cell's record in the search table. Its priority is `g + sqrt(d)`.
struct OpenNode {
    g: u64,
    d: u64,
    pos: GridPos,
    idx: usize,
}

/// What the search knows of a reached cell: its best cost so far and the
/// index (in the table) of the cell it was reached from.
struct Visit {
    pos: GridPos,
    cost: u64,
    parent: usize,
}

/// The search table: the start at index 0 with cost 0, every cell at most
/// once, and every other cell free, reached from an adjacent cell of smaller
/// cost.
spec fn table_inv(t: Seq<Visit>, start: GridPos, map: MapView, bound: int) -> bool {
    &&& t.len() > 0
    &&& t[0].pos == start
    &&& t[0].cost == 0
    &&& forall|i: int| 0 <= i < t.len() ==> (#[trigger] t[i]).cost <= bound
    &&& forall|i: int, j: int| 0 <= i < j < t.len() ==> (#[trigger] t[i]).pos != (#[trigger] t[j]).pos
    &&& forall|i: int|
        #![trigger t[i].parent]
        0 < i < t.len() ==> {
            &&& t[i].parent < t.len()
            &&& t[t[i].parent as int].cost < t[i].cost
            &&& adjacent(t[t[i].parent as int].pos, t[i].pos)
            &&& !cell_blocked(t[i].pos, map)
        }
}

/// Every queued node points at the table record of its cell.
spec fn open_inv(o: Seq<OpenNode>, t: Seq<Visit>, bound: int) -> bool {
    forall|k: int|
        #![trigger o[k]]
        0 <= k < o.len() ==> {
            &&& o[k].idx < t.len()
            &&& t[o[k].idx as int].pos == o[k].pos
            &&& o[k].g <= bound
            &&& o[k].d <= max_dist_sq()
        }
}

/// A free cell lies inside the map, so its coordinates are small.
proof fn lemma_free_cell_in_range(pos: GridPos, map: MapView)
    requires
        !cell_blocked(pos, map),
        map.width <= i32::MAX,
        map.height <= i32::MAX,
    ensures
        0 <= pos.x < 0x400_0000,
        0 <= pos.y < 0x400_0000,
{
    reveal(cell_blocked);
}

/// Squared distance between two free cells.
fn dist_sq_free(a: GridPos, b: GridPos, Ghost(map): Ghost<MapView>) -> (d: u64)
    requires
        !cell_blocked(a, map),
        !cell_blocked(b, map),
        map.width <= i32::MAX,
        map.height <= i32::MAX,
    ensures
        d == dist_sq(a, b),
        d <= max_dist_sq(),
{
    proof {
        lemma_free_cell_in_range(a, map);
        lemma_free_cell_in_range(b, map);
    }
    let dx: i64 = a.x as i64 - b.x as i64;
    let dy: i64 = a.y as i64 - b.y as i64;
    assert(dx * dx <= 0x10_0000_0000_0000) by (nonlinear_arith)
        requires
            -0x400_0000 <= dx <= 0x400_0000,
    ;
    assert(dy * dy <= 0x10_0000_0000_0000) by (nonlinear_arith)
        requires
            -0x400_0000 <= dy <= 0x400_0000,
    ;
    assert(dx * dx >= 0 && dy * dy >= 0) by (nonlinear_arith);
    (dx * dx + dy * dy) as u64
}

/// Decides `sqrt_sum_less` for the small values the search produces.
fn priority_less(g1: u64, d1: u64, g2: u64, d2: u64) -> (b: bool)
    requires
        g1 <= 1024,
        g2 <= 1024,
        d1 <= max_dist_sq(),
        d2 <= max_dist_sq(),
    ensures
        b == sqrt_sum_less(g1 as int, d1 as int, g2 as int, d2 as int),
{
    let c: i128 = g2 as i128 - g1 as i128;
    let d1i: i128 = d1 as i128;
    let d2i: i128 = d2 as i128;
    if c >= 0 {
        assert(c * c <= 0x10_0000) by (nonlinear_arith)
            requires
                0 <= c <= 1024,
        ;
        assert(c * c >= 0) by (nonlinear_arith);
        let m: i128 = d1i - d2i - c * c;
        if m < 0 {
            true
        } else {
            assert(m * m <= 0x1000_0000_0000_0000_0000_0000_0000) by (nonlinear_arith)
                requires
                    0 <= m <= 0x40_0000_0000_0000,
            ;
            assert(4 * (c * c) * d2i <= 0x1000_0000_0000_0000_0000_0000_0000) by (nonlinear_arith)
                requires
                    0 <= c * c <= 0x10_0000,
                    0 <= d2i <= 0x40_0000_0000_0000,
            ;
            assert(4 * (c * c) * d2i == 4 * c * c * d2i) by (nonlinear_arith);
            m * m < 4 * (c * c) * d2i
        }
    } else {
        let e: i128 = -c;
        assert(e * e <= 0x10_0000) by (nonlinear_arith)
            requires
                0 < e <= 1024,
        ;
        assert(e * e >= 0) by (nonlinear_arith);
        let n: i128 = d2i - e * e - d1i;
        if n <= 0 {
            false
        } else {
            assert(n * n <= 0x1000_0000_0000_0000_0000_0000_0000) by (nonlinear_arith)
                requires
                    0 < n <= 0x40_0000_0000_0000,
            ;
            assert(4 * (e * e) * d1i <= 0x1000_0000_0000_0000_0000_0000_0000) by (nonlinear_arith)
                requires
                    0 <= e * e <= 0x10_0000,
                    0 <= d1i <= 0x40_0000_0000_0000,
            ;
            assert(4 * (e * e) * d1i == 4 * e * e * d1i) by (nonlinear_arith);
            n * n > 4 * (e * e) * d1i
        }
    }
}

/// Whether node `a` has a strictly smaller priority than node `b`.
spec fn node_less(a: OpenNode, b: OpenNode) -> bool {
    sqrt_sum_less(a.g as int, a.d as int, b.g as int, b.d as int)
}

/// The node a left-to-right scan of the first `k` nodes settles on: the first
/// node, replaced by every later node of strictly smaller priority than the
/// node held so far.
spec fn scan_best(o: Seq<OpenNode>, k: int) -> int
    decreases k,
{
    if k <= 1 {
        0
    } else {
        let b = scan_best(o, k - 1);
        if node_less(o[k - 1], o[b]) {
            k - 1
        } else {
            b
        }
    }
}

/// Index of the node the search expands next: scanning left to right, the
/// best node seen so far is replaced by any later node of strictly smaller
/// priority.
fn index_of_min(open: &Vec<OpenNode>) -> (m: usize)
    requires
        open@.len() > 0,
        forall|k: int|
            0 <= k < open@.len() ==> (#[trigger] open@[k]).g <= 1024 && open@[k].d <= max_dist_sq(),
    ensures
        m == scan_best(open@, open@.len() as int),
        m < open@.len(),
        forall|j: int| 0 <= j < open@.len() ==> !node_less(#[trigger] open@[j], open@[m as int]),
{
    let mut best: usize = 0;
    let mut k: usize = 1;
    proof {
        lemma_sqrt_sum_less_irreflexive(open@[0].g as int, open@[0].d as int);
    }
    while k < open.len()
        invariant
            best < k,
            best == scan_best(open@, k as int),
            forall|j: int| 0 <= j < k ==> !node_less(#[trigger] open@[j], open@[best as int]),
            1 <= k <= open@.len(),
            forall|j: int|
                0 <= j < open@.len() ==> (#[trigger] open@[j]).g <= 1024 && open@[j].d
                    <= max_dist_sq(),
        decreases open@.len() - k,
    {
        if priority_less(open[k].g, open[k].d, open[best].g, open[best].d) {
            proof {
                let b = open@[best as int];
                let n = open@[k as int];
                lemma_sqrt_sum_less_irreflexive(n.g as int, n.d as int);
                assert forall|j: int| 0 <= j < k implies !node_less(#[trigger] open@[j], n) by {
                    let a = open@[j];
                    if node_less(a, n) {
                        lemma_sqrt_sum_less_transitive(
                            a.g as int,
                            a.d as int,
                            n.g as int,
                            n.d as int,
                            b.g as int,
                            b.d as int,
                        );
                    }
                }
            }
            best = k;
        }
        k += 1;
    }
    best
}

/// Index of the table record of `pos`, if there is one.
fn find_visit(table: &Vec<Visit>, pos: GridPos) -> (r: Option<usize>)
    ensures
        match r {
            Some(i) => i < table@.len() && table@[i as int].pos == pos,
            None => forall|i: int| 0 <= i < table@.len() ==> (#[trigger] table@[i]).pos != pos,
        },
{
    let mut i: usize = 0;
    while i < table.len()
        invariant
            i <= table@.len(),
            forall|j: int| 0 <= j < i ==> (#[trigger] table@[j]).pos != pos,
        decreases table@.len() - i,
    {
        if table[i].pos == pos {
            return Some(i);
        }
        i += 1;
    }
    None
}

/// Whether the cell leaves the map or overlaps a wall.
pub fn is_cell_blocked(pos: GridPos, map: &MapDefinition) -> (b: bool)
    ensures
        b == cell_blocked(pos, map@),
{
    reveal(cell_blocked);
    let min_x: i64 = pos.x as i64 * GRID_SIZE;
    let min_y: i64 = pos.y as i64 * GRID_SIZE;
    let max_x: i64 = min_x + GRID_SIZE;
    let max_y: i64 = min_y + GRID_SIZE;
    if min_x < 0 || min_y < 0 || max_x > map.width as i64 || max_y > map.height as i64 {
        return true;
    }
    let mut i: usize = 0;
    while i < map.walls.len()
        invariant
            i <= map.walls@.len(),
            min_x == pos.x * GRID_SIZE,
            min_y == pos.y * GRID_SIZE,
            max_x == min_x + GRID_SIZE,
            max_y == min_y + GRID_SIZE,
            !cell_outside_map(pos, map@),
            forall|j: int| 0 <= j < i ==> !cell_overlaps_wall(pos, #[trigger] map.walls@[j]),
        decreases map.walls@.len() - i,
    {
        let w = map.walls[i];
        if min_x < w.max.x as i64 && max_x > w.min.x as i64 && min_y < w.max.y as i64 && max_y
            > w.min.y as i64 {
            assert(cell_overlaps_wall(pos, map@.walls[i as int]));
            reveal(cell_blocked);
            return true;
        }
        i += 1;
    }
    false
}

/// Appending the record of a new free cell reached from `cur` keeps the
/// table invariant.
proof fn lemma_table_push(
    t: Seq<Visit>,
    start: GridPos,
    map: MapView,
    bound: int,
    cur: usize,
    next: GridPos,
    cost: u64,
)
    requires
        table_inv(t, start, map, bound),
        0 <= cur < t.len(),
        t[cur as int].cost + 1 == cost,
        cost <= bound,
        adjacent(t[cur as int].pos, next),
        !cell_blocked(next, map),
        forall|i: int| 0 <= i < t.len() ==> (#[trigger] t[i]).pos != next,
    ensures
        table_inv(t.push(Visit { pos: next, cost, parent: cur }), start, map, bound),
{
    let t2 = t.push(Visit { pos: next, cost, parent: cur });
    assert forall|i: int, j: int| 0 <= i < j < t2.len() implies (#[trigger] t2[i]).pos != (
    #[trigger] t2[j]).pos by {
        if j == t.len() {
            assert(t[i].pos != next);
        } else {
            assert(t[i].pos != t[j].pos);
        }
    }
    assert forall|i: int| #![trigger t2[i].parent] 0 < i < t2.len() implies {
        &&& t2[i].parent < t2.len()
        &&& t2[t2[i].parent as int].cost < t2[i].cost
        &&& adjacent(t2[t2[i].parent as int].pos, t2[i].pos)
        &&& !cell_blocked(t2[i].pos, map)
    } by {
        if i < t.len() {
            assert(t2[i] == t[i]);
            assert(t[i].parent < t.len());
            assert(t2[t[i].parent as int] == t[t[i].parent as int]);
        } else {
            assert(t2[cur as int] == t[cur as int]);
        }
    }
    assert forall|i: int| 0 <= i < t2.len() implies (#[trigger] t2[i]).cost <= bound by {
        if i < t.len() {
            assert(t2[i] == t[i]);
        }
    }
}

/// Lowering the cost of the record `j` (a free cell) to a step from `cur`
/// keeps the table invariant.
proof fn lemma_table_improve(
    t: Seq<Visit>,
    start: GridPos,
    map: MapView,
    bound: int,
    cur: usize,
    j: usize,
    next: GridPos,
    cost: u64,
)
    requires
        table_inv(t, start, map, bound),
        0 <= cur < t.len(),
        0 <= j < t.len(),
        t[j as int].pos == next,
        t[cur as int].cost + 1 == cost,
        cost < t[j as int].cost,
        adjacent(t[cur as int].pos, next),
        !cell_blocked(next, map),
    ensures
        table_inv(t.update(j as int, Visit { pos: next, cost, parent: cur }), start, map, bound),
{
    let t2 = t.update(j as int, Visit { pos: next, cost, parent: cur });
    assert(j != 0);
    assert(j != cur);
    assert forall|a: int, b: int| 0 <= a < b < t2.len() implies (#[trigger] t2[a]).pos != (
    #[trigger] t2[b]).pos by {
        assert(t[a].pos != t[b].pos);
    }
    assert forall|i: int| #![trigger t2[i].parent] 0 < i < t2.len() implies {
        &&& t2[i].parent < t2.len()
        &&& t2[t2[i].parent as int].cost < t2[i].cost
        &&& adjacent(t2[t2[i].parent as int].pos, t2[i].pos)
        &&& !cell_blocked(t2[i].pos, map)
    } by {
        if i != j as int {
            assert(t2[i] == t[i]);
            assert(t[i].parent < t.len());
            let p = t[i].parent as int;
            if p == j as int {
                assert(t[p].cost < t[i].cost);
            } else {
                assert(t2[p] == t[p]);
            }
        } else {
            assert(t2[cur as int] == t[cur as int]);
        }
    }
    assert forall|i: int| 0 <= i < t2.len() implies (#[trigger] t2[i]).cost <= bound by {
        if i != j as int {
            assert(t2[i] == t[i]);
        }
    }
}

/// Queueing a node that points at a record of its cell keeps the open-set
/// invariant, also across a table change that keeps every old cell in place.
proof fn lemma_open_push(o: Seq<OpenNode>, t: Seq<Visit>, t2: Seq<Visit>, bound: int, n: OpenNode)
    requires
        open_inv(o, t, bound),
        t2.len() >= t.len(),
        forall|i: int| 0 <= i < t.len() ==> (#[trigger] t2[i]).pos == t[i].pos,
        n.idx < t2.len(),
        t2[n.idx as int].pos == n.pos,
        n.g <= bound,
        n.d <= max_dist_sq(),
    ensures
        open_inv(o.push(n), t2, bound),
{
    let o2 = o.push(n);
    assert forall|k: int| #![trigger o2[k]] 0 <= k < o2.len() implies {
        &&& o2[k].idx < t2.len()
        &&& t2[o2[k].idx as int].pos == o2[k].pos
        &&& o2[k].g <= bound
        &&& o2[k].d <= max_dist_sq()
    } by {
        if k < o.len() {
            assert(o2[k] == o[k]);
            assert(t2[o[k].idx as int].pos == t[o[k].idx as int].pos);
        }
    }
}

/// Every queued node costs at least what its cell's record costs now, and its
/// squared distance is at most its cell's squared distance to the goal.
spec fn open_sound(o: Seq<OpenNode>, t: Seq<Visit>, end: GridPos) -> bool {
    forall|k: int|
        #![trigger o[k]]
        0 <= k < o.len() && o[k].idx < t.len() ==> t[o[k].idx as int].cost <= o[k].g && o[k].d
            <= dist_sq(o[k].pos, end)
}

/// The record `i` is queued at its current cost.
spec fn has_queued(o: Seq<OpenNode>, t: Seq<Visit>, i: int) -> bool {
    exists|k: int| #![trigger o[k]] 0 <= k < o.len() && o[k].idx == i && o[k].g == t[i].cost
}

/// The cell `p` has a record of cost at most `c`.
spec fn reached_within(t: Seq<Visit>, p: GridPos, c: int) -> bool {
    exists|j: int| #![trigger t[j]] 0 <= j < t.len() && t[j].pos == p && t[j].cost <= c
}

/// Every free neighbour of the record `i` has a record of cost at most one
/// more than `i`'s.
spec fn settled(t: Seq<Visit>, i: int, map: MapView) -> bool {
    forall|nb: GridPos|
        #![trigger adjacent(t[i].pos, nb)]
        adjacent(t[i].pos, nb) && !cell_blocked(nb, map) ==> reached_within(t, nb, t[i].cost + 1)
}

/// Every record but `x` is queued at its current cost, or its cell has been
/// expanded (is in `closed`) and it is settled.
spec fn frontier_except(
    t: Seq<Visit>,
    o: Seq<OpenNode>,
    closed: Set<GridPos>,
    map: MapView,
    x: int,
) -> bool {
    forall|i: int|
        #![trigger t[i]]
        0 <= i < t.len() && i != x ==> has_queued(o, t, i) || (closed.contains(t[i].pos)
            && settled(t, i, map))
}

/// The search frontier: every record is queued or expanded and settled.
spec fn frontier(t: Seq<Visit>, o: Seq<OpenNode>, closed: Set<GridPos>, map: MapView) -> bool {
    frontier_except(t, o, closed, map, -1)
}

/// A change of the table and the queue that only lowers costs, only appends
/// to the queue and queues every new or cheaper record keeps the frontier
/// property of every record but `x`.
proof fn lemma_frontier_keep(
    t: Seq<Visit>,
    o: Seq<OpenNode>,
    t2: Seq<Visit>,
    o2: Seq<OpenNode>,
    closed: Set<GridPos>,
    map: MapView,
    x: int,
)
    requires
        frontier_except(t, o, closed, map, x),
        t2.len() >= t.len(),
        o2.len() >= o.len(),
        forall|i: int|
            0 <= i < t.len() ==> (#[trigger] t2[i]).pos == t[i].pos && t2[i].cost <= t[i].cost,
        forall|k: int| 0 <= k < o.len() ==> #[trigger] o2[k] == o[k],
        forall|i: int|
            0 <= i < t2.len() && (i >= t.len() || t2[i].cost != t[i].cost) ==> #[trigger] has_queued(
                o2,
                t2,
                i,
            ),
    ensures
        frontier_except(t2, o2, closed, map, x),
{
    assert forall|i: int| 0 <= i < t2.len() && i != x implies has_queued(o2, t2, i) || (
    closed.contains(#[trigger] t2[i].pos) && settled(t2, i, map)) by {
        if i >= t.len() || t2[i].cost != t[i].cost {
            assert(has_queued(o2, t2, i));
        } else {
            assert(t[i] == t[i]);
            if has_queued(o, t, i) {
                let k = choose|k: int| #![trigger o[k]] 0 <= k < o.len() && o[k].idx == i && o[k].g == t[i].cost;
                assert(o2[k] == o[k]);
                assert(has_queued(o2, t2, i));
            } else {
                assert(closed.contains(t[i].pos) && settled(t, i, map));
                assert forall|nb: GridPos|
                    #![trigger adjacent(t2[i].pos, nb)]
                    adjacent(t2[i].pos, nb) && !cell_blocked(nb, map) implies reached_within(
                    t2,
                    nb,
                    t2[i].cost + 1,
                ) by {
                    assert(adjacent(t[i].pos, nb));
                    let j = choose|j: int|
                        #![trigger t[j]]
                        0 <= j < t.len() && t[j].pos == nb && t[j].cost <= t[i].cost + 1;
                    assert(t2[j].pos == t[j].pos);
                }
            }
        }
    }
}

/// The cell a walk stands on after `s + 1` steps: `start` for `s == -1`.
spec fn walk_cell(start: GridPos, q: Seq<GridPos>, s: int) -> GridPos {
    if s < 0 {
        start
    } else {
        q[s]
    }
}

spec fn abs(x: int) -> int {
    if x < 0 {
        -x
    } else {
        x
    }
}

/// Number of side-steps between two cells on an empty grid.
spec fn manhattan(a: GridPos, b: GridPos) -> int {
    abs(a.x - b.x) + abs(a.y - b.y)
}

/// A node of cost `g` and squared distance `d` can still lead to the goal
/// within `l` steps: `g + sqrt(d) <= l`.
spec fn reaches_within(g: int, d: int, l: int) -> bool {
    g <= l && d <= (l - g) * (l - g)
}

proof fn lemma_walk_manhattan(start: GridPos, end: GridPos, q: Seq<GridPos>, map: MapView, s: int)
    requires
        is_walk(start, end, q, map),
        q.len() > 0,
        -1 <= s < q.len(),
    ensures
        manhattan(walk_cell(start, q, s), end) <= q.len() - 1 - s,
    decreases q.len() - s,
{
    if s < q.len() - 1 {
        lemma_walk_manhattan(start, end, q, map, s + 1);
        if s >= 0 {
            assert(adjacent(q[s], q[s + 1]));
        }
    }
}

proof fn lemma_square_le(a: int, b: int)
    by (nonlinear_arith)
    requires
        0 <= a <= b,
    ensures
        a * a <= b * b,
{
}

proof fn lemma_dist_sq_le_manhattan(a: GridPos, b: GridPos)
    ensures
        dist_sq(a, b) <= manhattan(a, b) * manhattan(a, b),
        manhattan(a, b) >= 0,
{
    let dx = a.x - b.x;
    let dy = a.y - b.y;
    let ax = abs(dx);
    let ay = abs(dy);
    assert(ax * ax == dx * dx) by (nonlinear_arith)
        requires
            ax == dx || ax == -dx,
    ;
    assert(ay * ay == dy * dy) by (nonlinear_arith)
        requires
            ay == dy || ay == -dy,
    ;
    assert(ax * ay >= 0) by (nonlinear_arith)
        requires
            ax >= 0,
            ay >= 0,
    ;
    assert((ax + ay) * (ax + ay) == ax * ax + 2 * (ax * ay) + ay * ay) by (nonlinear_arith);
}

/// A queued node that satisfies `reaches_within(_, _, l)` keeps the goal node,
/// when the goal is chosen before it, at cost at most `l`.
proof fn lemma_goal_bound(gk: int, dk: int, gm: int, l: int)
    requires
        gk >= 0,
        dk >= 0,
        !sqrt_sum_less(gk, dk, gm, 0),
        reaches_within(gk, dk, l),
    ensures
        gm <= l,
{
    if gm > l {
        let c = gm - gk;
        let a = l - gk;
        assert(a * a < c * c) by (nonlinear_arith)
            requires
                0 <= a < c,
        ;
        assert(4 * c * c * 0 == 0) by (nonlinear_arith);
        assert(sqrt_sum_less(gk, dk, gm, 0));
    }
}

/// Follows a walk from the start while its cells are expanded and settled:
/// either the goal has a record of cost at most the walk's length (`r.0`,
/// record `r.1`), or some queued node (`r.1`) can still reach the goal within
/// that length.
proof fn lemma_walk_frontier(
    t: Seq<Visit>,
    o: Seq<OpenNode>,
    closed: Set<GridPos>,
    start: GridPos,
    end: GridPos,
    map: MapView,
    bound: int,
    q: Seq<GridPos>,
    s: int,
    i: int,
) -> (r: (bool, int))
    requires
        table_inv(t, start, map, bound),
        open_inv(o, t, bound),
        open_sound(o, t, end),
        frontier(t, o, closed, map),
        is_walk(start, end, q, map),
        q.len() > 0,
        -1 <= s < q.len(),
        0 <= i < t.len(),
        t[i].pos == walk_cell(start, q, s),
        t[i].cost <= s + 1,
    ensures
        r.0 ==> 0 <= r.1 < t.len() && t[r.1].pos == end && t[r.1].cost <= q.len(),
        !r.0 ==> 0 <= r.1 < o.len() && reaches_within(
            o[r.1].g as int,
            o[r.1].d as int,
            q.len() as int,
        ),
    decreases q.len() - s,
{
    assert(t[i] == t[i]);
    if has_queued(o, t, i) {
        let k = choose|k: int| #![trigger o[k]] 0 <= k < o.len() && o[k].idx == i && o[k].g == t[i].cost;
        let l = q.len() as int;
        let c = walk_cell(start, q, s);
        lemma_walk_manhattan(start, end, q, map, s);
        lemma_dist_sq_le_manhattan(c, end);
        let m = manhattan(c, end);
        lemma_square_le(m, l - o[k].g);
        assert(o[k].pos == c);
        (false, k)
    } else if s == q.len() - 1 {
        (true, i)
    } else {
        let nb = q[s + 1];
        if s >= 0 {
            assert(adjacent(q[s], q[s + 1]));
        }
        assert(adjacent(t[i].pos, nb));
        assert(!cell_blocked(nb, map));
        let j = choose|j: int|
            #![trigger t[j]]
            0 <= j < t.len() && t[j].pos == nb && t[j].cost <= t[i].cost + 1;
        lemma_walk_frontier(t, o, closed, start, end, map, bound, q, s + 1, j)
    }
}

/// When the goal node is chosen from the queue, no walk to the goal is
/// shorter than the goal record's cost.
proof fn lemma_found_optimal(
    t: Seq<Visit>,
    o: Seq<OpenNode>,
    closed: Set<GridPos>,
    start: GridPos,
    end: GridPos,
    map: MapView,
    bound: int,
    m: int,
)
    requires
        table_inv(t, start, map, bound),
        open_inv(o, t, bound),
        open_sound(o, t, end),
        frontier(t, o, closed, map),
        0 <= m < o.len(),
        o[m].pos == end,
        forall|j: int| 0 <= j < o.len() ==> !node_less(#[trigger] o[j], o[m]),
    ensures
        forall|q: Seq<GridPos>|
            is_walk(start, end, q, map) ==> t[o[m].idx as int].cost <= q.len(),
{
    assert(o[m] == o[m]);
    assert forall|q: Seq<GridPos>| is_walk(start, end, q, map) implies t[o[m].idx as int].cost
        <= q.len() by {
        let e = o[m].idx as int;
        if q.len() == 0 {
            assert(t[0].pos == t[e].pos);
        } else {
            let r = lemma_walk_frontier(t, o, closed, start, end, map, bound, q, -1, 0);
            if r.0 {
                assert(t[r.1].pos == t[e].pos);
            } else {
                let k = r.1;
                assert(o[k] == o[k]);
                assert(!node_less(o[k], o[m]));
                assert(dist_sq(end, end) == 0);
                lemma_goal_bound(o[k].g as int, o[k].d as int, o[m].g as int, q.len() as int);
            }
        }
    }
}

/// The table record of `pos`, reached at `cost` from the record `parent`.
spec fn visit(pos: GridPos, cost: u64, parent: usize) -> Visit {
    Visit { pos, cost, parent }
}

/// The queue entry of `pos` with cost `g`, squared distance `d` to the goal
/// and table index `idx`.
spec fn open_node(g: u64, d: int, pos: GridPos, idx: int) -> OpenNode {
    OpenNode { g, d: d as u64, pos, idx: idx as usize }
}

/// Considers stepping from the table record `cur` to the neighbouring cell
/// `next` with cost `new_cost`: a free cell that is new, or reached more
/// cheaply than before, gets its record set to this step and is queued.
fn relax(
    table: &mut Vec<Visit>,
    open: &mut Vec<OpenNode>,
    cur: usize,
    next: GridPos,
    new_cost: u64,
    end: GridPos,
    map: &MapDefinition,
    Ghost(start): Ghost<GridPos>,
    Ghost(bound): Ghost<int>,
)
    requires
        table_inv(old(table)@, start, map@, bound),
        open_inv(old(open)@, old(table)@, bound),
        new_cost <= bound,
        cur < old(table)@.len(),
        old(table)@[cur as int].cost + 1 == new_cost,
        adjacent(old(table)@[cur as int].pos, next),
        !cell_blocked(end, map@),
        map@.width <= i32::MAX,
        map@.height <= i32::MAX,
        open_sound(old(open)@, old(table)@, end),
    ensures
        table_inv(final(table)@, start, map@, bound),
        open_inv(final(open)@, final(table)@, bound),
        open_sound(final(open)@, final(table)@, end),
        forall|i: int|
            0 <= i < old(table)@.len() ==> (#[trigger] final(table)@[i]).cost <= old(table)@[i].cost,
        final(open)@.len() >= old(open)@.len(),
        forall|k: int| 0 <= k < old(open)@.len() ==> #[trigger] final(open)@[k] == old(open)@[k],
        forall|i: int|
            0 <= i < final(table)@.len() && (i >= old(table)@.len() || final(table)@[i].cost
                != old(table)@[i].cost) ==> #[trigger] has_queued(final(open)@, final(table)@, i),
        !cell_blocked(next, map@) ==> reached_within(final(table)@, next, new_cost as int),
        final(table)@.len() >= old(table)@.len(),
        forall|i: int|
            0 <= i < old(table)@.len() ==> (#[trigger] final(table)@[i]).pos == old(table)@[i].pos,
        final(table)@[cur as int] == old(table)@[cur as int],
        cell_blocked(next, map@) ==> final(table)@ == old(table)@ && final(open)@ == old(open)@,
        !cell_blocked(next, map@) && (forall|i: int|
            0 <= i < old(table)@.len() ==> (#[trigger] old(table)@[i]).pos != next) ==> {
            &&& final(table)@ == old(table)@.push(visit(next, new_cost, cur))
            &&& final(open)@ == old(open)@.push(
                open_node(new_cost, dist_sq(next, end), next, old(table)@.len() as int),
            )
        },
        forall|j: int|
            0 <= j < old(table)@.len() && (#[trigger] old(table)@[j]).pos == next && !cell_blocked(
                next,
                map@,
            ) ==> if new_cost < old(table)@[j].cost {
                &&& final(table)@ == old(table)@.update(j, visit(next, new_cost, cur))
                &&& final(open)@ == old(open)@.push(open_node(new_cost, dist_sq(next, end), next, j))
            } else {
                &&& final(table)@ == old(table)@
                &&& final(open)@ == old(open)@
            },
{
    if is_cell_blocked(next, map) {
        return;
    }
    let d = dist_sq_free(next, end, Ghost(map@));
    let ghost t0 = table@;
    let ghost o0 = open@;
    match find_visit(table, next) {
        None => {
            proof {
                lemma_table_push(t0, start, map@, bound, cur, next, new_cost);
            }
            table.push(Visit { pos: next, cost: new_cost, parent: cur });
            let idx = table.len() - 1;
            let node = OpenNode { g: new_cost, d, pos: next, idx };
            proof {
                assert forall|i: int| 0 <= i < t0.len() implies (#[trigger] table@[i]).pos
                    == t0[i].pos by {
                    assert(table@[i] == t0[i]);
                }
                lemma_open_push(o0, t0, table@, bound, node);
            }
            open.push(node);
            proof {
                let t1 = table@;
                let o1 = open@;
                assert(o1[o0.len() as int] == node);
                assert forall|k: int| #![trigger o1[k]] 0 <= k < o1.len() && o1[k].idx < t1.len()
                    implies t1[o1[k].idx as int].cost <= o1[k].g && o1[k].d <= dist_sq(o1[k].pos, end) by {
                    if k < o0.len() {
                        assert(o1[k] == o0[k]);
                        assert(t1[o0[k].idx as int] == t0[o0[k].idx as int]);
                    }
                }
                assert forall|i: int|
                    0 <= i < t1.len() && (i >= t0.len() || t1[i].cost != t0[i].cost) implies #[trigger] has_queued(o1, t1, i) by {
                    if i < t0.len() {
                        assert(t1[i] == t0[i]);
                    }
                    assert(o1[o0.len() as int].idx == i);
                }
                assert(t1[t0.len() as int].pos == next);
            }
        },
        Some(j) => {
            if new_cost < table[j].cost {
                proof {
                    lemma_table_improve(t0, start, map@, bound, cur, j, next, new_cost);
                }
                table.set(j, Visit { pos: next, cost: new_cost, parent: cur });
                let node = OpenNode { g: new_cost, d, pos: next, idx: j };
                proof {
                    assert forall|i: int| 0 <= i < t0.len() implies (#[trigger] table@[i]).pos
                        == t0[i].pos by {
                        if i != j {
                            assert(table@[i] == t0[i]);
                        }
                    }
                    lemma_open_push(o0, t0, table@, bound, node);
                }
                open.push(node);
                proof {
                    let t1 = table@;
                    let o1 = open@;
                    assert(o1[o0.len() as int] == node);
                    assert forall|k: int| #![trigger o1[k]] 0 <= k < o1.len() && o1[k].idx < t1.len()
                        implies t1[o1[k].idx as int].cost <= o1[k].g && o1[k].d <= dist_sq(o1[k].pos, end) by {
                        if k < o0.len() {
                            assert(o1[k] == o0[k]);
                            if o0[k].idx != j {
                                assert(t1[o0[k].idx as int] == t0[o0[k].idx as int]);
                            }
                        }
                    }
                    assert forall|i: int|
                        0 <= i < t1.len() && (i >= t0.len() || t1[i].cost != t0[i].cost) implies #[trigger] has_queued(o1, t1, i) by {
                        if i != j {
                            assert(t1[i] == t0[i]);
                        }
                        assert(o1[o0.len() as int].idx == i);
                    }
                    assert(t1[j as int].pos == next);
                }
            } else {
                assert(table@[j as int].pos == next);
            }
        },
    }
}

proof fn lemma_reached_keep(t: Seq<Visit>, t2: Seq<Visit>, p: GridPos, c: int)
    requires
        reached_within(t, p, c),
        t2.len() >= t.len(),
        forall|i: int|
            0 <= i < t.len() ==> (#[trigger] t2[i]).pos == t[i].pos && t2[i].cost <= t[i].cost,
    ensures
        reached_within(t2, p, c),
{
    let j = choose|j: int| #![trigger t[j]] 0 <= j < t.len() && t[j].pos == p && t[j].cost <= c;
    assert(t2[j].pos == t[j].pos);
}

/// Taking node `k` out of the queue keeps the frontier property of every
/// record but the node's own, and keeps the queue sound.
proof fn lemma_frontier_pop(
    t: Seq<Visit>,
    o: Seq<OpenNode>,
    k: int,
    closed: Set<GridPos>,
    map: MapView,
    end: GridPos,
)
    requires
        frontier(t, o, closed, map),
        open_sound(o, t, end),
        0 <= k < o.len(),
    ensures
        frontier_except(t, o.remove(k), closed, map, o[k].idx as int),
        open_sound(o.remove(k), t, end),
{
    let o2 = o.remove(k);
    assert forall|i: int| 0 <= i < t.len() && i != o[k].idx as int implies has_queued(o2, t, i) || (
    closed.contains(#[trigger] t[i].pos) && settled(t, i, map)) by {
        assert(t[i] == t[i]);
        if has_queued(o, t, i) {
            let w = choose|w: int| #![trigger o[w]] 0 <= w < o.len() && o[w].idx == i && o[w].g == t[i].cost;
            if w < k {
                assert(o2[w] == o[w]);
            } else {
                assert(o2[w - 1] == o[w]);
            }
        }
    }
    assert forall|q: int| #![trigger o2[q]] 0 <= q < o2.len() && o2[q].idx < t.len() implies t[o2[q].idx as int].cost <= o2[q].g && o2[q].d <= dist_sq(o2[q].pos, end) by {
        if q < k {
            assert(o2[q] == o[q]);
        } else {
            assert(o2[q] == o[q + 1]);
        }
    }
}

/// Marking a settled record as expanded restores the frontier property.
proof fn lemma_frontier_close(
    t: Seq<Visit>,
    o: Seq<OpenNode>,
    closed: Set<GridPos>,
    map: MapView,
    x: int,
)
    requires
        frontier_except(t, o, closed, map, x),
        0 <= x < t.len(),
        settled(t, x, map),
    ensures
        frontier(t, o, closed.insert(t[x].pos), map),
{
    let c2 = closed.insert(t[x].pos);
    assert forall|i: int| 0 <= i < t.len() && i != -1 implies has_queued(o, t, i) || (
    c2.contains(#[trigger] t[i].pos) && settled(t, i, map)) by {
        assert(t[i] == t[i]);
    }
}

/// Entries queued by one relaxation step have the step's cost and their
/// cell's squared distance to the goal.
proof fn lemma_new_entries(
    t: Seq<Visit>,
    o: Seq<OpenNode>,
    o2: Seq<OpenNode>,
    next: GridPos,
    cost: u64,
    end: GridPos,
    blocked: bool,
    base: int,
    map: MapView,
)
    requires
        0 <= base <= o.len(),
        blocked == cell_blocked(next, map),
        forall|k: int|
            base <= k < o.len() ==> (#[trigger] o[k]).g == cost && o[k].d == dist_sq(o[k].pos, end) as u64
                && !cell_blocked(o[k].pos, map),
        blocked ==> o2 == o,
        !blocked && (forall|i: int| 0 <= i < t.len() ==> (#[trigger] t[i]).pos != next) ==> o2
            == o.push(open_node(cost, dist_sq(next, end), next, t.len() as int)),
        forall|j: int|
            0 <= j < t.len() && (#[trigger] t[j]).pos == next && !blocked ==> o2 == o || o2 == o.push(
                open_node(cost, dist_sq(next, end), next, j),
            ),
    ensures
        forall|k: int|
            base <= k < o2.len() ==> (#[trigger] o2[k]).g == cost && o2[k].d == dist_sq(o2[k].pos, end) as u64
                && !cell_blocked(o2[k].pos, map),
        o2.len() >= o.len(),
{
    if !blocked && exists|j: int| 0 <= j < t.len() && (#[trigger] t[j]).pos == next {
        let j = choose|j: int| 0 <= j < t.len() && (#[trigger] t[j]).pos == next;
        assert(o2 == o || o2 == o.push(open_node(cost, dist_sq(next, end), next, j)));
    }
    assert forall|k: int| base <= k < o2.len() implies (#[trigger] o2[k]).g == cost && o2[k].d
        == dist_sq(o2[k].pos, end) as u64 && !cell_blocked(o2[k].pos, map) by {
        if k < o.len() {
            assert(o2[k] == o[k]);
        }
    }
}

/// The squared distance from a queued cell to a free goal next to the start
/// is exact in a `u64`, and positive unless the cell is the goal.
proof fn lemma_queued_dist(
    t: Seq<Visit>,
    o: Seq<OpenNode>,
    start: GridPos,
    end: GridPos,
    map: MapView,
    bound: int,
    k: int,
)
    requires
        table_inv(t, start, map, bound),
        open_inv(o, t, bound),
        0 <= k < o.len(),
        adjacent(start, end),
        !cell_blocked(end, map),
        map.width <= i32::MAX,
        map.height <= i32::MAX,
    ensures
        0 <= dist_sq(o[k].pos, end) <= u64::MAX,
        o[k].pos != end ==> dist_sq(o[k].pos, end) >= 1,
{
    let i = o[k].idx as int;
    assert(o[k] == o[k]);
    let a = o[k].pos;
    lemma_free_cell_in_range(end, map);
    if i > 0 {
        assert(t[i].parent < t.len());
        lemma_free_cell_in_range(a, map);
    }
    let dx = a.x - end.x;
    let dy = a.y - end.y;
    assert(-0x400_0001 <= dx <= 0x400_0001 && -0x400_0001 <= dy <= 0x400_0001);
    assert(0 <= dx * dx + dy * dy <= 0x40_0000_0000_0000) by (nonlinear_arith)
        requires
            -0x400_0001 <= dx <= 0x400_0001,
            -0x400_0001 <= dy <= 0x400_0001,
    ;
    if a != end {
        assert(dx * dx + dy * dy >= 1) by (nonlinear_arith)
            requires
                dx != 0 || dy != 0,
        ;
    }
}

/// After the start has been expanded, with the goal a free neighbour of the
/// start, the queue holds the goal at cost 1, and the cheapest queued node is
/// the goal.
proof fn lemma_adjacent_goal_queued(
    t: Seq<Visit>,
    o: Seq<OpenNode>,
    closed: Set<GridPos>,
    start: GridPos,
    end: GridPos,
    map: MapView,
    bound: int,
) -> (e: int)
    requires
        table_inv(t, start, map, bound),
        open_inv(o, t, bound),
        open_sound(o, t, end),
        frontier(t, o, closed, map),
        closed == Set::<GridPos>::empty().insert(start),
        start != end,
        adjacent(start, end),
        !cell_blocked(end, map),
        map.width <= i32::MAX,
        map.height <= i32::MAX,
        forall|k: int|
            0 <= k < o.len() ==> (#[trigger] o[k]).g == 1 && o[k].d == dist_sq(o[k].pos, end) as u64,
    ensures
        0 <= e < o.len(),
        o[e].pos == end,
        forall|m: int| 0 <= m < o.len() && !node_less(o[e], #[trigger] o[m]) ==> o[m].pos == end,
{
    assert(t[0] == t[0]);
    if has_queued(o, t, 0) {
        let w = choose|w: int| #![trigger o[w]] 0 <= w < o.len() && o[w].idx == 0 && o[w].g == t[0].cost;
        assert(o[w].g == 1);
    }
    assert(adjacent(t[0].pos, end));
    let j = choose|j: int| #![trigger t[j]] 0 <= j < t.len() && t[j].pos == end && t[j].cost <= t[0].cost + 1;
    assert(t[j] == t[j]);
    assert(!closed.contains(end));
    let e = choose|w: int| #![trigger o[w]] 0 <= w < o.len() && o[w].idx == j && o[w].g == t[j].cost;
    assert(o[e] == o[e]);
    assert(dist_sq(end, end) == 0);
    assert forall|m: int| 0 <= m < o.len() && !node_less(o[e], #[trigger] o[m]) implies o[m].pos
        == end by {
        lemma_queued_dist(t, o, start, end, map, bound, m);
        lemma_queued_dist(t, o, start, end, map, bound, e);
        if o[m].pos != end {
            assert(o[m].d >= 1);
            assert(0int * 0int == 0) by (nonlinear_arith);
            assert(sqrt_sum_less(1, 0, 1, o[m].d as int));
        }
    }
    e
}

/// A queued node as a (cell, cost) pair.
spec fn key(n: OpenNode) -> (GridPos, int) {
    (n.pos, n.g as int)
}

/// The (cell, cost) pairs ever queued (`pushed`) and expanded (`popped`):
/// every queued node is a pushed pair not yet expanded, no pair is queued
/// twice, and every pushed pair's cell has a record at most that cost.
spec fn ledger(
    t: Seq<Visit>,
    o: Seq<OpenNode>,
    pushed: Set<(GridPos, int)>,
    popped: Set<(GridPos, int)>,
) -> bool {
    &&& pushed.finite()
    &&& popped.subset_of(pushed)
    &&& forall|k: int|
        #![trigger o[k]]
        0 <= k < o.len() ==> pushed.contains(key(o[k])) && !popped.contains(key(o[k]))
    &&& forall|a: int, b: int| #![trigger o[a], o[b]] 0 <= a < b < o.len() ==> key(o[a]) != key(o[b])
    &&& forall|e: (GridPos, int)| #[trigger] pushed.contains(e) ==> reached_within(t, e.0, e.1)
}

/// Expanding queued node `m` adds its pair to `popped`, which grows by one.
proof fn lemma_ledger_pop(
    t: Seq<Visit>,
    o: Seq<OpenNode>,
    pushed: Set<(GridPos, int)>,
    popped: Set<(GridPos, int)>,
    m: int,
)
    requires
        ledger(t, o, pushed, popped),
        0 <= m < o.len(),
    ensures
        ledger(t, o.remove(m), pushed, popped.insert(key(o[m]))),
        popped.finite(),
        popped.insert(key(o[m])).len() == popped.len() + 1,
{
    vstd::set_lib::lemma_len_subset(popped, pushed);
    let o2 = o.remove(m);
    let p2 = popped.insert(key(o[m]));
    assert(o[m] == o[m]);
    assert forall|k: int| #![trigger o2[k]] 0 <= k < o2.len() implies pushed.contains(key(o2[k]))
        && !p2.contains(key(o2[k])) by {
        if k < m {
            assert(o2[k] == o[k]);
            assert(key(o[k]) != key(o[m]));
        } else {
            assert(o2[k] == o[k + 1]);
            assert(key(o[m]) != key(o[k + 1]));
        }
    }
    assert forall|a: int, b: int| #![trigger o2[a], o2[b]] 0 <= a < b < o2.len() implies key(o2[a])
        != key(o2[b]) by {
        let a1 = if a < m { a } else { a + 1 };
        let b1 = if b < m { b } else { b + 1 };
        assert(o2[a] == o[a1]);
        assert(o2[b] == o[b1]);
        assert(key(o[a1]) != key(o[b1]));
    }
}

/// One relaxation step (as [`relax`] states it) keeps the ledger, with the
/// pair of the queued node, if any, added to `pushed`.
proof fn lemma_ledger_step(
    t: Seq<Visit>,
    o: Seq<OpenNode>,
    t2: Seq<Visit>,
    o2: Seq<OpenNode>,
    pushed: Set<(GridPos, int)>,
    popped: Set<(GridPos, int)>,
    next: GridPos,
    cost: u64,
    cur: usize,
    end: GridPos,
    blocked: bool,
    start: GridPos,
    map: MapView,
    bound: int,
) -> (p2: Set<(GridPos, int)>)
    requires
        ledger(t, o, pushed, popped),
        table_inv(t, start, map, bound),
        t2.len() >= t.len(),
        forall|i: int|
            0 <= i < t.len() ==> (#[trigger] t2[i]).pos == t[i].pos && t2[i].cost <= t[i].cost,
        blocked ==> t2 == t && o2 == o,
        !blocked && (forall|i: int| 0 <= i < t.len() ==> (#[trigger] t[i]).pos != next) ==> {
            &&& t2 == t.push(visit(next, cost, cur))
            &&& o2 == o.push(open_node(cost, dist_sq(next, end), next, t.len() as int))
        },
        forall|j: int|
            0 <= j < t.len() && (#[trigger] t[j]).pos == next && !blocked ==> if cost < t[j].cost {
                &&& t2 == t.update(j, visit(next, cost, cur))
                &&& o2 == o.push(open_node(cost, dist_sq(next, end), next, j))
            } else {
                &&& t2 == t
                &&& o2 == o
            },
    ensures
        ledger(t2, o2, p2, popped),
{
    let mut p2 = pushed;
    let mut fresh = false;
    if !blocked {
        if exists|j: int| 0 <= j < t.len() && (#[trigger] t[j]).pos == next {
            let j = choose|j: int| 0 <= j < t.len() && (#[trigger] t[j]).pos == next;
            if cost < t[j].cost {
                fresh = true;
                if pushed.contains((next, cost as int)) {
                    let w = choose|w: int|
                        #![trigger t[w]]
                        0 <= w < t.len() && t[w].pos == next && t[w].cost <= cost;
                    assert(t[w].pos == t[j].pos);
                }
            }
        } else {
            fresh = true;
            if pushed.contains((next, cost as int)) {
                let w = choose|w: int|
                    #![trigger t[w]]
                    0 <= w < t.len() && t[w].pos == next && t[w].cost <= cost;
                assert(t[w].pos == next);
            }
        }
    }
    if fresh {
        let n = o2[o.len() as int];
        assert(key(n) == (next, cost as int));
        p2 = pushed.insert(key(n));
        assert(!pushed.contains(key(n)));
        assert forall|k: int| #![trigger o2[k]] 0 <= k < o2.len() implies p2.contains(key(o2[k]))
            && !popped.contains(key(o2[k])) by {
            if k < o.len() {
                assert(o2[k] == o[k]);
            }
        }
        assert forall|a: int, b: int| #![trigger o2[a], o2[b]] 0 <= a < b < o2.len() implies key(
            o2[a],
        ) != key(o2[b]) by {
            assert(o2[a] == o[a]);
            if b < o.len() {
                assert(o2[b] == o[b]);
            }
        }
        assert forall|e: (GridPos, int)| #[trigger] p2.contains(e) implies reached_within(
            t2,
            e.0,
            e.1,
        ) by {
            if e == key(n) {
                let i = if t2.len() > t.len() {
                    t.len() as int
                } else {
                    choose|j: int| 0 <= j < t.len() && (#[trigger] t[j]).pos == next
                };
                assert(t2[i].pos == next && t2[i].cost == cost);
            } else {
                assert(pushed.contains(e));
                lemma_reached_keep(t, t2, e.0, e.1);
            }
        }
    } else {
        assert(o2 == o);
        assert forall|e: (GridPos, int)| #[trigger] p2.contains(e) implies reached_within(
            t2,
            e.0,
            e.1,
        ) by {
            lemma_reached_keep(t, t2, e.0, e.1);
        }
    }
    p2
}

/// A cell and cost within 4 of the goal in each coordinate, cost at most 4.
spec fn in_box(e: (GridPos, int), end: GridPos) -> bool {
    &&& -4 <= e.0.x - end.x <= 4
    &&& -4 <= e.0.y - end.y <= 4
    &&& 0 <= e.1 <= 4
}

/// At most 9 * 9 * 5 pairs lie in the box.
proof fn lemma_box_count(s: Set<(GridPos, int)>, end: GridPos)
    requires
        s.finite(),
        forall|e: (GridPos, int)| #[trigger] s.contains(e) ==> in_box(e, end),
    ensures
        s.len() <= 405,
{
    let f = |e: (GridPos, int)| (e.0.x - end.x + 4) * 45 + (e.0.y - end.y + 4) * 5 + e.1;
    assert forall|a: (GridPos, int), b: (GridPos, int)|
        s.contains(a) && s.contains(b) && #[trigger] f(a) == #[trigger] f(b) implies a == b by {
        assert(in_box(a, end) && in_box(b, end));
        assert(a.0.x == b.0.x);
        assert(a.0.y == b.0.y);
        assert(a.0 == b.0);
    }
    let img = s.map(f);
    vstd::set_lib::lemma_map_size(s, img, f);
    vstd::set_lib::lemma_int_range(0, 405);
    assert forall|i: int| #[trigger] img.contains(i) implies vstd::set_lib::set_int_range(
        0,
        405,
    ).contains(i) by {
        let e = choose|e: (GridPos, int)| s.contains(e) && f(e) == i;
        assert(in_box(e, end));
    }
    vstd::set_lib::lemma_len_subset(img, vstd::set_lib::set_int_range(0, 405));
}

/// Each queued node holds its free cell's squared distance to the goal, or is
/// the start node at cost 0.
spec fn dist_inv(o: Seq<OpenNode>, start: GridPos, end: GridPos, map: MapView) -> bool {
    forall|k: int|
        #![trigger o[k]]
        0 <= k < o.len() ==> (o[k].d == dist_sq(o[k].pos, end) as u64 && !cell_blocked(
            o[k].pos,
            map,
        )) || (o[k].pos == start && o[k].g == 0)
}

proof fn lemma_dist_free(a: GridPos, b: GridPos, map: MapView)
    requires
        !cell_blocked(a, map),
        !cell_blocked(b, map),
        map.width <= i32::MAX,
        map.height <= i32::MAX,
    ensures
        0 <= dist_sq(a, b) <= u64::MAX,
        dist_sq(a, b) as u64 == dist_sq(a, b),
{
    lemma_free_cell_in_range(a, map);
    lemma_free_cell_in_range(b, map);
    let dx = a.x - b.x;
    let dy = a.y - b.y;
    assert(0 <= dx * dx + dy * dy <= 0x40_0000_0000_0000) by (nonlinear_arith)
        requires
            -0x400_0000 <= dx <= 0x400_0000,
            -0x400_0000 <= dy <= 0x400_0000,
    ;
}

proof fn lemma_small_square(x: int, b: int)
    by (nonlinear_arith)
    requires
        0 <= b <= 4,
        x * x <= b * b,
    ensures
        -4 <= x <= 4,
{
}

/// While a walk leads to the goal, the queue holds a node
/// that reaches the goal within that walk's length.
proof fn lemma_walk_witness(
    t: Seq<Visit>,
    o: Seq<OpenNode>,
    closed: Set<GridPos>,
    start: GridPos,
    end: GridPos,
    map: MapView,
    bound: int,
    q: Seq<GridPos>,
) -> (w: int)
    requires
        table_inv(t, start, map, bound),
        open_inv(o, t, bound),
        open_sound(o, t, end),
        frontier(t, o, closed, map),
        !closed.contains(end),
        is_walk(start, end, q, map),
        q.len() > 0,
    ensures
        0 <= w < o.len(),
        reaches_within(o[w].g as int, o[w].d as int, q.len() as int),
{
    let r = lemma_walk_frontier(t, o, closed, start, end, map, bound, q, -1, 0);
    if r.0 {
        let j = r.1;
        assert(t[j] == t[j]);
        let w = choose|w: int| #![trigger o[w]] 0 <= w < o.len() && o[w].idx == j && o[w].g == t[j].cost;
        assert(o[w] == o[w]);
        assert(dist_sq(end, end) == 0);
        let l = q.len() as int;
        let g = o[w].g as int;
        assert((l - g) * (l - g) >= 0) by (nonlinear_arith);
        w
    } else {
        r.1
    }
}

proof fn lemma_square_bound(x: int, l: int)
    by (nonlinear_arith)
    requires
        0 <= l,
        x * x <= l * l,
    ensures
        -l <= x <= l,
{
}

/// The search pairs of a walk length are finitely many.
pub proof fn lemma_search_pairs_finite(start: GridPos, end: GridPos, map: MapView, l: int)
    requires
        0 <= l,
    ensures
        search_pairs(start, end, map, l).finite(),
{
    let s = search_pairs(start, end, map, l);
    let r1 = 2 * l + 1;
    let r2 = l + 1;
    let n = r1 * r1 * r2;
    let decode = |i: int|
        (
            GridPos { x: (i / r2 / r1 - l + end.x) as i32, y: ((i / r2) % r1 - l + end.y) as i32 },
            i % r2,
        );
    let range = vstd::set_lib::set_int_range(0, n);
    assert(n >= 0) by (nonlinear_arith)
        requires
            r1 >= 1,
            r2 >= 1,
            n == r1 * r1 * r2,
    ;
    vstd::set_lib::lemma_int_range(0, n);
    range.lemma_map_finite(decode);
    let img = range.map(decode);
    assert forall|e: (GridPos, int)| #[trigger] s.contains(e) implies img.contains(e) by {
        let dx = e.0.x - end.x;
        let dy = e.0.y - end.y;
        let g = e.1;
        assert(dx * dx >= 0 && dy * dy >= 0) by (nonlinear_arith);
        lemma_square_le(l - g, l);
        lemma_square_bound(dx, l);
        lemma_square_bound(dy, l);
        let a = dx + l;
        let b = dy + l;
        let hi = a * r1 + b;
        let i = hi * r2 + g;
        assert(0 <= hi < r1 * r1) by (nonlinear_arith)
            requires
                0 <= a < r1,
                0 <= b < r1,
                hi == a * r1 + b,
        ;
        assert(0 <= i < n) by (nonlinear_arith)
            requires
                0 <= hi < r1 * r1,
                0 <= g < r2,
                i == hi * r2 + g,
                n == r1 * r1 * r2,
        ;
        vstd::arithmetic::div_mod::lemma_fundamental_div_mod_converse(i, r2, hi, g);
        vstd::arithmetic::div_mod::lemma_fundamental_div_mod_converse(hi, r1, a, b);
        assert(decode(i).0.x == e.0.x);
        assert(decode(i).0.y == e.0.y);
        assert(decode(i) == e);
        assert(range.contains(i));
    }
    vstd::set_lib::lemma_len_subset(s, img);
}

/// A walk of at most 4 steps leaves at most 405 search pairs.
proof fn lemma_short_pairs(start: GridPos, end: GridPos, map: MapView, l: int)
    requires
        0 <= l <= 4,
    ensures
        search_pairs(start, end, map, l).len() <= 405,
{
    let s = search_pairs(start, end, map, l);
    lemma_search_pairs_finite(start, end, map, l);
    assert forall|e: (GridPos, int)| #[trigger] s.contains(e) implies in_box(e, end) by {
        let dx = e.0.x - end.x;
        let dy = e.0.y - end.y;
        assert(dx * dx >= 0 && dy * dy >= 0) by (nonlinear_arith);
        lemma_small_square(dx, l - e.1);
        lemma_small_square(dy, l - e.1);
    }
    lemma_box_count(s, end);
}

/// While a walk `q` leads to the goal, the node chosen from the queue is one
/// of the search pairs of that walk's length.
proof fn lemma_pop_in_pairs(
    t: Seq<Visit>,
    o: Seq<OpenNode>,
    closed: Set<GridPos>,
    start: GridPos,
    end: GridPos,
    map: MapView,
    bound: int,
    q: Seq<GridPos>,
    m: int,
)
    requires
        table_inv(t, start, map, bound),
        open_inv(o, t, bound),
        open_sound(o, t, end),
        frontier(t, o, closed, map),
        !closed.contains(end),
        dist_inv(o, start, end, map),
        !cell_blocked(end, map),
        map.width <= i32::MAX,
        map.height <= i32::MAX,
        is_walk(start, end, q, map),
        0 < q.len(),
        0 <= m < o.len(),
        forall|j: int| 0 <= j < o.len() ==> !node_less(#[trigger] o[j], o[m]),
    ensures
        search_pairs(start, end, map, q.len() as int).contains(key(o[m])),
{
    let w = lemma_walk_witness(t, o, closed, start, end, map, bound, q);
    let l = q.len() as int;
    assert(!node_less(o[w], o[m]));
    lemma_within_order(o[m].g as int, o[m].d as int, o[w].g as int, o[w].d as int, l);
    let a = o[m].pos;
    assert(o[m] == o[m]);
    if o[m].d == dist_sq(a, end) as u64 && !cell_blocked(a, map) {
        lemma_dist_free(a, end, map);
    } else {
        lemma_walk_manhattan(start, end, q, map, -1);
        lemma_dist_sq_le_manhattan(start, end);
        lemma_square_le(manhattan(start, end), l);
    }
}

/// While a walk leads to the goal, the queue is not empty.
proof fn lemma_short_nonempty(
    t: Seq<Visit>,
    o: Seq<OpenNode>,
    closed: Set<GridPos>,
    start: GridPos,
    end: GridPos,
    map: MapView,
    bound: int,
    q: Seq<GridPos>,
)
    requires
        table_inv(t, start, map, bound),
        open_inv(o, t, bound),
        open_sound(o, t, end),
        frontier(t, o, closed, map),
        !closed.contains(end),
        is_walk(start, end, q, map),
        q.len() > 0,
    ensures
        o.len() > 0,
{
    let w = lemma_walk_witness(t, o, closed, start, end, map, bound, q);
}

/// Expands the record `cur`: relaxes its four neighbours with cost one more
/// than its own, after which the record is settled and its cell counts as
/// expanded.
fn expand(
    table: &mut Vec<Visit>,
    open: &mut Vec<OpenNode>,
    cur: usize,
    end: GridPos,
    map: &MapDefinition,
    Ghost(start): Ghost<GridPos>,
    Ghost(bound): Ghost<int>,
    Ghost(closed): Ghost<Set<GridPos>>,
    Ghost(pushed): Ghost<Set<(GridPos, int)>>,
    Ghost(popped): Ghost<Set<(GridPos, int)>>,
) -> (pushed2: Ghost<Set<(GridPos, int)>>)
    requires
        ledger(old(table)@, old(open)@, pushed, popped),
        table_inv(old(table)@, start, map@, bound),
        open_inv(old(open)@, old(table)@, bound),
        open_sound(old(open)@, old(table)@, end),
        frontier_except(old(table)@, old(open)@, closed, map@, cur as int),
        cur < old(table)@.len(),
        old(table)@[cur as int].cost + 1 <= bound,
        bound <= u64::MAX,
        i32::MIN < old(table)@[cur as int].pos.x < i32::MAX,
        i32::MIN < old(table)@[cur as int].pos.y < i32::MAX,
        !cell_blocked(end, map@),
        map@.width <= i32::MAX,
        map@.height <= i32::MAX,
    ensures
        table_inv(final(table)@, start, map@, bound),
        open_inv(final(open)@, final(table)@, bound),
        open_sound(final(open)@, final(table)@, end),
        frontier(final(table)@, final(open)@, closed.insert(old(table)@[cur as int].pos), map@),
        final(open)@.len() >= old(open)@.len(),
        forall|k: int|
            old(open)@.len() <= k < final(open)@.len() ==> (#[trigger] final(open)@[k]).g
                == old(table)@[cur as int].cost + 1 && final(open)@[k].d == dist_sq(
                final(open)@[k].pos,
                end,
            ) as u64 && !cell_blocked(final(open)@[k].pos, map@),
        ledger(final(table)@, final(open)@, pushed2@, popped),
        forall|k: int| 0 <= k < old(open)@.len() ==> #[trigger] final(open)@[k] == old(open)@[k],
{
    let p = table[cur].pos;
    let new_cost = table[cur].cost + 1;
    let ghost c = cur as int;
    let ghost t0 = table@;
    let ghost o0 = open@;
    let n1 = GridPos { x: p.x + 1, y: p.y };
    relax(table, open, cur, n1, new_cost, end, map, Ghost(start), Ghost(bound));
    let ghost t1 = table@;
    let ghost o1 = open@;
    proof {
        lemma_frontier_keep(t0, o0, t1, o1, closed, map@, c);
        lemma_new_entries(t0, o0, o1, n1, new_cost, end, cell_blocked(n1, map@), o0.len() as int, map@);
    }
    let ghost q1 = lemma_ledger_step(t0, o0, t1, o1, pushed, popped, n1, new_cost, cur, end, cell_blocked(n1, map@), start, map@, bound);
    proof {
    }
    let n2 = GridPos { x: p.x - 1, y: p.y };
    relax(table, open, cur, n2, new_cost, end, map, Ghost(start), Ghost(bound));
    let ghost t2 = table@;
    let ghost o2 = open@;
    proof {
        lemma_frontier_keep(t1, o1, t2, o2, closed, map@, c);
        lemma_new_entries(t1, o1, o2, n2, new_cost, end, cell_blocked(n2, map@), o0.len() as int, map@);
    }
    let ghost q2 = lemma_ledger_step(t1, o1, t2, o2, q1, popped, n2, new_cost, cur, end, cell_blocked(n2, map@), start, map@, bound);
    proof {
        if !cell_blocked(n1, map@) {
            lemma_reached_keep(t1, t2, n1, new_cost as int);
        }
    }
    let n3 = GridPos { x: p.x, y: p.y + 1 };
    relax(table, open, cur, n3, new_cost, end, map, Ghost(start), Ghost(bound));
    let ghost t3 = table@;
    let ghost o3 = open@;
    proof {
        lemma_frontier_keep(t2, o2, t3, o3, closed, map@, c);
        lemma_new_entries(t2, o2, o3, n3, new_cost, end, cell_blocked(n3, map@), o0.len() as int, map@);
    }
    let ghost q3 = lemma_ledger_step(t2, o2, t3, o3, q2, popped, n3, new_cost, cur, end, cell_blocked(n3, map@), start, map@, bound);
    proof {
        if !cell_blocked(n1, map@) {
            lemma_reached_keep(t2, t3, n1, new_cost as int);
        }
        if !cell_blocked(n2, map@) {
            lemma_reached_keep(t2, t3, n2, new_cost as int);
        }
    }
    let n4 = GridPos { x: p.x, y: p.y - 1 };
    relax(table, open, cur, n4, new_cost, end, map, Ghost(start), Ghost(bound));
    proof {
        let t4 = table@;
        lemma_frontier_keep(t3, o3, t4, open@, closed, map@, c);
        lemma_new_entries(t3, o3, open@, n4, new_cost, end, cell_blocked(n4, map@), o0.len() as int, map@);
        if !cell_blocked(n1, map@) {
            lemma_reached_keep(t3, t4, n1, new_cost as int);
        }
        if !cell_blocked(n2, map@) {
            lemma_reached_keep(t3, t4, n2, new_cost as int);
        }
        if !cell_blocked(n3, map@) {
            lemma_reached_keep(t3, t4, n3, new_cost as int);
        }
        assert(t4[c] == t0[c]);
        assert forall|nb: GridPos|
            #![trigger adjacent(t4[c].pos, nb)]
            adjacent(t4[c].pos, nb) && !cell_blocked(nb, map@) implies reached_within(
            t4,
            nb,
            t4[c].cost + 1,
        ) by {
            if nb == n1 {
            } else if nb == n2 {
            } else if nb == n3 {
            } else {
                assert(nb == n4);
            }
        }
        lemma_frontier_close(t4, open@, closed, map@, c);
        assert forall|k: int| 0 <= k < o0.len() implies #[trigger] open@[k] == o0[k] by {
            assert(o1[k] == o0[k]);
            assert(o2[k] == o1[k]);
            assert(o3[k] == o2[k]);
        }
    }
    let ghost q4 = lemma_ledger_step(t3, o3, table@, open@, q3, popped, n4, new_cost, cur, end, cell_blocked(n4, map@), start, map@, bound);
    Ghost(q4)
}

/// A* search on the grid from `start` to `end`, moving between side-adjacent
/// free cells (see [`cell_blocked`]) at cost 1 per step, guided by the
/// Euclidean distance to `end`. The open set is ordered exactly by
/// `cost + distance` (see [`sqrt_sum_less`]); stale queue entries are
/// expanded again, as in a lazy-deletion heap. The search gives up after
/// expanding [`MAX_EXPANSIONS`] nodes.
///
/// Returns the cells of the path found, without `start` and ending with
/// `end`, or `None` when no path was found (the caller then heads straight for
/// the goal). The Euclidean distance never overestimates the steps left, so a
/// path found is a shortest walk; a free goal next to the start is always
/// reached in one step. A free goal that a walk of `l` steps reaches is found
/// whenever its [`search_pairs`] for `l` number at most [`MAX_EXPANSIONS`]:
/// every node expanded before the goal is one of them, and none is expanded
/// twice. For `l <= 4` there are at most 405, so such goals are always found.
#[verifier::rlimit(50)]
pub fn find_path_a_star(start: GridPos, end: GridPos, map: &MapDefinition) -> (r: Option<
    Vec<GridPos>,
>)
    requires
        start != end ==> i32::MIN < start.x < i32::MAX && i32::MIN < start.y < i32::MAX,
    ensures
        start == end ==> (r matches Some(p) && p@.len() == 0),
        start != end && cell_blocked(end, map@) ==> r is None,
        r matches Some(p) ==> is_walk(start, end, p@, map@),
        r matches Some(p) ==> forall|q: Seq<GridPos>|
            is_walk(start, end, q, map@) ==> p@.len() <= q.len(),
        start != end && adjacent(start, end) && !cell_blocked(end, map@) ==> (r matches Some(p)
            && p@ == seq![end]),
        start != end && !cell_blocked(end, map@) && (exists|q: Seq<GridPos>|
            #[trigger] is_walk(start, end, q, map@) && q.len() <= 4) ==> r is Some,
        forall|q: Seq<GridPos>|
            #![trigger is_walk(start, end, q, map@)]
            start != end && !cell_blocked(end, map@) && is_walk(start, end, q, map@) && search_pairs(
                start,
                end,
                map@,
                q.len() as int,
            ).len() <= MAX_EXPANSIONS ==> r is Some,
{
    // An unreachable goal: only free cells are ever queued.
    if start != end && is_cell_blocked(end, map) {
        return None;
    }
    let mut table: Vec<Visit> = Vec::new();
    table.push(Visit { pos: start, cost: 0, parent: 0 });
    let mut open: Vec<OpenNode> = Vec::new();
    open.push(OpenNode { g: 0, d: 0, pos: start, idx: 0 });
    let mut found = false;
    let mut end_idx: usize = 0;
    let mut iterations: u64 = 0;
    let ghost mut closed: Set<GridPos> = Set::empty();
    let ghost adj = start != end && adjacent(start, end) && !cell_blocked(end, map@);
    let ghost good = start != end && !cell_blocked(end, map@) && (exists|q: Seq<GridPos>|
        #[trigger] is_walk(start, end, q, map@) && search_pairs(start, end, map@, q.len() as int).finite()
            && search_pairs(start, end, map@, q.len() as int).len() <= MAX_EXPANSIONS);
    let ghost qs = choose|q: Seq<GridPos>|
        #[trigger] is_walk(start, end, q, map@) && search_pairs(start, end, map@, q.len() as int).finite()
            && search_pairs(start, end, map@, q.len() as int).len() <= MAX_EXPANSIONS;
    let ghost mut pushed: Set<(GridPos, int)> = Set::empty().insert((start, 0int));
    let ghost mut popped: Set<(GridPos, int)> = Set::empty();
    proof {
        assert(dist_sq(start, end) >= 0) by (nonlinear_arith);
        assert(open@[0].idx == 0);
        assert(table@[0].pos == start && table@[0].cost == 0);
        assert(key(open@[0]) == (start, 0int));
        assert forall|e: (GridPos, int)| #[trigger] pushed.contains(e) implies reached_within(
            table@,
            e.0,
            e.1,
        ) by {
            assert(table@[0] == table@[0]);
        }
        assert(popped.subset_of(pushed));
        assert(pushed.finite());
    }
    while open.len() > 0
        invariant_except_break
            !found,
            iterations <= MAX_EXPANSIONS,
            open_sound(open@, table@, end),
            frontier(table@, open@, closed, map@),
            start == end ==> iterations == 0 && open@.len() == 1 && open@[0].pos == start,
            adj ==> iterations <= 1,
            ledger(table@, open@, pushed, popped),
            popped.len() == iterations,
            !closed.contains(end),
            start != end ==> dist_inv(open@, start, end, map@),
            good ==> open@.len() > 0,
            good ==> popped.subset_of(search_pairs(start, end, map@, qs.len() as int)),
            adj && iterations == 0 ==> open@.len() == 1 && open@[0].pos == start && closed
                == Set::<GridPos>::empty(),
            adj && iterations == 1 ==> closed == Set::<GridPos>::empty().insert(start) && open@.len()
                > 0 && forall|q: int|
                0 <= q < open@.len() ==> (#[trigger] open@[q]).g == 1 && open@[q].d == dist_sq(
                    open@[q].pos,
                    end,
                ) as u64,
        invariant
            adj == (start != end && adjacent(start, end) && !cell_blocked(end, map@)),
            good == (start != end && !cell_blocked(end, map@) && (exists|q: Seq<GridPos>|
                #[trigger] is_walk(start, end, q, map@) && search_pairs(start, end, map@, q.len() as int).finite()
                    && search_pairs(start, end, map@, q.len() as int).len() <= MAX_EXPANSIONS)),
            good ==> is_walk(start, end, qs, map@) && search_pairs(start, end, map@, qs.len() as int).finite()
                && search_pairs(start, end, map@, qs.len() as int).len() <= MAX_EXPANSIONS,
            iterations <= MAX_EXPANSIONS + 1,
            table_inv(table@, start, map@, iterations as int),
            open_inv(open@, table@, iterations as int),
            start != end ==> !cell_blocked(end, map@),
            start != end ==> i32::MIN < start.x < i32::MAX && i32::MIN < start.y < i32::MAX,
            map@.width <= i32::MAX,
            map@.height <= i32::MAX,
        ensures
            found ==> end_idx < table@.len() && table@[end_idx as int].pos == end,
            found ==> forall|q: Seq<GridPos>|
                is_walk(start, end, q, map@) ==> table@[end_idx as int].cost <= q.len(),
            start == end ==> found,
            adj ==> found,
            good ==> found,
        decreases MAX_EXPANSIONS + 1 - iterations,
    {
        let k = index_of_min(&open);
        let ghost o0 = open@;
        let ghost it0 = iterations as int;
        proof {
            lemma_frontier_pop(table@, o0, k as int, closed, map@, end);
            lemma_ledger_pop(table@, o0, pushed, popped, k as int);
            if good {
                assert(qs.len() > 0);
                lemma_pop_in_pairs(table@, o0, closed, start, end, map@, it0, qs, k as int);
            }
            popped = popped.insert(key(o0[k as int]));
            if good {
                vstd::set_lib::lemma_len_subset(
                    popped,
                    search_pairs(start, end, map@, qs.len() as int),
                );
            }
        }
        let current = open.remove(k);
        assert(open@ =~= o0.remove(k as int));
        assert(open_inv(open@, table@, iterations as int)) by {
            assert forall|q: int| #![trigger open@[q]] 0 <= q < open@.len() implies {
                &&& open@[q].idx < table@.len()
                &&& table@[open@[q].idx as int].pos == open@[q].pos
                &&& open@[q].g <= iterations
                &&& open@[q].d <= max_dist_sq()
            } by {
                if q < k {
                    assert(open@[q] == o0[q]);
                } else {
                    assert(open@[q] == o0[q + 1]);
                }
            }
        }
        iterations += 1;
        if iterations > MAX_EXPANSIONS {
            break;
        }
        proof {
            if adj && it0 == 1 {
                let e = lemma_adjacent_goal_queued(table@, o0, closed, start, end, map@, it0);
                assert(!node_less(o0[e], o0[k as int]));
            }
        }
        if current.pos == end {
            proof {
                lemma_found_optimal(table@, o0, closed, start, end, map@, it0, k as int);
            }
            found = true;
            end_idx = current.idx;
            break;
        }
        let cur = current.idx;
        let p = current.pos;
        proof {
            if cur > 0 {
                assert(table@[cur as int].parent < table@.len());
                assert(!cell_blocked(table@[cur as int].pos, map@));
                lemma_free_cell_in_range(p, map@);
            }
        }
        proof {
            if adj && it0 == 0 {
                assert(k == 0);
                assert(current == o0[0]);
                assert(p == start);
                assert(table@[cur as int].pos == table@[0].pos);
                assert(cur == 0);
                assert(open@.len() == 0);
            }
        }
        let ghost o_mid = open@;
        proof {
            assert forall|q: int| #![trigger o_mid[q]] 0 <= q < o_mid.len() implies (o_mid[q].d
                == dist_sq(o_mid[q].pos, end) as u64 && !cell_blocked(o_mid[q].pos, map@)) || (
            o_mid[q].pos == start && o_mid[q].g == 0) by {
                if q < k {
                    assert(o_mid[q] == o0[q]);
                } else {
                    assert(o_mid[q] == o0[q + 1]);
                }
            }
        }
        let pushed_after = expand(
            &mut table,
            &mut open,
            cur,
            end,
            map,
            Ghost(start),
            Ghost(iterations as int),
            Ghost(closed),
            Ghost(pushed),
            Ghost(popped),
        );
        proof {
            pushed = pushed_after@;
            assert forall|q: int| #![trigger open@[q]] 0 <= q < open@.len() implies (open@[q].d
                == dist_sq(open@[q].pos, end) as u64 && !cell_blocked(open@[q].pos, map@)) || (
            open@[q].pos == start && open@[q].g == 0) by {
                if q < o_mid.len() {
                    assert(open@[q] == o_mid[q]);
                }
            }
            closed = closed.insert(p);
            if good {
                assert(qs.len() > 0);
                lemma_short_nonempty(table@, open@, closed, start, end, map@, iterations as int, qs);
            }
            if adj && it0 == 0 {
                assert(closed =~= Set::<GridPos>::empty().insert(start));
                let e = lemma_adjacent_goal_queued(
                    table@,
                    open@,
                    closed,
                    start,
                    end,
                    map@,
                    iterations as int,
                );
            }
        }
    }
    if !found {
        proof {
            assert forall|q: Seq<GridPos>|
                #![trigger is_walk(start, end, q, map@)]
                start != end && !cell_blocked(end, map@) && is_walk(start, end, q, map@)
                    && search_pairs(start, end, map@, q.len() as int).len()
                    <= MAX_EXPANSIONS implies false by {
                lemma_search_pairs_finite(start, end, map@, q.len() as int);
            }
            assert forall|q: Seq<GridPos>|
                #![trigger is_walk(start, end, q, map@)]
                start != end && !cell_blocked(end, map@) && is_walk(start, end, q, map@) && q.len()
                    <= 4 implies false by {
                lemma_short_pairs(start, end, map@, q.len() as int);
                lemma_search_pairs_finite(start, end, map@, q.len() as int);
            }
        }
        return None;
    }
    // Follow the recorded steps back from the goal to the start.

    let mut rev: Vec<GridPos> = Vec::new();
    let mut cur: usize = end_idx;
    let ghost mut idxs: Seq<int> = seq![];
    while cur != 0
        invariant
            table_inv(table@, start, map@, iterations as int),
            cur < table@.len(),
            table@[end_idx as int].pos == end,
            rev@.len() == idxs.len(),
            forall|k: int|
                0 <= k < idxs.len() ==> 0 < #[trigger] idxs[k] < table@.len() && table@[idxs[k]].pos
                    == rev@[k],
            forall|k: int, j: int|
                0 <= k < j < idxs.len() ==> table@[#[trigger] idxs[k]].cost > table@[#[trigger] idxs[j]].cost,
            forall|k: int| 0 <= k < idxs.len() ==> table@[cur as int].cost < table@[#[trigger] idxs[k]].cost,
            idxs.len() == 0 ==> cur == end_idx,
            idxs.len() > 0 ==> idxs[0] == end_idx,
            idxs.len() > 0 ==> adjacent(table@[cur as int].pos, rev@.last()),
            rev@.len() + table@[cur as int].cost <= table@[end_idx as int].cost,
            forall|q: Seq<GridPos>|
                is_walk(start, end, q, map@) ==> table@[end_idx as int].cost <= q.len(),
            forall|k: int| 0 <= k < rev@.len() - 1 ==> adjacent(#[trigger] rev@[k + 1], rev@[k]),
        decreases table@[cur as int].cost,
    {
        let ghost old_cur = cur as int;
        rev.push(table[cur].pos);
        proof {
            idxs = idxs.push(cur as int);
        }
        cur = table[cur].parent;
        assert(table@[cur as int].cost < table@[old_cur].cost);
    }
    let n = rev.len();
    let mut path: Vec<GridPos> = Vec::new();
    let mut j: usize = 0;
    while j < n
        invariant
            n == rev@.len(),
            j <= n,
            path@.len() == j,
            forall|t: int| 0 <= t < j ==> path@[t] == rev@[n - 1 - t],
        decreases n - j,
    {
        path.push(rev[n - 1 - j]);
        j += 1;
    }
    proof {
        assert(table@[0].pos == start);
        if n == 0 {
            assert(end_idx == 0);
        } else {
            assert(path@[0] == rev@[n - 1]);
            assert forall|i: int| 0 <= i < path@.len() - 1 implies adjacent(
                #[trigger] path@[i],
                path@[i + 1],
            ) by {
                assert(path@[i] == rev@[n - 1 - i]);
                assert(path@[i + 1] == rev@[(n - 1 - i) - 1]);
                assert(adjacent(rev@[(n - 1 - i - 1) + 1], rev@[n - 1 - i - 1]));
            }
            assert forall|i: int| 0 <= i < path@.len() implies !cell_blocked(
                #[trigger] path@[i],
                map@,
            ) && path@[i] != start by {
                let k = n - 1 - i;
                assert(path@[i] == rev@[k]);
                assert(0 < idxs[k]);
                assert(table@[idxs[k]].parent < table@.len());
                assert(table@[idxs[k]].pos != table@[0].pos);
            }
            assert forall|a: int, b: int| 0 <= a < b < path@.len() implies #[trigger] path@[a]
                != #[trigger] path@[b] by {
                let ka = n - 1 - a;
                let kb = n - 1 - b;
                assert(path@[a] == rev@[ka]);
                assert(path@[b] == rev@[kb]);
                assert(table@[idxs[kb]].cost > table@[idxs[ka]].cost);
                if idxs[ka] < idxs[kb] {
                    assert(table@[idxs[ka]].pos != table@[idxs[kb]].pos);
                } else {
                    assert(table@[idxs[kb]].pos != table@[idxs[ka]].pos);
                }
            }
        }
    }
    proof {
        if start != end && adjacent(start, end) && !cell_blocked(end, map@) {
            let w = seq![end];
            assert(is_walk(start, end, w, map@));
            assert(path@.len() == 1);
            assert(path@ =~= w);
        }
    }
    Some(path)
}

} // verus!
