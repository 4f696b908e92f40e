//! Shortest paths on the grid. A step goes from a cell to one of its four
//! orthogonal neighbours and may only enter an empty cell.

use vstd::prelude::*;
use crate::map::{grid_view, in_bounds, is_grid, Point, EMPTY};

verus! {

/// Whether a step may enter the cell at column `x`, row `y`.
pub open spec fn is_free(rows: Seq<Seq<char>>, x: int, y: int) -> bool {
    in_bounds(rows, x, y) && rows[y][x] == EMPTY
}

/// Whether some walk of at most `k` steps leads from (`sx`, `sy`) to
/// (`x`, `y`), every cell it enters being empty.
pub open spec fn reach(rows: Seq<Seq<char>>, sx: int, sy: int, x: int, y: int, k: nat) -> bool
    decreases k,
{
    if k == 0 {
        x == sx && y == sy
    } else {
        let j = (k - 1) as nat;
        reach(rows, sx, sy, x, y, j) || (is_free(rows, x, y) && (reach(rows, sx, sy, x - 1, y, j)
            || reach(rows, sx, sy, x + 1, y, j) || reach(rows, sx, sy, x, y - 1, j) || reach(
            rows,
            sx,
            sy,
            x,
            y + 1,
            j,
        )))
    }
}

/// Whether `k` is the cost of a shortest path from (`sx`, `sy`) to (`x`, `y`).
pub open spec fn is_path_cost(rows: Seq<Seq<char>>, sx: int, sy: int, x: int, y: int, k: nat) -> bool {
    reach(rows, sx, sy, x, y, k) && (k > 0 ==> !reach(rows, sx, sy, x, y, (k - 1) as nat))
}

/// What is reachable in `j` steps is reachable in any `k >= j` steps.
pub proof fn lemma_reach_monotone(rows: Seq<Seq<char>>, sx: int, sy: int, x: int, y: int, j: nat, k: nat)
    requires
        j <= k,
        reach(rows, sx, sy, x, y, j),
    ensures
        reach(rows, sx, sy, x, y, k),
    decreases k,
{
    if j < k {
        lemma_reach_monotone(rows, sx, sy, x, y, j, (k - 1) as nat);
    }
}

/// From a start on the grid no walk leaves the grid.
pub proof fn lemma_reach_stays_on_grid(rows: Seq<Seq<char>>, sx: int, sy: int, x: int, y: int, k: nat)
    requires
        in_bounds(rows, sx, sy),
        reach(rows, sx, sy, x, y, k),
    ensures
        in_bounds(rows, x, y),
    decreases k,
{
    if k > 0 && reach(rows, sx, sy, x, y, (k - 1) as nat) {
        lemma_reach_stays_on_grid(rows, sx, sy, x, y, (k - 1) as nat);
    }
}

/// A walk ends on its start or on an empty cell.
pub proof fn lemma_reach_ends_free(rows: Seq<Seq<char>>, sx: int, sy: int, x: int, y: int, k: nat)
    requires
        reach(rows, sx, sy, x, y, k),
    ensures
        (x == sx && y == sy) || is_free(rows, x, y),
    decreases k,
{
    if k > 0 && reach(rows, sx, sy, x, y, (k - 1) as nat) {
        lemma_reach_ends_free(rows, sx, sy, x, y, (k - 1) as nat);
    }
}

/// Whether two cells are next to each other in a row or in a column.
pub open spec fn adjacent(a: (int, int), b: (int, int)) -> bool {
    (a.0 == b.0 && (a.1 - b.1 == 1 || b.1 - a.1 == 1)) || (a.1 == b.1 && (a.0 - b.0 == 1 || b.0 - a.0
        == 1))
}

/// Whether `walk` lists the cells of a walk from (`sx`, `sy`) to (`x`, `y`):
/// each cell is next to the one before it, and each but the first is empty.
pub open spec fn is_walk(rows: Seq<Seq<char>>, walk: Seq<(int, int)>, sx: int, sy: int, x: int, y: int) -> bool {
    &&& walk.len() >= 1
    &&& walk[0] == (sx, sy)
    &&& walk.last() == (x, y)
    &&& forall|i: int|
        1 <= i < walk.len() ==> adjacent(walk[i - 1], #[trigger] walk[i]) && is_free(
            rows,
            walk[i].0,
            walk[i].1,
        )
}

/// Where a walk of `n` steps ends is within `n` steps.
pub proof fn lemma_walk_reaches(rows: Seq<Seq<char>>, walk: Seq<(int, int)>, sx: int, sy: int, x: int, y: int)
    requires
        is_walk(rows, walk, sx, sy, x, y),
    ensures
        reach(rows, sx, sy, x, y, (walk.len() - 1) as nat),
    decreases walk.len(),
{
    if walk.len() > 1 {
        let before = walk.drop_last();
        let (px, py) = before.last();
        assert forall|i: int| 1 <= i < before.len() implies adjacent(before[i - 1], #[trigger] before[i])
            && is_free(rows, before[i].0, before[i].1) by {
            assert(before[i] == walk[i]);
            assert(before[i - 1] == walk[i - 1]);
        }
        lemma_walk_reaches(rows, before, sx, sy, px, py);
        let last = walk.len() - 1;
        assert(adjacent(walk[last - 1], walk[last]) && is_free(rows, walk[last].0, walk[last].1));
        assert(walk[last - 1] == (px, py));
    }
}

/// What is within `k` steps is where a walk of at most `k` steps ends.
pub proof fn lemma_reach_has_walk(rows: Seq<Seq<char>>, sx: int, sy: int, x: int, y: int, k: nat) -> (walk: Seq<
    (int, int),
>)
    requires
        reach(rows, sx, sy, x, y, k),
    ensures
        is_walk(rows, walk, sx, sy, x, y),
        walk.len() <= k + 1,
    decreases k,
{
    if k == 0 {
        seq![(sx, sy)]
    } else {
        let j = (k - 1) as nat;
        if reach(rows, sx, sy, x, y, j) {
            lemma_reach_has_walk(rows, sx, sy, x, y, j)
        } else {
            let (px, py) = if reach(rows, sx, sy, x - 1, y, j) {
                (x - 1, y)
            } else if reach(rows, sx, sy, x + 1, y, j) {
                (x + 1, y)
            } else if reach(rows, sx, sy, x, y - 1, j) {
                (x, y - 1)
            } else {
                (x, y + 1)
            };
            let before = lemma_reach_has_walk(rows, sx, sy, px, py, j);
            let walk = before.push((x, y));
            assert forall|i: int| 1 <= i < walk.len() implies adjacent(walk[i - 1], #[trigger] walk[i])
                && is_free(rows, walk[i].0, walk[i].1) by {
                if i < before.len() {
                    assert(walk[i] == before[i]);
                    assert(walk[i - 1] == before[i - 1]);
                } else {
                    assert(walk[i - 1] == before.last());
                }
            }
            walk
        }
    }
}

/// The cost of a shortest path is the number of steps of a shortest walk:
/// some walk takes that many steps, and no walk takes fewer.
pub proof fn lemma_path_cost_is_shortest_walk(rows: Seq<Seq<char>>, sx: int, sy: int, x: int, y: int, k: nat)
    requires
        is_path_cost(rows, sx, sy, x, y, k),
    ensures
        exists|walk: Seq<(int, int)>| #[trigger] is_walk(rows, walk, sx, sy, x, y) && walk.len() == k + 1,
        forall|walk: Seq<(int, int)>| #[trigger] is_walk(rows, walk, sx, sy, x, y) ==> walk.len() >= k + 1,
{
    assert forall|walk: Seq<(int, int)>| #[trigger] is_walk(rows, walk, sx, sy, x, y) implies walk.len() >= k
        + 1 by {
        lemma_walk_reaches(rows, walk, sx, sy, x, y);
        if walk.len() < k + 1 {
            lemma_reach_monotone(rows, sx, sy, x, y, (walk.len() - 1) as nat, (k - 1) as nat);
        }
    }
    let shortest = lemma_reach_has_walk(rows, sx, sy, x, y, k);
    assert(is_walk(rows, shortest, sx, sy, x, y) && shortest.len() == k + 1);
}

/// The flags held by a vector of vectors.
pub open spec fn flags_view(flags: Vec<Vec<bool>>) -> Seq<Seq<bool>> {
    Seq::new(flags@.len(), |i: int| flags@[i]@)
}

/// Whether the cell at column `x`, row `y` is on the layer and flagged.
pub open spec fn marked(layer: Seq<Seq<bool>>, x: int, y: int) -> bool {
    0 <= y < layer.len() && 0 <= x < layer[y].len() && layer[y][x]
}

/// Whether a layer has the shape of the grid.
pub open spec fn same_shape(rows: Seq<Seq<char>>, layer: Seq<Seq<bool>>) -> bool {
    &&& layer.len() == rows.len()
    &&& forall|y: int| 0 <= y < rows.len() ==> (#[trigger] layer[y]).len() == rows[y].len()
}

/// The flag that one more step gives a cell.
pub open spec fn grown(rows: Seq<Seq<char>>, layer: Seq<Seq<bool>>, x: int, y: int) -> bool {
    marked(layer, x, y) || (is_free(rows, x, y) && (marked(layer, x - 1, y) || marked(layer, x + 1, y)
        || marked(layer, x, y - 1) || marked(layer, x, y + 1)))
}

/// Whether a layer flags exactly the cells within `k` steps of the start.
pub open spec fn is_layer(rows: Seq<Seq<char>>, sx: int, sy: int, layer: Seq<Seq<bool>>, k: nat) -> bool {
    &&& same_shape(rows, layer)
    &&& forall|x: int, y: int| #[trigger] marked(layer, x, y) == reach(rows, sx, sy, x, y, k)
}

/// A grid-shaped layer with no flag but the one at column `sx`, row `sy`.
fn first_layer(map: &Vec<Vec<char>>, sx: usize, sy: usize) -> (layer: Vec<Vec<bool>>)
    requires
        in_bounds(grid_view(*map), sx as int, sy as int),
    ensures
        is_layer(grid_view(*map), sx as int, sy as int, flags_view(layer), 0),
{
    let ghost rows = grid_view(*map);
    let mut layer: Vec<Vec<bool>> = Vec::new();
    let mut y: usize = 0;
    while y < map.len()
        invariant
            y <= map.len(),
            rows == grid_view(*map),
            layer.len() == y,
            forall|j: int| 0 <= j < y ==> (#[trigger] layer@[j])@.len() == rows[j].len(),
            forall|i: int, j: int|
                0 <= j < y && 0 <= i < rows[j].len() ==> #[trigger] layer@[j]@[i] == (i == sx && j
                    == sy),
        decreases map.len() - y,
    {
        let mut row: Vec<bool> = Vec::new();
        let mut x: usize = 0;
        while x < map[y].len()
            invariant
                y < map.len(),
                x <= map[y as int].len(),
                row.len() == x,
                forall|i: int| 0 <= i < x ==> #[trigger] row@[i] == (i == sx && y == sy),
            decreases map[y as int].len() - x,
        {
            row.push(x == sx && y == sy);
            x += 1;
        }
        layer.push(row);
        y += 1;
    }
    proof {
        let flags = flags_view(layer);
        assert(same_shape(rows, flags));
        assert forall|x: int, y: int| #[trigger] marked(flags, x, y) == reach(rows, sx as int, sy as int, x, y, 0) by {
            if 0 <= y < flags.len() && 0 <= x < flags[y].len() {
                assert(flags[y][x] == layer@[y]@[x]);
            }
        }
    }
    layer
}

/// The layer one step further out.
fn next_layer(map: &Vec<Vec<char>>, layer: &Vec<Vec<bool>>) -> (next: Vec<Vec<bool>>)
    requires
        same_shape(grid_view(*map), flags_view(*layer)),
    ensures
        same_shape(grid_view(*map), flags_view(next)),
        forall|x: int, y: int| #[trigger]
            marked(flags_view(next), x, y) == grown(grid_view(*map), flags_view(*layer), x, y),
{
    let ghost rows = grid_view(*map);
    let ghost old_flags = flags_view(*layer);
    let mut next: Vec<Vec<bool>> = Vec::new();
    let mut y: usize = 0;
    while y < map.len()
        invariant
            y <= map.len(),
            rows == grid_view(*map),
            old_flags == flags_view(*layer),
            same_shape(rows, old_flags),
            next.len() == y,
            forall|j: int| 0 <= j < y ==> (#[trigger] next@[j])@.len() == rows[j].len(),
            forall|i: int, j: int|
                0 <= j < y && 0 <= i < rows[j].len() ==> #[trigger] next@[j]@[i] == grown(
                    rows,
                    old_flags,
                    i,
                    j,
                ),
        decreases map.len() - y,
    {
        let mut row: Vec<bool> = Vec::new();
        let mut x: usize = 0;
        assert(old_flags[y as int].len() == rows[y as int].len());
        while x < map[y].len()
            invariant
                y < map.len(),
                rows == grid_view(*map),
                old_flags == flags_view(*layer),
                same_shape(rows, old_flags),
                x <= map[y as int].len(),
                row.len() == x,
                forall|i: int| 0 <= i < x ==> #[trigger] row@[i] == grown(rows, old_flags, i, y as int),
            decreases map[y as int].len() - x,
        {
            assert(old_flags[y as int].len() == rows[y as int].len());
            let mut flag = layer[y][x];
            if !flag && map[y][x] == EMPTY {
                if x > 0 && layer[y][x - 1] {
                    flag = true;
                }
                if x + 1 < layer[y].len() && layer[y][x + 1] {
                    flag = true;
                }
                if y > 0 {
                    assert(old_flags[y - 1].len() == rows[y - 1].len());
                    if x < layer[y - 1].len() && layer[y - 1][x] {
                        flag = true;
                    }
                }
                if y + 1 < layer.len() {
                    assert(old_flags[y + 1].len() == rows[y + 1].len());
                    if x < layer[y + 1].len() && layer[y + 1][x] {
                        flag = true;
                    }
                }
            }
            assert(flag == grown(rows, old_flags, x as int, y as int));
            row.push(flag);
            x += 1;
        }
        next.push(row);
        y += 1;
    }
    proof {
        let flags = flags_view(next);
        assert(same_shape(rows, flags));
        assert forall|x: int, y: int| #[trigger] marked(flags, x, y) == grown(rows, old_flags, x, y) by {
            if 0 <= y < flags.len() && 0 <= x < flags[y].len() {
                assert(flags[y][x] == next@[y]@[x]);
            } else {
                assert(!in_bounds(rows, x, y));
                assert(old_flags.len() == rows.len());
                if 0 <= y < rows.len() {
                    assert(old_flags[y].len() == rows[y].len());
                }
            }
        }
    }
    next
}

/// The cost of a shortest path from `start` to `dest` on `map` if that cost is
/// at most `limit`, else -1. Off the grid, and on rows that are no grid,
/// there is no path.
pub fn astar(map: &Vec<Vec<char>>, start: Point, dest: &Point, limit: u8) -> (cost: i16)
    ensures
        -1 <= cost <= limit,
        cost >= 0 <==> (is_grid(grid_view(*map)) && in_bounds(grid_view(*map), start.0 as int, start.1 as int)
            && in_bounds(grid_view(*map), dest.0 as int, dest.1 as int) && reach(
            grid_view(*map),
            start.0 as int,
            start.1 as int,
            dest.0 as int,
            dest.1 as int,
            limit as nat,
        )),
        cost >= 0 ==> is_path_cost(
            grid_view(*map),
            start.0 as int,
            start.1 as int,
            dest.0 as int,
            dest.1 as int,
            cost as nat,
        ),
{
    let ghost rows = grid_view(*map);
    if !crate::map::check_grid(map) {
        return -1;
    }
    if start.0 < 0 || start.1 < 0 || dest.0 < 0 || dest.1 < 0 {
        return -1;
    }
    let sx = start.0 as usize;
    let sy = start.1 as usize;
    let dx = dest.0 as usize;
    let dy = dest.1 as usize;
    if sy >= map.len() || dy >= map.len() || sx >= map[0].len() || dx >= map[0].len() {
        return -1;
    }
    assert(rows[sy as int].len() == rows[0].len());
    assert(rows[dy as int].len() == rows[0].len());
    let mut layer = first_layer(map, sx, sy);
    let mut k: u8 = 0;
    loop
        invariant
            rows == grid_view(*map),
            is_grid(rows),
            in_bounds(rows, sx as int, sy as int),
            in_bounds(rows, dx as int, dy as int),
            sx == start.0,
            sy == start.1,
            dx == dest.0,
            dy == dest.1,
            k <= limit,
            is_layer(rows, sx as int, sy as int, flags_view(layer), k as nat),
            k > 0 ==> !reach(rows, sx as int, sy as int, dx as int, dy as int, (k - 1) as nat),
        decreases limit - k,
    {
        let ghost flags = flags_view(layer);
        assert(flags[dy as int].len() == rows[dy as int].len());
        assert(marked(flags, dx as int, dy as int) == layer@[dy as int]@[dx as int]);
        if layer[dy][dx] {
            proof {
                lemma_reach_monotone(rows, sx as int, sy as int, dx as int, dy as int, k as nat, limit as nat);
            }
            return k as i16;
        }
        if k == limit {
            return -1;
        }
        let next = next_layer(map, &layer);
        proof {
            let grown_flags = flags_view(next);
            assert forall|x: int, y: int| #[trigger]
                marked(grown_flags, x, y) == reach(rows, sx as int, sy as int, x, y, (k + 1) as nat) by {
                assert(marked(flags, x, y) == reach(rows, sx as int, sy as int, x, y, k as nat));
                assert(marked(flags, x - 1, y) == reach(rows, sx as int, sy as int, x - 1, y, k as nat));
                assert(marked(flags, x + 1, y) == reach(rows, sx as int, sy as int, x + 1, y, k as nat));
                assert(marked(flags, x, y - 1) == reach(rows, sx as int, sy as int, x, y - 1, k as nat));
                assert(marked(flags, x, y + 1) == reach(rows, sx as int, sy as int, x, y + 1, k as nat));
            }
        }
        layer = next;
        k += 1;
    }
}

} // verus!
