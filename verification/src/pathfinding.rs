use vstd::prelude::*;
use crate::grid::{count_empty_cells, CellType, GridPos, PathGrid, adjacent, spec_neighbors, lemma_neighbors_exact, filled_table, set_table, spec_manhattan};

verus! {

/// `p` walks from `start` to `goal` over traversable cells, one adjacent cell per step.
pub open spec fn is_grid_path(g: &PathGrid, p: Seq<GridPos>, start: GridPos, goal: GridPos) -> bool {
    &&& p.len() >= 1
    &&& p[0] == start
    &&& p[p.len() - 1] == goal
    &&& forall|i: int| 0 <= i < p.len() ==> #[trigger] g.traversable(p[i])
    &&& forall|i: int| 0 <= i < p.len() - 1 ==> #[trigger] adjacent(p[i], p[i + 1])
}

/// Some walk leads from `start` to `goal`.
pub open spec fn path_exists(g: &PathGrid, start: GridPos, goal: GridPos) -> bool {
    exists|p: Seq<GridPos>| #[trigger] is_grid_path(g, p, start, goal)
}

/// `p` is a walk from `start` to `goal` and no walk between them has fewer cells.
pub open spec fn is_shortest_path(g: &PathGrid, p: Seq<GridPos>, start: GridPos, goal: GridPos) -> bool {
    &&& is_grid_path(g, p, start, goal)
    &&& forall|q: Seq<GridPos>| #[trigger] is_grid_path(g, q, start, goal) ==> p.len() <= q.len()
}

spec fn seen_at(seen: Seq<Vec<bool>>, p: GridPos) -> bool {
    seen[p.y as int]@[p.x as int]
}

spec fn parent_at(parents: Seq<Vec<GridPos>>, p: GridPos) -> GridPos {
    parents[p.y as int]@[p.x as int]
}

/// Every traversable neighbour of `p` has been reached, at most one step further than `p`.
spec fn closed_at(g: &PathGrid, dist: Map<GridPos, nat>, p: GridPos) -> bool {
    forall|u: GridPos| #[trigger] adjacent(p, u) && g.traversable(u) ==> dist.contains_key(u) && dist[u] <= dist[p] + 1
}

/// All reached cells closer than `k` are closed.
spec fn closed_below(g: &PathGrid, dist: Map<GridPos, nat>, k: int) -> bool {
    forall|p: GridPos| #[trigger] dist.contains_key(p) && dist[p] < k ==> closed_at(g, dist, p)
}

/// The search tree: `seen` marks exactly the reached cells, which are traversable,
/// and every reached cell but `start` has a reached adjacent parent one step closer.
spec fn search_tree(
    g: &PathGrid,
    seen: Seq<Vec<bool>>,
    parents: Seq<Vec<GridPos>>,
    dist: Map<GridPos, nat>,
    start: GridPos,
) -> bool {
    &&& seen.len() == g.height
    &&& parents.len() == g.height
    &&& forall|y: int| 0 <= y < g.height ==> #[trigger] seen[y]@.len() == g.width
    &&& forall|y: int| 0 <= y < g.height ==> #[trigger] parents[y]@.len() == g.width
    &&& dist.contains_key(start)
    &&& dist[start] == 0
    &&& forall|p: GridPos| g.in_bounds(p) ==> (#[trigger] seen_at(seen, p) <==> dist.contains_key(p))
    &&& forall|p: GridPos| #[trigger] dist.contains_key(p) ==> g.traversable(p)
    &&& forall|p: GridPos| #[trigger] dist.contains_key(p) && p != start ==> {
        &&& dist[p] >= 1
        &&& dist.contains_key(parent_at(parents, p))
        &&& adjacent(parent_at(parents, p), p)
        &&& dist[parent_at(parents, p)] + 1 == dist[p]
    }
}

/// Along any walk from `start`, the first `k + 1` cells have been reached, each
/// no further than its position on the walk, once every reached cell closer than
/// `k` is closed.
proof fn lemma_walk_reached(g: &PathGrid, dist: Map<GridPos, nat>, start: GridPos, q: Seq<GridPos>, k: int, j: int)
    requires
        dist.contains_key(start),
        dist[start] == 0,
        q.len() >= 1,
        q[0] == start,
        forall|i: int| 0 <= i < q.len() ==> #[trigger] g.traversable(q[i]),
        forall|i: int| 0 <= i < q.len() - 1 ==> #[trigger] adjacent(q[i], q[i + 1]),
        closed_below(g, dist, k),
        0 <= j < q.len(),
        j <= k,
    ensures
        dist.contains_key(q[j]),
        dist[q[j]] <= j,
    decreases j,
{
    if j > 0 {
        lemma_walk_reached(g, dist, start, q, k, j - 1);
        let p = q[j - 1];
        assert(adjacent(q[j - 1], q[(j - 1) + 1]));
        assert(closed_at(g, dist, p));
        assert(adjacent(p, q[j]) && g.traversable(q[j]));
    }
}

/// Rebuilds the walk from `start` to `goal` by following parents back from `goal`.
fn walk_back(
    g: &PathGrid,
    parents: &Vec<Vec<GridPos>>,
    Ghost(seen): Ghost<Seq<Vec<bool>>>,
    Ghost(dist): Ghost<Map<GridPos, nat>>,
    start: GridPos,
    goal: GridPos,
) -> (r: Vec<GridPos>)
    requires
        g.wf(),
        search_tree(g, seen, parents@, dist, start),
        dist.contains_key(goal),
    ensures
        is_grid_path(g, r@, start, goal),
        r@.len() == dist[goal] + 1,
{
    let mut back: Vec<GridPos> = Vec::new();
    back.push(goal);
    let mut cur = goal;
    while cur != start
        invariant
            search_tree(g, seen, parents@, dist, start),
            dist.contains_key(goal),
            dist.contains_key(cur),
            back@.len() >= 1,
            back@[0] == goal,
            back@[back@.len() - 1] == cur,
            back@.len() + dist[cur] == dist[goal] + 1,
            forall|i: int| 0 <= i < back@.len() ==> #[trigger] g.traversable(back@[i]),
            forall|i: int| 0 <= i < back@.len() - 1 ==> #[trigger] adjacent(back@[i + 1], back@[i]),
        decreases dist[cur],
    {
        assert(g.in_bounds(cur));
        let next = parents[cur.y][cur.x];
        assert(next == parent_at(parents@, cur));
        back.push(next);
        cur = next;
    }
    let mut forward: Vec<GridPos> = Vec::new();
    let n = back.len();
    let mut i: usize = 0;
    while i < n
        invariant
            n == back@.len(),
            n >= 1,
            i <= n,
            back@[0] == goal,
            back@[n - 1] == start,
            forward@.len() == i,
            forall|j: int| 0 <= j < i ==> #[trigger] forward@[j] == back@[n - 1 - j],
            forall|j: int| 0 <= j < n ==> #[trigger] g.traversable(back@[j]),
            forall|j: int| 0 <= j < n - 1 ==> #[trigger] adjacent(back@[j + 1], back@[j]),
        decreases n - i,
    {
        forward.push(back[n - 1 - i]);
        i += 1;
    }
    proof {
        assert forall|j: int| 0 <= j < forward@.len() implies #[trigger] g.traversable(forward@[j]) by {
            assert(g.traversable(back@[n - 1 - j]));
        }
        assert forall|j: int| 0 <= j < forward@.len() - 1 implies #[trigger] adjacent(forward@[j], forward@[j + 1]) by {
            let k = n - 2 - j;
            assert(adjacent(back@[k + 1], back@[k]));
            assert(forward@[j] == back@[n - 1 - j]);
            assert(forward@[j + 1] == back@[n - 1 - (j + 1)]);
        }
    }
    forward
}

/// Unreached cells of one row of the reached-table.
spec fn row_unseen(r: Seq<bool>) -> nat
    decreases r.len(),
{
    if r.len() == 0 {
        0
    } else {
        row_unseen(r.drop_last()) + (if r.last() { 0nat } else { 1nat })
    }
}

/// Unreached cells of the whole reached-table.
spec fn table_unseen(t: Seq<Vec<bool>>) -> nat
    decreases t.len(),
{
    if t.len() == 0 {
        0
    } else {
        table_unseen(t.drop_last()) + row_unseen(t.last()@)
    }
}

proof fn lemma_row_mark(r: Seq<bool>, i: int)
    requires
        0 <= i < r.len(),
        !r[i],
    ensures
        row_unseen(r.update(i, true)) + 1 == row_unseen(r),
    decreases r.len(),
{
    let r2 = r.update(i, true);
    if i == r.len() - 1 {
        assert(r2.drop_last() =~= r.drop_last());
    } else {
        lemma_row_mark(r.drop_last(), i);
        assert(r2.drop_last() =~= r.drop_last().update(i, true));
    }
}

proof fn lemma_table_mark(t: Seq<Vec<bool>>, t2: Seq<Vec<bool>>, y: int)
    requires
        0 <= y < t.len(),
        t2.len() == t.len(),
        forall|j: int| 0 <= j < t.len() && j != y ==> #[trigger] t2[j] == t[j],
        row_unseen(t2[y]@) + 1 == row_unseen(t[y]@),
    ensures
        table_unseen(t2) + 1 == table_unseen(t),
    decreases t.len(),
{
    if y == t.len() - 1 {
        assert(t2.drop_last() =~= t.drop_last());
    } else {
        lemma_table_mark(t.drop_last(), t2.drop_last(), y);
        assert(t2.last() == t.last());
    }
}

/// Adding a newly reached cell keeps every closed cell closed.
proof fn lemma_closed_grow(g: &PathGrid, dist: Map<GridPos, nat>, p: GridPos, u: GridPos, val: nat)
    requires
        !dist.contains_key(u),
        dist.contains_key(p),
        closed_at(g, dist, p),
    ensures
        closed_at(g, dist.insert(u, val), p),
{
    let d2 = dist.insert(u, val);
    assert forall|w: GridPos| #[trigger] adjacent(p, w) && g.traversable(w) implies d2.contains_key(w) && d2[w] <= d2[p] + 1 by {
        assert(dist.contains_key(w));
    }
}

/// Reaching the unreached traversable cell `u` from the reached cell `v` keeps the search tree.
proof fn lemma_tree_grow(
    g: &PathGrid,
    old_seen: Seq<Vec<bool>>,
    seen: Seq<Vec<bool>>,
    old_parents: Seq<Vec<GridPos>>,
    parents: Seq<Vec<GridPos>>,
    old_dist: Map<GridPos, nat>,
    start: GridPos,
    u: GridPos,
    v: GridPos,
)
    requires
        search_tree(g, old_seen, old_parents, old_dist, start),
        g.traversable(u),
        !old_dist.contains_key(u),
        old_dist.contains_key(v),
        adjacent(v, u),
        seen.len() == old_seen.len(),
        forall|j: int| 0 <= j < seen.len() && j != u.y ==> #[trigger] seen[j] == old_seen[j],
        seen[u.y as int]@ == old_seen[u.y as int]@.update(u.x as int, true),
        parents.len() == old_parents.len(),
        forall|j: int| 0 <= j < parents.len() && j != u.y ==> #[trigger] parents[j] == old_parents[j],
        parents[u.y as int]@ == old_parents[u.y as int]@.update(u.x as int, v),
    ensures
        search_tree(g, seen, parents, old_dist.insert(u, old_dist[v] + 1), start),
{
    let dist = old_dist.insert(u, old_dist[v] + 1);
    assert forall|y: int| 0 <= y < g.height implies #[trigger] seen[y]@.len() == g.width by {
        if y != u.y {
            assert(seen[y] == old_seen[y]);
        }
    }
    assert forall|y: int| 0 <= y < g.height implies #[trigger] parents[y]@.len() == g.width by {
        if y != u.y {
            assert(parents[y] == old_parents[y]);
        }
    }
    assert forall|p: GridPos| g.in_bounds(p) implies (#[trigger] seen_at(seen, p) <==> dist.contains_key(p)) by {
        if p.y != u.y {
            assert(seen[p.y as int] == old_seen[p.y as int]);
        }
        assert(seen_at(old_seen, p) <==> old_dist.contains_key(p));
    }
    assert forall|p: GridPos| #[trigger] dist.contains_key(p) implies g.traversable(p) by {
        if p != u {
            assert(old_dist.contains_key(p));
        }
    }
    assert forall|p: GridPos| #[trigger] dist.contains_key(p) && p != start implies {
        &&& dist[p] >= 1
        &&& dist.contains_key(parent_at(parents, p))
        &&& adjacent(parent_at(parents, p), p)
        &&& dist[parent_at(parents, p)] + 1 == dist[p]
    } by {
        if p != u {
            assert(old_dist.contains_key(p));
            assert(g.traversable(p));
            if p.y != u.y {
                assert(parents[p.y as int] == old_parents[p.y as int]);
            }
            assert(parent_at(parents, p) == parent_at(old_parents, p));
        } else {
            assert(parent_at(parents, p) == v);
        }
    }
}

/// Reaching the unreached cell `u` at distance `d + 1` and queueing it keeps the
/// layer bookkeeping and every closed cell closed.
proof fn lemma_layers_grow(
    g: &PathGrid,
    old_dist: Map<GridPos, nat>,
    d: nat,
    current: Seq<GridPos>,
    i: int,
    old_next: Seq<GridPos>,
    u: GridPos,
)
    requires
        !old_dist.contains_key(u),
        forall|p: GridPos| #[trigger] old_dist.contains_key(p) ==> old_dist[p] <= d + 1,
        forall|j: int| 0 <= j < current.len() ==> old_dist.contains_key(#[trigger] current[j]) && old_dist[current[j]] == d,
        forall|p: GridPos| #[trigger] old_dist.contains_key(p) && old_dist[p] == d ==> current.contains(p),
        forall|j: int| 0 <= j < old_next.len() ==> old_dist.contains_key(#[trigger] old_next[j]) && old_dist[old_next[j]] == d + 1,
        forall|p: GridPos| #[trigger] old_dist.contains_key(p) && old_dist[p] == d + 1 ==> old_next.contains(p),
        closed_below(g, old_dist, d as int),
        0 <= i <= current.len(),
        forall|j: int| 0 <= j < i ==> closed_at(g, old_dist, #[trigger] current[j]),
    ensures
        ({
            let dist = old_dist.insert(u, d + 1);
            let next = old_next.push(u);
            &&& forall|p: GridPos| #[trigger] dist.contains_key(p) ==> dist[p] <= d + 1
            &&& forall|j: int| 0 <= j < current.len() ==> dist.contains_key(#[trigger] current[j]) && dist[current[j]] == d
            &&& forall|p: GridPos| #[trigger] dist.contains_key(p) && dist[p] == d ==> current.contains(p)
            &&& forall|j: int| 0 <= j < next.len() ==> dist.contains_key(#[trigger] next[j]) && dist[next[j]] == d + 1
            &&& forall|p: GridPos| #[trigger] dist.contains_key(p) && dist[p] == d + 1 ==> next.contains(p)
            &&& closed_below(g, dist, d as int)
            &&& forall|j: int| 0 <= j < i ==> closed_at(g, dist, #[trigger] current[j])
        }),
{
    let dist = old_dist.insert(u, d + 1);
    let next = old_next.push(u);
    assert forall|p: GridPos| #[trigger] dist.contains_key(p) && dist[p] < d as int implies closed_at(g, dist, p) by {
        assert(old_dist.contains_key(p));
        lemma_closed_grow(g, old_dist, p, u, d + 1);
    }
    assert forall|j: int| 0 <= j < i implies closed_at(g, dist, #[trigger] current[j]) by {
        assert(old_dist.contains_key(current[j]));
        lemma_closed_grow(g, old_dist, current[j], u, d + 1);
    }
    assert forall|j: int| 0 <= j < current.len() implies dist.contains_key(#[trigger] current[j]) && dist[current[j]] == d by {
        assert(old_dist.contains_key(current[j]));
    }
    assert forall|j: int| 0 <= j < next.len() implies dist.contains_key(#[trigger] next[j]) && dist[next[j]] == d + 1 by {
        if j < next.len() - 1 {
            assert(next[j] == old_next[j]);
            assert(old_dist.contains_key(old_next[j]));
        }
    }
    assert forall|p: GridPos| #[trigger] dist.contains_key(p) && dist[p] == d + 1 implies next.contains(p) by {
        if p == u {
            assert(next[next.len() - 1] == u);
        } else {
            assert(old_dist.contains_key(p));
            assert(old_next.contains(p));
            let j = choose|j: int| 0 <= j < old_next.len() && old_next[j] == p;
            assert(next[j] == p);
        }
    }
    assert forall|p: GridPos| #[trigger] dist.contains_key(p) && dist[p] == d implies current.contains(p) by {
        assert(old_dist.contains_key(p));
    }
}

/// What the breadth-first search keeps between steps.
spec fn search_state(
    g: &PathGrid,
    seen: Seq<Vec<bool>>,
    parents: Seq<Vec<GridPos>>,
    dist: Map<GridPos, nat>,
    start: GridPos,
    goal: GridPos,
    d: nat,
    current: Seq<GridPos>,
    next: Seq<GridPos>,
) -> bool {
    &&& search_tree(g, seen, parents, dist, start)
    &&& !dist.contains_key(goal)
    &&& forall|p: GridPos| #[trigger] dist.contains_key(p) ==> dist[p] <= d + 1
    &&& forall|i: int| 0 <= i < current.len() ==> dist.contains_key(#[trigger] current[i]) && dist[current[i]] == d
    &&& forall|p: GridPos| #[trigger] dist.contains_key(p) && dist[p] == d ==> current.contains(p)
    &&& forall|i: int| 0 <= i < next.len() ==> dist.contains_key(#[trigger] next[i]) && dist[next[i]] == d + 1
    &&& forall|p: GridPos| #[trigger] dist.contains_key(p) && dist[p] == d + 1 ==> next.contains(p)
}

/// A shortest walk from `start` to `goal` over traversable cells, moving one
/// cell north, south, west or east per step; `None` when no walk exists (in
/// particular when either end is not traversable).
#[verifier::rlimit(80)]
pub fn find_path(grid: &PathGrid, start: GridPos, goal: GridPos) -> (r: Option<Vec<GridPos>>)
    requires
        grid.wf(),
    ensures
        match r {
            Some(p) => is_shortest_path(grid, p@, start, goal),
            None => !path_exists(grid, start, goal),
        },
{
    if !grid.is_traversable(start) || !grid.is_traversable(goal) {
        proof {
            assert forall|q: Seq<GridPos>| !#[trigger] is_grid_path(grid, q, start, goal) by {
                if is_grid_path(grid, q, start, goal) {
                    assert(grid.traversable(q[0]));
                    assert(grid.traversable(q[q.len() - 1]));
                }
            }
        }
        return None;
    }
    if start == goal {
        let mut single: Vec<GridPos> = Vec::new();
        single.push(start);
        proof {
            assert(single@[0] == start);
        }
        return Some(single);
    }
    let width = grid.width;
    let height = grid.height;
    let mut seen = filled_table(width, height, false);
    let mut parents = filled_table(width, height, GridPos::new(0, 0));
    let ghost seen0 = seen@;
    set_table(&mut seen, start.y, start.x, true);
    let ghost mut dist: Map<GridPos, nat> = Map::empty().insert(start, 0nat);
    let ghost mut d: nat = 0;
    let mut current: Vec<GridPos> = Vec::new();
    current.push(start);
    let mut next: Vec<GridPos> = Vec::new();
    proof {
        assert forall|p: GridPos| grid.in_bounds(p) implies (#[trigger] seen_at(seen@, p) <==> dist.contains_key(p)) by {
            if p.y != start.y {
                assert(seen@[p.y as int] == seen0[p.y as int]);
            }
        }
        assert forall|p: GridPos| #[trigger] dist.contains_key(p) && dist[p] == 0 implies current@.contains(p) by {
            assert(current@[0] == start);
        }
    }
    while current.len() > 0
        invariant
            grid.wf(),
            width == grid.width,
            height == grid.height,
            grid.traversable(start),
            grid.traversable(goal),
            start != goal,
            search_state(grid, seen@, parents@, dist, start, goal, d, current@, next@),
            closed_below(grid, dist, d as int),
            next@.len() == 0,
        decreases 2 * table_unseen(seen@) + (if current@.len() > 0 { 1int } else { 0int }),
    {
        let ghost u0 = table_unseen(seen@);
        let mut i: usize = 0;
        while i < current.len()
            invariant
                grid.wf(),
                width == grid.width,
                height == grid.height,
                grid.traversable(start),
                grid.traversable(goal),
                start != goal,
                search_state(grid, seen@, parents@, dist, start, goal, d, current@, next@),
                closed_below(grid, dist, d as int),
                i <= current@.len(),
                forall|j: int| 0 <= j < i ==> closed_at(grid, dist, #[trigger] current@[j]),
                table_unseen(seen@) + next@.len() == u0,
            decreases current@.len() - i,
        {
            let v = current[i];
            assert(dist.contains_key(current@[i as int]));
            assert(grid.traversable(v));
            let neighbors = v.neighbors(width, height);
            let mut k: usize = 0;
            while k < neighbors.len()
                invariant
                    grid.wf(),
                    width == grid.width,
                    height == grid.height,
                    grid.traversable(start),
                    grid.traversable(goal),
                    start != goal,
                    search_state(grid, seen@, parents@, dist, start, goal, d, current@, next@),
                    closed_below(grid, dist, d as int),
                    i < current@.len(),
                    v == current@[i as int],
                    dist.contains_key(v),
                    dist[v] == d,
                    grid.in_bounds(v),
                    neighbors@ == spec_neighbors(v, width as nat, height as nat),
                    forall|j: int| 0 <= j < i ==> closed_at(grid, dist, #[trigger] current@[j]),
                    table_unseen(seen@) + next@.len() == u0,
                    k <= neighbors@.len(),
                    forall|j: int| 0 <= j < k && grid.traversable(#[trigger] neighbors@[j]) ==>
                        dist.contains_key(neighbors@[j]) && dist[neighbors@[j]] <= d + 1,
                decreases neighbors@.len() - k,
            {
                let u = neighbors[k];
                proof {
                    lemma_neighbors_exact(v, u, width as nat, height as nat);
                    assert(spec_neighbors(v, width as nat, height as nat)[k as int] == u);
                }
                if grid.is_traversable(u) && !seen[u.y][u.x] {
                    let ghost old_seen = seen@;
                    let ghost old_parents = parents@;
                    let ghost old_dist = dist;
                    let ghost old_next = next@;
                    assert(!seen_at(old_seen, u));
                    set_table(&mut seen, u.y, u.x, true);
                    set_table(&mut parents, u.y, u.x, v);
                    next.push(u);
                    proof {
                        lemma_row_mark(old_seen[u.y as int]@, u.x as int);
                        lemma_table_mark(old_seen, seen@, u.y as int);
                        lemma_tree_grow(grid, old_seen, seen@, old_parents, parents@, old_dist, start, u, v);
                        lemma_layers_grow(grid, old_dist, d, current@, i as int, old_next, u);
                        dist = dist.insert(u, d + 1);
                        assert(next@ == old_next.push(u));
                    }
                    if u == goal {
                        let path = walk_back(grid, &parents, Ghost(seen@), Ghost(dist), start, goal);
                        proof {
                            assert forall|q: Seq<GridPos>| #[trigger] is_grid_path(grid, q, start, goal) implies
                                path@.len() <= q.len() by {
                                if q.len() - 1 <= d {
                                    lemma_walk_reached(grid, old_dist, start, q, d as int, q.len() - 1);
                                }
                            }
                        }
                        return Some(path);
                    }
                }
                proof {
                    if grid.traversable(u) {
                        assert(seen_at(seen@, u));
                        assert(dist.contains_key(u));
                    }
                    assert forall|j: int| 0 <= j < k + 1 && grid.traversable(#[trigger] neighbors@[j]) implies
                        dist.contains_key(neighbors@[j]) && dist[neighbors@[j]] <= d + 1 by {
                        if j == k {
                            assert(neighbors@[j] == u);
                        }
                    }
                }
                k += 1;
            }
            proof {
                assert forall|w: GridPos| #[trigger] adjacent(v, w) && grid.traversable(w) implies
                    dist.contains_key(w) && dist[w] <= dist[v] + 1 by {
                    lemma_neighbors_exact(v, w, width as nat, height as nat);
                    let j = choose|j: int| 0 <= j < neighbors@.len() && neighbors@[j] == w;
                    assert(grid.traversable(neighbors@[j]));
                }
                assert(closed_at(grid, dist, v));
            }
            i += 1;
        }
        proof {
            assert forall|p: GridPos| #[trigger] dist.contains_key(p) && dist[p] < d + 1 implies closed_at(grid, dist, p) by {
                if dist[p] == d {
                    assert(current@.contains(p));
                    let j = choose|j: int| 0 <= j < current@.len() && current@[j] == p;
                    assert(closed_at(grid, dist, current@[j]));
                }
            }
        }
        current = next;
        next = Vec::new();
        proof {
            d = d + 1;
        }
    }
    proof {
        assert forall|q: Seq<GridPos>| !#[trigger] is_grid_path(grid, q, start, goal) by {
            if is_grid_path(grid, q, start, goal) {
                assert forall|p: GridPos| #[trigger] dist.contains_key(p) && dist[p] < q.len() implies closed_at(grid, dist, p) by {
                    if dist[p] == d {
                        assert(current@.contains(p));
                    } else if dist[p] == d + 1 {
                        assert(next@.contains(p));
                    }
                }
                lemma_walk_reached(grid, dist, start, q, q.len() as int, q.len() - 1);
            }
        }
    }
    None
}

/// Every coordinate of every position in `p` fits in an `i32`.
pub open spec fn coords_fit_i32(p: Seq<GridPos>) -> bool {
    forall|i: int| 0 <= i < p.len() ==> #[trigger] p[i].x <= i32::MAX && p[i].y <= i32::MAX
}

/// The step from `a` to `b` as a (dx, dy) vector.
pub open spec fn step_vector(a: GridPos, b: GridPos) -> (int, int) {
    (b.x - a.x, b.y - a.y)
}

/// How many times the step vector changes along `p`.
pub open spec fn turn_count(p: Seq<GridPos>) -> nat
    decreases p.len(),
{
    if p.len() < 3 {
        0
    } else {
        let n = p.len() as int;
        turn_count(p.drop_last()) + (if step_vector(p[n - 3], p[n - 2]) != step_vector(p[n - 2], p[n - 1]) { 1nat } else { 0nat })
    }
}

proof fn lemma_turn_count_le(p: Seq<GridPos>)
    ensures
        turn_count(p) <= p.len(),
    decreases p.len(),
{
    if p.len() >= 3 {
        lemma_turn_count_le(p.drop_last());
    }
}

/// The step vector from `from` to `to`.
fn get_direction(from: GridPos, to: GridPos) -> (r: (i32, i32))
    requires
        from.x <= i32::MAX,
        from.y <= i32::MAX,
        to.x <= i32::MAX,
        to.y <= i32::MAX,
    ensures
        (r.0 as int, r.1 as int) == step_vector(from, to),
{
    (to.x as i32 - from.x as i32, to.y as i32 - from.y as i32)
}

/// How many times the step vector changes along `path`.
fn count_direction_changes(path: &[GridPos]) -> (r: usize)
    requires
        coords_fit_i32(path@),
    ensures
        r == turn_count(path@),
{
    if path.len() < 3 {
        return 0;
    }
    let mut changes: usize = 0;
    assert(path@[0].x <= i32::MAX && path@[1].x <= i32::MAX);
    let mut last_direction = get_direction(path[0], path[1]);
    let mut i: usize = 2;
    while i < path.len()
        invariant
            2 <= i <= path@.len(),
            coords_fit_i32(path@),
            changes == turn_count(path@.take(i as int)),
            changes <= i,
            (last_direction.0 as int, last_direction.1 as int) == step_vector(path@[i - 2], path@[i - 1]),
        decreases path@.len() - i,
    {
        assert(path@[i as int - 1].x <= i32::MAX && path@[i as int].x <= i32::MAX);
        let current_direction = get_direction(path[i - 1], path[i]);
        proof {
            let t = path@.take(i + 1);
            assert(t.drop_last() =~= path@.take(i as int));
            assert(t[i - 2] == path@[i - 2] && t[i - 1] == path@[i - 1] && t[i as int] == path@[i as int]);
        }
        if current_direction.0 != last_direction.0 || current_direction.1 != last_direction.1 {
            changes += 1;
        }
        last_direction = current_direction;
        i += 1;
    }
    assert(path@.take(path@.len() as int) =~= path@);
    changes
}

/// Whether some position occurs twice in `path`.
fn has_loops(path: &[GridPos]) -> (r: bool)
    ensures
        r == !path@.no_duplicates(),
{
    let mut i: usize = 0;
    while i < path.len()
        invariant
            i <= path@.len(),
            forall|a: int, b: int| 0 <= a < i && a < b < path@.len() ==> path@[a] != path@[b],
        decreases path@.len() - i,
    {
        let mut j: usize = i + 1;
        while j < path.len()
            invariant
                i < path@.len(),
                i + 1 <= j <= path@.len(),
                forall|a: int, b: int| 0 <= a < i && a < b < path@.len() ==> path@[a] != path@[b],
                forall|b: int| i < b < j ==> path@[i as int] != path@[b],
            decreases path@.len() - j,
        {
            if path[i] == path[j] {
                return true;
            }
            j += 1;
        }
        i += 1;
    }
    false
}

/// Quality check: the length is within [`min_length`, `max_length`], no
/// position repeats, and the path turns at least twice.
pub fn validate_path_quality(path: &[GridPos], min_length: usize, max_length: usize) -> (r: bool)
    requires
        coords_fit_i32(path@),
    ensures
        r == (min_length <= path@.len() <= max_length && path@.no_duplicates() && turn_count(path@) >= 2),
{
    if path.len() < min_length || path.len() > max_length {
        return false;
    }
    if has_loops(path) {
        return false;
    }
    if count_direction_changes(path) < 2 {
        return false;
    }
    true
}

/// The inner cells of `p` (all but the first and the last) stay off the border of a `width` by `height` map.
pub open spec fn inner_off_border(p: Seq<GridPos>, width: int, height: int) -> bool {
    forall|i: int| 0 < i < p.len() - 1 ==> {
        let q = #[trigger] p[i];
        q.x != 0 && q.x < width - 1 && q.y != 0 && q.y < height - 1
    }
}

/// Consecutive points of `p` are at most 10 cells apart.
pub open spec fn short_jumps(p: Seq<GridPos>) -> bool {
    forall|i: int| 0 <= i < p.len() - 1 ==> spec_manhattan(#[trigger] p[i], p[i + 1]) <= 10
}

/// The strategic requirements that `validate_strategic_path_requirements` checks.
pub open spec fn strategic_requirements(p: Seq<GridPos>, width: int, height: int) -> bool {
    &&& p.len() > 0
    &&& p[0].x == 0
    &&& p[p.len() - 1].x == width - 1
    &&& inner_off_border(p, width, height)
    &&& turn_count(p) >= 3
    &&& short_jumps(p)
    &&& 6 <= p[0].y <= 12
    &&& 6 <= p[p.len() - 1].y <= 12
}

fn check_inner_off_border(path: &[GridPos], grid_width: usize, grid_height: usize) -> (r: bool)
    requires
        path@.len() >= 1,
        grid_width >= 1,
        path@.len() > 2 ==> grid_height >= 1,
    ensures
        r == inner_off_border(path@, grid_width as int, grid_height as int),
{
    let mut i: usize = 1;
    while i < path.len() - 1
        invariant
            1 <= i,
            path@.len() >= 1,
            i <= path@.len(),
            grid_width >= 1,
            path@.len() > 2 ==> grid_height >= 1,
            forall|j: int| 0 < j < i && j < path@.len() - 1 ==> {
                let q = #[trigger] path@[j];
                q.x != 0 && q.x < grid_width - 1 && q.y != 0 && q.y < grid_height - 1
            },
        decreases path@.len() - i,
    {
        let pos = path[i];
        if pos.x == 0 || pos.x >= grid_width - 1 || pos.y == 0 || pos.y >= grid_height - 1 {
            return false;
        }
        i += 1;
    }
    true
}

fn check_short_jumps(path: &[GridPos]) -> (r: bool)
    requires
        path@.len() >= 1,
        coords_fit_i32(path@),
    ensures
        r == short_jumps(path@),
{
    let mut k: usize = 0;
    while k < path.len() - 1
        invariant
            k <= path@.len(),
            path@.len() >= 1,
            coords_fit_i32(path@),
            forall|j: int| 0 <= j < k && j < path@.len() - 1 ==> spec_manhattan(#[trigger] path@[j], path@[j + 1]) <= 10,
        decreases path@.len() - k,
    {
        assert(path@[k as int].x <= i32::MAX && path@[k + 1].x <= i32::MAX);
        let dist = path[k].manhattan_distance(&path[k + 1]);
        if dist > 10 {
            return false;
        }
        k += 1;
    }
    true
}

/// Whether `path` is a strategic route on a `grid_width` by `grid_height`
/// map: it enters on the left edge and leaves on the right edge, both in the
/// middle rows 6 to 12, keeps its inner cells off the border, turns at least
/// three times and never jumps more than 10 cells between consecutive points.
pub fn validate_strategic_path_requirements(path: &[GridPos], grid_width: usize, grid_height: usize) -> (r: bool)
    requires
        coords_fit_i32(path@),
        path@.len() > 0 && path@[0].x == 0 ==> grid_width >= 1,
        path@.len() > 2 && path@[0].x == 0 && path@[path@.len() - 1].x == grid_width - 1 ==> grid_height >= 1,
    ensures
        r == strategic_requirements(path@, grid_width as int, grid_height as int),
        r ==> 6 <= path@[0].y <= 12 && 6 <= path@[path@.len() - 1].y <= 12,
{
    if path.len() == 0 {
        return false;
    }
    let start = path[0];
    let end = path[path.len() - 1];
    if start.x != 0 || end.x != grid_width - 1 {
        return false;
    }
    if !check_inner_off_border(path, grid_width, grid_height) {
        return false;
    }
    if count_direction_changes(path) < 3 {
        return false;
    }
    if !check_short_jumps(path) {
        return false;
    }
    if !(6 <= start.y && start.y <= 12) || !(6 <= end.y && end.y <= 12) {
        return false;
    }
    true
}

/// An accepted strategic path starts on the left edge and ends on the right
/// edge, both in the middle rows 6 to 12, turns at least three times, and
/// never jumps more than ten cells at once.
pub proof fn law_accepted_strategic_paths(p: Seq<GridPos>, width: int, height: int)
    requires
        strategic_requirements(p, width, height),
    ensures
        p.len() > 0,
        p[0].x == 0 && p[p.len() - 1].x == width - 1,
        6 <= p[0].y <= 12 && 6 <= p[p.len() - 1].y <= 12,
        turn_count(p) >= 3,
        forall|i: int| 0 <= i < p.len() - 1 ==> spec_manhattan(#[trigger] p[i], p[i + 1]) <= 10,
{
}

/// Kinds of choke point along a path.
#[derive(Debug, Clone, Copy, PartialEq, Eq, Structural)]
pub enum ChokePointType {
    /// Not a significant choke point.
    NoChokePoint,
    /// Narrow passage with few ways around.
    NarrowPassage,
    /// Sharp bend where movement is constrained.
    CurveChokePoint,
    /// Junction where routes meet or part.
    PathJunction,
    /// Cell hemmed in by obstacles.
    ObstacleChokePoint,
}

/// The path doubles back sharply at `curr`: the angle between the incoming and
/// outgoing steps has a cosine below -0.4, i.e. the curvature (1 - cos) / 2
/// exceeds 0.7.
pub open spec fn sharp_curve(prev: GridPos, curr: GridPos, next: GridPos) -> bool {
    let (dx1, dy1) = step_vector(prev, curr);
    let (dx2, dy2) = step_vector(curr, next);
    let m1 = dx1 * dx1 + dy1 * dy1;
    let m2 = dx2 * dx2 + dy2 * dy2;
    let dot = dx1 * dx2 + dy1 * dy2;
    m1 != 0 && m2 != 0 && dot < 0 && 25 * (dot * dot) > 4 * (m1 * m2)
}

/// The squared lengths of both steps at `curr` fit in an `i32`.
pub open spec fn curvature_defined(prev: GridPos, curr: GridPos, next: GridPos) -> bool {
    let (dx1, dy1) = step_vector(prev, curr);
    let (dx2, dy2) = step_vector(curr, next);
    &&& prev.x <= i32::MAX && prev.y <= i32::MAX
    &&& curr.x <= i32::MAX && curr.y <= i32::MAX
    &&& next.x <= i32::MAX && next.y <= i32::MAX
    &&& dx1 * dx1 + dy1 * dy1 <= i32::MAX
    &&& dx2 * dx2 + dy2 * dy2 <= i32::MAX
}

proof fn lemma_small_square(a: int)
    requires
        a * a <= i32::MAX,
    ensures
        -46341 <= a <= 46341,
{
    if a > 46341 {
        assert(a * a > 46341 * 46341) by (nonlinear_arith) requires a > 46341;
    }
    if a < -46341 {
        assert(a * a > 46341 * 46341) by (nonlinear_arith) requires a < -46341;
    }
}

/// Whether the path doubles back sharply at `curr` (see `sharp_curve`).
fn is_sharp_curve(prev: GridPos, curr: GridPos, next: GridPos) -> (r: bool)
    requires
        curvature_defined(prev, curr, next),
    ensures
        r == sharp_curve(prev, curr, next),
{
    let dx1 = curr.x as i128 - prev.x as i128;
    let dy1 = curr.y as i128 - prev.y as i128;
    let dx2 = next.x as i128 - curr.x as i128;
    let dy2 = next.y as i128 - curr.y as i128;
    proof {
        assert(dx1 * dx1 >= 0 && dy1 * dy1 >= 0 && dx2 * dx2 >= 0 && dy2 * dy2 >= 0) by (nonlinear_arith);
        lemma_small_square(dx1 as int);
        lemma_small_square(dy1 as int);
        lemma_small_square(dx2 as int);
        lemma_small_square(dy2 as int);
        assert(-46341 * 46341 <= dx1 * dx2 <= 46341 * 46341) by (nonlinear_arith)
            requires -46341 <= dx1 <= 46341, -46341 <= dx2 <= 46341;
        assert(-46341 * 46341 <= dy1 * dy2 <= 46341 * 46341) by (nonlinear_arith)
            requires -46341 <= dy1 <= 46341, -46341 <= dy2 <= 46341;
    }
    let m1 = dx1 * dx1 + dy1 * dy1;
    let m2 = dx2 * dx2 + dy2 * dy2;
    let dot = dx1 * dx2 + dy1 * dy2;
    if m1 == 0 || m2 == 0 || dot >= 0 {
        return false;
    }
    proof {
        assert(0 <= m1 * m2 <= (i32::MAX as int) * (i32::MAX as int)) by (nonlinear_arith)
            requires 0 <= m1 <= i32::MAX, 0 <= m2 <= i32::MAX;
        assert(-4294976562 <= dot <= 4294976562);
        assert(0 <= dot * dot <= 18446823668129339844) by (nonlinear_arith)
            requires -4294976562 <= dot <= 4294976562;
    }
    25 * (dot * dot) > 4 * (m1 * m2)
}

/// The kind of choke point that the `i`-th cell of `p` is.
pub open spec fn chokepoint_type(g: &PathGrid, p: Seq<GridPos>, i: int) -> ChokePointType {
    let empty = count_empty_cells(g, spec_neighbors(p[i], g.width as nat, g.height as nat));
    if empty <= 2 {
        ChokePointType::ObstacleChokePoint
    } else if empty <= 3 {
        ChokePointType::NarrowPassage
    } else if p.len() >= 3 && 0 < i < p.len() - 1 && sharp_curve(p[i - 1], p[i], p[i + 1]) && empty <= 5 {
        ChokePointType::CurveChokePoint
    } else {
        ChokePointType::NoChokePoint
    }
}

/// Number of empty cells among the in-grid neighbours of `q`.
pub open spec fn open_sides(g: &PathGrid, q: GridPos) -> nat {
    count_empty_cells(g, spec_neighbors(q, g.width as nat, g.height as nat))
}

/// A listed choke point kind agrees with the open sides `e` of its cell: a
/// cell with at most two open sides is hemmed in by obstacles, one with
/// exactly three is a narrow passage, and any other listed cell has more.
pub open spec fn kind_fits_open_sides(e: nat, t: ChokePointType) -> bool {
    &&& t != ChokePointType::NoChokePoint
    &&& (e <= 2 <==> t == ChokePointType::ObstacleChokePoint)
    &&& (e == 3 <==> t == ChokePointType::NarrowPassage)
    &&& (t == ChokePointType::CurveChokePoint ==> 3 < e <= 5)
}

/// A path cell with at most two open sides is an obstacle choke point, one
/// with exactly three is a narrow passage, and a curve choke point has four or
/// five; a cell with more than three open sides is never an obstacle choke
/// point nor a narrow passage.
pub proof fn law_chokepoint_kinds(g: &PathGrid, p: Seq<GridPos>, i: int)
    requires
        0 <= i < p.len(),
    ensures
        open_sides(g, p[i]) <= 2 <==> chokepoint_type(g, p, i) == ChokePointType::ObstacleChokePoint,
        open_sides(g, p[i]) == 3 <==> chokepoint_type(g, p, i) == ChokePointType::NarrowPassage,
        open_sides(g, p[i]) <= 3 ==> chokepoint_type(g, p, i) != ChokePointType::NoChokePoint,
        chokepoint_type(g, p, i) == ChokePointType::CurveChokePoint ==> 3 < open_sides(g, p[i]) <= 5,
        chokepoint_type(g, p, i) != ChokePointType::PathJunction,
{
}

/// The choke points among the first `n` cells of `p`, in path order.
pub open spec fn chokepoints_upto(g: &PathGrid, p: Seq<GridPos>, n: int) -> Seq<(GridPos, ChokePointType)>
    decreases n,
{
    if n <= 0 {
        Seq::empty()
    } else {
        let before = chokepoints_upto(g, p, n - 1);
        let t = chokepoint_type(g, p, n - 1);
        if t != ChokePointType::NoChokePoint { before.push((p[n - 1], t)) } else { before }
    }
}

proof fn lemma_chokepoints_upto_kinds(g: &PathGrid, p: Seq<GridPos>, n: int)
    requires
        0 <= n <= p.len(),
    ensures
        forall|k: int| 0 <= k < chokepoints_upto(g, p, n).len() ==>
            kind_fits_open_sides(open_sides(g, (#[trigger] chokepoints_upto(g, p, n)[k]).0), chokepoints_upto(g, p, n)[k].1),
        forall|j: int| 0 <= j < n && open_sides(g, #[trigger] p[j]) <= 3 ==> chokepoints_upto(g, p, n).contains(
            (p[j], if open_sides(g, p[j]) <= 2 { ChokePointType::ObstacleChokePoint } else { ChokePointType::NarrowPassage }),
        ),
    decreases n,
{
    if n > 0 {
        lemma_chokepoints_upto_kinds(g, p, n - 1);
        let before = chokepoints_upto(g, p, n - 1);
        let t = chokepoint_type(g, p, n - 1);
        let after = chokepoints_upto(g, p, n);
        law_chokepoint_kinds(g, p, n - 1);
        if t != ChokePointType::NoChokePoint {
            assert(after == before.push((p[n - 1], t)));
            assert forall|k: int| 0 <= k < after.len() implies
                kind_fits_open_sides(open_sides(g, (#[trigger] after[k]).0), after[k].1) by {
                if k < before.len() {
                    assert(after[k] == before[k]);
                }
            }
            assert forall|j: int| 0 <= j < n && open_sides(g, #[trigger] p[j]) <= 3 implies after.contains(
                (p[j], if open_sides(g, p[j]) <= 2 { ChokePointType::ObstacleChokePoint } else { ChokePointType::NarrowPassage }),
            ) by {
                if j < n - 1 {
                    let want = (p[j], if open_sides(g, p[j]) <= 2 { ChokePointType::ObstacleChokePoint } else { ChokePointType::NarrowPassage });
                    let k = choose|k: int| 0 <= k < before.len() && before[k] == want;
                    assert(after[k] == before[k]);
                } else {
                    assert(after[before.len() as int] == (p[n - 1], t));
                }
            }
        } else {
            assert(after == before);
        }
    }
}

/// The conditions under which the choke point analysis of `p` is defined.
pub open spec fn chokepoint_analysis_defined(g: &PathGrid, p: Seq<GridPos>) -> bool {
    &&& forall|i: int| 0 <= i < p.len() ==> #[trigger] p[i].x < usize::MAX && p[i].y < usize::MAX
    &&& forall|i: int| 0 < i < p.len() - 1
        && count_empty_cells(g, spec_neighbors(#[trigger] p[i], g.width as nat, g.height as nat)) > 3
        ==> curvature_defined(p[i - 1], p[i], p[i + 1])
}

fn analyze_chokepoint_type(grid: &PathGrid, pos: GridPos, path: &[GridPos], path_index: usize) -> (r: ChokePointType)
    requires
        grid.wf(),
        path_index < path@.len(),
        pos == path@[path_index as int],
        chokepoint_analysis_defined(grid, path@),
    ensures
        r == chokepoint_type(grid, path@, path_index as int),
{
    assert(path@[path_index as int].x < usize::MAX);
    let empty_neighbors = grid.count_empty_neighbors(pos);
    if empty_neighbors <= 2 {
        return ChokePointType::ObstacleChokePoint;
    }
    if empty_neighbors <= 3 {
        return ChokePointType::NarrowPassage;
    }
    if path.len() >= 3 && path_index > 0 && path_index < path.len() - 1 {
        let prev = path[path_index - 1];
        let next = path[path_index + 1];
        if is_sharp_curve(prev, pos, next) && empty_neighbors <= 5 {
            return ChokePointType::CurveChokePoint;
        }
    }
    ChokePointType::NoChokePoint
}

/// The choke points along `path`, in path order, each with its kind; none for
/// paths shorter than three cells.
pub fn identify_path_chokepoints(grid: &PathGrid, path: &[GridPos]) -> (r: Vec<(GridPos, ChokePointType)>)
    requires
        grid.wf(),
        chokepoint_analysis_defined(grid, path@),
    ensures
        r@ == (if path@.len() < 3 { Seq::empty() } else { chokepoints_upto(grid, path@, path@.len() as int) }),
        forall|k: int| 0 <= k < r@.len() ==> kind_fits_open_sides(open_sides(grid, (#[trigger] r@[k]).0), r@[k].1),
        path@.len() >= 3 ==> forall|j: int| 0 <= j < path@.len() && open_sides(grid, #[trigger] path@[j]) <= 3
            ==> r@.contains(
            (path@[j], if open_sides(grid, path@[j]) <= 2 {
                ChokePointType::ObstacleChokePoint
            } else {
                ChokePointType::NarrowPassage
            }),
        ),
{
    let mut chokepoints: Vec<(GridPos, ChokePointType)> = Vec::new();
    if path.len() < 3 {
        return chokepoints;
    }
    let mut i: usize = 0;
    while i < path.len()
        invariant
            grid.wf(),
            chokepoint_analysis_defined(grid, path@),
            i <= path@.len(),
            chokepoints@ == chokepoints_upto(grid, path@, i as int),
        decreases path@.len() - i,
    {
        let pos = path[i];
        let kind = analyze_chokepoint_type(grid, pos, path, i);
        if kind != ChokePointType::NoChokePoint {
            chokepoints.push((pos, kind));
        }
        i += 1;
    }
    proof {
        lemma_chokepoints_upto_kinds(grid, path@, path@.len() as int);
    }
    chokepoints
}

} // verus!
